//! Ranges of keys.

use vstd::prelude::*;

use crate::bytes::{
    be_bytes, byte_order_less, bytes_less, lemma_byte_order_total, lemma_byte_order_transitive,
    lemma_le_bytes_len,
};
use crate::index::batch::{invalid_index_batch, InternalIndexError, InternalIndexResult};
use crate::error::StorageErrorKind;

verus! {

/// The keys from one on and before another.
#[derive(Debug)]
pub struct InternalKeyRange {
    pub start_inclusive: Option<Vec<u8>>,
    pub end_exclusive: Option<Vec<u8>>,
}

/// A range as a mathematical value.
pub struct RangeView {
    pub start_inclusive: Option<Seq<u8>>,
    pub end_exclusive: Option<Seq<u8>>,
}

impl View for InternalKeyRange {
    type V = RangeView;

    open spec fn view(&self) -> RangeView {
        RangeView {
            start_inclusive: match self.start_inclusive {
                Some(start) => Some(start@),
                None => None,
            },
            end_exclusive: match self.end_exclusive {
                Some(end) => Some(end@),
                None => None,
            },
        }
    }
}

impl RangeView {
    /// A key lies in the range.
    pub open spec fn contains(self, key: Seq<u8>) -> bool {
        &&& self.start_inclusive matches Some(start) ==> !byte_order_less(key, start)
        &&& self.end_exclusive matches Some(end) ==> byte_order_less(key, end)
    }
}

impl InternalKeyRange {
    /// Every key.
    pub fn all() -> (range: Self)
        ensures
            range@ == (RangeView { start_inclusive: None, end_exclusive: None }),
    {
        InternalKeyRange { start_inclusive: None, end_exclusive: None }
    }

    pub fn new(start_inclusive: Option<Vec<u8>>, end_exclusive: Option<Vec<u8>>) -> (result:
        InternalIndexResult<Self>)
        ensures
            ({
                let backwards = start_inclusive matches Some(start) && end_exclusive matches Some(
                    end,
                ) && byte_order_less(end@, start@);
                match result {
                    Ok(range) => !backwards && range.start_inclusive == start_inclusive
                        && range.end_exclusive == end_exclusive,
                    Err(error) => backwards && error == invalid_index_batch(),
                }
            }),
    {
        match (&start_inclusive, &end_exclusive) {
            (Some(start), Some(end)) => {
                if bytes_less(end.as_slice(), start.as_slice()) {
                    return Err(InternalIndexError::new(StorageErrorKind::InvalidArgument, None));
                }
            },
            _ => {},
        }
        Ok(InternalKeyRange { start_inclusive, end_exclusive })
    }
}

impl Default for InternalKeyRange {
    fn default() -> (range: Self)
        ensures
            range@ == (RangeView { start_inclusive: None, end_exclusive: None }),
    {
        Self::all()
    }
}

/// One end of a range of user keys.
#[derive(Debug)]
pub enum UserKeyBound {
    Unbounded,
    Inclusive(Vec<u8>),
    Exclusive(Vec<u8>),
}

/// A range of user keys.
#[derive(Debug)]
pub struct UserKeyRange {
    pub lower: UserKeyBound,
    pub upper: UserKeyBound,
}

impl UserKeyRange {
    /// A key lies in the range.
    pub open spec fn contains(&self, key: Seq<u8>) -> bool {
        &&& match self.lower {
            UserKeyBound::Unbounded => true,
            UserKeyBound::Inclusive(bound) => !byte_order_less(key, bound@),
            UserKeyBound::Exclusive(bound) => byte_order_less(bound@, key),
        }
        &&& match self.upper {
            UserKeyBound::Unbounded => true,
            UserKeyBound::Inclusive(bound) => !byte_order_less(bound@, key),
            UserKeyBound::Exclusive(bound) => byte_order_less(key, bound@),
        }
    }

    pub fn all() -> (range: Self)
        ensures
            forall|key: Seq<u8>| #[trigger] range.contains(key),
    {
        UserKeyRange { lower: UserKeyBound::Unbounded, upper: UserKeyBound::Unbounded }
    }

    /// The keys from one on.
    pub fn from_inclusive(start: Vec<u8>) -> (range: Self)
        ensures
            forall|key: Seq<u8>| #[trigger] range.contains(key) == !byte_order_less(key, start@),
    {
        UserKeyRange { lower: UserKeyBound::Inclusive(start), upper: UserKeyBound::Unbounded }
    }

    /// The keys behind one.
    pub fn after(key: Vec<u8>) -> (range: Self)
        ensures
            forall|other: Seq<u8>| #[trigger] range.contains(other) == byte_order_less(key@, other),
    {
        UserKeyRange { lower: UserKeyBound::Exclusive(key), upper: UserKeyBound::Unbounded }
    }

    /// The keys before one.
    pub fn before(key: Vec<u8>) -> (range: Self)
        ensures
            forall|other: Seq<u8>| #[trigger] range.contains(other) == byte_order_less(other, key@),
    {
        UserKeyRange { lower: UserKeyBound::Unbounded, upper: UserKeyBound::Exclusive(key) }
    }

    /// The keys from one on and before another.
    pub fn forward(start: Option<Vec<u8>>, end: Option<Vec<u8>>) -> (range: Self)
        ensures
            forall|key: Seq<u8>| #[trigger]
                range.contains(key) == ((start matches Some(bound) ==> !byte_order_less(
                    key,
                    bound@,
                )) && (end matches Some(bound) ==> byte_order_less(key, bound@))),
    {
        let lower = match start {
            Some(bound) => UserKeyBound::Inclusive(bound),
            None => UserKeyBound::Unbounded,
        };
        let upper = match end {
            Some(bound) => UserKeyBound::Exclusive(bound),
            None => UserKeyBound::Unbounded,
        };
        UserKeyRange { lower, upper }
    }
}

/// A common start does not matter for the order.
pub proof fn lemma_order_behind_prefix(prefix: Seq<u8>, a: Seq<u8>, b: Seq<u8>)
    ensures
        byte_order_less(prefix + a, prefix + b) == byte_order_less(a, b),
    decreases prefix.len(),
{
    if prefix.len() == 0 {
        assert(prefix + a =~= a);
        assert(prefix + b =~= b);
    } else {
        lemma_order_behind_prefix(prefix.skip(1), a, b);
        assert((prefix + a).skip(1) =~= prefix.skip(1) + a);
        assert((prefix + b).skip(1) =~= prefix.skip(1) + b);
        if b.len() == 0 && a.len() == 0 {
            assert(a =~= b);
        }
    }
}

/// Strings of one length that differ stay in their order, whatever is behind them.
pub proof fn lemma_order_before_tail(a: Seq<u8>, b: Seq<u8>, s: Seq<u8>, t: Seq<u8>)
    requires
        a.len() == b.len(),
        byte_order_less(a, b),
    ensures
        byte_order_less(a + s, b + t),
    decreases a.len(),
{
    if a.len() > 0 {
        assert((a + s).skip(1) =~= a.skip(1) + s);
        assert((b + t).skip(1) =~= b.skip(1) + t);
        if a[0] == b[0] {
            lemma_order_before_tail(a.skip(1), b.skip(1), s, t);
        }
    }
}

/// Big-endian numbers are in the order of the numbers.
pub proof fn lemma_big_endian_order(a: nat, b: nat, width: nat)
    requires
        a < b,
        b < crate::bytes::byte_limit(width),
    ensures
        byte_order_less(be_bytes(a, width), be_bytes(b, width)),
    decreases width,
{
    if width > 0 {
        let w = (width - 1) as nat;
        lemma_le_bytes_len(a / 256, w);
        lemma_le_bytes_len(b / 256, w);
        assert(be_bytes(a, width) =~= be_bytes(a / 256, w) + seq![(a % 256) as u8]);
        assert(be_bytes(b, width) =~= be_bytes(b / 256, w) + seq![(b % 256) as u8]);
        if a / 256 < b / 256 {
            lemma_big_endian_order(a / 256, b / 256, w);
            lemma_order_before_tail(
                be_bytes(a / 256, w),
                be_bytes(b / 256, w),
                seq![(a % 256) as u8],
                seq![(b % 256) as u8],
            );
        } else {
            lemma_order_behind_prefix(
                be_bytes(a / 256, w),
                seq![(a % 256) as u8],
                seq![(b % 256) as u8],
            );
        }
    }
}

/// A range begins with its start, if it has one, and ends before its end. It holds every key in
/// between, and with two keys all that lie between them.
pub proof fn law_range_holds_what_lies_between(
    range: RangeView,
    first: Seq<u8>,
    key: Seq<u8>,
    last: Seq<u8>,
)
    ensures
        range.start_inclusive is None && range.end_exclusive is None ==> range.contains(key),
        range.contains(first) && range.contains(last) && !byte_order_less(key, first)
            && !byte_order_less(last, key) ==> range.contains(key),
        range.start_inclusive == Some(first) ==> (range.contains(key) ==> key == first
            || byte_order_less(first, key)),
        range.start_inclusive == Some(first) && range.end_exclusive is None ==> (range.contains(key)
            <==> key == first || byte_order_less(first, key)),
        range.end_exclusive == Some(last) ==> (range.contains(key) ==> byte_order_less(key, last)),
        range.end_exclusive == Some(last) && range.start_inclusive is None ==> (range.contains(key)
            <==> byte_order_less(key, last)),
        range.start_inclusive == Some(first) && range.end_exclusive == Some(last) ==> (
        range.contains(key) <==> (key == first || byte_order_less(first, key)) && byte_order_less(
            key,
            last,
        )),
        range.start_inclusive == Some(first) && range.end_exclusive == Some(last) ==> (
        range.contains(first) <==> byte_order_less(first, last)),
{
    lemma_byte_order_total(key, first);
    lemma_byte_order_total(key, last);
    lemma_byte_order_total(first, first);
    if range.contains(first) && range.contains(last) && !byte_order_less(key, first)
        && !byte_order_less(last, key) {
        if range.start_inclusive is Some {
            let start = range.start_inclusive->0;
            lemma_byte_order_total(first, start);
            if byte_order_less(key, start) {
                lemma_byte_order_total(key, start);
                if key != first && start != first {
                    lemma_byte_order_transitive(first, key, start);
                }
            }
        }
        if range.end_exclusive is Some {
            let end = range.end_exclusive->0;
            if key != last {
                lemma_byte_order_transitive(key, last, end);
            }
        }
    }
}

/// A range of user keys holds a key exactly where the key is on the right side of both bounds. A
/// bound itself is held where it is inclusive, as far as the other bound lets it be.
pub proof fn law_user_range_is_between_its_bounds(range: UserKeyRange, key: Seq<u8>)
    ensures
        range.lower is Unbounded && range.upper is Unbounded ==> range.contains(key),
        range.contains(key) ==> match range.lower {
            UserKeyBound::Unbounded => true,
            UserKeyBound::Inclusive(bound) => key == bound@ || byte_order_less(bound@, key),
            UserKeyBound::Exclusive(bound) => key != bound@ && byte_order_less(bound@, key),
        },
        range.contains(key) ==> match range.upper {
            UserKeyBound::Unbounded => true,
            UserKeyBound::Inclusive(bound) => key == bound@ || byte_order_less(key, bound@),
            UserKeyBound::Exclusive(bound) => key != bound@ && byte_order_less(key, bound@),
        },
        !range.contains(key) ==> match range.lower {
            UserKeyBound::Unbounded => false,
            UserKeyBound::Inclusive(bound) => byte_order_less(key, bound@),
            UserKeyBound::Exclusive(bound) => key == bound@ || byte_order_less(key, bound@),
        } || match range.upper {
            UserKeyBound::Unbounded => false,
            UserKeyBound::Inclusive(bound) => byte_order_less(bound@, key),
            UserKeyBound::Exclusive(bound) => key == bound@ || byte_order_less(bound@, key),
        },
{
    match range.lower {
        UserKeyBound::Unbounded => {},
        UserKeyBound::Inclusive(bound) | UserKeyBound::Exclusive(bound) => {
            lemma_byte_order_total(key, bound@);
        },
    }
    match range.upper {
        UserKeyBound::Unbounded => {},
        UserKeyBound::Inclusive(bound) | UserKeyBound::Exclusive(bound) => {
            lemma_byte_order_total(key, bound@);
        },
    }
}

} // verus!

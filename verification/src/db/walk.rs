//! Walking through a view: what a cursor shows of the entries that are there.
//!
//! The caller of a cursor keeps an iterator. Of the entries of the view, it has not given out yet
//! those from one place on and before another.

use vstd::prelude::*;

use crate::bytes::{byte_order_less, lemma_byte_order_total, lemma_byte_order_transitive};
use crate::cursor::{
    CursorDirection, CursorState, CursorStep, CursorView, KeyRange, RangeCursorView,
};
use crate::db::range::{empty_query, in_range};
use crate::index::range::UserKeyRange;
use crate::runtime::state::StateSnapshot;

verus! {

/// Entries in the order of their keys, each key once.
pub open spec fn in_key_order(entries: Seq<(Seq<u8>, Seq<u8>)>) -> bool {
    forall|i: int, j: int|
        0 <= i < j < entries.len() ==> #[trigger] byte_order_less(entries[i].0, entries[j].0)
}

/// The entries of a view in a range are those from one place on and before another.
pub open spec fn spans(
    entries: Seq<(Seq<u8>, Seq<u8>)>,
    range: UserKeyRange,
    lo: int,
    hi: int,
) -> bool {
    &&& 0 <= lo <= hi <= entries.len()
    &&& forall|k: int|
        0 <= k < entries.len() ==> range.contains((#[trigger] entries[k]).0) == (lo <= k < hi)
}

/// A cursor, and the entries that its iterator has not given out yet.
pub struct WalkView {
    pub cursor: CursorView,
    pub lo: int,
    pub hi: int,
}

/// The iterator gave its next entry, from its front or from its back, or had none left, and the
/// cursor took that.
pub open spec fn took(
    entries: Seq<(Seq<u8>, Seq<u8>)>,
    walk: WalkView,
    direction: CursorDirection,
    to: WalkView,
) -> bool {
    if walk.lo < walk.hi {
        match direction {
            CursorDirection::Forward => to == (WalkView {
                cursor: walk.cursor.given(Ok(Some(entries[walk.lo]))),
                lo: walk.lo + 1,
                hi: walk.hi,
            }),
            CursorDirection::Reverse => to == (WalkView {
                cursor: walk.cursor.given(Ok(Some(entries[walk.hi - 1]))),
                lo: walk.lo,
                hi: walk.hi - 1,
            }),
        }
    } else {
        to == (WalkView { cursor: walk.cursor.given(Ok(None)), ..walk })
    }
}

/// What a cursor asked for was done, until the move had ended. Nothing failed.
pub open spec fn carried_out(
    entries: Seq<(Seq<u8>, Seq<u8>)>,
    walk: WalkView,
    step: CursorStep,
    to: WalkView,
) -> bool {
    match step {
        CursorStep::Settled => to.cursor == walk.cursor,
        CursorStep::ReadEntry(direction) => took(entries, walk, direction, to),
        CursorStep::CreateIterator { range, direction } => exists|
            lo: int,
            hi: int,
            open: CursorView,
            next: CursorStep,
        |
            {
                &&& #[trigger] spans(entries, range, lo, hi)
                &&& #[trigger] walk.cursor.opened(open, next, Ok(()), direction)
                &&& match next {
                    CursorStep::Settled => to.cursor == open,
                    CursorStep::ReadEntry(along) => took(
                        entries,
                        WalkView { cursor: open, lo, hi },
                        along,
                        to,
                    ),
                    CursorStep::CreateIterator { .. } => false,
                }
            },
    }
}

/// A cursor stands at an entry of a view, and its iterator is there too.
pub open spec fn stands(entries: Seq<(Seq<u8>, Seq<u8>)>, walk: WalkView, i: int) -> bool {
    &&& 0 <= i < entries.len()
    &&& walk.cursor.valid() && walk.cursor.has_view && walk.cursor.error is None
    &&& walk.cursor.key() == entries[i].0 && walk.cursor.value() == entries[i].1
    &&& match walk.cursor.direction {
        Some(CursorDirection::Forward) => walk.lo == i + 1 && walk.hi == entries.len(),
        Some(CursorDirection::Reverse) => walk.lo == 0 && walk.hi == i,
        None => false,
    }
}

/// A cursor stands nowhere, and nothing is wrong.
pub open spec fn ended(walk: WalkView) -> bool {
    &&& walk.cursor.state == CursorState::Exhausted && !walk.cursor.valid()
    &&& walk.cursor.error is None && walk.cursor.has_view
}

/// A cursor stands at the place of a view, or nowhere where the view has no such place.
pub open spec fn stands_if_there(
    entries: Seq<(Seq<u8>, Seq<u8>)>,
    walk: WalkView,
    i: int,
) -> bool {
    if 0 <= i < entries.len() {
        stands(entries, walk, i)
    } else {
        ended(walk)
    }
}

/// A move in a direction was begun and carried out.
pub open spec fn moved(
    entries: Seq<(Seq<u8>, Seq<u8>)>,
    walk: WalkView,
    to: WalkView,
    direction: CursorDirection,
) -> bool {
    exists|mid: CursorView, step: CursorStep, started: StateSnapshot|
        {
            &&& #[trigger] walk.cursor.advanced(mid, step, Ok(started), direction)
            &&& carried_out(entries, WalkView { cursor: mid, ..walk }, step, to)
        }
}

/// Where the keys behind an entry lie, in a direction.
proof fn lemma_behind(entries: Seq<(Seq<u8>, Seq<u8>)>, i: int)
    requires
        in_key_order(entries),
        0 <= i < entries.len(),
    ensures
        forall|k: int|
            0 <= k < entries.len() ==> {
                &&& byte_order_less(entries[i].0, (#[trigger] entries[k]).0) == (k > i)
                &&& byte_order_less(entries[k].0, entries[i].0) == (k < i)
            },
{
    assert forall|k: int| 0 <= k < entries.len() implies {
        &&& byte_order_less(entries[i].0, (#[trigger] entries[k]).0) == (k > i)
        &&& byte_order_less(entries[k].0, entries[i].0) == (k < i)
    } by {
        lemma_byte_order_total(entries[i].0, entries[k].0);
        if k > i {
            assert(byte_order_less(entries[i].0, entries[k].0));
        } else if k < i {
            assert(byte_order_less(entries[k].0, entries[i].0));
        }
    }
}

/// The entries between two places are told by where they begin and end.
proof fn lemma_same_span(
    entries: Seq<(Seq<u8>, Seq<u8>)>,
    range: UserKeyRange,
    lo: int,
    hi: int,
    first: int,
    last: int,
)
    requires
        spans(entries, range, lo, hi),
        0 <= first <= last <= entries.len(),
        forall|k: int|
            0 <= k < entries.len() ==> range.contains((#[trigger] entries[k]).0) == (first <= k
                < last),
    ensures
        first < last ==> lo == first && hi == last,
        first == last ==> lo == hi,
{
    if first < last {
        assert(range.contains(entries[first].0));
        assert(range.contains(entries[last - 1].0));
        if lo < first {
            assert(range.contains(entries[lo].0));
        }
        if hi > last {
            assert(range.contains(entries[hi - 1].0));
        }
    } else if lo < hi {
        assert(range.contains(entries[lo].0));
    }
}

/// A move goes to the neighbour: from every entry, and from whichever side the cursor came to it,
/// `next` takes it to the entry behind and `prev` to the one before; and only where there is none
/// does it stand nowhere.
pub proof fn law_move_goes_to_neighbour(
    entries: Seq<(Seq<u8>, Seq<u8>)>,
    walk: WalkView,
    i: int,
    mid: CursorView,
    step: CursorStep,
    started: StateSnapshot,
    direction: CursorDirection,
    to: WalkView,
)
    requires
        in_key_order(entries),
        stands(entries, walk, i),
        walk.cursor.advanced(mid, step, Ok(started), direction),
        carried_out(entries, WalkView { cursor: mid, ..walk }, step, to),
    ensures
        direction == CursorDirection::Forward ==> stands_if_there(entries, to, i + 1),
        direction == CursorDirection::Reverse ==> stands_if_there(entries, to, i - 1),
{
    lemma_behind(entries, i);
    match step {
        CursorStep::CreateIterator { range, direction: along } => {
            let (lo, hi, open, next) = choose|
                lo: int,
                hi: int,
                open: CursorView,
                next: CursorStep,
            |
                {
                    &&& #[trigger] spans(entries, range, lo, hi)
                    &&& #[trigger] mid.opened(open, next, Ok(()), along)
                    &&& match next {
                        CursorStep::Settled => to.cursor == open,
                        CursorStep::ReadEntry(way) => took(
                            entries,
                            WalkView { cursor: open, lo, hi },
                            way,
                            to,
                        ),
                        CursorStep::CreateIterator { .. } => false,
                    }
                };
            assert forall|k: int| 0 <= k < entries.len() implies range.contains(
                (#[trigger] entries[k]).0,
            ) == (if direction == CursorDirection::Forward {
                k > i
            } else {
                k < i
            }) by {
                assert(range.contains(entries[k].0) == crate::cursor::lies_behind(
                    walk.cursor.key(),
                    entries[k].0,
                    direction,
                ));
            }
            if direction == CursorDirection::Forward {
                lemma_same_span(entries, range, lo, hi, i + 1, entries.len() as int);
            } else {
                lemma_same_span(entries, range, lo, hi, 0, i);
            }
        },
        _ => {},
    }
}

/// From wherever it is, a cursor that has not failed goes to the first entry or to the last one;
/// and stands nowhere only where there is no entry at all.
pub proof fn law_seek_to_end_goes_there(
    entries: Seq<(Seq<u8>, Seq<u8>)>,
    walk: WalkView,
    mid: CursorView,
    step: CursorStep,
    started: StateSnapshot,
    direction: CursorDirection,
    to: WalkView,
)
    requires
        in_key_order(entries),
        walk.cursor.well_formed(),
        walk.cursor.has_view,
        walk.cursor.state != CursorState::Failed,
        walk.cursor.fresh() ==> walk.lo == 0 && walk.hi == entries.len(),
        walk.cursor.sought_end(mid, step, Ok(started), direction),
        carried_out(entries, WalkView { cursor: mid, ..walk }, step, to),
    ensures
        direction == CursorDirection::Forward ==> stands_if_there(entries, to, 0),
        direction == CursorDirection::Reverse ==> stands_if_there(entries, to, entries.len() - 1),
{
    match step {
        CursorStep::CreateIterator { range, direction: along } => {
            let (lo, hi, open, next) = choose|
                lo: int,
                hi: int,
                open: CursorView,
                next: CursorStep,
            |
                {
                    &&& #[trigger] spans(entries, range, lo, hi)
                    &&& #[trigger] mid.opened(open, next, Ok(()), along)
                    &&& match next {
                        CursorStep::Settled => to.cursor == open,
                        CursorStep::ReadEntry(way) => took(
                            entries,
                            WalkView { cursor: open, lo, hi },
                            way,
                            to,
                        ),
                        CursorStep::CreateIterator { .. } => false,
                    }
                };
            lemma_same_span(entries, range, lo, hi, 0, entries.len() as int);
        },
        _ => {},
    }
}

/// A cursor that has not failed goes to the first entry whose key is the target or behind it, for
/// every target of up to sixty thousand bytes, the empty one among them.
pub proof fn law_seek_goes_to_first_not_before(
    entries: Seq<(Seq<u8>, Seq<u8>)>,
    walk: WalkView,
    mid: CursorView,
    step: CursorStep,
    started: StateSnapshot,
    target: Seq<u8>,
    i: int,
    to: WalkView,
)
    requires
        in_key_order(entries),
        walk.cursor.well_formed(),
        walk.cursor.has_view,
        walk.cursor.state != CursorState::Failed,
        target.len() <= 60_000,
        0 <= i <= entries.len(),
        forall|k: int| 0 <= k < i ==> byte_order_less((#[trigger] entries[k]).0, target),
        i < entries.len() ==> entries[i].0 == target || byte_order_less(target, entries[i].0),
        walk.cursor.sought(mid, step, Ok(started), target, false),
        carried_out(entries, WalkView { cursor: mid, ..walk }, step, to),
    ensures
        stands_if_there(entries, to, i),
{
    match step {
        CursorStep::CreateIterator { range, direction: along } => {
            let (lo, hi, open, next) = choose|
                lo: int,
                hi: int,
                open: CursorView,
                next: CursorStep,
            |
                {
                    &&& #[trigger] spans(entries, range, lo, hi)
                    &&& #[trigger] mid.opened(open, next, Ok(()), along)
                    &&& match next {
                        CursorStep::Settled => to.cursor == open,
                        CursorStep::ReadEntry(way) => took(
                            entries,
                            WalkView { cursor: open, lo, hi },
                            way,
                            to,
                        ),
                        CursorStep::CreateIterator { .. } => false,
                    }
                };
            assert forall|k: int| 0 <= k < entries.len() implies range.contains(
                (#[trigger] entries[k]).0,
            ) == (i <= k < entries.len()) by {
                lemma_byte_order_total(entries[k].0, target);
                if k > i {
                    assert(byte_order_less(entries[i].0, entries[k].0));
                    if byte_order_less(target, entries[i].0) {
                        lemma_byte_order_transitive(target, entries[i].0, entries[k].0);
                    }
                }
            }
            lemma_same_span(entries, range, lo, hi, i, entries.len() as int);
        },
        _ => {},
    }
}

/// A walk from the first entry on shows every entry in its order, and then ends; a walk from the
/// last entry back shows every entry in the reverse order, and then ends.
pub proof fn law_walk_shows_every_entry(
    entries: Seq<(Seq<u8>, Seq<u8>)>,
    walks: Seq<WalkView>,
    direction: CursorDirection,
    k: int,
)
    requires
        in_key_order(entries),
        0 <= k < walks.len(),
        stands_if_there(
            entries,
            walks[0],
            if direction == CursorDirection::Forward {
                0
            } else {
                entries.len() - 1
            },
        ),
        forall|j: int|
            0 <= j < walks.len() - 1 ==> #[trigger] moved(
                entries,
                walks[j],
                walks[j + 1],
                direction,
            ),
    ensures
        stands_if_there(
            entries,
            walks[k],
            if direction == CursorDirection::Forward {
                k
            } else {
                entries.len() - 1 - k
            },
        ),
    decreases k,
{
    if k > 0 {
        law_walk_shows_every_entry(entries, walks, direction, k - 1);
        let walk = walks[k - 1];
        let to = walks[k - 1 + 1];
        assert(moved(entries, walk, to, direction));
        let (mid, step, started) = choose|
            mid: CursorView,
            step: CursorStep,
            started: StateSnapshot,
        |
            {
                &&& #[trigger] walk.cursor.advanced(mid, step, Ok(started), direction)
                &&& carried_out(entries, WalkView { cursor: mid, ..walk }, step, to)
            };
        let i = if direction == CursorDirection::Forward {
            k - 1
        } else {
            entries.len() - 1 - (k - 1)
        };
        if 0 <= i < entries.len() {
            law_move_goes_to_neighbour(entries, walk, i, mid, step, started, direction, to);
        }
    }
}

/// A query that is begun looks at the keys from its start on and before its end, where it has
/// them, and at no others; and it is taken for empty only where it may give nothing or no key
/// whatever lies between its bounds.
pub proof fn law_query_is_for_its_keys(range: KeyRange<'_>, limit: usize, key: Seq<u8>)
    ensures
        in_range(range, key) == {
            &&& range.start is None || range.start->0@ == key || byte_order_less(
                range.start->0@,
                key,
            )
            &&& range.end is None || byte_order_less(key, range.end->0@)
        },
        range.start is Some && !empty_query(range, limit) ==> in_range(range, range.start->0@),
        empty_query(range, limit) && limit > 0 ==> !in_range(range, key),
        !empty_query(range, limit) ==> limit > 0 && exists|other: Seq<u8>| in_range(range, other),
        range.start is None && range.end is None ==> in_range(range, key),
{
    if range.start is Some {
        lemma_byte_order_total(key, range.start->0@);
        lemma_byte_order_total(range.start->0@, range.start->0@);
        if !empty_query(range, limit) {
            assert(in_range(range, range.start->0@));
        }
    } else {
        assert(in_range(range, Seq::empty()) == (range.end is None || range.end->0@.len() > 0));
    }
    if empty_query(range, limit) && limit > 0 {
        crate::db::range::law_empty_query_has_no_key(range, limit, key);
    }
}

/// A query on its way, and the entries that its iterator has not given out yet.
pub struct QueryView {
    pub cursor: RangeCursorView,
    pub lo: int,
    pub hi: int,
}

/// A query over the entries from `first` on and before `last` stands at one of them, with no
/// more than so many to give, this one among them.
pub open spec fn query_stands(
    entries: Seq<(Seq<u8>, Seq<u8>)>,
    query: QueryView,
    i: int,
    last: int,
    remaining: nat,
) -> bool {
    &&& 0 <= i < last <= entries.len()
    &&& query.cursor.valid() && query.cursor.inner.error is None
    &&& query.cursor.remaining == remaining
    &&& query.cursor.inner.key() == entries[i].0 && query.cursor.inner.value() == entries[i].1
    &&& query.cursor.inner.direction == Some(CursorDirection::Forward)
    &&& query.lo == i + 1 && query.hi == last
}

/// A query has nothing more to give, and nothing is wrong.
pub open spec fn query_ended(query: QueryView) -> bool {
    !query.cursor.valid() && query.cursor.inner.error is None && query.cursor.inner.state
        == CursorState::Exhausted
}

/// A query stands at an entry, or has ended where the entry is not one of its own or it may give
/// no more.
pub open spec fn query_stands_if_allowed(
    entries: Seq<(Seq<u8>, Seq<u8>)>,
    query: QueryView,
    i: int,
    last: int,
    remaining: int,
) -> bool {
    if i < last && remaining > 0 {
        query_stands(entries, query, i, last, remaining as nat)
    } else {
        query_ended(query)
    }
}

/// The entries of a query lie before its end.
pub open spec fn before_end(
    entries: Seq<(Seq<u8>, Seq<u8>)>,
    end: Option<Seq<u8>>,
    last: int,
) -> bool {
    end matches Some(end) ==> forall|k: int|
        0 <= k < last ==> byte_order_less((#[trigger] entries[k]).0, end)
}

/// A query that is made stands at the first of its entries. Its iterator is over them, and the
/// cursor that it is made of was sent to the first key.
pub proof fn law_query_begins_at_its_first_entry(
    entries: Seq<(Seq<u8>, Seq<u8>)>,
    walk: WalkView,
    first: int,
    last: int,
    mid: CursorView,
    step: CursorStep,
    started: StateSnapshot,
    to: WalkView,
    end: Option<Seq<u8>>,
    limit: nat,
)
    requires
        0 <= first <= last <= entries.len(),
        before_end(entries, end, last),
        walk.cursor.well_formed(),
        walk.cursor.fresh(),
        walk.lo == first && walk.hi == last,
        walk.cursor.sought_end(mid, step, Ok(started), CursorDirection::Forward),
        carried_out(entries, WalkView { cursor: mid, ..walk }, step, to),
    ensures
        query_stands_if_allowed(
            entries,
            QueryView {
                cursor: (RangeCursorView { inner: to.cursor, end, remaining: limit }).bounded(),
                lo: to.lo,
                hi: to.hi,
            },
            first,
            last,
            limit as int,
        ),
{
}

/// A query goes from each of its entries to the next, and ends behind the last of them or once it
/// has given as many as it may.
pub proof fn law_query_goes_to_next_entry(
    entries: Seq<(Seq<u8>, Seq<u8>)>,
    query: QueryView,
    i: int,
    last: int,
    remaining: nat,
    mid: RangeCursorView,
    step: CursorStep,
    started: StateSnapshot,
)
    requires
        query_stands(entries, query, i, last, remaining),
        before_end(entries, query.cursor.end, last),
        query.cursor.advanced(mid, step, Ok(started)),
    ensures
        remaining == 1 ==> step is Settled && query_ended(QueryView { cursor: mid, ..query }),
        remaining > 1 ==> step == CursorStep::ReadEntry(CursorDirection::Forward),
        remaining > 1 && i + 1 < last ==> query_stands(
            entries,
            QueryView {
                cursor: mid.given(Ok(Some(entries[query.lo]))),
                lo: query.lo + 1,
                hi: query.hi,
            },
            i + 1,
            last,
            (remaining - 1) as nat,
        ) && mid.given(Ok(Some(entries[query.lo]))).end == query.cursor.end,
        remaining > 1 && i + 1 == last ==> query.lo == query.hi && query_ended(
            QueryView { cursor: mid.given(Ok(None)), ..query },
        ),
{
}

} // verus!

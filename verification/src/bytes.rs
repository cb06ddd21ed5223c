//! Byte strings: fixed-width integers in both byte orders, copies and comparisons.

use vstd::prelude::*;

verus! {

/// The number that a byte string spells, least significant byte first.
pub open spec fn le_value(s: Seq<u8>) -> nat
    decreases s.len(),
{
    if s.len() == 0 {
        0
    } else {
        s[0] as nat + 256 * le_value(s.skip(1))
    }
}

/// The lowest `width` bytes of a number, least significant byte first.
pub open spec fn le_bytes(v: nat, width: nat) -> Seq<u8>
    decreases width,
{
    if width == 0 {
        Seq::empty()
    } else {
        seq![(v % 256) as u8] + le_bytes(v / 256, (width - 1) as nat)
    }
}

/// The number that a byte string spells, most significant byte first.
pub open spec fn be_value(s: Seq<u8>) -> nat {
    le_value(s.reverse())
}

/// The lowest `width` bytes of a number, most significant byte first.
pub open spec fn be_bytes(v: nat, width: nat) -> Seq<u8> {
    le_bytes(v, width).reverse()
}

/// One more than the largest number that fits `width` bytes.
pub open spec fn byte_limit(width: nat) -> nat
    decreases width,
{
    if width == 0 {
        1
    } else {
        256 * byte_limit((width - 1) as nat)
    }
}

/// The little-endian 16-bit number at an offset.
pub open spec fn u16_at(b: Seq<u8>, at: int) -> u16 {
    le_value(b.subrange(at, at + 2)) as u16
}

/// The little-endian 32-bit number at an offset.
pub open spec fn u32_at(b: Seq<u8>, at: int) -> u32 {
    le_value(b.subrange(at, at + 4)) as u32
}

/// The little-endian 64-bit number at an offset.
pub open spec fn u64_at(b: Seq<u8>, at: int) -> u64 {
    le_value(b.subrange(at, at + 8)) as u64
}

/// `n` zero bytes.
pub open spec fn zeros(n: nat) -> Seq<u8> {
    Seq::new(n, |i: int| 0u8)
}

pub proof fn lemma_byte_limits()
    ensures
        byte_limit(0) == 1,
        byte_limit(1) == 0x100,
        byte_limit(2) == 0x1_0000,
        byte_limit(4) == 0x1_0000_0000,
        byte_limit(8) == 0x1_0000_0000_0000_0000,
{
    reveal_with_fuel(byte_limit, 9);
}

pub proof fn lemma_le_bytes_len(v: nat, width: nat)
    ensures
        le_bytes(v, width).len() == width,
    decreases width,
{
    if width > 0 {
        lemma_le_bytes_len(v / 256, (width - 1) as nat);
    }
}

pub proof fn lemma_le_value_bound(s: Seq<u8>)
    ensures
        le_value(s) < byte_limit(s.len()),
    decreases s.len(),
{
    if s.len() > 0 {
        lemma_le_value_bound(s.skip(1));
    }
}

/// Reading a number back from its bytes gives the number.
pub proof fn lemma_le_value_of_bytes(v: nat, width: nat)
    requires
        v < byte_limit(width),
    ensures
        le_value(le_bytes(v, width)) == v,
    decreases width,
{
    if width > 0 {
        let rest = le_bytes(v / 256, (width - 1) as nat);
        lemma_le_value_of_bytes(v / 256, (width - 1) as nat);
        lemma_le_bytes_len(v / 256, (width - 1) as nat);
        assert(le_bytes(v, width).skip(1) =~= rest);
        assert(le_bytes(v, width)[0] == (v % 256) as u8);
    }
}

/// Spelling out the number that a byte string holds gives the byte string.
pub proof fn lemma_le_bytes_of_value(s: Seq<u8>)
    ensures
        le_bytes(le_value(s), s.len()) == s,
    decreases s.len(),
{
    if s.len() > 0 {
        lemma_le_bytes_of_value(s.skip(1));
        assert(s =~= seq![s[0]] + s.skip(1));
    } else {
        assert(s =~= Seq::empty());
    }
}

/// The number at an offset fits its width, so the cast in the definition loses nothing.
pub proof fn lemma_fixed_widths(b: Seq<u8>, at: int)
    requires
        0 <= at,
    ensures
        at + 2 <= b.len() ==> u16_at(b, at) == le_value(b.subrange(at, at + 2)) && le_bytes(
            u16_at(b, at) as nat,
            2,
        ) == b.subrange(at, at + 2),
        at + 4 <= b.len() ==> u32_at(b, at) == le_value(b.subrange(at, at + 4)) && le_bytes(
            u32_at(b, at) as nat,
            4,
        ) == b.subrange(at, at + 4),
        at + 8 <= b.len() ==> u64_at(b, at) == le_value(b.subrange(at, at + 8)) && le_bytes(
            u64_at(b, at) as nat,
            8,
        ) == b.subrange(at, at + 8),
{
    lemma_byte_limits();
    if at + 2 <= b.len() {
        lemma_le_value_bound(b.subrange(at, at + 2));
        lemma_le_bytes_of_value(b.subrange(at, at + 2));
    }
    if at + 4 <= b.len() {
        lemma_le_value_bound(b.subrange(at, at + 4));
        lemma_le_bytes_of_value(b.subrange(at, at + 4));
    }
    if at + 8 <= b.len() {
        lemma_le_value_bound(b.subrange(at, at + 8));
        lemma_le_bytes_of_value(b.subrange(at, at + 8));
    }
}

/// A 16-, 32- or 64-bit number written at an offset is read back from it.
pub proof fn lemma_written_number(b: Seq<u8>, at: int, v: nat, width: nat)
    requires
        0 <= at,
        at + width <= b.len(),
        b.subrange(at, at + width) == le_bytes(v, width),
        v < byte_limit(width),
    ensures
        width == 2 ==> u16_at(b, at) == v,
        width == 4 ==> u32_at(b, at) == v,
        width == 8 ==> u64_at(b, at) == v,
{
    lemma_byte_limits();
    lemma_le_value_of_bytes(v, width);
}

/// A big-endian spelling has the width that was asked for, and gives its number back.
pub proof fn lemma_be_round_trip(v: nat, width: nat)
    requires
        v < byte_limit(width),
    ensures
        be_bytes(v, width).len() == width,
        be_value(be_bytes(v, width)) == v,
{
    lemma_le_bytes_len(v, width);
    lemma_le_value_of_bytes(v, width);
    assert(be_bytes(v, width).reverse() =~= le_bytes(v, width));
}

pub proof fn lemma_be_bytes_of_value(s: Seq<u8>)
    ensures
        be_bytes(be_value(s), s.len()) == s,
        be_value(s) < byte_limit(s.len()),
{
    lemma_le_bytes_of_value(s.reverse());
    lemma_le_value_bound(s.reverse());
    assert(s.reverse().reverse() =~= s);
}

/// Appends the lowest `width` bytes of a number, least significant byte first.
pub fn append_le(out: &mut Vec<u8>, value: u64, width: usize)
    ensures
        final(out)@ == old(out)@ + le_bytes(value as nat, width as nat),
{
    let ghost before = out@;
    let mut rest: u64 = value;
    let mut i: usize = 0;
    while i < width
        invariant
            i <= width,
            out@ + le_bytes(rest as nat, (width - i) as nat) == before + le_bytes(
                value as nat,
                width as nat,
            ),
        decreases width - i,
    {
        let ghost head = out@;
        let ghost tail = le_bytes(rest as nat / 256, (width - i - 1) as nat);
        let low: u8 = (rest % 256) as u8;
        proof {
            assert(le_bytes(rest as nat, (width - i) as nat) == seq![low] + tail);
            assert(head.push(low) + tail =~= head + (seq![low] + tail));
        }
        out.push(low);
        rest = rest / 256;
        i = i + 1;
    }
    proof {
        assert(out@ + le_bytes(rest as nat, 0) =~= out@);
    }
}

/// Appends the lowest `width` bytes of a number, most significant byte first.
pub fn append_be(out: &mut Vec<u8>, value: u64, width: usize)
    ensures
        final(out)@ == old(out)@ + be_bytes(value as nat, width as nat),
{
    let mut low_first: Vec<u8> = Vec::new();
    append_le(&mut low_first, value, width);
    proof {
        lemma_le_bytes_len(value as nat, width as nat);
        assert(low_first@ =~= le_bytes(value as nat, width as nat));
    }
    let ghost before = out@;
    let ghost whole = be_bytes(value as nat, width as nat);
    let mut i: usize = width;
    while i > 0
        invariant
            i <= width,
            low_first@.len() == width,
            whole == low_first@.reverse(),
            out@ == before + whole.take(width - i),
        decreases i,
    {
        i = i - 1;
        proof {
            assert(whole.take(width - i) =~= whole.take(width - i - 1).push(low_first@[i as int]));
        }
        out.push(low_first[i]);
    }
    proof {
        assert(whole.take(width as int) =~= whole);
    }
}

/// The little-endian number in `width` bytes from an offset.
pub fn read_le(bytes: &[u8], at: usize, width: usize) -> (value: u64)
    requires
        at + width <= bytes@.len(),
        width <= 8,
    ensures
        value == le_value(bytes@.subrange(at as int, at + width)),
        value < byte_limit(width as nat),
{
    proof {
        lemma_byte_limits();
    }
    let length: usize = bytes.len();
    let mut value: u64 = 0;
    let mut i: usize = width;
    while i > 0
        invariant
            i <= width <= 8,
            at + width <= bytes@.len() == length,
            value == le_value(bytes@.subrange(at + i, at + width)),
        decreases i,
    {
        i = i - 1;
        let ghost whole = bytes@.subrange(at + i, at + width);
        proof {
            assert(whole.skip(1) =~= bytes@.subrange(at + i + 1, at + width));
            lemma_le_value_bound(whole);
            lemma_byte_limit_grows(whole.len(), 8);
            lemma_byte_limits();
        }
        value = bytes[at + i] as u64 + 256 * value;
    }
    proof {
        lemma_le_value_bound(bytes@.subrange(at as int, at + width));
    }
    value
}

pub proof fn lemma_byte_limit_grows(a: nat, b: nat)
    requires
        a <= b,
    ensures
        1 <= byte_limit(a) <= byte_limit(b),
    decreases b,
{
    if b > 0 {
        if a < b {
            lemma_byte_limit_grows(a, (b - 1) as nat);
        } else {
            lemma_byte_limit_grows((a - 1) as nat, (b - 1) as nat);
        }
    }
}

/// The big-endian 64-bit number at an offset.
pub fn read_be_u64(bytes: &[u8], at: usize) -> (value: u64)
    requires
        at + 8 <= bytes@.len(),
    ensures
        value == be_value(bytes@.subrange(at as int, at + 8)),
{
    let ghost whole = bytes@.subrange(at as int, at + 8);
    let length: usize = bytes.len();
    let mut reversed: Vec<u8> = Vec::new();
    let mut i: usize = 8;
    while i > 0
        invariant
            i <= 8,
            at + 8 <= bytes@.len() == length,
            whole == bytes@.subrange(at as int, at + 8),
            reversed@ == whole.reverse().take(8 - i),
        decreases i,
    {
        i = i - 1;
        reversed.push(bytes[at + i]);
        proof {
            assert(whole.reverse().take(8 - i) =~= whole.reverse().take(8 - i - 1).push(
                bytes@[at + i],
            ));
        }
    }
    proof {
        assert(reversed@ =~= whole.reverse());
        assert(reversed@.subrange(0, 8) =~= reversed@);
    }
    read_le(reversed.as_slice(), 0, 8)
}

/// The little-endian 16-bit number at an offset.
pub fn read_u16(bytes: &[u8], at: usize) -> (value: u16)
    requires
        at + 2 <= bytes@.len(),
    ensures
        value == u16_at(bytes@, at as int),
{
    proof {
        lemma_byte_limits();
    }
    read_le(bytes, at, 2) as u16
}

/// The little-endian 32-bit number at an offset.
pub fn read_u32(bytes: &[u8], at: usize) -> (value: u32)
    requires
        at + 4 <= bytes@.len(),
    ensures
        value == u32_at(bytes@, at as int),
{
    proof {
        lemma_byte_limits();
    }
    read_le(bytes, at, 4) as u32
}

/// The little-endian 64-bit number at an offset.
pub fn read_u64(bytes: &[u8], at: usize) -> (value: u64)
    requires
        at + 8 <= bytes@.len(),
    ensures
        value == u64_at(bytes@, at as int),
{
    read_le(bytes, at, 8)
}

/// Appends the bytes of a slice.
pub fn append_bytes(out: &mut Vec<u8>, bytes: &[u8])
    ensures
        final(out)@ == old(out)@ + bytes@,
{
    let ghost before = out@;
    let mut i: usize = 0;
    while i < bytes.len()
        invariant
            i <= bytes@.len(),
            out@ == before + bytes@.take(i as int),
        decreases bytes@.len() - i,
    {
        proof {
            assert(bytes@.take(i + 1) =~= bytes@.take(i as int).push(bytes@[i as int]));
        }
        out.push(bytes[i]);
        i = i + 1;
    }
    proof {
        assert(bytes@.take(i as int) =~= bytes@);
    }
}

/// Appends `count` zero bytes.
pub fn append_zeros(out: &mut Vec<u8>, count: usize)
    ensures
        final(out)@ == old(out)@ + zeros(count as nat),
{
    let ghost before = out@;
    let mut i: usize = 0;
    while i < count
        invariant
            i <= count,
            out@ == before + zeros(i as nat),
        decreases count - i,
    {
        proof {
            assert(zeros((i + 1) as nat) =~= zeros(i as nat).push(0u8));
        }
        out.push(0);
        i = i + 1;
    }
}

/// An owned copy of a part of a slice.
pub fn copy_range(bytes: &[u8], from: usize, to: usize) -> (copy: Vec<u8>)
    requires
        from <= to <= bytes@.len(),
    ensures
        copy@ == bytes@.subrange(from as int, to as int),
{
    let mut copy: Vec<u8> = Vec::new();
    let mut i: usize = from;
    while i < to
        invariant
            from <= i <= to <= bytes@.len(),
            copy@ == bytes@.subrange(from as int, i as int),
        decreases to - i,
    {
        proof {
            assert(bytes@.subrange(from as int, i + 1) =~= bytes@.subrange(
                from as int,
                i as int,
            ).push(bytes@[i as int]));
        }
        copy.push(bytes[i]);
        i = i + 1;
    }
    copy
}

/// An owned copy of a slice.
pub fn copy_bytes(bytes: &[u8]) -> (copy: Vec<u8>)
    ensures
        copy@ == bytes@,
{
    proof {
        assert(bytes@.subrange(0, bytes@.len() as int) =~= bytes@);
    }
    copy_range(bytes, 0, bytes.len())
}

/// Whether two byte strings are equal.
pub fn same_bytes(left: &[u8], right: &[u8]) -> (same: bool)
    ensures
        same == (left@ == right@),
{
    if left.len() != right.len() {
        return false;
    }
    let mut i: usize = 0;
    while i < left.len()
        invariant
            i <= left@.len() == right@.len(),
            forall|k: int| 0 <= k < i ==> left@[k] == right@[k],
        decreases left@.len() - i,
    {
        if left[i] != right[i] {
            return false;
        }
        i = i + 1;
    }
    proof {
        assert(left@ =~= right@);
    }
    true
}

/// Whether the bytes of a slice from an offset on begin with a pattern.
pub fn matches_at(bytes: &[u8], at: usize, pattern: &[u8]) -> (found: bool)
    requires
        at + pattern@.len() <= bytes@.len(),
    ensures
        found == (bytes@.subrange(at as int, at + pattern@.len()) == pattern@),
{
    let ghost part = bytes@.subrange(at as int, at + pattern@.len());
    let length: usize = bytes.len();
    let mut i: usize = 0;
    while i < pattern.len()
        invariant
            i <= pattern@.len(),
            at + pattern@.len() <= bytes@.len() == length,
            part == bytes@.subrange(at as int, at + pattern@.len()),
            forall|k: int| 0 <= k < i ==> part[k] == pattern@[k],
        decreases pattern@.len() - i,
    {
        if bytes[at + i] != pattern[i] {
            proof {
                assert(part[i as int] != pattern@[i as int]);
            }
            return false;
        }
        i = i + 1;
    }
    proof {
        assert(part =~= pattern@);
    }
    true
}

/// Whether a part of a slice holds zero bytes only.
pub fn all_zero(bytes: &[u8], from: usize, to: usize) -> (zero: bool)
    requires
        from <= to <= bytes@.len(),
    ensures
        zero == (bytes@.subrange(from as int, to as int) == zeros((to - from) as nat)),
{
    let ghost part = bytes@.subrange(from as int, to as int);
    let mut i: usize = from;
    while i < to
        invariant
            from <= i <= to <= bytes@.len(),
            part == bytes@.subrange(from as int, to as int),
            forall|k: int| 0 <= k < i - from ==> part[k] == 0,
        decreases to - i,
    {
        if bytes[i] != 0 {
            proof {
                assert(part[i - from] != 0);
                assert(zeros((to - from) as nat)[i - from] == 0);
            }
            return false;
        }
        i = i + 1;
    }
    proof {
        assert(part =~= zeros((to - from) as nat));
    }
    true
}

/// The sixteen bytes from an offset on.
pub fn array_16(bytes: &[u8], at: usize) -> (value: [u8; 16])
    requires
        at + 16 <= bytes@.len(),
    ensures
        value@ == bytes@.subrange(at as int, at + 16),
{
    let length: usize = bytes.len();
    let mut value: [u8; 16] = [0u8; 16];
    let mut i: usize = 0;
    while i < 16
        invariant
            i <= 16,
            at + 16 <= bytes@.len() == length,
            forall|k: int| 0 <= k < i ==> value@[k] == bytes@[at + k],
        decreases 16 - i,
    {
        value[i] = bytes[at + i];
        i = i + 1;
    }
    proof {
        assert(value@ =~= bytes@.subrange(at as int, at + 16));
    }
    value
}

/// The bytes of one string come before those of another: the first difference decides, and a
/// proper prefix comes first.
pub open spec fn byte_order_less(a: Seq<u8>, b: Seq<u8>) -> bool
    decreases a.len(),
{
    if b.len() == 0 {
        false
    } else if a.len() == 0 {
        true
    } else if a[0] != b[0] {
        a[0] < b[0]
    } else {
        byte_order_less(a.skip(1), b.skip(1))
    }
}

/// Whether one byte string comes before another.
pub fn bytes_less(left: &[u8], right: &[u8]) -> (less: bool)
    ensures
        less == byte_order_less(left@, right@),
{
    let mut i: usize = 0;
    proof {
        assert(left@.skip(0) =~= left@);
        assert(right@.skip(0) =~= right@);
    }
    while i < left.len() && i < right.len()
        invariant
            i <= left@.len(),
            i <= right@.len(),
            byte_order_less(left@, right@) == byte_order_less(
                left@.skip(i as int),
                right@.skip(i as int),
            ),
        decreases left@.len() - i,
    {
        if left[i] != right[i] {
            return left[i] < right[i];
        }
        proof {
            assert(left@.skip(i as int).skip(1) =~= left@.skip(i + 1));
            assert(right@.skip(i as int).skip(1) =~= right@.skip(i + 1));
        }
        i = i + 1;
    }
    i < right.len()
}

/// The order of byte strings is a strict total order.
pub proof fn lemma_byte_order_total(a: Seq<u8>, b: Seq<u8>)
    ensures
        byte_order_less(a, b) || byte_order_less(b, a) || a == b,
        !(byte_order_less(a, b) && byte_order_less(b, a)),
        a == b ==> !byte_order_less(a, b),
    decreases a.len(),
{
    if a.len() > 0 && b.len() > 0 {
        lemma_byte_order_total(a.skip(1), b.skip(1));
        if a[0] == b[0] && a.skip(1) == b.skip(1) {
            assert(a =~= seq![a[0]] + a.skip(1));
            assert(b =~= seq![b[0]] + b.skip(1));
        }
    } else if a.len() == 0 && b.len() == 0 {
        assert(a =~= b);
    }
}

/// The order of byte strings is transitive.
pub proof fn lemma_byte_order_transitive(a: Seq<u8>, b: Seq<u8>, c: Seq<u8>)
    requires
        byte_order_less(a, b),
        byte_order_less(b, c),
    ensures
        byte_order_less(a, c),
    decreases a.len(),
{
    if a.len() > 0 && b.len() > 0 && c.len() > 0 && a[0] == b[0] && b[0] == c[0] {
        lemma_byte_order_transitive(a.skip(1), b.skip(1), c.skip(1));
    }
}

/// The number of two, four or eight bytes at a place: the first byte counts ones, and each further
/// byte counts 256 times as much as the one before it.
pub proof fn law_numbers_are_little_endian(b: Seq<u8>, at: int)
    ensures
        0 <= at && at + 2 <= b.len() ==> u16_at(b, at) == b[at] + 256 * b[at + 1],
        0 <= at && at + 4 <= b.len() ==> u32_at(b, at) == b[at] + 256 * b[at + 1] + 65_536 * b[at
            + 2] + 16_777_216 * b[at + 3],
        0 <= at && at + 8 <= b.len() ==> u64_at(b, at) == u32_at(b, at) + 4_294_967_296 * u32_at(
            b,
            at + 4,
        ),
{
    if 0 <= at && at + 2 <= b.len() {
        lemma_value_of_two(b.subrange(at, at + 2));
    }
    if 0 <= at && at + 4 <= b.len() {
        lemma_value_of_four(b.subrange(at, at + 4));
    }
    if 0 <= at && at + 8 <= b.len() {
        let whole = b.subrange(at, at + 8);
        assert(whole.skip(4) == b.subrange(at + 4, at + 8));
        lemma_value_of_four(b.subrange(at, at + 4));
        lemma_value_of_four(b.subrange(at + 4, at + 8));
        reveal_with_fuel(le_value, 5);
        assert(whole.skip(1).skip(1).skip(1).skip(1) == whole.skip(4));
        assert(le_value(whole) == whole[0] + 256 * (whole[1] + 256 * (whole[2] + 256 * (whole[3]
            + 256 * le_value(whole.skip(4))))));
    }
}

proof fn lemma_value_of_two(s: Seq<u8>)
    requires
        s.len() == 2,
    ensures
        le_value(s) == s[0] + 256 * s[1],
{
    reveal_with_fuel(le_value, 3);
}

proof fn lemma_value_of_four(s: Seq<u8>)
    requires
        s.len() == 4,
    ensures
        le_value(s) == s[0] + 256 * s[1] + 65_536 * s[2] + 16_777_216 * s[3],
{
    reveal_with_fuel(le_value, 5);
}

/// A number that is written with its most significant byte first has the same bytes as one that
/// is written the other way round, in reverse. Both are read back.
pub proof fn law_number_is_read_back(v: nat, width: nat)
    requires
        v < byte_limit(width),
    ensures
        le_value(le_bytes(v, width)) == v,
        be_value(be_bytes(v, width)) == v,
        le_bytes(v, width).len() == width && be_bytes(v, width).len() == width,
        forall|i: int|
            0 <= i < width ==> #[trigger] be_bytes(v, width)[i] == le_bytes(v, width)[width - 1
                - i],
        width > 0 ==> le_bytes(v, width)[0] == v % 256 && be_bytes(v, width)[width - 1] == v % 256,
{
    lemma_le_bytes_len(v, width);
    lemma_le_value_of_bytes(v, width);
    lemma_be_round_trip(v, width);
}

/// Keys are compared byte by byte: the first place at which they differ decides, as the bytes
/// there compare as numbers. A key comes behind every shorter key that it begins with.
pub proof fn law_first_difference_decides(a: Seq<u8>, b: Seq<u8>, i: int)
    requires
        0 <= i <= a.len(),
        i <= b.len(),
        a.take(i) == b.take(i),
    ensures
        i < a.len() && i < b.len() && a[i] < b[i] ==> byte_order_less(a, b) && !byte_order_less(
            b,
            a,
        ),
        i == a.len() && i < b.len() ==> byte_order_less(a, b) && !byte_order_less(b, a),
        i == a.len() && i == b.len() ==> a == b && !byte_order_less(a, b),
    decreases i,
{
    if i == a.len() && i == b.len() {
        assert(a == a.take(i));
        assert(b == b.take(i));
    }
    if i > 0 {
        assert(a[0] == a.take(i)[0]);
        assert(b[0] == b.take(i)[0]);
        assert(a.skip(1).take(i - 1) == a.take(i).skip(1));
        assert(b.skip(1).take(i - 1) == b.take(i).skip(1));
        law_first_difference_decides(a.skip(1), b.skip(1), i - 1);
    }
}

} // verus!

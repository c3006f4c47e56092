//! Byte-level building blocks: little-endian integers, comparison of byte
//! strings and overwriting a window of a buffer.
use vstd::prelude::*;

verus! {

/// The four little-endian bytes of `x`.
#[verifier::opaque]
pub open spec fn le32(x: u32) -> Seq<u8> {
    seq![
        (x as int % 256) as u8,
        (x as int / 0x100 % 256) as u8,
        (x as int / 0x1_0000 % 256) as u8,
        (x as int / 0x100_0000) as u8,
    ]
}

/// The eight little-endian bytes of `x`: those of its low half and those of its
/// high half.
#[verifier::opaque]
pub open spec fn le64(x: u64) -> Seq<u8> {
    le32((x as int % 0x1_0000_0000) as u32) + le32((x as int / 0x1_0000_0000) as u32)
}

/// The number that four little-endian bytes stand for.
#[verifier::opaque]
pub open spec fn from_le32(s: Seq<u8>) -> u32 {
    (s[0] + 0x100 * s[1] + 0x1_0000 * s[2] + 0x100_0000 * s[3]) as u32
}

/// The number that eight little-endian bytes stand for.
#[verifier::opaque]
pub open spec fn from_le64(s: Seq<u8>) -> u64 {
    (from_le32(s.subrange(0, 4)) + 0x1_0000_0000 * from_le32(s.subrange(4, 8))) as u64
}

/// `s` with the window that starts at `at` replaced by `b`.
pub open spec fn overwrite(s: Seq<u8>, at: int, b: Seq<u8>) -> Seq<u8> {
    Seq::new(s.len(), |i: int| if at <= i < at + b.len() { b[i - at] } else { s[i] })
}

/// Four bytes that were written as a number read back as that number, and the
/// other way round.
pub proof fn lemma_le32()
    ensures
        forall|x: u32| #[trigger] le32(x).len() == 4,
        forall|x: u32| from_le32(#[trigger] le32(x)) == x,
        forall|s: Seq<u8>| s.len() == 4 ==> le32(#[trigger] from_le32(s)) == s,
{
    reveal(le32);
    reveal(from_le32);
    assert forall|s: Seq<u8>| s.len() == 4 implies le32(#[trigger] from_le32(s)) == s by {
        let (a, b, c, d) = (s[0] as int, s[1] as int, s[2] as int, s[3] as int);
        let x = a + 0x100 * b + 0x1_0000 * c + 0x100_0000 * d;
        assert(from_le32(s) == x);
        assert(x % 256 == a);
        assert(x / 0x100 == b + 0x100 * c + 0x1_0000 * d);
        assert(x / 0x1_0000 == c + 0x100 * d);
        assert(x / 0x100_0000 == d);
        assert(le32(from_le32(s)) =~= s);
    }
}

/// A number that was written as eight bytes reads back.
proof fn lemma_le64_write(x: u64)
    ensures
        le64(x).len() == 8,
        from_le64(le64(x)) == x,
{
    reveal(le64);
    reveal(from_le64);
    lemma_le32();
    let low = (x as int % 0x1_0000_0000) as u32;
    let high = (x as int / 0x1_0000_0000) as u32;
    assert(le64(x).subrange(0, 4) =~= le32(low));
    assert(le64(x).subrange(4, 8) =~= le32(high));
    assert(from_le32(le32(low)) == low && from_le32(le32(high)) == high);
}

/// Eight bytes that were read as a number are written back.
proof fn lemma_le64_read(s: Seq<u8>)
    requires
        s.len() == 8,
    ensures
        le64(from_le64(s)) == s,
{
    reveal(le64);
    reveal(from_le64);
    lemma_le32();
    let low = from_le32(s.subrange(0, 4));
    let high = from_le32(s.subrange(4, 8));
    assert(le32(low) == s.subrange(0, 4) && le32(high) == s.subrange(4, 8));
    let x = low + 0x1_0000_0000 * high;
    assert(from_le64(s) == x);
    assert(x % 0x1_0000_0000 == low && x / 0x1_0000_0000 == high);
    assert(s.subrange(0, 4) + s.subrange(4, 8) =~= s);
}

/// Eight bytes that were written as a number read back as that number, and
/// the other way round.
pub proof fn lemma_le64()
    ensures
        forall|x: u64| #[trigger] le64(x).len() == 8,
        forall|x: u64| from_le64(#[trigger] le64(x)) == x,
        forall|s: Seq<u8>| s.len() == 8 ==> le64(#[trigger] from_le64(s)) == s,
{
    assert forall|x: u64| #[trigger] le64(x).len() == 8 && from_le64(le64(x)) == x by {
        lemma_le64_write(x);
    }
    assert forall|s: Seq<u8>| s.len() == 8 implies le64(#[trigger] from_le64(s)) == s by {
        lemma_le64_read(s);
    }
}

/// Reading the window that was just overwritten gives what was written.
pub proof fn lemma_overwrite_reads_back(s: Seq<u8>, at: int, b: Seq<u8>)
    requires
        0 <= at,
        at + b.len() <= s.len(),
    ensures
        overwrite(s, at, b).subrange(at, at + b.len()) == b,
{
    assert(overwrite(s, at, b).subrange(at, at + b.len()) =~= b);
}

/// A window that does not meet the overwritten one is left as it was.
pub proof fn lemma_overwrite_leaves_others(s: Seq<u8>, at: int, b: Seq<u8>, lo: int, hi: int)
    requires
        0 <= lo <= hi <= s.len(),
        hi <= at || at + b.len() <= lo,
    ensures
        overwrite(s, at, b).subrange(lo, hi) == s.subrange(lo, hi),
{
    assert(overwrite(s, at, b).subrange(lo, hi) =~= s.subrange(lo, hi));
}

/// The little-endian bytes of `x`.
pub fn u32_bytes(x: u32) -> (r: Vec<u8>)
    ensures
        r@ == le32(x),
{
    reveal(le32);
    let r: Vec<u8> = vec![
        (x % 256) as u8,
        (x / 0x100 % 256) as u8,
        (x / 0x1_0000 % 256) as u8,
        (x / 0x100_0000) as u8,
    ];
    assert(r@ =~= le32(x));
    r
}

/// The little-endian bytes of `x`.
pub fn u64_bytes(x: u64) -> (r: Vec<u8>)
    ensures
        r@ == le64(x),
{
    reveal(le64);
    let mut r: Vec<u8> = u32_bytes((x % 0x1_0000_0000) as u32);
    append_bytes(&mut r, u32_bytes((x / 0x1_0000_0000) as u32).as_slice());
    r
}

/// Reads the little-endian `u32` that starts at `at`.
pub fn read_u32(data: &[u8], at: usize) -> (r: u32)
    requires
        at + 4 <= data@.len(),
    ensures
        r == from_le32(data@.subrange(at as int, at + 4)),
{
    reveal(from_le32);
    assert(data.len() == data@.len());
    data[at] as u32 + 0x100 * data[at + 1] as u32 + 0x1_0000 * data[at + 2] as u32 + 0x100_0000
        * data[at + 3] as u32
}

/// Reads the little-endian `u64` that starts at `at`.
pub fn read_u64(data: &[u8], at: usize) -> (r: u64)
    requires
        at + 8 <= data@.len(),
    ensures
        r == from_le64(data@.subrange(at as int, at + 8)),
{
    reveal(from_le64);
    assert(data.len() == data@.len());
    let low: u32 = read_u32(data, at);
    let high: u32 = read_u32(data, at + 4);
    assert(data@.subrange(at as int, at + 8).subrange(0, 4) =~= data@.subrange(at as int, at + 4));
    assert(data@.subrange(at as int, at + 8).subrange(4, 8) =~= data@.subrange(at + 4, at + 8));
    low as u64 + 0x1_0000_0000 * high as u64
}

/// Appends all of `tail` to `data`.
pub fn append_bytes(data: &mut Vec<u8>, tail: &[u8])
    ensures
        final(data)@ == old(data)@ + tail@,
{
    data.extend_from_slice(tail);
    assert(data@ =~= old(data)@ + tail@);
}

/// A copy of a byte string.
pub fn copy_bytes(data: &[u8]) -> (r: Vec<u8>)
    ensures
        r@ == data@,
{
    let mut out: Vec<u8> = Vec::new();
    append_bytes(&mut out, data);
    assert(out@ =~= data@);
    out
}

/// Replaces the window of `data` that starts at `at` by `bytes`.
pub fn write_at(data: &mut Vec<u8>, at: usize, bytes: &[u8])
    requires
        at + bytes@.len() <= old(data)@.len(),
    ensures
        final(data)@ == overwrite(old(data)@, at as int, bytes@),
{
    let mut i: usize = 0;
    while i < bytes.len()
        invariant
            i <= bytes@.len(),
            at + bytes@.len() <= data@.len(),
            data@ == overwrite(old(data)@, at as int, bytes@.take(i as int)),
        decreases bytes@.len() - i,
    {
        assert(data.len() == data@.len());
        data[at + i] = bytes[i];
        i = i + 1;
        assert(data@ =~= overwrite(old(data)@, at as int, bytes@.take(i as int)));
    }
    assert(bytes@.take(i as int) =~= bytes@);
}

/// Whether two byte strings are equal.
pub fn same_bytes(a: &[u8], b: &[u8]) -> (r: bool)
    ensures
        r == (a@ == b@),
{
    if a.len() != b.len() {
        return false;
    }
    let mut i: usize = 0;
    while i < a.len()
        invariant
            i <= a@.len(),
            a@.len() == b@.len(),
            forall|j: int| 0 <= j < i ==> a@[j] == b@[j],
        decreases a@.len() - i,
    {
        if a[i] != b[i] {
            return false;
        }
        i = i + 1;
    }
    assert(a@ =~= b@);
    true
}

/// The first 32 bytes of `data` as an array.
pub fn array_32(data: &[u8]) -> (r: [u8; 32])
    requires
        data@.len() >= 32,
    ensures
        r@ == data@.take(32),
{
    let mut out: [u8; 32] = [0u8; 32];
    let mut i: usize = 0;
    while i < 32
        invariant
            i <= 32,
            data@.len() >= 32,
            forall|j: int| 0 <= j < i ==> out@[j] == data@[j],
        decreases 32 - i,
    {
        out[i] = data[i];
        i = i + 1;
    }
    assert(out@ =~= data@.take(32));
    out
}

/// Several byte strings, one after the other.
pub open spec fn joined(items: Seq<Seq<u8>>) -> Seq<u8>
    decreases items.len(),
{
    if items.len() == 0 {
        Seq::empty()
    } else {
        joined(items.drop_last()) + items.last()
    }
}

/// Whether byte strings all have the same length.
pub open spec fn all_wide(items: Seq<Seq<u8>>, width: int) -> bool {
    forall|i: int| 0 <= i < items.len() ==> (#[trigger] items[i]).len() == width
}

/// Byte strings of the same length can be found where they were put.
pub proof fn lemma_joined(items: Seq<Seq<u8>>, width: int)
    requires
        all_wide(items, width),
        width >= 0,
    ensures
        joined(items).len() == items.len() * width,
        forall|i: int|
            0 <= i < items.len() ==> #[trigger] items[i] == joined(items).subrange(
                i * width,
                i * width + width,
            ),
    decreases items.len(),
{
    if items.len() > 0 {
        let front = items.drop_last();
        let n = items.len() as int;
        lemma_joined(front, width);
        assert((n - 1) * width + width == n * width) by (nonlinear_arith);
        assert forall|i: int| 0 <= i < n implies #[trigger] items[i] == joined(items).subrange(
            i * width,
            i * width + width,
        ) by {
            if i < n - 1 {
                assert(front[i] == joined(front).subrange(i * width, i * width + width));
                assert(0 <= i * width && i * width + width <= (n - 1) * width) by (nonlinear_arith)
                    requires
                        0 <= i,
                        i + 1 <= n - 1,
                        width >= 0,
                ;
                assert(joined(items).subrange(i * width, i * width + width) =~= joined(
                    front,
                ).subrange(i * width, i * width + width));
            } else {
                assert(joined(items).subrange(i * width, i * width + width) =~= items.last());
            }
        }
    } else {
        assert(0 * width == 0);
    }
}

/// Byte strings of the same length are told by what they are joined to.
pub proof fn lemma_joined_tells(one: Seq<Seq<u8>>, other: Seq<Seq<u8>>, width: int)
    requires
        all_wide(one, width),
        all_wide(other, width),
        width >= 0,
        one.len() == other.len(),
        joined(one) == joined(other),
    ensures
        one == other,
{
    lemma_joined(one, width);
    lemma_joined(other, width);
    assert forall|i: int| 0 <= i < one.len() implies one[i] == other[i] by {
        assert(one[i] == joined(one).subrange(i * width, i * width + width));
        assert(other[i] == joined(other).subrange(i * width, i * width + width));
    }
    assert(one =~= other);
}

/// Whether `s` begins with `front`.
pub open spec fn starts(s: Seq<u8>, front: Seq<u8>) -> bool {
    front.len() <= s.len() && s.take(front.len() as int) == front
}

/// The first byte of a number counts ones, and each byte behind it counts 256
/// times as much as the one before.
pub proof fn the_first_byte_counts_least(x: u32, y: u64)
    ensures
        x == le32(x)[0] + 0x100 * le32(x)[1] + 0x1_0000 * le32(x)[2] + 0x100_0000 * le32(x)[3],
        y == le64(y)[0] + 0x100 * le64(y)[1] + 0x1_0000 * le64(y)[2] + 0x100_0000 * le64(y)[3]
            + 0x1_0000_0000 * le64(y)[4] + 0x100_0000_0000 * le64(y)[5] + 0x1_0000_0000_0000
            * le64(y)[6] + 0x100_0000_0000_0000 * le64(y)[7],
        le32(x).len() == 4,
        le64(y).len() == 8,
{
    reveal(le64);
    lemma_le32();
    lemma_bytes_of_four(x);
    let low = (y as int % 0x1_0000_0000) as u32;
    let high = (y as int / 0x1_0000_0000) as u32;
    lemma_bytes_of_four(low);
    lemma_bytes_of_four(high);
    assert forall|i: int| 0 <= i < 4 implies #[trigger] le64(y)[i] == le32(low)[i] by {}
    assert forall|i: int| 4 <= i < 8 implies #[trigger] le64(y)[i] == le32(high)[i - 4] by {}
}

/// What four bytes count.
proof fn lemma_bytes_of_four(x: u32)
    ensures
        x == le32(x)[0] + 0x100 * le32(x)[1] + 0x1_0000 * le32(x)[2] + 0x100_0000 * le32(x)[3],
{
    reveal(le32);
}

} // verus!

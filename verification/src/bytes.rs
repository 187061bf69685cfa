//! Little-endian integers and byte sequences.

use vstd::prelude::*;

verus! {

/// The number that four bytes spell, least significant byte first.
#[verifier::opaque]
pub open spec fn le_u32(s: Seq<u8>) -> u32
    recommends
        s.len() >= 4,
{
    (s[0] + 0x100 * s[1] + 0x1_0000 * s[2] + 0x100_0000 * s[3]) as u32
}

/// The four bytes of a number, least significant byte first.
#[verifier::opaque]
pub open spec fn u32_bytes(v: u32) -> Seq<u8> {
    seq![
        (v % 0x100) as u8,
        ((v / 0x100) % 0x100) as u8,
        ((v / 0x1_0000) % 0x100) as u8,
        (v / 0x100_0000) as u8,
    ]
}

/// A number of 32 bits has four bytes.
pub broadcast proof fn u32_bytes_len(v: u32)
    ensures
        #[trigger] u32_bytes(v).len() == 4,
{
    reveal(u32_bytes);
}

/// The two bytes of a number, least significant byte first.
pub open spec fn u16_bytes(v: u16) -> Seq<u8> {
    seq![(v % 0x100) as u8, (v / 0x100) as u8]
}

/// The sum of all bytes.
pub open spec fn byte_sum(s: Seq<u8>) -> nat
    decreases s.len(),
{
    if s.len() == 0 {
        0
    } else {
        byte_sum(s.drop_last()) + s.last() as nat
    }
}

/// A sequence of bytes sums to at most 255 for each byte.
pub proof fn lemma_byte_sum_bound(s: Seq<u8>)
    ensures
        byte_sum(s) <= 255 * s.len(),
    decreases s.len(),
{
    if s.len() > 0 {
        lemma_byte_sum_bound(s.drop_last());
    }
}

/// Reading back the bytes of a number gives the number.
pub proof fn lemma_le_u32_of_bytes(v: u32, tail: Seq<u8>)
    ensures
        le_u32(u32_bytes(v) + tail) == v,
        le_u32(u32_bytes(v)) == v,
        (u32_bytes(v) + tail).skip(4) == tail,
{
    reveal(le_u32);
    reveal(u32_bytes);
    let s = u32_bytes(v);
    assert(v % 0x100 + 0x100 * ((v / 0x100) % 0x100) + 0x1_0000 * ((v / 0x1_0000) % 0x100)
        + 0x100_0000 * (v / 0x100_0000) == v && v / 0x100_0000 < 0x100) by (bit_vector);
    let t = s + tail;
    assert(t[0] == s[0] && t[1] == s[1] && t[2] == s[2] && t[3] == s[3]);
    assert(t.skip(4) =~= tail);
}

/// A number whose bytes stand at `at` is the number that is read there.
pub proof fn lemma_le_u32_at(s: Seq<u8>, at: int, v: u32)
    requires
        0 <= at,
        at + 4 <= s.len(),
        s.subrange(at, at + 4) == u32_bytes(v),
    ensures
        le_u32(s.skip(at)) == v,
{
    reveal(le_u32);
    let word = s.subrange(at, at + 4);
    lemma_le_u32_of_bytes(v, Seq::empty());
    assert(s.skip(at)[0] == word[0] && s.skip(at)[1] == word[1] && s.skip(at)[2] == word[2]
        && s.skip(at)[3] == word[3]);
}

/// Four bytes are the bytes of the number that they spell.
pub proof fn lemma_bytes_of_le_u32(s: Seq<u8>)
    requires
        s.len() == 4,
    ensures
        u32_bytes(le_u32(s)) == s,
{
    reveal(le_u32);
    let (a, b, c, d) = (s[0], s[1], s[2], s[3]);
    assert({
        let v = (a + 0x100 * b + 0x1_0000 * c + 0x100_0000 * d) as u32;
        &&& v % 0x100 == a
        &&& (v / 0x100) % 0x100 == b
        &&& (v / 0x1_0000) % 0x100 == c
        &&& v / 0x100_0000 == d
    }) by (bit_vector);
    reveal(u32_bytes);
    assert(u32_bytes(le_u32(s)) =~= s);
}

/// Four bytes somewhere are the bytes of the number that is read there.
pub proof fn lemma_bytes_at(s: Seq<u8>, at: int)
    requires
        0 <= at,
        at + 4 <= s.len(),
    ensures
        u32_bytes(le_u32(s.skip(at))) == s.subrange(at, at + 4),
{
    reveal(le_u32);
    lemma_bytes_of_le_u32(s.subrange(at, at + 4));
}

/// Reads the four bytes that start at `at`.
pub fn read_u32(data: &[u8], at: usize) -> (v: u32)
    requires
        at + 4 <= data@.len(),
    ensures
        v == le_u32(data@.skip(at as int)),
{
    reveal(le_u32);
    data[at] as u32 + 0x100 * (data[at + 1] as u32) + 0x1_0000 * (data[at + 2] as u32)
        + 0x100_0000 * (data[at + 3] as u32)
}

/// Appends `data` to `out`.
pub fn push_bytes(out: &mut Vec<u8>, data: &[u8])
    ensures
        final(out)@ == old(out)@ + data@,
{
    let ghost before = out@;
    out.extend_from_slice(data);
    assert(out@ =~= before + data@);
}

/// Appends the four bytes of `v` to `out`.
pub fn push_u32(out: &mut Vec<u8>, v: u32)
    ensures
        final(out)@ == old(out)@ + u32_bytes(v),
{
    let ghost before = out@;
    out.push((v % 0x100) as u8);
    out.push(((v / 0x100) % 0x100) as u8);
    out.push(((v / 0x1_0000) % 0x100) as u8);
    out.push((v / 0x100_0000) as u8);
    proof {
        reveal(u32_bytes);
    }
    assert(out@ =~= before + u32_bytes(v));
}

/// Appends the two bytes of `v` to `out`.
pub fn push_u16(out: &mut Vec<u8>, v: u16)
    ensures
        final(out)@ == old(out)@ + u16_bytes(v),
{
    let ghost before = out@;
    out.push((v % 0x100) as u8);
    out.push((v / 0x100) as u8);
    assert(out@ =~= before + u16_bytes(v));
}

/// The index of the first byte that is `b`, or the length where there is none.
pub open spec fn first_index(s: Seq<u8>, b: u8) -> nat
    decreases s.len(),
{
    if s.len() == 0 || s[0] == b {
        0
    } else {
        1 + first_index(s.drop_first(), b)
    }
}

/// A byte that is not met before `n`, and is met there unless `n` is the end, is first met at `n`.
pub proof fn lemma_first_index(s: Seq<u8>, b: u8, n: int)
    requires
        0 <= n <= s.len(),
        forall|i: int| 0 <= i < n ==> s[i] != b,
        n < s.len() ==> s[n] == b,
    ensures
        first_index(s, b) == n,
    decreases n,
{
    if n > 0 {
        lemma_first_index(s.drop_first(), b, n - 1);
    }
}

/// A byte is met inside the sequence, or not at all.
pub proof fn lemma_first_index_bound(s: Seq<u8>, b: u8)
    ensures
        first_index(s, b) <= s.len(),
    decreases s.len(),
{
    if s.len() > 0 && s[0] != b {
        lemma_first_index_bound(s.drop_first(), b);
    }
}

/// Finds the first byte that is `b`.
pub fn find_byte(data: &[u8], b: u8) -> (res: usize)
    ensures
        res == first_index(data@, b),
        res <= data@.len(),
{
    let mut i: usize = 0;
    while i < data.len() && data[i] != b
        invariant
            i <= data@.len(),
            forall|k: int| 0 <= k < i ==> data@[k] != b,
        decreases data@.len() - i,
    {
        i = i + 1;
    }
    proof {
        lemma_first_index(data@, b, i as int);
    }
    i
}

/// Words are little-endian: each byte counts 256 times as much as the one before it, and reading
/// the bytes of a number gives the number back, whatever follows them.
pub proof fn words_are_little_endian(v: u32, s: Seq<u8>, tail: Seq<u8>)
    requires
        s.len() >= 4,
    ensures
        u32_bytes(v).len() == 4,
        v == u32_bytes(v)[0] + 256 * u32_bytes(v)[1] + 65_536 * u32_bytes(v)[2] + 16_777_216
            * u32_bytes(v)[3],
        le_u32(s) == s[0] + 256 * s[1] + 65_536 * s[2] + 16_777_216 * s[3],
        le_u32(u32_bytes(v) + tail) == v,
{
    reveal(u32_bytes);
    reveal(le_u32);
    lemma_le_u32_of_bytes(v, tail);
}

/// Half-words are little-endian too.
pub proof fn half_words_are_little_endian(v: u16)
    ensures
        u16_bytes(v).len() == 2,
        v == u16_bytes(v)[0] + 256 * u16_bytes(v)[1],
{
}

/// The sum of the bytes of two parts is the sum of their sums, and a byte by itself counts as
/// what it is: neither order nor grouping matters, and no byte is left out.
pub proof fn byte_sums_add_up(a: Seq<u8>, b: Seq<u8>, x: u8)
    ensures
        byte_sum(Seq::empty()) == 0,
        byte_sum(seq![x]) == x,
        byte_sum(a + b) == byte_sum(a) + byte_sum(b),
    decreases b.len(),
{
    reveal_with_fuel(byte_sum, 2);
    if b.len() == 0 {
        assert(a + b =~= a);
    } else {
        byte_sums_add_up(a, b.drop_last(), x);
        assert((a + b).drop_last() =~= a + b.drop_last());
    }
}

} // verus!

//! Little-endian integers in byte buffers.

use vstd::prelude::*;

verus! {

/// The unsigned 32-bit value stored little-endian at offset `o`.
pub open spec fn le_u32(s: Seq<u8>, o: int) -> int {
    s[o] + 0x100 * s[o + 1] + 0x1_0000 * s[o + 2] + 0x100_0000 * s[o + 3]
}

/// The signed (two's complement) 32-bit value stored little-endian at offset `o`.
pub open spec fn le_i32(s: Seq<u8>, o: int) -> int {
    let v = le_u32(s, o);
    if v < 0x8000_0000 {
        v
    } else {
        v - 0x1_0000_0000
    }
}

/// The four little-endian bytes of a value below 2^32.
pub open spec fn u32_bytes(v: int) -> Seq<u8> {
    seq![
        (v % 0x100) as u8,
        (v / 0x100 % 0x100) as u8,
        (v / 0x1_0000 % 0x100) as u8,
        (v / 0x100_0000 % 0x100) as u8,
    ]
}

/// Read the unsigned 32-bit value stored little-endian at offset `o`.
pub fn read_u32(bytes: &[u8], o: usize) -> (v: u32)
    requires
        o + 4 <= bytes@.len(),
    ensures
        v == le_u32(bytes@, o as int),
{
    bytes[o] as u32 + 0x100 * (bytes[o + 1] as u32) + 0x1_0000 * (bytes[o + 2] as u32) + 0x100_0000
        * (bytes[o + 3] as u32)
}

/// Read the signed 32-bit value stored little-endian at offset `o`.
pub fn read_i32(bytes: &[u8], o: usize) -> (v: i32)
    requires
        o + 4 <= bytes@.len(),
    ensures
        v == le_i32(bytes@, o as int),
{
    let v: u32 = read_u32(bytes, o);
    if v < 0x8000_0000 {
        v as i32
    } else {
        (v as i64 - 0x1_0000_0000) as i32
    }
}

/// Append the four little-endian bytes of `v`.
pub fn push_u32(out: &mut Vec<u8>, v: u32)
    ensures
        final(out)@ == old(out)@ + u32_bytes(v as int),
{
    out.push((v % 0x100) as u8);
    out.push((v / 0x100 % 0x100) as u8);
    out.push((v / 0x1_0000 % 0x100) as u8);
    out.push((v / 0x100_0000 % 0x100) as u8);
}

/// Reading back what was written gives the value written.
pub proof fn u32_round_trip(v: int)
    requires
        0 <= v < 0x1_0000_0000,
    ensures
        u32_bytes(v).len() == 4,
        le_u32(u32_bytes(v), 0) == v,
{
}

/// Writing the value read from four bytes gives those bytes back.
pub proof fn u32_bytes_of_read(s: Seq<u8>, o: int)
    requires
        0 <= o,
        o + 4 <= s.len(),
    ensures
        u32_bytes(le_u32(s, o)) == s.subrange(o, o + 4),
{
    let v = le_u32(s, o);
    let q3 = s[o + 3] as int;
    let q2 = s[o + 2] + 0x100 * q3;
    let q1 = s[o + 1] + 0x100 * q2;
    assert(v == 0x100 * q1 + s[o]);
    assert(v == 0x1_0000 * q2 + (s[o] + 0x100 * s[o + 1]));
    assert(v == 0x100_0000 * q3 + (s[o] + 0x100 * s[o + 1] + 0x1_0000 * s[o + 2]));
    assert(v % 0x100 == s[o] && v / 0x100 == q1);
    assert(v / 0x1_0000 == q2);
    assert(v / 0x100_0000 == q3);
    assert(u32_bytes(v) =~= s.subrange(o, o + 4));
}

/// The words of a buffer, four little-endian bytes each.
pub open spec fn words_of(s: Seq<u8>) -> Seq<u32> {
    Seq::new(s.len() / 4, |i: int| le_u32(s, 4 * i) as u32)
}

/// The bytes of a buffer of words.
pub open spec fn bytes_of(w: Seq<u32>) -> Seq<u8> {
    Seq::new(4 * w.len(), |k: int| u32_bytes(w[k / 4] as int)[k % 4])
}

/// A little-endian value fits 32 bits.
pub proof fn le_u32_range(s: Seq<u8>, o: int)
    requires
        0 <= o,
        o + 4 <= s.len(),
    ensures
        0 <= le_u32(s, o) <= u32::MAX,
{
}

/// A buffer of whole words and its words say the same.
pub proof fn bytes_of_words(s: Seq<u8>)
    requires
        s.len() % 4 == 0,
    ensures
        bytes_of(words_of(s)) == s,
{
    assert forall|k: int| 0 <= k < s.len() implies bytes_of(words_of(s))[k] == s[k] by {
        let i = k / 4;
        le_u32_range(s, 4 * i);
        u32_bytes_of_read(s, 4 * i);
        assert(s.subrange(4 * i, 4 * i + 4)[k % 4] == s[k]);
    }
    assert(bytes_of(words_of(s)) =~= s);
}

/// The words of a buffer of words' bytes are those words.
pub proof fn words_of_bytes(w: Seq<u32>)
    ensures
        words_of(bytes_of(w)) == w,
{
    let s = bytes_of(w);
    assert forall|i: int| 0 <= i < w.len() implies words_of(s)[i] == w[i] by {
        u32_round_trip(w[i] as int);
        assert(s[4 * i] == u32_bytes(w[i] as int)[0]);
        assert(s[4 * i + 1] == u32_bytes(w[i] as int)[1]);
        assert(s[4 * i + 2] == u32_bytes(w[i] as int)[2]);
        assert(s[4 * i + 3] == u32_bytes(w[i] as int)[3]);
    }
    assert(words_of(s) =~= w);
}

/// The words behind a run of whole words are the words of the bytes behind it.
pub proof fn words_of_skip(s: Seq<u8>, k: int)
    requires
        0 <= k <= s.len(),
        k % 4 == 0,
    ensures
        words_of(s).skip(k / 4) == words_of(s.skip(k)),
{
    let tail = s.skip(k);
    assert forall|i: int| 0 <= i < words_of(tail).len() implies #[trigger] words_of(tail)[i]
        == words_of(s).skip(k / 4)[i] by {
        assert(tail[4 * i] == s[k + 4 * i]);
        assert(tail[4 * i + 1] == s[k + 4 * i + 1]);
        assert(tail[4 * i + 2] == s[k + 4 * i + 2]);
        assert(tail[4 * i + 3] == s[k + 4 * i + 3]);
        assert(4 * (k / 4 + i) == k + 4 * i);
    }
    assert(words_of(s).skip(k / 4) =~= words_of(tail));
}

/// Words that stand in front are read first.
pub proof fn words_in_front(w: Seq<u32>, rest: Seq<u8>)
    ensures
        words_of(bytes_of(w) + rest).take(w.len() as int) == w,
{
    let b = bytes_of(w);
    let s = b + rest;
    words_of_bytes(w);
    assert forall|i: int| 0 <= i < w.len() implies #[trigger] words_of(s)[i] == w[i] by {
        assert(s[4 * i] == b[4 * i]);
        assert(s[4 * i + 1] == b[4 * i + 1]);
        assert(s[4 * i + 2] == b[4 * i + 2]);
        assert(s[4 * i + 3] == b[4 * i + 3]);
        assert(words_of(b)[i] == w[i]);
    }
    assert(words_of(s).take(w.len() as int) =~= w);
}

/// The bytes of two runs of words are the runs' bytes one after the other.
pub proof fn bytes_of_concat(a: Seq<u32>, b: Seq<u32>)
    ensures
        bytes_of(a + b) == bytes_of(a) + bytes_of(b),
{
    assert(bytes_of(a + b) =~= bytes_of(a) + bytes_of(b));
}

/// Read the words of a buffer.
pub fn read_words(bytes: &[u8]) -> (r: Vec<u32>)
    ensures
        r@ == words_of(bytes@),
{
    let n: usize = bytes.len() / 4;
    let mut r: Vec<u32> = Vec::new();
    let mut i: usize = 0;
    while i < n
        invariant
            i <= n,
            n == bytes@.len() / 4,
            bytes@.len() <= usize::MAX,
            r@ == words_of(bytes@).take(i as int),
        decreases n - i,
    {
        r.push(read_u32(bytes, 4 * i));
        proof {
            assert(r@ =~= words_of(bytes@).take(i + 1));
        }
        i = i + 1;
    }
    proof {
        assert(r@ =~= words_of(bytes@));
    }
    r
}

/// Append the bytes of words.
pub fn push_words(out: &mut Vec<u8>, words: &[u32])
    ensures
        final(out)@ == old(out)@ + bytes_of(words@),
{
    let mut i: usize = 0;
    proof {
        assert(out@ =~= old(out)@ + bytes_of(words@.take(0)));
    }
    while i < words.len()
        invariant
            i <= words@.len(),
            out@ == old(out)@ + bytes_of(words@.take(i as int)),
        decreases words@.len() - i,
    {
        let ghost before = out@;
        push_u32(out, words[i]);
        proof {
            let w = words@[i as int];
            assert(words@.take(i + 1) =~= words@.take(i as int) + seq![w]);
            bytes_of_concat(words@.take(i as int), seq![w]);
            assert(bytes_of(seq![w]) =~= u32_bytes(w as int));
            assert(out@ =~= old(out)@ + bytes_of(words@.take(i + 1)));
        }
        i = i + 1;
    }
    proof {
        assert(words@.take(words@.len() as int) =~= words@);
    }
}

/// Byte `k` of a buffer of words.
pub fn byte_at(words: &[u32], k: usize) -> (r: u8)
    requires
        k < 4 * words@.len(),
    ensures
        r == bytes_of(words@)[k as int],
{
    let w: u32 = words[k / 4];
    let j: usize = k % 4;
    if j == 0 {
        (w % 0x100) as u8
    } else if j == 1 {
        (w / 0x100 % 0x100) as u8
    } else if j == 2 {
        (w / 0x1_0000 % 0x100) as u8
    } else {
        (w / 0x100_0000 % 0x100) as u8
    }
}

/// Int8 values as the bytes that hold them.
pub open spec fn int8_bytes(s: Seq<i8>) -> Seq<u8> {
    s.map_values(|v: i8| v as u8)
}

/// Bytes as the int8 values they hold.
pub open spec fn bytes_int8(s: Seq<u8>) -> Seq<i8> {
    s.map_values(|b: u8| b as i8)
}

/// Int8 values survive being held in bytes.
pub proof fn int8_round_trip(s: Seq<i8>)
    ensures
        bytes_int8(int8_bytes(s)) == s,
{
    assert forall|i: int| 0 <= i < s.len() implies bytes_int8(int8_bytes(s))[i] == s[i] by {
        let v = s[i];
        assert((v as u8) as i8 == v) by (bit_vector);
    }
    assert(bytes_int8(int8_bytes(s)) =~= s);
}

} // verus!

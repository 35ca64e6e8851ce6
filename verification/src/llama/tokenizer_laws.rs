//! What a vocabulary file holds and what its tokens stand for.

use vstd::prelude::*;

use crate::bytes::{le_i32, le_u32, u32_bytes, u32_round_trip};
use crate::llama::tokenizer::{
    byte_value, decoded, hex_value, marker_shown, parsed_entries, parsed_vocab,
};

verus! {

/// A hexadecimal digit, in capitals or not.
pub open spec fn hex_digit(d: int, capital: bool) -> u8 {
    if d < 10 {
        (0x30 + d) as u8
    } else if capital {
        (0x41 + d - 10) as u8
    } else {
        (0x61 + d - 10) as u8
    }
}

/// The token `<0xHL>` stands for the byte whose digits are `H` and `L`, in capitals or not.
pub proof fn byte_tokens_stand_for_their_byte(high: int, low: int, first: bool, second: bool)
    requires
        0 <= high < 16,
        0 <= low < 16,
    ensures
        byte_value(
            seq![
                0x3cu8,
                0x30u8,
                0x78u8,
                hex_digit(high, first),
                hex_digit(low, second),
                0x3eu8,
            ],
        ) == Some(high * 16 + low),
{
}

/// A token stands for a byte only where it is written `<0xHL>`, and two tokens that stand for the
/// same byte differ in capitals at most.
pub proof fn only_byte_tokens_stand_for_bytes(p: Seq<u8>, b: int)
    requires
        byte_value(p) == Some(b),
    ensures
        0 <= b < 256,
        p.len() == 6,
        p[0] == 0x3c && p[1] == 0x30 && p[2] == 0x78 && p[5] == 0x3e,
        p[3] == hex_digit(b / 16, true) || p[3] == hex_digit(b / 16, false),
        p[4] == hex_digit(b % 16, true) || p[4] == hex_digit(b % 16, false),
{
    let (h, l) = (hex_value(p[3])->0, hex_value(p[4])->0);
    assert(b / 16 == h && b % 16 == l);
}

/// Decoding gives a byte token's byte, and the bytes of any other token, less one space in front of
/// a token that follows the opening one.
pub proof fn decoding_a_token(piece: Seq<u8>, prev: int)
    ensures
        byte_value(piece) matches Some(b) ==> decoded(piece, prev) == seq![b as u8],
        byte_value(piece) is None && prev != 1 ==> decoded(piece, prev) == piece,
        byte_value(piece) is None && (piece.len() == 0 || piece[0] != 0x20) ==> decoded(
            piece,
            prev,
        ) == piece,
        byte_value(piece) is None && prev == 1 && piece.len() > 0 && piece[0] == 0x20
            ==> seq![0x20u8] + decoded(piece, prev) == piece,
{
    if byte_value(piece) is None && prev == 1 && piece.len() > 0 && piece[0] == 0x20 {
        assert(seq![0x20u8] + decoded(piece, prev) =~= piece);
    }
}

/// A vocabulary entry in a file: its score, how many bytes it has, and the bytes.
pub open spec fn entry_image(e: (u32, Seq<u8>)) -> Seq<u8> {
    u32_bytes(e.0 as int) + u32_bytes(e.1.len() as int) + e.1
}

/// Vocabulary entries in a file, one behind the other.
pub open spec fn entries_image(v: Seq<(u32, Seq<u8>)>) -> Seq<u8>
    decreases v.len(),
{
    if v.len() == 0 {
        Seq::empty()
    } else {
        entry_image(v[0]) + entries_image(v.skip(1))
    }
}

/// A vocabulary file: the length of the longest entry, and the entries.
pub open spec fn vocab_image(longest: int, v: Seq<(u32, Seq<u8>)>) -> Seq<u8> {
    u32_bytes(longest) + entries_image(v)
}

/// Entries that stand in a file are read from there.
proof fn entries_are_read(s: Seq<u8>, pos: int, i: nat, v: Seq<(u32, Seq<u8>)>, rest: Seq<u8>)
    requires
        0 <= pos <= s.len(),
        s.skip(pos) == entries_image(v) + rest,
        forall|k: int| 0 <= k < v.len() ==> (#[trigger] v[k]).1.len() <= i32::MAX,
    ensures
        parsed_entries(s, pos, i, (i + v.len()) as nat) == Ok::<
            (Seq<(u32, Seq<u8>)>, int),
            Seq<char>,
        >((v, pos + entries_image(v).len())),
    decreases v.len(),
{
    if v.len() > 0 {
        let e = v[0];
        let tail = v.skip(1);
        let n = e.1.len() as int;
        assert(n <= i32::MAX);
        let image = entry_image(e);
        u32_round_trip(e.0 as int);
        u32_round_trip(n);
        let t = s.skip(pos);
        assert(t =~= image + (entries_image(tail) + rest));
        assert forall|k: int| 0 <= k < image.len() implies s[pos + k] == #[trigger] image[k] by {
            assert(t[k] == s[pos + k]);
        }
        assert(image[0] == u32_bytes(e.0 as int)[0]);
        assert(image[1] == u32_bytes(e.0 as int)[1]);
        assert(image[2] == u32_bytes(e.0 as int)[2]);
        assert(image[3] == u32_bytes(e.0 as int)[3]);
        assert(image[4] == u32_bytes(n)[0]);
        assert(image[5] == u32_bytes(n)[1]);
        assert(image[6] == u32_bytes(n)[2]);
        assert(image[7] == u32_bytes(n)[3]);
        assert(le_u32(s, pos) == e.0);
        assert(le_i32(s, pos + 4) == n);
        let end = pos + 8 + n;
        assert(s.subrange(pos + 8, end) =~= e.1) by {
            assert forall|k: int| 0 <= k < n implies s[pos + 8 + k] == e.1[k] by {
                assert(image[8 + k] == e.1[k]);
            }
        }
        assert(s.skip(end) =~= entries_image(tail) + rest) by {
            assert forall|k: int| 0 <= k < s.len() - end implies s.skip(end)[k] == (entries_image(
                tail,
            ) + rest)[k] by {
                assert(t[8 + n + k] == s[end + k]);
            }
        }
        entries_are_read(s, end, i + 1, tail, rest);
        assert(seq![(le_u32(s, pos) as u32, s.subrange(pos + 8, end))] + tail =~= v);
    } else {
        assert(v =~= Seq::<(u32, Seq<u8>)>::empty());
    }
}

/// A vocabulary file is read as the entries that it was written from, in their order, with their
/// scores; bytes behind the last entry are refused.
pub proof fn vocabularies_are_read_back(longest: int, v: Seq<(u32, Seq<u8>)>, rest: Seq<u8>)
    requires
        0 <= longest <= i32::MAX,
        forall|k: int| 0 <= k < v.len() ==> (#[trigger] v[k]).1.len() <= i32::MAX,
    ensures
        parsed_vocab(vocab_image(longest, v), v.len()) == Ok::<
            (int, Seq<(u32, Seq<u8>)>),
            Seq<char>,
        >((longest, v)),
        rest.len() > 0 ==> parsed_vocab(vocab_image(longest, v) + rest, v.len()) is Err,
{
    u32_round_trip(longest);
    let none = Seq::<u8>::empty();
    let s = vocab_image(longest, v);
    assert(s.skip(4) =~= entries_image(v) + none);
    entries_are_read(s, 4, 0, v, none);
    assert(s[0] == u32_bytes(longest)[0] && s[1] == u32_bytes(longest)[1] && s[2] == u32_bytes(
        longest,
    )[2] && s[3] == u32_bytes(longest)[3]);
    let t = s + rest;
    assert(t.skip(4) =~= entries_image(v) + rest);
    entries_are_read(t, 4, 0, v, rest);
    assert(t[0] == s[0] && t[1] == s[1] && t[2] == s[2] && t[3] == s[3]);
}

/// Shown text has an underscore for every marker of a word, and is the same elsewhere.
pub proof fn markers_are_shown_as_underscores(s: Seq<char>, i: int)
    requires
        0 <= i < s.len(),
    ensures
        marker_shown(s).len() == s.len(),
        s[i] == '\u{2581}' ==> marker_shown(s)[i] == '_',
        s[i] != '\u{2581}' ==> marker_shown(s)[i] == s[i],
{
}

} // verus!

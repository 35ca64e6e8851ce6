//! What the normal form of a text is, what a tokenizer file holds, and what its tokens spell.

use vstd::prelude::*;
use vstd::utf8::{encode_utf8, encode_utf8_decode_utf8, encode_utf8_valid_utf8};

use crate::bytes::{le_i32, le_u32, u32_bytes, u32_round_trip};
use crate::order::{greater, is_nan};
use crate::scalar::{Scalar, ZERO};
use crate::seq2seq::tokenizer::{
    longest, lowest, normal_char, normal_form, parsed_tokenizer, piece_table, pieces_at, spaced,
    text_at, texts_and_end, SpecialIds, Tokenizer, MARKER, UNKNOWN_MARGIN,
};
use crate::seq2seq::viterbi_laws::{is_piece, Edge};
use crate::text::is_white;
use crate::whole::{exact, is_whole, num, small};

verus! {

/// The normal form depends on what was read only.
proof fn normal_form_of_prefix(s: Seq<char>, t: Seq<char>, n: int)
    requires
        0 <= n <= s.len(),
        n <= t.len(),
        forall|i: int| 0 <= i < n ==> s[i] == t[i],
    ensures
        normal_form(s, n) == normal_form(t, n),
    decreases n,
{
    if n > 0 {
        normal_form_of_prefix(s, t, n - 1);
        assert(normal_char(s, n - 1) == normal_char(t, n - 1));
    }
}

/// A word at the end of a text, whose first `k` characters are read.
proof fn word_goes_on(t: Seq<char>, w: Seq<char>, k: int)
    requires
        0 < k <= w.len(),
        t.len() == 0 || is_white(t.last()),
        forall|i: int| 0 <= i < w.len() ==> !is_white(#[trigger] w[i]),
    ensures
        normal_form(t + w, t.len() + k) == normal_form(t, t.len() as int) + seq![MARKER] + w.take(
            k,
        ),
    decreases k,
{
    let s = t + w;
    let n = t.len() + k;
    assert(s[n - 1] == w[k - 1]);
    if k == 1 {
        normal_form_of_prefix(s, t, t.len() as int);
        if t.len() > 0 {
            assert(s[n - 2] == t.last());
        }
        assert(normal_char(s, n - 1) == seq![MARKER, w[0]]);
        assert(normal_form(s, n) =~= normal_form(t, t.len() as int) + seq![MARKER] + w.take(k));
    } else {
        word_goes_on(t, w, k - 1);
        assert(s[n - 2] == w[k - 2]);
        assert(normal_char(s, n - 1) == seq![w[k - 1]]);
        assert(normal_form(s, n) =~= normal_form(t, t.len() as int) + seq![MARKER] + w.take(k));
    }
}

/// A word that follows white space, or begins the text, goes into the normal form with a marker in
/// front of it.
pub proof fn words_are_marked(t: Seq<char>, w: Seq<char>)
    requires
        w.len() > 0,
        t.len() == 0 || is_white(t.last()),
        forall|i: int| 0 <= i < w.len() ==> !is_white(#[trigger] w[i]),
    ensures
        normal_form(t + w, (t + w).len() as int) == normal_form(t, t.len() as int) + seq![MARKER]
            + w,
{
    word_goes_on(t, w, w.len() as int);
    assert(w.take(w.len() as int) =~= w);
}

/// White space leaves nothing in the normal form.
pub proof fn white_space_is_dropped(t: Seq<char>, c: char)
    requires
        is_white(c),
    ensures
        normal_form(t.push(c), t.len() + 1int) == normal_form(t, t.len() as int),
        normal_form(Seq::empty(), 0) == Seq::<char>::empty(),
{
    let s = t.push(c);
    normal_form_of_prefix(s, t, t.len() as int);
    assert(s[t.len() as int] == c);
    assert(normal_form(s, t.len() + 1int) =~= normal_form(t, t.len() as int));
}

/// A text that a piece has is found in the table, with the token and the score of the last such
/// piece.
pub proof fn the_last_piece_counts(v: Seq<(Seq<char>, u32, u32)>, n: int, i: int)
    requires
        0 <= i < n <= v.len(),
        forall|j: int| i < j < n ==> (#[trigger] v[j]).0 != v[i].0,
    ensures
        piece_table(v, n).contains_key(v[i].0),
        piece_table(v, n)[v[i].0] == (v[i].1, v[i].2),
    decreases n,
{
    if i < n - 1 {
        the_last_piece_counts(v, n - 1, i);
        assert(v[n - 1].0 != v[i].0);
    }
}

/// A text that no piece has is not found in the table.
pub proof fn only_pieces_are_found(v: Seq<(Seq<char>, u32, u32)>, n: int, text: Seq<char>)
    requires
        0 <= n <= v.len(),
        forall|j: int| 0 <= j < n ==> (#[trigger] v[j]).0 != text,
    ensures
        !piece_table(v, n).contains_key(text),
    decreases n,
{
    if n > 0 {
        only_pieces_are_found(v, n - 1, text);
        assert(v[n - 1].0 != text);
    }
}

/// No piece is longer than the longest, which is that of a piece, or one.
pub proof fn the_longest_is_longest(v: Seq<(Seq<char>, u32, u32)>, n: int)
    requires
        0 <= n <= v.len(),
    ensures
        longest(v, n) >= 1,
        forall|i: int| 0 <= i < n ==> (#[trigger] v[i]).0.len() <= longest(v, n),
        longest(v, n) == 1 || exists|i: int|
            0 <= i < n && (#[trigger] v[i]).0.len() == longest(v, n),
    decreases n,
{
    if n > 0 {
        the_longest_is_longest(v, n - 1);
        if longest(v, n) == v[n - 1].0.len() {
            assert(v[n - 1].0.len() == longest(v, n));
        } else if longest(v, n) != 1 {
            let i = choose|i: int| 0 <= i < n - 1 && (#[trigger] v[i]).0.len() == longest(v, n - 1);
            assert(v[i].0.len() == longest(v, n));
        }
    }
}

/// No piece scores below the lowest score, which is that of a piece, or zero.
pub proof fn the_lowest_is_lowest(v: Seq<(Seq<char>, u32, u32)>, n: int)
    requires
        0 <= n <= v.len(),
    ensures
        !is_nan(lowest(v, n)),
        !greater(lowest(v, n), ZERO),
        forall|i: int| 0 <= i < n ==> !greater(lowest(v, n), (#[trigger] v[i]).2),
        lowest(v, n) == ZERO || exists|i: int| 0 <= i < n && (#[trigger] v[i]).2 == lowest(v, n),
    decreases n,
{
    if n > 0 {
        the_lowest_is_lowest(v, n - 1);
        if lowest(v, n) == v[n - 1].2 {
            assert(v[n - 1].2 == lowest(v, n));
        } else if lowest(v, n) != ZERO {
            let i = choose|i: int| 0 <= i < n - 1 && (#[trigger] v[i]).2 == lowest(v, n - 1);
            assert(v[i].2 == lowest(v, n));
        }
    }
}

/// An unknown character scores ten below the lowest piece, on whole numbers.
pub proof fn unknown_characters_score_below_all<A: Fn(Scalar) -> u32>(
    a: A,
    r: spec_fn(u32) -> Option<int>,
    t: Tokenizer,
    pieces: Seq<(Seq<char>, u32, u32)>,
    vocabulary: Seq<Seq<char>>,
    ids: SpecialIds,
)
    requires
        exact(a, r),
        r(UNKNOWN_MARGIN) == Some(10int),
        t.is_made_of(a, pieces, vocabulary, ids),
        is_whole(r, lowest(pieces, pieces.len() as int)),
        small(num(r, lowest(pieces, pieces.len() as int)) - 10),
    ensures
        r(t.unk_score) == Some(num(r, lowest(pieces, pieces.len() as int)) - 10),
{
}

/// A text in a file: how many bytes it has, and the bytes.
pub open spec fn text_image(t: Seq<char>) -> Seq<u8> {
    u32_bytes(encode_utf8(t).len() as int) + encode_utf8(t)
}

/// A piece in a file: its token, its score, and its text.
pub open spec fn piece_image(p: (Seq<char>, u32, u32)) -> Seq<u8> {
    u32_bytes(p.1 as int) + u32_bytes(p.2 as int) + text_image(p.0)
}

/// The first `n` pieces in a file, one behind the other.
pub open spec fn pieces_image(v: Seq<(Seq<char>, u32, u32)>, n: int) -> Seq<u8>
    decreases n,
{
    if n <= 0 {
        Seq::empty()
    } else {
        pieces_image(v, n - 1) + piece_image(v[n - 1])
    }
}

/// The first `n` texts in a file, one behind the other.
pub open spec fn texts_image(v: Seq<Seq<char>>, n: int) -> Seq<u8>
    decreases n,
{
    if n <= 0 {
        Seq::empty()
    } else {
        texts_image(v, n - 1) + text_image(v[n - 1])
    }
}

/// A tokenizer file: the letters `tit1`, the version, how many tokens and how many pieces there are,
/// the tokens for the unknown, the end and the padding, the pieces, and the texts of the tokens.
pub open spec fn tokenizer_image(
    pieces: Seq<(Seq<char>, u32, u32)>,
    vocabulary: Seq<Seq<char>>,
    ids: SpecialIds,
) -> Seq<u8> {
    seq![0x74u8, 0x69u8, 0x74u8, 0x31u8] + u32_bytes(1) + u32_bytes(vocabulary.len() as int)
        + u32_bytes(pieces.len() as int) + u32_bytes(ids.unk as int) + u32_bytes(ids.eos as int)
        + u32_bytes(ids.pad as int) + pieces_image(pieces, pieces.len() as int) + texts_image(
        vocabulary,
        vocabulary.len() as int,
    )
}

/// Whether `t` stands in `s` from place `o` on.
spec fn lies_at(s: Seq<u8>, o: int, t: Seq<u8>) -> bool {
    0 <= o && o + t.len() <= s.len() && s.subrange(o, o + t.len()) == t
}

proof fn word_is_read(s: Seq<u8>, o: int, v: int)
    requires
        0 <= v < 0x1_0000_0000,
        lies_at(s, o, u32_bytes(v)),
    ensures
        le_u32(s, o) == v,
        v < 0x8000_0000 ==> le_i32(s, o) == v,
{
    u32_round_trip(v);
    let t = s.subrange(o, o + 4);
    assert(u32_bytes(v).len() == 4);
    assert(t[0] == s[o] && t[1] == s[o + 1] && t[2] == s[o + 2] && t[3] == s[o + 3]);
}

/// The parts of what stands somewhere stand there too.
proof fn parts_lie_at(s: Seq<u8>, o: int, t: Seq<u8>, u: Seq<u8>)
    requires
        lies_at(s, o, t + u),
    ensures
        lies_at(s, o, t),
        lies_at(s, o + t.len(), u),
{
    let w = s.subrange(o, o + (t + u).len());
    assert(s.subrange(o, o + t.len()) =~= t) by {
        assert forall|k: int| 0 <= k < t.len() implies s[o + k] == t[k] by {
            assert(w[k] == (t + u)[k]);
        }
    }
    assert(s.subrange(o + t.len(), o + t.len() + u.len()) =~= u) by {
        assert forall|k: int| 0 <= k < u.len() implies s[o + t.len() + k] == u[k] by {
            assert(w[t.len() + k] == (t + u)[t.len() + k]);
        }
    }
}

proof fn text_is_read(s: Seq<u8>, o: int, t: Seq<char>)
    requires
        encode_utf8(t).len() < 0x1_0000_0000,
        lies_at(s, o, text_image(t)),
    ensures
        text_at(s, o) == Some((t, o + text_image(t).len())),
{
    let b = encode_utf8(t);
    parts_lie_at(s, o, u32_bytes(b.len() as int), b);
    word_is_read(s, o, b.len() as int);
    encode_utf8_valid_utf8(t);
    encode_utf8_decode_utf8(t);
}

proof fn pieces_are_read(s: Seq<u8>, o: int, v: Seq<(Seq<char>, u32, u32)>, n: int)
    requires
        0 <= n <= v.len(),
        forall|k: int|
            0 <= k < v.len() ==> encode_utf8((#[trigger] v[k]).0).len() < 0x1_0000_0000,
        lies_at(s, o, pieces_image(v, n)),
    ensures
        pieces_at(s, o, n) == Some((v.take(n), o + pieces_image(v, n).len())),
    decreases n,
{
    if n > 0 {
        let p = v[n - 1];
        parts_lie_at(s, o, pieces_image(v, n - 1), piece_image(p));
        pieces_are_read(s, o, v, n - 1);
        let at = o + pieces_image(v, n - 1).len();
        let (id, score, text) = (u32_bytes(p.1 as int), u32_bytes(p.2 as int), text_image(p.0));
        assert(piece_image(p) =~= id + (score + text));
        parts_lie_at(s, at, id, score + text);
        parts_lie_at(s, at + 4, score, text);
        word_is_read(s, at, p.1 as int);
        word_is_read(s, at + 4, p.2 as int);
        text_is_read(s, at + 8, p.0);
        assert(v.take(n) =~= v.take(n - 1).push(p));
    } else {
        assert(v.take(n) =~= Seq::empty());
    }
}

proof fn texts_are_read(s: Seq<u8>, o: int, v: Seq<Seq<char>>, n: int)
    requires
        0 <= n <= v.len(),
        forall|k: int| 0 <= k < v.len() ==> encode_utf8(#[trigger] v[k]).len() < 0x1_0000_0000,
        lies_at(s, o, texts_image(v, n)),
    ensures
        texts_and_end(s, o, n) == Some((v.take(n), o + texts_image(v, n).len())),
    decreases n,
{
    if n > 0 {
        parts_lie_at(s, o, texts_image(v, n - 1), text_image(v[n - 1]));
        texts_are_read(s, o, v, n - 1);
        text_is_read(s, o + texts_image(v, n - 1).len(), v[n - 1]);
        assert(v.take(n) =~= v.take(n - 1).push(v[n - 1]));
    } else {
        assert(v.take(n) =~= Seq::empty());
    }
}

/// A tokenizer file is read as the pieces, the texts and the special tokens that it was written
/// from.
#[verifier::rlimit(40)]
pub proof fn tokenizers_are_read_back(
    pieces: Seq<(Seq<char>, u32, u32)>,
    vocabulary: Seq<Seq<char>>,
    ids: SpecialIds,
)
    requires
        pieces.len() <= i32::MAX,
        vocabulary.len() <= i32::MAX,
        ids.unk <= i32::MAX,
        ids.eos <= i32::MAX,
        ids.pad <= i32::MAX,
        forall|k: int|
            0 <= k < pieces.len() ==> encode_utf8((#[trigger] pieces[k]).0).len() < 0x1_0000_0000,
        forall|k: int|
            0 <= k < vocabulary.len() ==> encode_utf8(#[trigger] vocabulary[k]).len()
                < 0x1_0000_0000,
    ensures
        parsed_tokenizer(tokenizer_image(pieces, vocabulary, ids)) == Some(
            (pieces, vocabulary, ids),
        ),
{
    let s = tokenizer_image(pieces, vocabulary, ids);
    let letters = seq![0x74u8, 0x69u8, 0x74u8, 0x31u8];
    let (nv, np) = (vocabulary.len() as int, pieces.len() as int);
    let b = texts_image(vocabulary, nv);
    let p = pieces_image(pieces, np);
    let w6 = u32_bytes(ids.pad as int);
    let w5 = u32_bytes(ids.eos as int);
    let w4 = u32_bytes(ids.unk as int);
    let w3 = u32_bytes(np);
    let w2 = u32_bytes(nv);
    let w1 = u32_bytes(1);
    assert(s =~= letters + (w1 + (w2 + (w3 + (w4 + (w5 + (w6 + (p + b))))))));
    assert(lies_at(s, 0, s)) by {
        assert(s.subrange(0, s.len() as int) =~= s);
    }
    parts_lie_at(s, 0, letters, w1 + (w2 + (w3 + (w4 + (w5 + (w6 + (p + b)))))));
    parts_lie_at(s, 4, w1, w2 + (w3 + (w4 + (w5 + (w6 + (p + b))))));
    parts_lie_at(s, 8, w2, w3 + (w4 + (w5 + (w6 + (p + b)))));
    parts_lie_at(s, 12, w3, w4 + (w5 + (w6 + (p + b))));
    parts_lie_at(s, 16, w4, w5 + (w6 + (p + b)));
    parts_lie_at(s, 20, w5, w6 + (p + b));
    parts_lie_at(s, 24, w6, p + b);
    parts_lie_at(s, 28, p, b);
    word_is_read(s, 4, 1);
    word_is_read(s, 8, nv);
    word_is_read(s, 12, np);
    word_is_read(s, 16, ids.unk as int);
    word_is_read(s, 20, ids.eos as int);
    word_is_read(s, 24, ids.pad as int);
    let t = s.subrange(0int, 4int);
    assert(t[0] == s[0] && t[1] == s[1] && t[2] == s[2] && t[3] == s[3]);
    assert(s[0] == 0x74 && s[1] == 0x69 && s[2] == 0x74 && s[3] == 0x31);
    pieces_are_read(s, 28, pieces, np);
    texts_are_read(s, 28int + p.len(), vocabulary, nv);
    assert(pieces.take(np) =~= pieces);
    assert(vocabulary.take(nv) =~= vocabulary);
    assert(ids.unk as int as i32 as usize == ids.unk);
}

/// Tokens spell their texts, one behind the other; the end, the padding and what is no token spell
/// nothing.
pub proof fn tokens_spell_their_texts(t: Tokenizer, ids: Seq<usize>, id: usize)
    ensures
        t.spelled(Seq::empty(), 0) == Seq::<char>::empty(),
        id == t.eos_id || id == t.pad_id || id >= t.id_to_piece@.len() ==> t.spelled(
            ids.push(id),
            ids.len() + 1int,
        ) == t.spelled(ids, ids.len() as int),
        id != t.eos_id && id != t.pad_id && id < t.id_to_piece@.len() ==> t.spelled(
            ids.push(id),
            ids.len() + 1int,
        ) == t.spelled(ids, ids.len() as int) + t.id_to_piece@[id as int]@,
{
    spelled_prefix(t, ids.push(id), ids, ids.len() as int);
}

proof fn spelled_prefix(t: Tokenizer, x: Seq<usize>, y: Seq<usize>, n: int)
    requires
        0 <= n <= x.len(),
        n <= y.len(),
        forall|i: int| 0 <= i < n ==> x[i] == y[i],
    ensures
        t.spelled(x, n) == t.spelled(y, n),
    decreases n,
{
    if n > 0 {
        spelled_prefix(t, x, y, n - 1);
    }
}

/// Markers, and nothing else, become spaces.
pub proof fn markers_become_spaces(s: Seq<char>, w: Seq<char>)
    requires
        forall|i: int| 0 <= i < w.len() ==> #[trigger] w[i] != MARKER,
    ensures
        spaced(s + seq![MARKER] + w) == spaced(s) + seq![' '] + w,
        spaced(w) == w,
{
    assert(spaced(s + seq![MARKER] + w) =~= spaced(s) + seq![' '] + w);
    assert(spaced(w) =~= w);
}

/// Every piece that stands in a text may be part of a cut there, with its own token and score,
/// unless a later piece has the same text.
pub proof fn pieces_may_be_cut_out<A: Fn(Scalar) -> u32>(
    a: A,
    t: Tokenizer,
    pieces: Seq<(Seq<char>, u32, u32)>,
    vocabulary: Seq<Seq<char>>,
    ids: SpecialIds,
    chars: Seq<char>,
    from: int,
    i: int,
)
    requires
        t.is_made_of(a, pieces, vocabulary, ids),
        0 <= i < pieces.len(),
        forall|j: int| i < j < pieces.len() ==> (#[trigger] pieces[j]).0 != pieces[i].0,
        pieces[i].0.len() > 0,
        0 <= from,
        from + pieces[i].0.len() <= chars.len(),
        chars.subrange(from, from + pieces[i].0.len()) == pieces[i].0,
    ensures
        is_piece(
            t,
            chars,
            (Edge {
                from,
                to: from + pieces[i].0.len(),
                id: pieces[i].1,
                score: pieces[i].2,
            }),
        ),
{
    let n = pieces.len() as int;
    the_last_piece_counts(pieces, n, i);
    the_longest_is_longest(pieces, n);
    assert(pieces[i].0.len() <= longest(pieces, n));
}

} // verus!

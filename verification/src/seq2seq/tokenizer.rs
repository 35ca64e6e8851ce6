//! The unigram tokenizer of an encoder-decoder model.
//!
//! Text is normalized to words that each begin with a marker, and then cut into pieces such
//! that the sum of the pieces' scores is greatest. A character that no piece covers becomes
//! the unknown token, at a score below that of every piece.

use vstd::hash_map::StringHashMap;
use vstd::prelude::*;
#[allow(unused_imports)]
use vstd::utf8::{decode_utf8, valid_utf8};

use crate::bytes::{read_i32, read_u32};
#[allow(unused_imports)]
use crate::bytes::{le_i32, le_u32};
use crate::order::gt;
#[allow(unused_imports)]
use crate::order::greater;
use crate::scalar::{eval, Scalar, ZERO};
#[allow(unused_imports)]
use crate::scalar::{is_arithmetic, minus};
use crate::text::{chars_of, trim, white};
#[allow(unused_imports)]
use crate::text::{is_white, trimmed};

verus! {

/// The marker before a word.
pub const MARKER: char = '\u{2581}';

/// The magic `"tit1"`, as a little-endian integer.
pub const TOKENIZER_MAGIC: u32 = 0x3174_6974;

/// How much worse than the worst piece an unknown character is.
pub const UNKNOWN_MARGIN: u32 = 0x4120_0000;

/// The score of what cannot be reached.
pub const NEG_INFINITY: u32 = 0xff80_0000;

/// The normal form of a character: behind a marker if it begins a word, and nothing for
/// white space.
pub open spec fn normal_char(s: Seq<char>, i: int) -> Seq<char> {
    if is_white(s[i]) {
        Seq::empty()
    } else if i == 0 || is_white(s[i - 1]) {
        seq![MARKER, s[i]]
    } else {
        seq![s[i]]
    }
}

/// The normal form of the first `n` characters.
pub open spec fn normal_form(s: Seq<char>, n: int) -> Seq<char>
    decreases n,
{
    if n <= 0 {
        Seq::empty()
    } else {
        normal_form(s, n - 1) + normal_char(s, n - 1)
    }
}

/// Normalize white space: every word behind a marker, and nothing else.
pub fn normalize(text: &str) -> (r: String)
    ensures
        r@ == normal_form(text@, text@.len() as int),
{
    let chars = chars_of(text);
    let mut out = String::new();
    let mut inside: bool = false;
    let mut i: usize = 0;
    while i < chars.len()
        invariant
            i <= chars@.len(),
            chars@ == text@,
            out@ == normal_form(text@, i as int),
            inside == (i > 0 && !is_white(text@[i - 1])),
        decreases chars@.len() - i,
    {
        let c: char = chars[i];
        if white(c) {
            inside = false;
            proof {
                assert(normal_form(text@, i + 1) =~= out@);
            }
        } else {
            let ghost before = out@;
            if !inside {
                out.push(MARKER);
            }
            out.push(c);
            proof {
                assert(out@ =~= before + normal_char(text@, i as int));
            }
            inside = true;
        }
        i = i + 1;
    }
    out
}

/// The normal form holds no white space.
pub proof fn normal_form_has_no_white_space(s: Seq<char>, n: int, i: int)
    requires
        0 <= n <= s.len(),
        0 <= i < normal_form(s, n).len(),
    ensures
        !is_white(normal_form(s, n)[i]),
    decreases n,
{
    if n > 0 {
        let before = normal_form(s, n - 1);
        if i < before.len() {
            normal_form_has_no_white_space(s, n - 1, i);
        } else {
            assert(normal_form(s, n)[i] == normal_char(s, n - 1)[i - before.len()]);
        }
    }
}

/// A tokenizer.
pub struct Tokenizer {
    /// Pieces, with their token and score.
    pub pieces: StringHashMap<(u32, u32)>,
    /// Longest piece in characters.
    pub max_piece_chars: usize,
    /// Score of an unknown character, as a bit pattern.
    pub unk_score: u32,
    /// The piece of every token.
    pub id_to_piece: Vec<String>,
    /// The unknown token.
    pub unk_id: usize,
    /// The token that ends a sequence.
    pub eos_id: usize,
    /// The padding token.
    pub pad_id: usize,
}

/// The texts of strings.
pub open spec fn texts(v: Seq<String>) -> Seq<Seq<char>> {
    v.map_values(|s: String| s@)
}

/// A piece as it is read: its text, its token, and its score.
pub struct Piece {
    /// The text.
    pub text: String,
    /// The token.
    pub id: u32,
    /// The score, as a bit pattern.
    pub score: u32,
}

impl View for Piece {
    type V = (Seq<char>, u32, u32);

    open spec fn view(&self) -> (Seq<char>, u32, u32) {
        (self.text@, self.id, self.score)
    }
}

/// Pieces as values.
pub open spec fn piece_views(v: Seq<Piece>) -> Seq<(Seq<char>, u32, u32)> {
    v.map_values(|p: Piece| p@)
}

/// The table of the first `n` pieces; a later piece of the same text replaces an earlier
/// one.
pub open spec fn piece_table(v: Seq<(Seq<char>, u32, u32)>, n: int) -> Map<Seq<char>, (u32, u32)>
    decreases n,
{
    if n <= 0 {
        Map::empty()
    } else {
        piece_table(v, n - 1).insert(v[n - 1].0, (v[n - 1].1, v[n - 1].2))
    }
}

/// The length of the longest of the first `n` pieces, at least one.
pub open spec fn longest(v: Seq<(Seq<char>, u32, u32)>, n: int) -> nat
    decreases n,
{
    if n <= 0 {
        1
    } else if v[n - 1].0.len() > longest(v, n - 1) {
        v[n - 1].0.len()
    } else {
        longest(v, n - 1)
    }
}

/// The lowest score of the first `n` pieces, at most zero; what is not a number does not
/// count.
pub open spec fn lowest(v: Seq<(Seq<char>, u32, u32)>, n: int) -> u32
    decreases n,
{
    if n <= 0 {
        ZERO
    } else if greater(lowest(v, n - 1), v[n - 1].2) {
        v[n - 1].2
    } else {
        lowest(v, n - 1)
    }
}

/// What the tokens of a special use are.
#[derive(Debug, Clone, Copy, PartialEq, Eq, Structural)]
pub struct SpecialIds {
    /// The unknown token.
    pub unk: usize,
    /// The token that ends a sequence.
    pub eos: usize,
    /// The padding token.
    pub pad: usize,
}

impl Tokenizer {
    /// Whether this tokenizer is made of these parts.
    pub open spec fn is_made_of<A: Fn(Scalar) -> u32>(
        self,
        a: A,
        pieces: Seq<(Seq<char>, u32, u32)>,
        vocabulary: Seq<Seq<char>>,
        ids: SpecialIds,
    ) -> bool {
        let n = pieces.len() as int;
        &&& self.pieces@ == piece_table(pieces, n)
        &&& self.max_piece_chars == longest(pieces, n)
        &&& self.unk_score == minus(a, lowest(pieces, n), UNKNOWN_MARGIN)
        &&& texts(self.id_to_piece@) == vocabulary
        &&& self.unk_id == ids.unk
        &&& self.eos_id == ids.eos
        &&& self.pad_id == ids.pad
    }

    /// Make a tokenizer from its pieces and its vocabulary.
    pub fn new<A: Fn(Scalar) -> u32>(
        pieces: Vec<Piece>,
        vocabulary: Vec<String>,
        ids: SpecialIds,
        a: &A,
    ) -> (r: Tokenizer)
        requires
            is_arithmetic(*a),
        ensures
            r.is_made_of(*a, piece_views(pieces@), texts(vocabulary@), ids),
    {
        let ghost views = piece_views(pieces@);
        let mut table: StringHashMap<(u32, u32)> = StringHashMap::new();
        let mut max_piece_chars: usize = 1;
        let mut min_score: u32 = ZERO;
        let mut i: usize = 0;
        while i < pieces.len()
            invariant
                i <= pieces@.len(),
                views == piece_views(pieces@),
                table@ == piece_table(views, i as int),
                max_piece_chars == longest(views, i as int),
                min_score == lowest(views, i as int),
            decreases pieces@.len() - i,
        {
            let p = &pieces[i];
            proof {
                assert(views[i as int] == p@);
            }
            let n: usize = p.text.as_str().unicode_len();
            if n > max_piece_chars {
                max_piece_chars = n;
            }
            if gt(min_score, p.score) {
                min_score = p.score;
            }
            table.insert(p.text.clone(), (p.id, p.score));
            i = i + 1;
        }
        let unk_score: u32 = eval(a, Scalar::Sub(min_score, UNKNOWN_MARGIN));
        Tokenizer {
            pieces: table,
            max_piece_chars,
            unk_score,
            id_to_piece: vocabulary,
            unk_id: ids.unk,
            eos_id: ids.eos,
            pad_id: ids.pad,
        }
    }
}

/// `String::from_utf8`: the text of bytes that are valid UTF-8, and nothing for others.
#[verifier::external_body]
fn utf8_text(bytes: &[u8]) -> (r: Option<String>)
    ensures
        match r {
            Some(s) => valid_utf8(bytes@) && s@ == decode_utf8(bytes@),
            None => !valid_utf8(bytes@),
        },
{
    String::from_utf8(bytes.to_vec()).ok()
}

/// The text at `o`: its length in bytes, then the bytes; and where it ends.
pub open spec fn text_at(s: Seq<u8>, o: int) -> Option<(Seq<char>, int)> {
    if o + 4 > s.len() || o + 4 + le_u32(s, o) > s.len() {
        None
    } else {
        let end = o + 4 + le_u32(s, o);
        let bytes = s.subrange(o + 4, end);
        if valid_utf8(bytes) {
            Some((decode_utf8(bytes), end))
        } else {
            None
        }
    }
}

/// Read the text at `o`.
fn read_text(bytes: &[u8], o: usize) -> (r: Option<(String, usize)>)
    requires
        o <= bytes@.len(),
    ensures
        match r {
            Some((t, end)) => text_at(bytes@, o as int) == Some((t@, end as int)) && o < end
                <= bytes@.len(),
            None => text_at(bytes@, o as int) is None,
        },
{
    let len: usize = bytes.len();
    if len - o < 4 {
        return None;
    }
    let n: u32 = read_u32(bytes, o);
    if (len - o - 4) < n as usize {
        return None;
    }
    let end: usize = o + 4 + n as usize;
    match utf8_text(vstd::slice::slice_subrange(bytes, o + 4, end)) {
        Some(t) => Some((t, end)),
        None => None,
    }
}

/// `n` pieces from `o` on: a token, a score, and a text each; and where they end.
pub open spec fn pieces_at(s: Seq<u8>, o: int, n: int) -> Option<
    (Seq<(Seq<char>, u32, u32)>, int),
>
    decreases n,
{
    if n <= 0 {
        Some((Seq::empty(), o))
    } else {
        match pieces_at(s, o, n - 1) {
            Some((before, at)) => if at + 8 > s.len() {
                None
            } else {
                match text_at(s, at + 8) {
                    Some((t, end)) => Some(
                        (before.push((t, le_u32(s, at) as u32, le_u32(s, at + 4) as u32)), end),
                    ),
                    None => None,
                }
            },
            None => None,
        }
    }
}

/// `n` texts from `o` on.
pub open spec fn texts_at(s: Seq<u8>, o: int, n: int) -> Option<Seq<Seq<char>>> {
    match texts_and_end(s, o, n) {
        Some((v, _)) => Some(v),
        None => None,
    }
}

/// `n` texts from `o` on, and where they end.
pub open spec fn texts_and_end(s: Seq<u8>, o: int, n: int) -> Option<(Seq<Seq<char>>, int)>
    decreases n,
{
    if n <= 0 {
        Some((Seq::empty(), o))
    } else {
        match texts_and_end(s, o, n - 1) {
            Some((before, at)) => match text_at(s, at) {
                Some((t, end)) => Some((before.push(t), end)),
                None => None,
            },
            None => None,
        }
    }
}

/// What a tokenizer file holds: the pieces, the vocabulary, and the special tokens. A
/// negative count is more than any file holds.
pub open spec fn parsed_tokenizer(s: Seq<u8>) -> Option<
    (Seq<(Seq<char>, u32, u32)>, Seq<Seq<char>>, SpecialIds),
> {
    if s.len() < 28 || le_u32(s, 0) != TOKENIZER_MAGIC || le_i32(s, 4) != 1 || le_i32(s, 8) < 0
        || le_i32(s, 12) < 0 {
        None
    } else {
        match pieces_at(s, 28, le_i32(s, 12)) {
            Some((pieces, at)) => match texts_at(s, at, le_i32(s, 8)) {
                Some(vocabulary) => Some(
                    (
                        pieces,
                        vocabulary,
                        SpecialIds {
                            unk: (le_i32(s, 16) as i32) as usize,
                            eos: (le_i32(s, 20) as i32) as usize,
                            pad: (le_i32(s, 24) as i32) as usize,
                        },
                    ),
                ),
                None => None,
            },
            None => None,
        }
    }
}

/// No more pieces are found where fewer are not.
proof fn no_pieces_behind(s: Seq<u8>, o: int, m: int, n: int)
    requires
        m <= n,
        pieces_at(s, o, m) is None,
    ensures
        pieces_at(s, o, n) is None,
    decreases n,
{
    if m < n && n > 0 {
        no_pieces_behind(s, o, m, n - 1);
    }
}

/// No more texts are found where fewer are not.
proof fn no_texts_behind(s: Seq<u8>, o: int, m: int, n: int)
    requires
        m <= n,
        texts_and_end(s, o, m) is None,
    ensures
        texts_and_end(s, o, n) is None,
    decreases n,
{
    if m < n && n > 0 {
        no_texts_behind(s, o, m, n - 1);
    }
}

impl Tokenizer {
    /// Parse a tokenizer file; nothing if it is malformed in any way.
    pub fn parse<A: Fn(Scalar) -> u32>(bytes: &[u8], a: &A) -> (r: Option<Tokenizer>)
        requires
            is_arithmetic(*a),
        ensures
            match r {
                Some(t) => match parsed_tokenizer(bytes@) {
                    Some((pieces, vocabulary, ids)) => t.is_made_of(*a, pieces, vocabulary, ids),
                    None => false,
                },
                None => parsed_tokenizer(bytes@) is None,
            },
    {
        let len: usize = bytes.len();
        if len < 28 || read_u32(bytes, 0) != TOKENIZER_MAGIC || read_i32(bytes, 4) != 1 {
            return None;
        }
        let vocab_size: i32 = read_i32(bytes, 8);
        let n_src: i32 = read_i32(bytes, 12);
        if vocab_size < 0 || n_src < 0 {
            return None;
        }
        let ids = SpecialIds {
            unk: read_i32(bytes, 16) as usize,
            eos: read_i32(bytes, 20) as usize,
            pad: read_i32(bytes, 24) as usize,
        };
        let mut pieces: Vec<Piece> = Vec::new();
        let mut at: usize = 28;
        let mut i: i32 = 0;
        proof {
            assert(piece_views(pieces@) =~= Seq::empty());
        }
        while i < n_src
            invariant
                0 <= i <= n_src,
                len == bytes@.len(),
                at <= len,
                pieces_at(bytes@, 28, i as int) == Some((piece_views(pieces@), at as int)),
                n_src == le_i32(bytes@, 12),
            decreases n_src - i,
        {
            if len - at < 8 {
                proof {
                    no_pieces_behind(bytes@, 28, i + 1, n_src as int);
                }
                return None;
            }
            let id: u32 = read_u32(bytes, at);
            let score: u32 = read_u32(bytes, at + 4);
            match read_text(bytes, at + 8) {
                Some((text, end)) => {
                    let ghost before = piece_views(pieces@);
                    let p = Piece { text, id, score };
                    pieces.push(p);
                    proof {
                        assert(piece_views(pieces@) =~= before.push(p@));
                    }
                    at = end;
                },
                None => {
                    proof {
                        no_pieces_behind(bytes@, 28, i + 1, n_src as int);
                    }
                    return None;
                },
            }
            i = i + 1;
        }
        let ghost start = at as int;
        let mut vocabulary: Vec<String> = Vec::new();
        let mut i: i32 = 0;
        proof {
            assert(texts(vocabulary@) =~= Seq::empty());
        }
        while i < vocab_size
            invariant
                0 <= i <= vocab_size,
                len == bytes@.len(),
                at <= len,
                texts_and_end(bytes@, start, i as int) == Some((texts(vocabulary@), at as int)),
                pieces_at(bytes@, 28, n_src as int) == Some((piece_views(pieces@), start)),
                n_src == le_i32(bytes@, 12),
                vocab_size == le_i32(bytes@, 8),
            decreases vocab_size - i,
        {
            match read_text(bytes, at) {
                Some((text, end)) => {
                    let ghost before = texts(vocabulary@);
                    vocabulary.push(text);
                    proof {
                        assert(texts(vocabulary@) =~= before.push(text@));
                    }
                    at = end;
                },
                None => {
                    proof {
                        no_texts_behind(bytes@, start, i + 1, vocab_size as int);
                    }
                    return None;
                },
            }
            i = i + 1;
        }
        Some(Tokenizer::new(pieces, vocabulary, ids, a))
    }

    /// The text of tokens: their pieces one behind the other, without the end and padding
    /// tokens and those that the vocabulary does not have.
    pub open spec fn spelled(self, ids: Seq<usize>, n: int) -> Seq<char>
        decreases n,
    {
        if n <= 0 {
            Seq::empty()
        } else {
            let id = ids[n - 1];
            let before = self.spelled(ids, n - 1);
            if id == self.eos_id || id == self.pad_id || id >= self.id_to_piece@.len() {
                before
            } else {
                before + self.id_to_piece@[id as int]@
            }
        }
    }

    /// Decode tokens: the text of their pieces, with spaces for the markers and no white
    /// space at the ends.
    pub fn decode(&self, ids: &[usize]) -> (r: String)
        ensures
            r@ == trimmed(spaced(self.spelled(ids@, ids@.len() as int))),
    {
        let mut s = String::new();
        let mut i: usize = 0;
        while i < ids.len()
            invariant
                i <= ids@.len(),
                s@ == self.spelled(ids@, i as int),
            decreases ids@.len() - i,
        {
            let id: usize = ids[i];
            if id != self.eos_id && id != self.pad_id && id < self.id_to_piece.len() {
                s.append(self.id_to_piece[id].as_str());
            }
            i = i + 1;
        }
        let shown = markers_to_spaces(s.as_str());
        trim(shown.as_str())
    }
}

/// Text with a space for every marker.
pub open spec fn spaced(s: Seq<char>) -> Seq<char> {
    s.map_values(
        |c: char|
            if c == MARKER {
                ' '
            } else {
                c
            },
    )
}

/// Put a space for every marker.
fn markers_to_spaces(s: &str) -> (r: String)
    ensures
        r@ == spaced(s@),
{
    let chars = chars_of(s);
    let mut out = String::new();
    let mut i: usize = 0;
    proof {
        assert(out@ =~= spaced(s@.take(0)));
    }
    while i < chars.len()
        invariant
            i <= chars@.len(),
            chars@ == s@,
            out@ == spaced(s@.take(i as int)),
        decreases chars@.len() - i,
    {
        let c: char = chars[i];
        if c == MARKER {
            out.push(' ');
        } else {
            out.push(c);
        }
        proof {
            assert(out@ =~= spaced(s@.take(i + 1)));
        }
        i = i + 1;
    }
    proof {
        assert(s@.take(s@.len() as int) =~= s@);
    }
    out
}

} // verus!

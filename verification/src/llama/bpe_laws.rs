//! What byte-pair encoding keeps: merging changes how the bytes are cut, not the bytes, it
//! stops only when nothing can be merged, and decoding gives the text back.

use vstd::prelude::*;
use vstd::utf8::{encode_scalar, encode_utf8, encode_utf8_first_scalar};

use crate::llama::bpe::{
    best_merge, best_merge_in_range, byte_tokens, char_bytes, char_tokens, encoded, found_in_range,
    has_byte_tokens, is_first, lookup, merged, merged_id, pair_merged, prefix_tokens, text_tokens,
};
use crate::llama::tokenizer::{byte_value, decoded, TokenEntry, BOS_ID, BYTE_TOKEN_OFFSET};
use crate::order::{greater, is_nan};

verus! {

/// Whether every token is in the vocabulary.
pub open spec fn in_vocabulary(pieces: Seq<Seq<u8>>, t: Seq<usize>) -> bool {
    forall|k: int| 0 <= k < t.len() ==> #[trigger] t[k] < pieces.len()
}

/// The pieces of the tokens, one behind the other.
pub open spec fn spelled(pieces: Seq<Seq<u8>>, t: Seq<usize>) -> Seq<u8>
    decreases t.len(),
{
    if t.len() == 0 {
        Seq::empty()
    } else {
        spelled(pieces, t.drop_last()) + pieces[t.last() as int]
    }
}

/// Merging a pair keeps the bytes.
proof fn pair_merge_keeps_bytes(pieces: Seq<Seq<u8>>, t: Seq<usize>, i: int, id: int)
    requires
        0 <= i < t.len() - 1,
        0 <= id < pieces.len(),
        pieces.len() <= usize::MAX,
        merged_id(pieces, t, i) == Some(id),
        in_vocabulary(pieces, t),
    ensures
        spelled(pieces, pair_merged(t, i, id)) == spelled(pieces, t),
        in_vocabulary(pieces, pair_merged(t, i, id)),
        pair_merged(t, i, id).len() == t.len() - 1,
    decreases t.len(),
{
    let m = pair_merged(t, i, id);
    found_in_range(pieces, pieces[t[i] as int] + pieces[t[i + 1] as int]);
    assert forall|k: int| 0 <= k < m.len() implies #[trigger] m[k] < pieces.len() by {
        if k < i {
            assert(m[k] == t[k]);
        } else if k > i {
            assert(m[k] == t[k + 1]);
        }
    }
    if i == t.len() - 2 {
        assert(m.drop_last() =~= t.take(i));
        assert(t.drop_last().drop_last() =~= t.take(i));
        assert(spelled(pieces, t) == spelled(pieces, t.drop_last()) + pieces[t[i + 1] as int]);
        assert(spelled(pieces, t.drop_last()) == spelled(pieces, t.take(i)) + pieces[t[i] as int]);
        assert(spelled(pieces, m) =~= spelled(pieces, t));
    } else {
        pair_merge_keeps_bytes(pieces, t.drop_last(), i, id);
        assert(m.drop_last() =~= pair_merged(t.drop_last(), i, id));
        assert(m.last() == t.last());
    }
}

/// Merging changes how the bytes are cut into tokens, not the bytes; and every token of the
/// result is in the vocabulary.
pub proof fn merging_keeps_the_bytes(pieces: Seq<Seq<u8>>, scores: Seq<u32>, t: Seq<usize>)
    requires
        pieces.len() <= usize::MAX,
        in_vocabulary(pieces, t),
    ensures
        spelled(pieces, merged(pieces, scores, t)) == spelled(pieces, t),
        in_vocabulary(pieces, merged(pieces, scores, t)),
    decreases t.len(),
{
    best_merge_in_range(pieces, scores, t, t.len() - 1);
    if let Some((i, id)) = best_merge(pieces, scores, t, t.len() - 1) {
        pair_merge_keeps_bytes(pieces, t, i, id);
        merging_keeps_the_bytes(pieces, scores, pair_merged(t, i, id));
    }
}

/// Without a best merge no pair merges.
proof fn no_best_merge(pieces: Seq<Seq<u8>>, scores: Seq<u32>, t: Seq<usize>, n: int)
    requires
        best_merge(pieces, scores, t, n) is None,
    ensures
        forall|i: int| 0 <= i < n ==> #[trigger] merged_id(pieces, t, i) is None,
    decreases n,
{
    if n > 0 {
        no_best_merge(pieces, scores, t, n - 1);
    }
}

/// Merging stops only when no adjacent pair forms a token.
pub proof fn merging_is_exhaustive(pieces: Seq<Seq<u8>>, scores: Seq<u32>, t: Seq<usize>)
    requires
        pieces.len() <= usize::MAX,
    ensures
        ({
            let m = merged(pieces, scores, t);
            forall|i: int| 0 <= i < m.len() - 1 ==> #[trigger] merged_id(pieces, m, i) is None
        }),
    decreases t.len(),
{
    best_merge_in_range(pieces, scores, t, t.len() - 1);
    match best_merge(pieces, scores, t, t.len() - 1) {
        Some((i, id)) => {
            merging_is_exhaustive(pieces, scores, pair_merged(t, i, id));
        },
        None => {
            no_best_merge(pieces, scores, t, t.len() - 1);
        },
    }
}

/// The pair that is merged first scores highest, and no earlier pair scores as high, where
/// all scores are numbers.
pub proof fn best_merge_is_highest(
    pieces: Seq<Seq<u8>>,
    scores: Seq<u32>,
    t: Seq<usize>,
    n: int,
    i: int,
)
    requires
        scores.len() == pieces.len(),
        forall|k: int| 0 <= k < scores.len() ==> !is_nan(#[trigger] scores[k]),
        0 <= i < n,
        merged_id(pieces, t, i) is Some,
    ensures
        match best_merge(pieces, scores, t, n) {
            Some((at, id)) => {
                let other = merged_id(pieces, t, i).unwrap();
                &&& merged_id(pieces, t, at) == Some(id)
                &&& !greater(scores[other], scores[id])
                &&& i < at ==> greater(scores[id], scores[other])
            },
            None => false,
        },
    decreases n,
{
    best_merge_in_range(pieces, scores, t, n);
    best_merge_in_range(pieces, scores, t, n - 1);
    found_in_range(pieces, pieces[t[i] as int] + pieces[t[i + 1] as int]);
    found_in_range(pieces, pieces[t[n - 1] as int] + pieces[t[n] as int]);
    if i < n - 1 {
        best_merge_is_highest(pieces, scores, t, n - 1, i);
    } else {
        if let Some((at, id)) = best_merge(pieces, scores, t, n - 1) {
            assert(0 <= id < pieces.len());
        }
    }
}

/// An entry that holds a piece makes the piece found, at no later entry.
proof fn held_pieces_are_found(pieces: Seq<Seq<u8>>, piece: Seq<u8>, id: int)
    requires
        0 <= id < pieces.len(),
        pieces[id] == piece,
    ensures
        lookup(pieces, piece) matches Some(first) && 0 <= first <= id && pieces[first] == piece
            && forall|j: int| 0 <= j < first ==> #[trigger] pieces[j] != piece,
    decreases id,
{
    if forall|j: int| 0 <= j < id ==> #[trigger] pieces[j] != piece {
        assert(is_first(pieces, piece, id));
        let first = choose|k: int| is_first(pieces, piece, k);
        assert(is_first(pieces, piece, first));
    } else {
        let j = choose|j: int| 0 <= j < id && !(#[trigger] pieces[j] != piece);
        held_pieces_are_found(pieces, piece, j);
    }
}

/// Merging stops only when the bytes of no two adjacent tokens, put together, are the bytes of
/// an entry of the vocabulary.
pub proof fn merging_leaves_no_pair(
    pieces: Seq<Seq<u8>>,
    scores: Seq<u32>,
    t: Seq<usize>,
    i: int,
    id: int,
)
    requires
        pieces.len() <= usize::MAX,
        in_vocabulary(pieces, t),
        0 <= i < merged(pieces, scores, t).len() - 1,
        0 <= id < pieces.len(),
    ensures
        pieces[id] != pieces[merged(pieces, scores, t)[i] as int] + pieces[merged(
            pieces,
            scores,
            t,
        )[i + 1] as int],
{
    let m = merged(pieces, scores, t);
    merging_is_exhaustive(pieces, scores, t);
    merging_keeps_the_bytes(pieces, scores, t);
    assert(m[i] < pieces.len() && m[i + 1] < pieces.len());
    assert(merged_id(pieces, m, i) is None);
    let joint = pieces[m[i] as int] + pieces[m[i + 1] as int];
    if pieces[id] == joint {
        held_pieces_are_found(pieces, joint, id);
    }
}

/// The pair that is merged first is one whose bytes, put together, are those of the entry it
/// becomes, the first such entry; and where all scores are numbers, no entry that the bytes of
/// another pair make up scores higher, nor as high if that pair stands before it.
pub proof fn the_highest_pair_is_merged(
    pieces: Seq<Seq<u8>>,
    scores: Seq<u32>,
    t: Seq<usize>,
    i: int,
    id: int,
)
    requires
        pieces.len() <= usize::MAX,
        scores.len() == pieces.len(),
        forall|k: int| 0 <= k < scores.len() ==> !is_nan(#[trigger] scores[k]),
        in_vocabulary(pieces, t),
        0 <= i < t.len() - 1,
        0 <= id < pieces.len(),
        pieces[id] == pieces[t[i] as int] + pieces[t[i + 1] as int],
        forall|k: int| 0 <= k < id ==> #[trigger] pieces[k] != pieces[id],
    ensures
        match best_merge(pieces, scores, t, t.len() - 1) {
            Some((at, new)) => {
                &&& 0 <= at < t.len() - 1
                &&& 0 <= new < pieces.len()
                &&& pieces[new] == pieces[t[at] as int] + pieces[t[at + 1] as int]
                &&& forall|k: int| 0 <= k < new ==> #[trigger] pieces[k] != pieces[new]
                &&& !greater(scores[id], scores[new])
                &&& i < at ==> greater(scores[new], scores[id])
                &&& merged(pieces, scores, t) == merged(
                    pieces,
                    scores,
                    t.take(at) + seq![new as usize] + t.skip(at + 2),
                )
            },
            None => false,
        },
{
    let n = t.len() - 1;
    let joint = pieces[t[i] as int] + pieces[t[i + 1] as int];
    assert(t[i] < pieces.len() && t[i + 1] < pieces.len());
    held_pieces_are_found(pieces, joint, id);
    assert(merged_id(pieces, t, i) == Some(id));
    best_merge_is_highest(pieces, scores, t, n, i);
    best_merge_in_range(pieces, scores, t, n);
    if let Some((at, new)) = best_merge(pieces, scores, t, n) {
        found_in_range(pieces, pieces[t[at] as int] + pieces[t[at + 1] as int]);
        let other = pieces[t[at] as int] + pieces[t[at + 1] as int];
        assert(lookup(pieces, other) == Some(new));
        let first = choose|k: int| is_first(pieces, other, k);
        assert(is_first(pieces, other, first));
        assert(pair_merged(t, at, new) =~= t.take(at) + seq![new as usize] + t.skip(at + 2));
    }
}

/// In an encoded text the bytes of no two adjacent tokens, put together, are the bytes of an
/// entry of the vocabulary.
pub proof fn encoding_leaves_no_pair(
    pieces: Seq<Seq<u8>>,
    scores: Seq<u32>,
    text: Seq<char>,
    bos: bool,
    i: int,
    id: int,
)
    requires
        BOS_ID < pieces.len() <= usize::MAX,
        0 <= i < encoded(pieces, scores, text, bos).len() - 1,
        0 <= id < pieces.len(),
    ensures
        pieces[id] != pieces[encoded(pieces, scores, text, bos)[i] as int] + pieces[encoded(
            pieces,
            scores,
            text,
            bos,
        )[i + 1] as int],
{
    found_in_range(pieces, seq![0x20u8]);
    text_tokens_in_vocabulary(pieces, text);
    let t = prefix_tokens(pieces, text, bos) + text_tokens(pieces, text);
    assert(in_vocabulary(pieces, prefix_tokens(pieces, text, bos)));
    assert(in_vocabulary(pieces, t));
    merging_leaves_no_pair(pieces, scores, t, i, id);
}

/// A character takes one to four bytes.
proof fn char_bytes_len(c: char)
    ensures
        char_bytes(c) == encode_scalar(c as u32),
        1 <= char_bytes(c).len() <= 4,
{
    assert(seq![c].drop_first() =~= Seq::<char>::empty());
    reveal_with_fuel(encode_utf8, 2);
    assert(char_bytes(c) =~= encode_scalar(c as u32));
}

/// Only the space starts with the byte of a space.
proof fn space_byte(c: char)
    ensures
        char_bytes(' ') == seq![0x20u8],
        char_bytes(c)[0] == 0x20 ==> c == ' ',
{
    char_bytes_len(' ');
    char_bytes_len(c);
    assert((0x20u32 & 0x7f) as u8 == 0x20u8) by (bit_vector);
    assert(char_bytes(' ') =~= seq![0x20u8]);
    encode_utf8_first_scalar(seq![c]);
}

/// Encoding one more character.
proof fn utf8_of_push(s: Seq<char>, c: char)
    ensures
        encode_utf8(s.push(c)) == encode_utf8(s) + char_bytes(c),
    decreases s.len(),
{
    char_bytes_len(c);
    if s.len() == 0 {
        assert(s.push(c) =~= seq![c]);
        assert(encode_utf8(s) + char_bytes(c) =~= char_bytes(c));
    } else {
        utf8_of_push(s.drop_first(), c);
        assert(s.push(c).drop_first() =~= s.drop_first().push(c));
        assert(encode_utf8(s.push(c)) == encode_scalar(s[0] as u32) + encode_utf8(
            s.drop_first().push(c),
        ));
        assert(encode_utf8(s.push(c)) =~= encode_utf8(s) + char_bytes(c));
    }
}

/// Whether a token is in the vocabulary.
proof fn char_tokens_in_vocabulary(pieces: Seq<Seq<u8>>, c: char)
    requires
        0 < pieces.len() <= usize::MAX,
    ensures
        in_vocabulary(pieces, char_tokens(pieces, c)),
{
    found_in_range(pieces, char_bytes(c));
    let bytes = char_bytes(c);
    if lookup(pieces, bytes) is None && has_byte_tokens(pieces, bytes) {
        let t = byte_tokens(bytes);
        assert forall|k: int| 0 <= k < t.len() implies #[trigger] t[k] < pieces.len() by {
            let id = bytes[k] + BYTE_TOKEN_OFFSET;
            assert(id < pieces.len());
        }
    }
}

/// The tokens of text are in the vocabulary.
proof fn text_tokens_in_vocabulary(pieces: Seq<Seq<u8>>, text: Seq<char>)
    requires
        0 < pieces.len() <= usize::MAX,
    ensures
        in_vocabulary(pieces, text_tokens(pieces, text)),
    decreases text.len(),
{
    if text.len() > 0 {
        text_tokens_in_vocabulary(pieces, text.drop_last());
        char_tokens_in_vocabulary(pieces, text.last());
    }
}

/// Every token of an encoded text is in the vocabulary, if the opening token is.
pub proof fn encoding_stays_in_the_vocabulary(
    pieces: Seq<Seq<u8>>,
    scores: Seq<u32>,
    text: Seq<char>,
    bos: bool,
)
    requires
        BOS_ID < pieces.len() <= usize::MAX,
    ensures
        in_vocabulary(pieces, encoded(pieces, scores, text, bos)),
{
    found_in_range(pieces, seq![0x20u8]);
    text_tokens_in_vocabulary(pieces, text);
    let t = prefix_tokens(pieces, text, bos) + text_tokens(pieces, text);
    assert(in_vocabulary(pieces, prefix_tokens(pieces, text, bos)));
    assert(in_vocabulary(pieces, t));
    merging_keeps_the_bytes(pieces, scores, t);
}

/// Whether the special tokens keep to themselves: neither the opening token nor a
/// byte-fallback token is part or result of a merge, and the opening token is not the token
/// of a character.
pub open spec fn special_tokens_apart(pieces: Seq<Seq<u8>>) -> bool {
    &&& forall|c: char| pieces[BOS_ID as int] != #[trigger] char_bytes(c)
    &&& forall|i: int, j: int, k: int|
        #![trigger pieces[i], pieces[j], pieces[k]]
        0 <= i < pieces.len() && 0 <= j < pieces.len() && 0 <= k < pieces.len() && pieces[k]
            == pieces[i] + pieces[j] ==> is_plain(pieces, i) && is_plain(pieces, j) && is_plain(
            pieces,
            k,
        )
}

/// Whether a token is neither the opening one nor a byte-fallback one.
pub open spec fn is_plain(pieces: Seq<Seq<u8>>, id: int) -> bool {
    id != BOS_ID && byte_value(pieces[id]) is None
}

/// Whether every character has a token, or its bytes have.
pub open spec fn expressible(pieces: Seq<Seq<u8>>, text: Seq<char>) -> bool {
    forall|k: int|
        0 <= k < text.len() ==> {
            let bytes = char_bytes(#[trigger] text[k]);
            lookup(pieces, bytes) is Some || has_byte_tokens(pieces, bytes)
        }
}

/// What decoding the tokens behind the first gives, each behind the one before.
pub open spec fn decoded_stream(pieces: Seq<Seq<u8>>, t: Seq<usize>) -> Seq<u8>
    decreases t.len(),
{
    if t.len() <= 1 {
        Seq::empty()
    } else {
        decoded_stream(pieces, t.drop_last()) + decoded(
            pieces[t.last() as int],
            t[t.len() - 2] as int,
        )
    }
}

/// The bytes that a token stands for.
pub open spec fn own_bytes(piece: Seq<u8>) -> Seq<u8> {
    match byte_value(piece) {
        Some(b) => seq![b as u8],
        None => piece,
    }
}

/// The bytes that the tokens behind the first stand for.
pub open spec fn content(pieces: Seq<Seq<u8>>, t: Seq<usize>) -> Seq<u8>
    decreases t.len(),
{
    if t.len() <= 1 {
        Seq::empty()
    } else {
        content(pieces, t.drop_last()) + own_bytes(pieces[t.last() as int])
    }
}

/// Whether the tokens are the opening one and then others, all of them in the vocabulary
/// and none of them empty.
pub open spec fn opens_once(pieces: Seq<Seq<u8>>, t: Seq<usize>) -> bool {
    &&& t.len() > 0
    &&& t[0] == BOS_ID
    &&& in_vocabulary(pieces, t)
    &&& forall|k: int|
        0 < k < t.len() ==> #[trigger] t[k] != BOS_ID && pieces[t[k] as int].len() > 0
}

/// Merging a pair keeps what the tokens stand for.
proof fn pair_merge_keeps_content(pieces: Seq<Seq<u8>>, t: Seq<usize>, i: int, id: int)
    requires
        0 < i < t.len() - 1,
        0 <= id < pieces.len() <= usize::MAX,
        in_vocabulary(pieces, t),
        pieces[id] == pieces[t[i] as int] + pieces[t[i + 1] as int],
        is_plain(pieces, t[i] as int),
        is_plain(pieces, t[i + 1] as int),
        is_plain(pieces, id),
    ensures
        content(pieces, pair_merged(t, i, id)) == content(pieces, t),
    decreases t.len(),
{
    let m = pair_merged(t, i, id);
    if i == t.len() - 2 {
        assert(m.drop_last() =~= t.take(i));
        assert(t.drop_last().drop_last() =~= t.take(i));
        assert(m.last() == id);
        assert(content(pieces, t) == content(pieces, t.drop_last()) + pieces[t[i + 1] as int]);
        assert(content(pieces, t.drop_last()) == content(pieces, t.take(i)) + pieces[t[i] as int]);
        assert(content(pieces, m) =~= content(pieces, t));
    } else {
        pair_merge_keeps_content(pieces, t.drop_last(), i, id);
        assert(m.drop_last() =~= pair_merged(t.drop_last(), i, id));
        assert(m.last() == t.last());
    }
}

/// Merging keeps the opening token in front, what the tokens stand for, and whether the
/// second token is a byte-fallback one.
proof fn merging_keeps_the_content(pieces: Seq<Seq<u8>>, scores: Seq<u32>, t: Seq<usize>)
    requires
        BOS_ID < pieces.len() <= usize::MAX,
        special_tokens_apart(pieces),
        opens_once(pieces, t),
    ensures
        ({
            let m = merged(pieces, scores, t);
            &&& opens_once(pieces, m)
            &&& content(pieces, m) == content(pieces, t)
            &&& m.len() > 1 <==> t.len() > 1
            &&& t.len() > 1 ==> (byte_value(pieces[m[1] as int]) is Some <==> byte_value(
                pieces[t[1] as int],
            ) is Some)
        }),
    decreases t.len(),
{
    best_merge_in_range(pieces, scores, t, t.len() - 1);
    if let Some((i, id)) = best_merge(pieces, scores, t, t.len() - 1) {
        let a = t[i] as int;
        let b = t[i + 1] as int;
        found_in_range(pieces, pieces[a] + pieces[b]);
        assert(pieces[id] == pieces[a] + pieces[b]);
        assert(is_plain(pieces, a) && is_plain(pieces, b) && is_plain(pieces, id));
        pair_merge_keeps_content(pieces, t, i, id);
        pair_merge_keeps_bytes(pieces, t, i, id);
        let m = pair_merged(t, i, id);
        assert forall|k: int| 0 < k < m.len() implies #[trigger] m[k] != BOS_ID
            && pieces[m[k] as int].len() > 0 by {
            if k < i {
                assert(m[k] == t[k]);
            } else if k > i {
                assert(m[k] == t[k + 1]);
            } else {
                assert(m[k] == id);
                assert(pieces[t[i] as int].len() > 0);
            }
        }
        assert(m[0] == t[0]);
        assert(m[1] == (if i == 1 {
            id as usize
        } else {
            t[1]
        }));
        merging_keeps_the_content(pieces, scores, m);
    }
}

/// Decoding gives what the tokens stand for, but for a space right behind the opening
/// token.
proof fn stream_is_content(pieces: Seq<Seq<u8>>, t: Seq<usize>)
    requires
        opens_once(pieces, t),
        BOS_ID < pieces.len(),
    ensures
        t.len() > 1 ==> {
            let first = pieces[t[1] as int];
            let stripped = byte_value(first) is None && first[0] == 0x20;
            &&& content(pieces, t).len() >= own_bytes(first).len()
            &&& content(pieces, t).len() > 0
            &&& content(pieces, t)[0] == own_bytes(first)[0]
            &&& decoded_stream(pieces, t) == (if stripped {
                content(pieces, t).skip(1)
            } else {
                content(pieces, t)
            })
        },
    decreases t.len(),
{
    if t.len() > 1 {
        let first = pieces[t[1] as int];
        let stripped = byte_value(first) is None && first[0] == 0x20;
        assert(first.len() > 0);
        let d = t.drop_last();
        if t.len() == 2 {
            assert(decoded_stream(pieces, d) =~= Seq::<u8>::empty());
            assert(content(pieces, d) =~= Seq::<u8>::empty());
            assert(content(pieces, t) =~= own_bytes(first));
            assert(decoded_stream(pieces, t) =~= decoded(first, t[0] as int));
            if stripped {
                assert(first.subrange(1, first.len() as int) =~= first.skip(1));
            }
        } else {
            stream_is_content(pieces, d);
            let last = pieces[t.last() as int];
            assert(t[t.len() - 2] != BOS_ID);
            assert(decoded(last, t[t.len() - 2] as int) == own_bytes(last));
            let whole = content(pieces, d) + own_bytes(last);
            if stripped {
                assert(content(pieces, d).skip(1) + own_bytes(last) =~= whole.skip(1));
            }
        }
    }
}

/// Appending the byte-fallback tokens of bytes appends the bytes.
proof fn byte_tokens_content(pieces: Seq<Seq<u8>>, t: Seq<usize>, bytes: Seq<u8>)
    requires
        opens_once(pieces, t),
        has_byte_tokens(pieces, bytes),
    ensures
        opens_once(pieces, t + byte_tokens(bytes)),
        content(pieces, t + byte_tokens(bytes)) == content(pieces, t) + bytes,
    decreases bytes.len(),
{
    let added = byte_tokens(bytes);
    if bytes.len() == 0 {
        assert(t + added =~= t);
        assert(content(pieces, t) + bytes =~= content(pieces, t));
    } else {
        let rest = bytes.drop_last();
        assert forall|k: int| 0 <= k < rest.len() implies {
            let id = #[trigger] rest[k] + BYTE_TOKEN_OFFSET;
            id < pieces.len() && byte_value(pieces[id]) == Some(rest[k] as int)
        } by {
            assert(rest[k] == bytes[k]);
        }
        byte_tokens_content(pieces, t, rest);
        let b = bytes.last();
        let id = bytes[bytes.len() - 1] + BYTE_TOKEN_OFFSET;
        assert(byte_value(pieces[id]) == Some(b as int));
        let before = t + byte_tokens(rest);
        assert((t + added).drop_last() =~= before);
        assert((t + added).last() == id as usize);
        assert forall|k: int| 0 < k < (t + added).len() implies #[trigger] (t + added)[k]
            != BOS_ID && pieces[(t + added)[k] as int].len() > 0 by {
            if k < before.len() {
                assert((t + added)[k] == before[k]);
            }
        }
        assert forall|k: int| 0 <= k < (t + added).len() implies #[trigger] (t + added)[k]
            < pieces.len() by {
            if k < before.len() {
                assert((t + added)[k] == before[k]);
            }
        }
        assert(content(pieces, t + added) == content(pieces, before) + seq![b]);
        assert(content(pieces, t) + rest + seq![b] =~= content(pieces, t) + bytes);
    }
}

/// Appending a token of a piece that is not of the byte form appends the piece.
proof fn token_content(pieces: Seq<Seq<u8>>, t: Seq<usize>, id: int)
    requires
        opens_once(pieces, t),
        0 <= id < pieces.len() <= usize::MAX,
        is_plain(pieces, id),
        pieces[id].len() > 0,
    ensures
        opens_once(pieces, t + seq![id as usize]),
        content(pieces, t + seq![id as usize]) == content(pieces, t) + pieces[id],
{
    let s = t + seq![id as usize];
    assert(s.drop_last() =~= t);
    assert forall|k: int| 0 < k < s.len() implies #[trigger] s[k] != BOS_ID
        && pieces[s[k] as int].len() > 0 by {
        if k < t.len() {
            assert(s[k] == t[k]);
        }
    }
}

/// The tokens of a text stand for its bytes.
proof fn text_content(pieces: Seq<Seq<u8>>, t: Seq<usize>, text: Seq<char>)
    requires
        BOS_ID < pieces.len() <= usize::MAX,
        special_tokens_apart(pieces),
        expressible(pieces, text),
        opens_once(pieces, t),
    ensures
        opens_once(pieces, t + text_tokens(pieces, text)),
        content(pieces, t + text_tokens(pieces, text)) == content(pieces, t) + encode_utf8(text),
    decreases text.len(),
{
    if text.len() == 0 {
        assert(t + text_tokens(pieces, text) =~= t);
        assert(content(pieces, t) + encode_utf8(text) =~= content(pieces, t));
    } else {
        let rest = text.drop_last();
        let c = text.last();
        assert forall|k: int| 0 <= k < rest.len() implies {
            let bytes = char_bytes(#[trigger] rest[k]);
            lookup(pieces, bytes) is Some || has_byte_tokens(pieces, bytes)
        } by {
            assert(rest[k] == text[k]);
        }
        text_content(pieces, t, rest);
        assert(text =~= rest.push(c));
        utf8_of_push(rest, c);
        char_bytes_len(c);
        let bytes = char_bytes(c);
        let before = t + text_tokens(pieces, rest);
        assert(text[text.len() - 1] == c);
        found_in_range(pieces, bytes);
        match lookup(pieces, bytes) {
            Some(id) => {
                assert(pieces[BOS_ID as int] != char_bytes(c));
                token_content(pieces, before, id);
            },
            None => {
                byte_tokens_content(pieces, before, bytes);
            },
        }
        assert(t + text_tokens(pieces, text) =~= before + char_tokens(pieces, c));
        assert(content(pieces, t) + encode_utf8(rest) + bytes =~= content(pieces, t)
            + encode_utf8(text));
    }
}

/// Decoding an encoded text gives the text back, byte for byte, provided the special tokens
/// keep to themselves and the vocabulary can express the text. The opening token comes first
/// and nowhere else.
#[verifier::rlimit(30)]
pub proof fn decoding_gives_the_text_back(
    pieces: Seq<Seq<u8>>,
    scores: Seq<u32>,
    text: Seq<char>,
)
    requires
        BOS_ID < pieces.len() <= usize::MAX,
        special_tokens_apart(pieces),
        expressible(pieces, text),
    ensures
        decoded_stream(pieces, encoded(pieces, scores, text, true)) == encode_utf8(text),
        opens_once(pieces, encoded(pieces, scores, text, true)),
{
    let opening = seq![BOS_ID];
    let prefix = prefix_tokens(pieces, text, true);
    let space = seq![0x20u8];
    let t = prefix + text_tokens(pieces, text);
    let m = merged(pieces, scores, t);
    assert(opens_once(pieces, opening));
    found_in_range(pieces, space);
    space_byte(' ');
    if text.len() == 0 {
        assert(prefix =~= opening);
        assert(t =~= opening);
        merging_keeps_the_content(pieces, scores, t);
        assert(encode_utf8(text) =~= Seq::<u8>::empty());
    } else {
        space_byte(text[0]);
        char_bytes_len(text[0]);
        assert(encode_utf8(text) == encode_scalar(text[0] as u32) + encode_utf8(
            text.drop_first(),
        ));
        match lookup(pieces, space) {
            Some(id) => {
                assert(pieces[BOS_ID as int] != char_bytes(' '));
                token_content(pieces, opening, id);
                assert(prefix =~= opening + seq![id as usize]);
                text_content(pieces, prefix, text);
                merging_keeps_the_content(pieces, scores, t);
                stream_is_content(pieces, m);
                assert(t[1] == id);
                assert(content(pieces, opening) + space =~= space);
                assert((space + encode_utf8(text)).skip(1) =~= encode_utf8(text));
            },
            None => {
                assert(prefix =~= opening);
                text_content(pieces, opening, text);
                assert(content(pieces, opening) + encode_utf8(text) =~= encode_utf8(text));
                first_token(pieces, text);
                merging_keeps_the_content(pieces, scores, t);
                stream_is_content(pieces, m);
                assert(t[1] == text_tokens(pieces, text)[0]);
            },
        }
    }
}

/// The first token of a text is that of its first character, or of its first byte.
proof fn first_token(pieces: Seq<Seq<u8>>, text: Seq<char>)
    requires
        text.len() > 0,
        expressible(pieces, text),
        pieces.len() <= usize::MAX,
    ensures
        ({
            let t = text_tokens(pieces, text);
            let bytes = char_bytes(text[0]);
            &&& t.len() > 0
            &&& match lookup(pieces, bytes) {
                Some(id) => t[0] == id && pieces[id] == bytes,
                None => byte_value(pieces[t[0] as int]) is Some,
            }
        }),
    decreases text.len(),
{
    let bytes = char_bytes(text[0]);
    char_bytes_len(text[0]);
    if text.len() == 1 {
        assert(text.last() == text[0]);
        found_in_range(pieces, bytes);
        assert(text_tokens(pieces, text.drop_last()) =~= Seq::<usize>::empty());
        assert(text_tokens(pieces, text) =~= char_tokens(pieces, text[0]));
        if lookup(pieces, bytes) is None {
            let id = bytes[0] + BYTE_TOKEN_OFFSET;
            assert(byte_value(pieces[id]) == Some(bytes[0] as int));
            assert(byte_tokens(bytes)[0] == id as usize);
        }
    } else {
        let rest = text.drop_last();
        assert forall|k: int| 0 <= k < rest.len() implies {
            let bytes = char_bytes(#[trigger] rest[k]);
            lookup(pieces, bytes) is Some || has_byte_tokens(pieces, bytes)
        } by {
            assert(rest[k] == text[k]);
        }
        first_token(pieces, rest);
        assert(rest[0] == text[0]);
    }
}

/// A character that an entry of the vocabulary holds becomes the first such entry. Any other becomes
/// the tokens of its bytes, which lie three behind the bytes, where the vocabulary has them all; and
/// the unknown token otherwise.
pub proof fn characters_become_tokens(pieces: Seq<Seq<u8>>, c: char, id: int)
    ensures
        0 <= id < pieces.len() && pieces[id] == encode_utf8(seq![c]) && (forall|k: int|
            0 <= k < id ==> #[trigger] pieces[k] != pieces[id]) ==> char_tokens(pieces, c)
            == seq![id as usize],
        (forall|k: int| 0 <= k < pieces.len() ==> #[trigger] pieces[k] != encode_utf8(seq![c]))
            ==> ({
            let bytes = encode_utf8(seq![c]);
            let all = forall|k: int|
                0 <= k < bytes.len() ==> #[trigger] bytes[k] + 3 < pieces.len() && byte_value(
                    pieces[bytes[k] + 3],
                ) == Some(bytes[k] as int);
            &&& all ==> char_tokens(pieces, c).len() == bytes.len() && forall|k: int|
                0 <= k < bytes.len() ==> #[trigger] char_tokens(pieces, c)[k] == bytes[k] + 3
            &&& !all ==> char_tokens(pieces, c) == seq![0usize]
        }),
{
    let bytes = encode_utf8(seq![c]);
    if 0 <= id < pieces.len() && pieces[id] == bytes && (forall|k: int|
        0 <= k < id ==> #[trigger] pieces[k] != pieces[id]) {
        held_pieces_are_found(pieces, bytes, id);
    }
    if forall|k: int| 0 <= k < pieces.len() ==> #[trigger] pieces[k] != bytes {
        if lookup(pieces, bytes) is Some {
            let first = choose|k: int| is_first(pieces, bytes, k);
            assert(is_first(pieces, bytes, first));
        }
    }
}

/// What a text is before merging: the opening token where it is asked for, the token of a space where
/// there is text and the vocabulary has it, and the tokens of the characters, one behind the other.
pub proof fn texts_begin_with_a_space(
    pieces: Seq<Seq<u8>>,
    scores: Seq<u32>,
    text: Seq<char>,
    space: int,
)
    requires
        0 <= space < pieces.len(),
        pieces[space] == seq![0x20u8],
        forall|k: int| 0 <= k < space ==> #[trigger] pieces[k] != pieces[space],
        text.len() > 0,
    ensures
        encoded(pieces, scores, text, true) == merged(
            pieces,
            scores,
            seq![1usize, space as usize] + text_tokens(pieces, text),
        ),
        encoded(pieces, scores, text, false) == merged(
            pieces,
            scores,
            seq![space as usize] + text_tokens(pieces, text),
        ),
        encoded(pieces, scores, Seq::empty(), true) == merged(pieces, scores, seq![1usize]),
        encoded(pieces, scores, Seq::empty(), false) == merged(pieces, scores, Seq::empty()),
        text_tokens(pieces, text) == text_tokens(pieces, text.drop_last()) + char_tokens(
            pieces,
            text.last(),
        ),
{
    held_pieces_are_found(pieces, seq![0x20u8], space);
    let none = Seq::<char>::empty();
    let t = text_tokens(pieces, text);
    assert(prefix_tokens(pieces, text, true) =~= seq![1usize, space as usize]);
    assert(prefix_tokens(pieces, text, false) =~= seq![space as usize]);
    assert(prefix_tokens(pieces, none, true) + text_tokens(pieces, none) =~= seq![1usize]);
    assert(prefix_tokens(pieces, none, false) + text_tokens(pieces, none) =~= Seq::<usize>::empty());
}

/// The bytes and the score of a token are those of the entry that has its number.
pub proof fn entries_keep_their_place(tokens: Seq<TokenEntry>, id: int)
    requires
        0 <= id < tokens.len(),
    ensures
        crate::llama::bpe::pieces(tokens).len() == tokens.len(),
        crate::llama::bpe::pieces(tokens)[id] == tokens[id].bytes@,
        crate::llama::bpe::scores(tokens).len() == tokens.len(),
        crate::llama::bpe::scores(tokens)[id] == tokens[id].score,
{
}

} // verus!

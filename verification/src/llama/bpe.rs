//! Byte-pair encoding: text to tokens.
//!
//! Text is first cut into one token per character, with the character's bytes standing in
//! where it has no token of its own; then the adjacent pair whose merged token scores
//! highest is merged, again and again, until no adjacent pair forms a token.

use vstd::prelude::*;
use vstd::std_specs::hash::*;
use vstd::utf8::encode_utf8;
use std::collections::HashMap;

use crate::llama::tokenizer::{TokenEntry, Vocab, BOS_ID, BYTE_TOKEN_OFFSET};
#[allow(unused_imports)]
use crate::llama::tokenizer::byte_value;
use crate::order::gt;
#[allow(unused_imports)]
use crate::order::greater;
use crate::text::chars_of;

verus! {

/// The token for what the vocabulary cannot express.
pub const UNK_ID: usize = 0;

/// The pieces of a vocabulary.
pub open spec fn pieces(tokens: Seq<TokenEntry>) -> Seq<Seq<u8>> {
    tokens.map_values(|t: TokenEntry| t.bytes@)
}

/// The scores of a vocabulary.
pub open spec fn scores(tokens: Seq<TokenEntry>) -> Seq<u32> {
    tokens.map_values(|t: TokenEntry| t.score)
}

/// Whether `id` is the first token with this piece.
pub open spec fn is_first(pieces: Seq<Seq<u8>>, piece: Seq<u8>, id: int) -> bool {
    &&& 0 <= id < pieces.len()
    &&& pieces[id] == piece
    &&& forall|j: int| 0 <= j < id ==> #[trigger] pieces[j] != piece
}

/// The first token with a piece, if there is one.
pub open spec fn lookup(pieces: Seq<Seq<u8>>, piece: Seq<u8>) -> Option<int> {
    if exists|id: int| is_first(pieces, piece, id) {
        Some(choose|id: int| is_first(pieces, piece, id))
    } else {
        None
    }
}

/// A piece's place in the index.
pub open spec fn digest(piece: Seq<u8>) -> int
    decreases piece.len(),
{
    if piece.len() == 0 {
        0
    } else {
        (digest(piece.drop_last()) * 257 + piece.last()) % 0xffff_fffb
    }
}

/// A piece's place in the index.
fn digest_of(piece: &[u8]) -> (r: u64)
    ensures
        r == digest(piece@),
{
    let mut acc: u64 = 0;
    let mut i: usize = 0;
    while i < piece.len()
        invariant
            i <= piece@.len(),
            acc < 0xffff_fffb,
            acc == digest(piece@.take(i as int)),
        decreases piece@.len() - i,
    {
        proof {
            assert(piece@.take(i + 1).drop_last() =~= piece@.take(i as int));
        }
        acc = (acc * 257 + piece[i] as u64) % 0xffff_fffb;
        i = i + 1;
    }
    proof {
        assert(piece@.take(piece@.len() as int) =~= piece@);
    }
    acc
}

/// Whether two byte strings are the same.
fn same_bytes(a: &[u8], b: &[u8]) -> (r: bool)
    ensures
        r == (a@ == b@),
{
    if a.len() != b.len() {
        return false;
    }
    let mut i: usize = 0;
    while i < a.len()
        invariant
            i <= a@.len(),
            a@.len() == b@.len(),
            forall|k: int| 0 <= k < i ==> a@[k] == b@[k],
        decreases a@.len() - i,
    {
        if a[i] != b[i] {
            return false;
        }
        i = i + 1;
    }
    proof {
        assert(a@ =~= b@);
    }
    true
}

/// Whether every bucket holds exactly the tokens whose piece belongs there, in order.
pub open spec fn indexes(m: Map<u64, Vec<usize>>, pieces: Seq<Seq<u8>>) -> bool {
    &&& forall|k: u64, p: int, q: int|
        m.dom().contains(k) && 0 <= p < q < m[k]@.len() ==> (#[trigger] m[k]@[p])
            < (#[trigger] m[k]@[q])
    &&& forall|k: u64, p: int|
        m.dom().contains(k) && 0 <= p < m[k]@.len() ==> (#[trigger] m[k]@[p]) < pieces.len()
    &&& forall|id: int| 0 <= id < pieces.len() ==> is_indexed(m, #[trigger] pieces[id], id)
}

/// Whether token `id` stands in the bucket of its piece.
pub open spec fn is_indexed(m: Map<u64, Vec<usize>>, piece: Seq<u8>, id: int) -> bool {
    let k = digest(piece) as u64;
    m.dom().contains(k) && m[k]@.contains(id as usize)
}

/// A way from pieces to tokens.
pub struct PieceIndex {
    buckets: HashMap<u64, Vec<usize>>,
}

impl PieceIndex {
    /// The index leads from each piece to its tokens.
    pub closed spec fn leads_to(self, pieces: Seq<Seq<u8>>) -> bool {
        indexes(self.buckets@, pieces)
    }

    /// Index a vocabulary.
    pub fn new(tokens: &Vec<TokenEntry>) -> (r: Self)
        ensures
            r.leads_to(pieces(tokens@)),
    {
        broadcast use group_hash_axioms;

        let mut buckets: HashMap<u64, Vec<usize>> = HashMap::new();
        let mut id: usize = 0;
        while id < tokens.len()
            invariant
                id <= tokens@.len(),
                indexes(buckets@, pieces(tokens@.take(id as int))),
            decreases tokens@.len() - id,
        {
            let key: u64 = digest_of(tokens[id].bytes.as_slice());
            let ghost before = buckets@;
            let ghost known = pieces(tokens@.take(id as int));
            let mut bucket: Vec<usize> = match buckets.remove(&key) {
                Some(v) => v,
                None => Vec::new(),
            };
            let ghost held = bucket@;
            bucket.push(id);
            let ghost grown = bucket@;
            buckets.insert(key, bucket);
            proof {
                let now = pieces(tokens@.take(id + 1));
                let m = buckets@;
                assert(now.len() == known.len() + 1);
                assert(forall|j: int| 0 <= j < id ==> #[trigger] now[j] == known[j]);
                assert(grown == held.push(id));
                assert(m[key]@ == grown);
                if before.dom().contains(key) {
                    assert(held == before[key]@);
                } else {
                    assert(held == Seq::<usize>::empty());
                }
                assert forall|k: u64, p: int, q: int|
                    m.dom().contains(k) && 0 <= p < q < m[k]@.len() implies (
                #[trigger] m[k]@[p]) < (#[trigger] m[k]@[q]) by {
                    if k != key {
                        assert(m[k] == before[k]);
                    } else if q < held.len() {
                        assert(before[key]@[p] < before[key]@[q]);
                    } else {
                        assert(before[key]@[p] < known.len());
                    }
                }
                assert forall|k: u64, p: int|
                    m.dom().contains(k) && 0 <= p < m[k]@.len() implies (#[trigger] m[k]@[p])
                    < now.len() by {
                    if k != key {
                        assert(m[k] == before[k]);
                    } else if p < held.len() {
                        assert(before[key]@[p] < known.len());
                    }
                }
                assert forall|j: int| 0 <= j < now.len() implies is_indexed(
                    m,
                    #[trigger] now[j],
                    j,
                ) by {
                    let k = digest(now[j]) as u64;
                    if j < id {
                        assert(is_indexed(before, known[j], j));
                        let at = before[k]@.index_of(j as usize);
                        assert(before[k]@[at] == j);
                        if k == key {
                            assert(grown[at] == j);
                        }
                    } else {
                        assert(now[j] == tokens@[id as int].bytes@);
                        assert(grown[held.len() as int] == id);
                    }
                }
            }
            id = id + 1;
        }
        proof {
            assert(tokens@.take(tokens@.len() as int) =~= tokens@);
        }
        PieceIndex { buckets }
    }

    /// Find the first token with a piece.
    pub fn find(&self, tokens: &Vec<TokenEntry>, piece: &[u8]) -> (r: Option<usize>)
        requires
            self.leads_to(pieces(tokens@)),
        ensures
            match r {
                Some(id) => lookup(pieces(tokens@), piece@) == Some(id as int) && id
                    < tokens@.len(),
                None => lookup(pieces(tokens@), piece@) is None,
            },
    {
        broadcast use group_hash_axioms;

        let ghost all = pieces(tokens@);
        let key: u64 = digest_of(piece);
        let bucket: &Vec<usize> = match self.buckets.get(&key) {
            Some(v) => v,
            None => {
                proof {
                    assert forall|id: int| !is_first(all, piece@, id) by {
                        if is_first(all, piece@, id) {
                            assert(is_indexed(self.buckets@, all[id], id));
                        }
                    }
                }
                return None;
            },
        };
        let mut p: usize = 0;
        while p < bucket.len()
            invariant
                p <= bucket@.len(),
                all == pieces(tokens@),
                indexes(self.buckets@, all),
                self.buckets@.dom().contains(key),
                self.buckets@[key] == *bucket,
                key == digest(piece@),
                forall|q: int| 0 <= q < p ==> all[#[trigger] bucket@[q] as int] != piece@,
            decreases bucket@.len() - p,
        {
            let id: usize = bucket[p];
            proof {
                assert(self.buckets@[key]@[p as int] < all.len());
            }
            if same_bytes(tokens[id].bytes.as_slice(), piece) {
                proof {
                    assert(all[id as int] == piece@);
                    assert forall|j: int| 0 <= j < id implies #[trigger] all[j] != piece@ by {
                        if all[j] == piece@ {
                            assert(is_indexed(self.buckets@, all[j], j));
                            let at = bucket@.index_of(j as usize);
                            assert(bucket@[at] == j);
                            if at >= p {
                                if at > p {
                                    assert(self.buckets@[key]@[p as int]
                                        < self.buckets@[key]@[at]);
                                }
                            }
                        }
                    }
                    assert(is_first(all, piece@, id as int));
                    let chosen = choose|k: int| is_first(all, piece@, k);
                    assert(is_first(all, piece@, chosen));
                    if chosen < id {
                        assert(all[chosen] != piece@);
                    } else if chosen > id {
                        assert(all[id as int] != piece@);
                    }
                }
                return Some(id);
            }
            p = p + 1;
        }
        proof {
            assert forall|id: int| !is_first(all, piece@, id) by {
                if is_first(all, piece@, id) {
                    assert(is_indexed(self.buckets@, all[id], id));
                    assert(id < tokens.len());
                    let at = bucket@.index_of(id as usize);
                    assert(bucket@[at] == id);
                }
            }
        }
        None
    }
}

/// The bytes of one character.
pub open spec fn char_bytes(c: char) -> Seq<u8> {
    encode_utf8(seq![c])
}

/// Whether the vocabulary has the byte-fallback tokens of all these bytes, each where it
/// belongs.
pub open spec fn has_byte_tokens(pieces: Seq<Seq<u8>>, bytes: Seq<u8>) -> bool {
    forall|k: int|
        0 <= k < bytes.len() ==> {
            let id = #[trigger] bytes[k] + BYTE_TOKEN_OFFSET;
            id < pieces.len() && byte_value(pieces[id]) == Some(bytes[k] as int)
        }
}

/// The byte-fallback tokens of bytes.
pub open spec fn byte_tokens(bytes: Seq<u8>) -> Seq<usize> {
    bytes.map_values(|b: u8| (b + BYTE_TOKEN_OFFSET) as usize)
}

/// The tokens of one character: its own, or those of its bytes, or the unknown one.
pub open spec fn char_tokens(pieces: Seq<Seq<u8>>, c: char) -> Seq<usize> {
    match lookup(pieces, char_bytes(c)) {
        Some(id) => seq![id as usize],
        None => if has_byte_tokens(pieces, char_bytes(c)) {
            byte_tokens(char_bytes(c))
        } else {
            seq![UNK_ID]
        },
    }
}

/// The tokens of the characters, one after the other.
pub open spec fn text_tokens(pieces: Seq<Seq<u8>>, text: Seq<char>) -> Seq<usize>
    decreases text.len(),
{
    if text.len() == 0 {
        Seq::empty()
    } else {
        text_tokens(pieces, text.drop_last()) + char_tokens(pieces, text.last())
    }
}

/// What stands before the text: the opening token if asked for, and a space before text
/// that is not empty.
pub open spec fn prefix_tokens(pieces: Seq<Seq<u8>>, text: Seq<char>, bos: bool) -> Seq<usize> {
    let opening = if bos {
        seq![BOS_ID]
    } else {
        Seq::empty()
    };
    match lookup(pieces, seq![0x20u8]) {
        Some(space) => if text.len() > 0 {
            opening + seq![space as usize]
        } else {
            opening
        },
        None => opening,
    }
}

/// The token that the pair at `i` merges to.
pub open spec fn merged_id(pieces: Seq<Seq<u8>>, t: Seq<usize>, i: int) -> Option<int> {
    if t[i] < pieces.len() && t[i + 1] < pieces.len() {
        lookup(pieces, pieces[t[i] as int] + pieces[t[i + 1] as int])
    } else {
        None
    }
}

/// The best merge among the first `n` pairs: the pair and its token. A later pair is
/// better only if its token scores higher.
pub open spec fn best_merge(
    pieces: Seq<Seq<u8>>,
    scores: Seq<u32>,
    t: Seq<usize>,
    n: int,
) -> Option<(int, int)>
    decreases n,
{
    if n <= 0 {
        None
    } else {
        let before = best_merge(pieces, scores, t, n - 1);
        match merged_id(pieces, t, n - 1) {
            None => before,
            Some(id) => match before {
                None => Some((n - 1, id)),
                Some((_, best)) => if greater(scores[id], scores[best]) {
                    Some((n - 1, id))
                } else {
                    before
                },
            },
        }
    }
}

/// The tokens with the pair at `i` replaced by its merged token.
pub open spec fn pair_merged(t: Seq<usize>, i: int, id: int) -> Seq<usize> {
    t.update(i, id as usize).remove(i + 1)
}

/// The tokens when nothing is left to merge.
pub open spec fn merged(pieces: Seq<Seq<u8>>, scores: Seq<u32>, t: Seq<usize>) -> Seq<usize>
    decreases t.len(),
{
    match best_merge(pieces, scores, t, t.len() - 1) {
        Some((i, id)) => if 0 <= i < t.len() - 1 {
            merged(pieces, scores, pair_merged(t, i, id))
        } else {
            t
        },
        None => t,
    }
}

/// The tokens of a text.
pub open spec fn encoded(
    pieces: Seq<Seq<u8>>,
    scores: Seq<u32>,
    text: Seq<char>,
    bos: bool,
) -> Seq<usize> {
    merged(pieces, scores, prefix_tokens(pieces, text, bos) + text_tokens(pieces, text))
}

/// The best merge is one of the pairs, and its token is that of the pair.
pub proof fn best_merge_in_range(pieces: Seq<Seq<u8>>, scores: Seq<u32>, t: Seq<usize>, n: int)
    ensures
        match best_merge(pieces, scores, t, n) {
            Some((i, id)) => 0 <= i < n && merged_id(pieces, t, i) == Some(id) && 0 <= id
                < pieces.len(),
            None => true,
        },
    decreases n,
{
    if n > 0 {
        best_merge_in_range(pieces, scores, t, n - 1);
        if let Some(id) = merged_id(pieces, t, n - 1) {
            found_in_range(pieces, pieces[t[n - 1] as int] + pieces[t[n] as int]);
        }
    }
}

/// What is found is in the vocabulary and has the piece.
pub proof fn found_in_range(pieces: Seq<Seq<u8>>, piece: Seq<u8>)
    ensures
        match lookup(pieces, piece) {
            Some(id) => 0 <= id < pieces.len() && pieces[id] == piece,
            None => true,
        },
{
    if exists|id: int| is_first(pieces, piece, id) {
        let id = choose|id: int| is_first(pieces, piece, id);
        assert(is_first(pieces, piece, id));
    }
}

/// The bytes of one character.
fn bytes_of_char(c: char) -> (r: Vec<u8>)
    ensures
        r@ == char_bytes(c),
{
    let mut s = String::new();
    s.push(c);
    proof {
        assert(s@ =~= seq![c]);
    }
    let bytes = s.as_str().as_bytes();
    let mut r: Vec<u8> = Vec::new();
    let mut i: usize = 0;
    while i < bytes.len()
        invariant
            i <= bytes@.len(),
            r@ == bytes@.take(i as int),
        decreases bytes@.len() - i,
    {
        r.push(bytes[i]);
        proof {
            assert(r@ =~= bytes@.take(i + 1));
        }
        i = i + 1;
    }
    proof {
        assert(bytes@.take(bytes@.len() as int) =~= bytes@);
    }
    r
}

/// Two pieces, one behind the other.
fn pair_of(a: &[u8], b: &[u8]) -> (r: Vec<u8>)
    ensures
        r@ == a@ + b@,
{
    let mut r: Vec<u8> = Vec::new();
    let mut i: usize = 0;
    while i < a.len()
        invariant
            i <= a@.len(),
            r@ == a@.take(i as int),
        decreases a@.len() - i,
    {
        r.push(a[i]);
        proof {
            assert(r@ =~= a@.take(i + 1));
        }
        i = i + 1;
    }
    let mut j: usize = 0;
    proof {
        assert(r@ =~= a@ + b@.take(0));
    }
    while j < b.len()
        invariant
            j <= b@.len(),
            r@ == a@ + b@.take(j as int),
        decreases b@.len() - j,
    {
        r.push(b[j]);
        proof {
            assert(r@ =~= a@ + b@.take(j + 1));
        }
        j = j + 1;
    }
    proof {
        assert(b@.take(b@.len() as int) =~= b@);
    }
    r
}

impl Vocab {
    /// Whether the vocabulary has the byte-fallback tokens of all these bytes.
    fn falls_back(&self, bytes: &[u8]) -> (r: bool)
        ensures
            r == has_byte_tokens(pieces(self.tokens@), bytes@),
    {
        let ghost all = pieces(self.tokens@);
        let mut k: usize = 0;
        while k < bytes.len()
            invariant
                k <= bytes@.len(),
                all == pieces(self.tokens@),
                forall|m: int|
                    0 <= m < k ==> {
                        let id = #[trigger] bytes@[m] + BYTE_TOKEN_OFFSET;
                        id < all.len() && byte_value(all[id]) == Some(bytes@[m] as int)
                    },
            decreases bytes@.len() - k,
        {
            let b: u8 = bytes[k];
            let id: usize = b as usize + BYTE_TOKEN_OFFSET;
            if id >= self.tokens.len() {
                proof {
                    let bad = bytes@[k as int] + BYTE_TOKEN_OFFSET;
                    assert(bad >= all.len());
                }
                return false;
            }
            proof {
                assert(all[id as int] == self.tokens@[id as int].bytes@);
            }
            let ok: bool = match self.tokens[id].byte_fallback_value() {
                Some(v) => v == b,
                None => false,
            };
            if !ok {
                proof {
                    let bad = bytes@[k as int] + BYTE_TOKEN_OFFSET;
                    assert(byte_value(all[bad]) != Some(bytes@[k as int] as int));
                }
                return false;
            }
            k = k + 1;
        }
        true
    }

    /// Append the tokens of one character.
    fn push_char(&self, index: &PieceIndex, tokens: &mut Vec<usize>, c: char)
        requires
            index.leads_to(pieces(self.tokens@)),
        ensures
            final(tokens)@ == old(tokens)@ + char_tokens(pieces(self.tokens@), c),
    {
        let bytes = bytes_of_char(c);
        match index.find(&self.tokens, bytes.as_slice()) {
            Some(id) => {
                tokens.push(id);
                proof {
                    assert(tokens@ =~= old(tokens)@ + seq![id]);
                }
            },
            None => {
                if self.falls_back(bytes.as_slice()) {
                    let mut k: usize = 0;
                    proof {
                        assert(tokens@ =~= old(tokens)@ + byte_tokens(bytes@.take(0)));
                    }
                    while k < bytes.len()
                        invariant
                            k <= bytes@.len(),
                            tokens@ == old(tokens)@ + byte_tokens(bytes@.take(k as int)),
                        decreases bytes@.len() - k,
                    {
                        tokens.push(bytes[k] as usize + BYTE_TOKEN_OFFSET);
                        proof {
                            assert(tokens@ =~= old(tokens)@ + byte_tokens(bytes@.take(k + 1)));
                        }
                        k = k + 1;
                    }
                    proof {
                        assert(bytes@.take(bytes@.len() as int) =~= bytes@);
                    }
                } else {
                    tokens.push(UNK_ID);
                    proof {
                        assert(tokens@ =~= old(tokens)@ + seq![UNK_ID]);
                    }
                }
            },
        }
    }

    /// The best merge: the pair and its token.
    fn pick_merge(&self, index: &PieceIndex, t: &Vec<usize>) -> (r: Option<(usize, usize)>)
        requires
            index.leads_to(pieces(self.tokens@)),
        ensures
            match r {
                Some((i, id)) => best_merge(
                    pieces(self.tokens@),
                    scores(self.tokens@),
                    t@,
                    t@.len() - 1,
                ) == Some((i as int, id as int)) && i + 1 < t@.len(),
                None => best_merge(
                    pieces(self.tokens@),
                    scores(self.tokens@),
                    t@,
                    t@.len() - 1,
                ) is None,
            },
    {
        let ghost all = pieces(self.tokens@);
        let ghost marks = scores(self.tokens@);
        let mut best: Option<(usize, usize)> = None;
        if t.len() == 0 {
            return None;
        }
        let n: usize = t.len() - 1;
        let mut i: usize = 0;
        while i < n
            invariant
                i <= n,
                n == t@.len() - 1,
                all == pieces(self.tokens@),
                marks == scores(self.tokens@),
                index.leads_to(all),
                match best {
                    Some((k, id)) => best_merge(all, marks, t@, i as int) == Some(
                        (k as int, id as int),
                    ) && id < all.len() && k < i,
                    None => best_merge(all, marks, t@, i as int) is None,
                },
            decreases n - i,
        {
            let a: usize = t[i];
            let b: usize = t[i + 1];
            if a < self.tokens.len() && b < self.tokens.len() {
                let pair = pair_of(
                    self.tokens[a].bytes.as_slice(),
                    self.tokens[b].bytes.as_slice(),
                );
                proof {
                    assert(pair@ == all[a as int] + all[b as int]);
                }
                if let Some(id) = index.find(&self.tokens, pair.as_slice()) {
                    let better: bool = match best {
                        Some((_, held)) => gt(self.tokens[id].score, self.tokens[held].score),
                        None => true,
                    };
                    if better {
                        best = Some((i, id));
                    }
                }
            }
            i = i + 1;
        }
        best
    }

    /// Encode text: the opening token if asked for, a space before text that is not empty,
    /// the tokens of the characters, and then all merges.
    pub fn encode(&self, text: &str, bos: bool) -> (r: Vec<usize>)
        ensures
            r@ == encoded(pieces(self.tokens@), scores(self.tokens@), text@, bos),
    {
        let ghost all = pieces(self.tokens@);
        let ghost marks = scores(self.tokens@);
        let index = PieceIndex::new(&self.tokens);
        let mut tokens: Vec<usize> = Vec::new();
        if bos {
            tokens.push(BOS_ID);
        }
        let chars = chars_of(text);
        let n: usize = chars.len();
        let mut space: Vec<u8> = Vec::new();
        space.push(0x20);
        proof {
            assert(space@ =~= seq![0x20u8]);
        }
        let found = index.find(&self.tokens, space.as_slice());
        if n > 0 {
            if let Some(id) = found {
                tokens.push(id);
            }
        }
        let ghost prefix = prefix_tokens(all, text@, bos);
        proof {
            assert(tokens@ =~= prefix);
            assert(tokens@ =~= prefix + text_tokens(all, text@.take(0)));
        }
        let mut i: usize = 0;
        while i < n
            invariant
                i <= n,
                n == text@.len(),
                chars@ == text@,
                all == pieces(self.tokens@),
                index.leads_to(all),
                tokens@ == prefix + text_tokens(all, text@.take(i as int)),
            decreases n - i,
        {
            let c: char = chars[i];
            self.push_char(&index, &mut tokens, c);
            proof {
                assert(text@.take(i + 1).drop_last() =~= text@.take(i as int));
                assert(tokens@ =~= prefix + text_tokens(all, text@.take(i + 1)));
            }
            i = i + 1;
        }
        proof {
            assert(text@.take(n as int) =~= text@);
        }
        let ghost start = tokens@;
        let mut going: bool = true;
        while going
            invariant
                all == pieces(self.tokens@),
                marks == scores(self.tokens@),
                index.leads_to(all),
                merged(all, marks, start) == merged(all, marks, tokens@),
                !going ==> merged(all, marks, tokens@) == tokens@,
            decreases
                    tokens@.len(),
                    if going {
                        1int
                    } else {
                        0int
                    },
        {
            match self.pick_merge(&index, &tokens) {
                Some((i, id)) => {
                    let ghost before = tokens@;
                    proof {
                        assert(tokens.len() == tokens@.len());
                    }
                    tokens.set(i, id);
                    tokens.remove(i + 1);
                    proof {
                        assert(tokens@ =~= pair_merged(before, i as int, id as int));
                    }
                },
                None => {
                    going = false;
                },
            }
        }
        tokens
    }
}

} // verus!

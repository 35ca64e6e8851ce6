//! The best cut of a text into pieces.
//!
//! Positions between characters are joined by edges: one for every piece that stands
//! between two positions, and one for every single character taken as unknown. The score of
//! a cut is the sum of its edges' scores from left to right. From each position in turn,
//! every edge is tried, and the best way to each later position is kept.

use vstd::prelude::*;

use crate::order::gt;
#[allow(unused_imports)]
use crate::order::greater;
use crate::scalar::{eval, Scalar, ZERO};
#[allow(unused_imports)]
use crate::scalar::{is_arithmetic, plus};
use crate::seq2seq::tokenizer::{normalize, Tokenizer, NEG_INFINITY};
#[allow(unused_imports)]
use crate::seq2seq::tokenizer::normal_form;
use crate::text::chars_of;

verus! {

/// The best ways found so far: to each position a score, the position before, and the
/// token of the last edge.
pub struct Ways {
    /// Scores.
    pub best: Seq<u32>,
    /// Positions before, and tokens.
    pub back: Seq<(usize, u32)>,
}

/// The ways with an edge tried: it is kept if it beats what was known.
pub open spec fn tried<A: Fn(Scalar) -> u32>(
    a: A,
    w: Ways,
    from: int,
    to: int,
    id: u32,
    score: u32,
) -> Ways {
    let cand = plus(a, w.best[from], score);
    if greater(cand, w.best[to]) {
        Ways { best: w.best.update(to, cand), back: w.back.update(to, (from as usize, id)) }
    } else {
        w
    }
}

/// The ways with the pieces tried that begin at `i` and end up to `j`.
pub open spec fn pieces_tried<A: Fn(Scalar) -> u32>(
    a: A,
    pieces: Map<Seq<char>, (u32, u32)>,
    chars: Seq<char>,
    w: Ways,
    i: int,
    j: int,
) -> Ways
    decreases j - i,
{
    if j <= i {
        w
    } else {
        let before = pieces_tried(a, pieces, chars, w, i, j - 1);
        let text = chars.subrange(i, j);
        if pieces.contains_key(text) {
            tried(a, before, i, j, pieces[text].0, pieces[text].1)
        } else {
            before
        }
    }
}

/// How far a piece from `i` can reach.
pub open spec fn reach(i: int, longest: nat, n: int) -> int {
    if i + longest < n {
        i + longest
    } else {
        n
    }
}

/// The ways after the first `i` positions have been tried.
pub open spec fn ways<A: Fn(Scalar) -> u32>(a: A, t: Tokenizer, chars: Seq<char>, i: int) -> Ways
    decreases i,
{
    let n = chars.len() as int;
    if i <= 0 {
        Ways {
            best: Seq::new((n + 1) as nat, |_k: int| NEG_INFINITY).update(0, ZERO),
            back: Seq::new((n + 1) as nat, |_k: int| (0usize, t.unk_id as u32)),
        }
    } else {
        let before = ways(a, t, chars, i - 1);
        if before.best[i - 1] == NEG_INFINITY {
            before
        } else {
            let with_pieces = pieces_tried(
                a,
                t.pieces@,
                chars,
                before,
                i - 1,
                reach(i - 1, t.max_piece_chars as nat, n),
            );
            tried(a, with_pieces, i - 1, i, t.unk_id as u32, t.unk_score)
        }
    }
}

/// The tokens of the way to `pos`.
pub open spec fn trail(back: Seq<(usize, u32)>, pos: int) -> Seq<usize>
    decreases pos,
{
    if pos <= 0 || !(back[pos].0 < pos) {
        Seq::empty()
    } else {
        trail(back, back[pos].0 as int).push(back[pos].1 as usize)
    }
}

/// The tokens of the best cut.
pub open spec fn best_cut<A: Fn(Scalar) -> u32>(a: A, t: Tokenizer, chars: Seq<char>) -> Seq<
    usize,
> {
    trail(ways(a, t, chars, chars.len() as int).back, chars.len() as int)
}

/// Trying keeps the number of positions, and every position before comes before.
pub open spec fn in_order(w: Ways, n: int) -> bool {
    &&& w.best.len() == n + 1
    &&& w.back.len() == n + 1
    &&& forall|p: int| 0 < p <= n ==> (#[trigger] w.back[p]).0 < p
}

/// Trying pieces keeps the order.
proof fn pieces_keep_order<A: Fn(Scalar) -> u32>(
    a: A,
    pieces: Map<Seq<char>, (u32, u32)>,
    chars: Seq<char>,
    w: Ways,
    i: int,
    j: int,
)
    requires
        0 <= i,
        j <= chars.len(),
        chars.len() <= usize::MAX,
        in_order(w, chars.len() as int),
    ensures
        in_order(pieces_tried(a, pieces, chars, w, i, j), chars.len() as int),
    decreases j - i,
{
    if i < j {
        pieces_keep_order(a, pieces, chars, w, i, j - 1);
    }
}

/// The ways are in order.
pub proof fn ways_in_order<A: Fn(Scalar) -> u32>(a: A, t: Tokenizer, chars: Seq<char>, i: int)
    requires
        i <= chars.len(),
        chars.len() <= usize::MAX,
    ensures
        in_order(ways(a, t, chars, i), chars.len() as int),
    decreases i,
{
    if i > 0 {
        ways_in_order(a, t, chars, i - 1);
        let before = ways(a, t, chars, i - 1);
        let far = reach(i - 1, t.max_piece_chars as nat, chars.len() as int);
        pieces_keep_order(a, t.pieces@, chars, before, i - 1, far);
    }
}

/// Keep an edge if it beats what was known.
fn try_edge<A: Fn(Scalar) -> u32>(
    best: &mut Vec<u32>,
    back: &mut Vec<(usize, u32)>,
    from: usize,
    to: usize,
    id: u32,
    score: u32,
    a: &A,
)
    requires
        is_arithmetic(*a),
        from < to < old(best)@.len(),
        old(back)@.len() == old(best)@.len(),
    ensures
        (Ways { best: final(best)@, back: final(back)@ }) == tried(
            *a,
            Ways { best: old(best)@, back: old(back)@ },
            from as int,
            to as int,
            id,
            score,
        ),
        final(best)@.len() == old(best)@.len(),
        final(back)@.len() == old(back)@.len(),
        final(best)@[from as int] == old(best)@[from as int],
{
    let cand: u32 = eval(a, Scalar::Add(best[from], score));
    if gt(cand, best[to]) {
        best.set(to, cand);
        back.set(to, (from, id));
    }
}

impl Tokenizer {
    /// Find the best cut of the characters: its tokens, without the end token.
    pub fn viterbi<A: Fn(Scalar) -> u32>(&self, chars: &[char], a: &A) -> (r: Vec<usize>)
        requires
            is_arithmetic(*a),
            chars@.len() < usize::MAX,
        ensures
            r@ == best_cut(*a, *self, chars@),
    {
        let n: usize = chars.len();
        let mut best: Vec<u32> = vec![NEG_INFINITY; n + 1];
        best.set(0, ZERO);
        let mut back: Vec<(usize, u32)> = Vec::new();
        let mut i: usize = 0;
        while i <= n
            invariant
                i <= n + 1,
                n < usize::MAX,
                back@.len() == i,
                forall|k: int|
                    0 <= k < i ==> #[trigger] back@[k] == (0usize, self.unk_id as u32),
            decreases n + 1 - i,
        {
            back.push((0, self.unk_id as u32));
            i = i + 1;
        }
        proof {
            let w = ways(*a, *self, chars@, 0);
            assert(best@ =~= w.best);
            assert(back@ =~= w.back);
        }
        let mut i: usize = 0;
        while i < n
            invariant
                i <= n,
                n == chars@.len(),
                n < usize::MAX,
                is_arithmetic(*a),
                best@.len() == n + 1,
                back@.len() == n + 1,
                (Ways { best: best@, back: back@ }) == ways(*a, *self, chars@, i as int),
            decreases n - i,
        {
            if best[i] != NEG_INFINITY {
                self.try_pieces(chars, &mut best, &mut back, i, a);
                try_edge(&mut best, &mut back, i, i + 1, self.unk_id as u32, self.unk_score, a);
            }
            i = i + 1;
        }
        let ghost w = ways(*a, *self, chars@, n as int);
        proof {
            ways_in_order(*a, *self, chars@, n as int);
        }
        let mut reversed: Vec<usize> = Vec::new();
        let mut pos: usize = n;
        proof {
            assert(reversed@.reverse() =~= Seq::<usize>::empty());
            assert(trail(back@, n as int) =~= trail(back@, pos as int) + reversed@.reverse());
        }
        while pos > 0
            invariant
                pos <= n,
                n == chars@.len(),
                back@.len() == n + 1,
                back@ == w.back,
                in_order(w, n as int),
                trail(back@, n as int) == trail(back@, pos as int) + reversed@.reverse(),
            decreases pos,
        {
            let (start, id) = back[pos];
            proof {
                assert(w.back[pos as int].0 < pos);
            }
            let ghost before = reversed@;
            reversed.push(id as usize);
            proof {
                assert(reversed@.reverse() =~= seq![id as usize] + before.reverse());
                assert(trail(back@, n as int) =~= trail(back@, start as int) + reversed@.reverse());
            }
            pos = start;
        }
        let mut ids: Vec<usize> = Vec::new();
        let mut k: usize = reversed.len();
        proof {
            assert(trail(back@, 0) =~= Seq::<usize>::empty());
            assert(reversed@.reverse() =~= trail(back@, n as int));
            assert(ids@ =~= reversed@.reverse().take(0));
        }
        while k > 0
            invariant
                k <= reversed@.len(),
                ids@ == reversed@.reverse().take(reversed@.len() - k),
            decreases k,
        {
            k = k - 1;
            ids.push(reversed[k]);
            proof {
                assert(ids@ =~= reversed@.reverse().take(reversed@.len() - k));
            }
        }
        proof {
            assert(reversed@.reverse().take(reversed@.len() as int) =~= reversed@.reverse());
        }
        ids
    }

    /// Try the pieces that begin at `i`.
    fn try_pieces<A: Fn(Scalar) -> u32>(
        &self,
        chars: &[char],
        best: &mut Vec<u32>,
        back: &mut Vec<(usize, u32)>,
        i: usize,
        a: &A,
    )
        requires
            is_arithmetic(*a),
            i < chars@.len() < usize::MAX,
            old(best)@.len() == chars@.len() + 1,
            old(back)@.len() == chars@.len() + 1,
        ensures
            (Ways { best: final(best)@, back: final(back)@ }) == pieces_tried(
                *a,
                self.pieces@,
                chars@,
                Ways { best: old(best)@, back: old(back)@ },
                i as int,
                reach(i as int, self.max_piece_chars as nat, chars@.len() as int),
            ),
            final(best)@.len() == chars@.len() + 1,
            final(back)@.len() == chars@.len() + 1,
    {
        let n: usize = chars.len();
        let upper: usize = if self.max_piece_chars < n - i {
            i + self.max_piece_chars
        } else {
            n
        };
        let ghost start = Ways { best: best@, back: back@ };
        let mut text = String::new();
        let mut j: usize = i;
        proof {
            assert(chars@.subrange(i as int, i as int) =~= Seq::<char>::empty());
        }
        while j < upper
            invariant
                i <= j <= upper,
                upper <= n,
                n == chars@.len(),
                n < usize::MAX,
                is_arithmetic(*a),
                best@.len() == n + 1,
                back@.len() == n + 1,
                text@ == chars@.subrange(i as int, j as int),
                (Ways { best: best@, back: back@ }) == pieces_tried(
                    *a,
                    self.pieces@,
                    chars@,
                    start,
                    i as int,
                    j as int,
                ),
            decreases upper - j,
        {
            text.push(chars[j]);
            proof {
                assert(text@ =~= chars@.subrange(i as int, j + 1));
            }
            if let Some(found) = self.pieces.get(text.as_str()) {
                try_edge(best, back, i, j + 1, found.0, found.1, a);
            }
            j = j + 1;
        }
    }

    /// Encode text: the best cut of its normal form, and the end token.
    pub fn encode<A: Fn(Scalar) -> u32>(&self, text: &str, a: &A) -> (r: Vec<usize>)
        requires
            is_arithmetic(*a),
            2 * text@.len() < usize::MAX,
        ensures
            r@ == best_cut(*a, *self, normal_form(text@, text@.len() as int)).push(self.eos_id),
    {
        let normal = normalize(text);
        proof {
            normal_form_len(text@, text@.len() as int);
        }
        let chars = chars_of(normal.as_str());
        let mut ids = self.viterbi(chars.as_slice(), a);
        ids.push(self.eos_id);
        ids
    }
}

/// The normal form is at most twice as long as the text.
proof fn normal_form_len(s: Seq<char>, n: int)
    requires
        0 <= n <= s.len(),
    ensures
        normal_form(s, n).len() <= 2 * n,
    decreases n,
{
    if n > 0 {
        normal_form_len(s, n - 1);
    }
}

} // verus!

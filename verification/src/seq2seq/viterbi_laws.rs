//! What the best cut promises: it is a cut of the text into pieces and unknown characters,
//! and no other cut scores higher.

use vstd::prelude::*;

use crate::order::{at_most, greater, is_nan};
use crate::scalar::{plus, value, Scalar, ZERO};
use crate::seq2seq::tokenizer::{Tokenizer, NEG_INFINITY};
use crate::seq2seq::viterbi::{
    best_cut, in_order, pieces_tried, reach, trail, tried, ways, ways_in_order, Ways,
};

verus! {

/// One edge of a cut.
pub struct Edge {
    /// Where it begins.
    pub from: int,
    /// Where it ends.
    pub to: int,
    /// Its token.
    pub id: u32,
    /// Its score.
    pub score: u32,
}

/// Whether an edge is that of a piece.
pub open spec fn is_piece(t: Tokenizer, chars: Seq<char>, e: Edge) -> bool {
    &&& 0 <= e.from < e.to <= chars.len()
    &&& e.to - e.from <= t.max_piece_chars
    &&& t.pieces@.contains_key(chars.subrange(e.from, e.to))
    &&& t.pieces@[chars.subrange(e.from, e.to)] == (e.id, e.score)
}

/// Whether an edge is that of an unknown character.
pub open spec fn is_unknown(t: Tokenizer, chars: Seq<char>, e: Edge) -> bool {
    &&& 0 <= e.from < chars.len()
    &&& e.to == e.from + 1
    &&& e.id == t.unk_id as u32
    &&& e.score == t.unk_score
}

/// Whether an edge may be part of a cut.
pub open spec fn is_edge(t: Tokenizer, chars: Seq<char>, e: Edge) -> bool {
    is_piece(t, chars, e) || is_unknown(t, chars, e)
}

/// Whether edges cut the text up to `end`: each begins where the one before ends.
pub open spec fn is_cut(t: Tokenizer, chars: Seq<char>, edges: Seq<Edge>, end: int) -> bool
    decreases edges.len(),
{
    if edges.len() == 0 {
        end == 0
    } else {
        &&& edges.last().to == end
        &&& is_edge(t, chars, edges.last())
        &&& is_cut(t, chars, edges.drop_last(), edges.last().from)
    }
}

/// The score of a cut: the sum of its edges' scores, from left to right.
pub open spec fn cut_score<A: Fn(Scalar) -> u32>(a: A, edges: Seq<Edge>) -> u32
    decreases edges.len(),
{
    if edges.len() == 0 {
        ZERO
    } else {
        plus(a, cut_score(a, edges.drop_last()), edges.last().score)
    }
}

/// The tokens of a cut.
pub open spec fn cut_ids(edges: Seq<Edge>) -> Seq<usize> {
    edges.map_values(|e: Edge| e.id as usize)
}

/// Whether the way to `p` is known and goes over an edge from a position before `limit`.
pub open spec fn backed<A: Fn(Scalar) -> u32>(
    a: A,
    t: Tokenizer,
    chars: Seq<char>,
    w: Ways,
    p: int,
    limit: int,
) -> bool {
    exists|s: u32| backed_by(a, t, chars, w, p, limit, s)
}

/// Whether the way to `p` goes over an edge of score `s` from a position before `limit`.
pub open spec fn backed_by<A: Fn(Scalar) -> u32>(
    a: A,
    t: Tokenizer,
    chars: Seq<char>,
    w: Ways,
    p: int,
    limit: int,
    s: u32,
) -> bool {
    let from = w.back[p].0 as int;
    &&& from < limit
    &&& from < p
    &&& is_edge(t, chars, (Edge { from, to: p, id: w.back[p].1, score: s }))
    &&& w.best[p] == plus(a, w.best[from], s)
    &&& w.best[from] != NEG_INFINITY
}

/// Whether every position that is reached is reached over an edge.
pub open spec fn all_backed<A: Fn(Scalar) -> u32>(
    a: A,
    t: Tokenizer,
    chars: Seq<char>,
    w: Ways,
    limit: int,
) -> bool {
    forall|p: int|
        0 < p <= chars.len() && #[trigger] w.best[p] != NEG_INFINITY ==> backed(
            a,
            t,
            chars,
            w,
            p,
            limit,
        )
}

/// What beats something is reached.
proof fn greater_is_reached(x: u32, y: u32)
    requires
        greater(x, y),
    ensures
        x != NEG_INFINITY,
{
}

/// Trying an edge keeps that all is backed.
proof fn tried_keeps_backed<A: Fn(Scalar) -> u32>(
    a: A,
    t: Tokenizer,
    chars: Seq<char>,
    w: Ways,
    e: Edge,
)
    requires
        chars.len() <= usize::MAX,
        in_order(w, chars.len() as int),
        is_edge(t, chars, e),
        w.best[e.from] != NEG_INFINITY,
        all_backed(a, t, chars, w, e.from + 1),
    ensures
        ({
            let r = tried(a, w, e.from, e.to, e.id, e.score);
            &&& in_order(r, chars.len() as int)
            &&& all_backed(a, t, chars, r, e.from + 1)
            &&& r.best[e.from] == w.best[e.from]
        }),
{
    let r = tried(a, w, e.from, e.to, e.id, e.score);
    let cand = plus(a, w.best[e.from], e.score);
    if greater(cand, w.best[e.to]) {
        greater_is_reached(cand, w.best[e.to]);
        assert forall|p: int|
            0 < p <= chars.len() && #[trigger] r.best[p] != NEG_INFINITY implies backed(
            a,
            t,
            chars,
            r,
            p,
            e.from + 1,
        ) by {
            if p == e.to {
                assert(backed_by(a, t, chars, r, p, e.from + 1, e.score));
            } else {
                assert(w.best[p] != NEG_INFINITY);
                let limit = e.from + 1;
                let s = choose|s: u32| backed_by(a, t, chars, w, p, limit, s);
                assert(backed_by(a, t, chars, w, p, limit, s));
                assert(r.best[r.back[p].0 as int] == w.best[w.back[p].0 as int]);
                assert(backed_by(a, t, chars, r, p, e.from + 1, s));
            }
        }
    }
}

/// Trying pieces keeps that all is backed.
proof fn pieces_keep_backed<A: Fn(Scalar) -> u32>(
    a: A,
    t: Tokenizer,
    chars: Seq<char>,
    w: Ways,
    i: int,
    j: int,
)
    requires
        chars.len() <= usize::MAX,
        0 <= i < chars.len(),
        j <= chars.len(),
        j - i <= t.max_piece_chars,
        in_order(w, chars.len() as int),
        w.best[i] != NEG_INFINITY,
        all_backed(a, t, chars, w, i + 1),
    ensures
        ({
            let r = pieces_tried(a, t.pieces@, chars, w, i, j);
            &&& in_order(r, chars.len() as int)
            &&& all_backed(a, t, chars, r, i + 1)
            &&& r.best[i] == w.best[i]
        }),
    decreases j - i,
{
    if i < j {
        pieces_keep_backed(a, t, chars, w, i, j - 1);
        let before = pieces_tried(a, t.pieces@, chars, w, i, j - 1);
        let text = chars.subrange(i, j);
        if t.pieces@.contains_key(text) {
            let e = Edge { from: i, to: j, id: t.pieces@[text].0, score: t.pieces@[text].1 };
            assert(is_piece(t, chars, e));
            tried_keeps_backed(a, t, chars, before, e);
        }
    }
}

/// Every position that is reached is reached over an edge.
proof fn ways_are_backed<A: Fn(Scalar) -> u32>(a: A, t: Tokenizer, chars: Seq<char>, i: int)
    requires
        chars.len() <= usize::MAX,
        0 <= i <= chars.len(),
    ensures
        all_backed(a, t, chars, ways(a, t, chars, i), i),
        ways(a, t, chars, i).best[0] == ZERO,
    decreases i,
{
    ways_in_order(a, t, chars, i);
    if i > 0 {
        ways_are_backed(a, t, chars, i - 1);
        ways_in_order(a, t, chars, i - 1);
        let before = ways(a, t, chars, i - 1);
        let r = ways(a, t, chars, i);
        let far = reach(i - 1, t.max_piece_chars as nat, chars.len() as int);
        assert(all_backed(a, t, chars, before, i)) by {
            assert forall|p: int|
                0 < p <= chars.len() && #[trigger] before.best[p] != NEG_INFINITY implies backed(
                a,
                t,
                chars,
                before,
                p,
                i,
            ) by {
                let limit = i - 1;
                let s = choose|s: u32| backed_by(a, t, chars, before, p, limit, s);
                assert(backed_by(a, t, chars, before, p, limit, s));
                assert(backed_by(a, t, chars, before, p, i, s));
            }
        }
        if before.best[i - 1] != NEG_INFINITY {
            pieces_keep_backed(a, t, chars, before, i - 1, far);
            let mid = pieces_tried(a, t.pieces@, chars, before, i - 1, far);
            let e = Edge { from: i - 1, to: i, id: t.unk_id as u32, score: t.unk_score };
            assert(is_unknown(t, chars, e));
            tried_keeps_backed(a, t, chars, mid, e);
            start_stays(a, t, chars, i);
        }
    }
}

/// The start keeps its score.
proof fn start_stays<A: Fn(Scalar) -> u32>(a: A, t: Tokenizer, chars: Seq<char>, i: int)
    requires
        chars.len() <= usize::MAX,
        0 <= i <= chars.len(),
    ensures
        ways(a, t, chars, i).best[0] == ZERO,
    decreases i,
{
    if i > 0 {
        start_stays(a, t, chars, i - 1);
        earlier_stay(a, t, chars, i - 1, i, 0);
    }
}

/// Trying pieces from `i` leaves what is not behind `i`.
proof fn pieces_leave_earlier<A: Fn(Scalar) -> u32>(
    a: A,
    pieces: Map<Seq<char>, (u32, u32)>,
    chars: Seq<char>,
    w: Ways,
    i: int,
    j: int,
    p: int,
)
    requires
        0 <= p <= i,
        j < w.best.len(),
    ensures
        pieces_tried(a, pieces, chars, w, i, j).best[p] == w.best[p],
        pieces_tried(a, pieces, chars, w, i, j).best.len() == w.best.len(),
    decreases j - i,
{
    if i < j {
        pieces_leave_earlier(a, pieces, chars, w, i, j - 1, p);
    }
}

/// A position's score is settled once every position before it has been tried.
proof fn earlier_stay<A: Fn(Scalar) -> u32>(
    a: A,
    t: Tokenizer,
    chars: Seq<char>,
    m: int,
    k: int,
    p: int,
)
    requires
        chars.len() <= usize::MAX,
        0 <= p <= m <= k <= chars.len(),
    ensures
        ways(a, t, chars, k).best[p] == ways(a, t, chars, m).best[p],
    decreases k,
{
    if m < k {
        earlier_stay(a, t, chars, m, k - 1, p);
        ways_in_order(a, t, chars, k - 1);
        let before = ways(a, t, chars, k - 1);
        let far = reach(k - 1, t.max_piece_chars as nat, chars.len() as int);
        pieces_leave_earlier(a, t.pieces@, chars, before, k - 1, far, p);
    }
}

/// Whether no position is worse off.
pub open spec fn grown(w: Ways, r: Ways) -> bool {
    &&& r.best.len() == w.best.len()
    &&& forall|p: int|
        0 <= p < w.best.len() ==> r.best[p] == #[trigger] w.best[p] || greater(r.best[p], w.best[p])
}

/// Trying pieces makes no position worse off.
proof fn pieces_grow<A: Fn(Scalar) -> u32>(
    a: A,
    pieces: Map<Seq<char>, (u32, u32)>,
    chars: Seq<char>,
    w: Ways,
    i: int,
    j: int,
)
    requires
        0 <= i,
        j < w.best.len(),
    ensures
        grown(w, pieces_tried(a, pieces, chars, w, i, j)),
    decreases j - i,
{
    if i < j {
        pieces_grow(a, pieces, chars, w, i, j - 1);
    }
}

/// Trying more positions makes no position worse off.
proof fn ways_grow<A: Fn(Scalar) -> u32>(a: A, t: Tokenizer, chars: Seq<char>, m: int, k: int)
    requires
        chars.len() <= usize::MAX,
        0 <= m <= k <= chars.len(),
    ensures
        grown(ways(a, t, chars, m), ways(a, t, chars, k)),
    decreases k,
{
    if m < k {
        ways_grow(a, t, chars, m, k - 1);
        ways_in_order(a, t, chars, k - 1);
        let before = ways(a, t, chars, k - 1);
        let far = reach(k - 1, t.max_piece_chars as nat, chars.len() as int);
        pieces_grow(a, t.pieces@, chars, before, k - 1, far);
    }
}

/// A piece that was tried does not beat what is kept.
proof fn pieces_are_kept<A: Fn(Scalar) -> u32>(
    a: A,
    t: Tokenizer,
    chars: Seq<char>,
    w: Ways,
    e: Edge,
    j: int,
)
    requires
        is_piece(t, chars, e),
        w.best.len() == chars.len() + 1,
        e.to <= j <= chars.len(),
    ensures
        !greater(
            plus(a, w.best[e.from], e.score),
            pieces_tried(a, t.pieces@, chars, w, e.from, j).best[e.to],
        ),
    decreases j,
{
    pieces_leave_earlier(a, t.pieces@, chars, w, e.from, j - 1, e.from);
    if j > e.to {
        pieces_are_kept(a, t, chars, w, e, j - 1);
    }
}

/// An edge from a position that is reached does not beat the best way to its end.
proof fn edges_are_kept<A: Fn(Scalar) -> u32>(a: A, t: Tokenizer, chars: Seq<char>, e: Edge)
    requires
        chars.len() <= usize::MAX,
        is_edge(t, chars, e),
        ways(a, t, chars, chars.len() as int).best[e.from] != NEG_INFINITY,
    ensures
        ({
            let w = ways(a, t, chars, chars.len() as int);
            !greater(plus(a, w.best[e.from], e.score), w.best[e.to])
        }),
{
    let n = chars.len() as int;
    let i = e.from;
    let w = ways(a, t, chars, n);
    let before = ways(a, t, chars, i);
    let after = ways(a, t, chars, i + 1);
    earlier_stay(a, t, chars, i, n, i);
    ways_in_order(a, t, chars, i);
    ways_grow(a, t, chars, i + 1, n);
    let far = reach(i, t.max_piece_chars as nat, n);
    let mid = pieces_tried(a, t.pieces@, chars, before, i, far);
    pieces_leave_earlier(a, t.pieces@, chars, before, i, far, i);
    let cand = plus(a, w.best[i], e.score);
    if is_piece(t, chars, e) {
        pieces_are_kept(a, t, chars, before, e, far);
        assert(!greater(cand, mid.best[e.to]));
    }
    assert(!greater(cand, after.best[e.to]));
    assert(w.best[e.to] == after.best[e.to] || greater(w.best[e.to], after.best[e.to]));
}

/// The edges of the way to `pos`.
pub open spec fn trail_edges<A: Fn(Scalar) -> u32>(
    a: A,
    t: Tokenizer,
    chars: Seq<char>,
    w: Ways,
    pos: int,
) -> Seq<Edge>
    decreases pos,
{
    if pos <= 0 || !(w.back[pos].0 < pos) {
        Seq::empty()
    } else {
        let from = w.back[pos].0 as int;
        let score = choose|s: u32| backed_by(a, t, chars, w, pos, chars.len() as int, s);
        trail_edges(a, t, chars, w, from).push(
            Edge { from, to: pos, id: w.back[pos].1, score },
        )
    }
}

/// The way to a position that is reached is a cut of the text up to it.
proof fn trail_is_a_cut<A: Fn(Scalar) -> u32>(
    a: A,
    t: Tokenizer,
    chars: Seq<char>,
    w: Ways,
    pos: int,
)
    requires
        0 <= pos <= chars.len(),
        in_order(w, chars.len() as int),
        all_backed(a, t, chars, w, chars.len() as int),
        w.best[0] == ZERO,
        w.best[pos] != NEG_INFINITY,
    ensures
        is_cut(t, chars, trail_edges(a, t, chars, w, pos), pos),
        cut_score(a, trail_edges(a, t, chars, w, pos)) == w.best[pos],
        cut_ids(trail_edges(a, t, chars, w, pos)) == trail(w.back, pos),
    decreases pos,
{
    let edges = trail_edges(a, t, chars, w, pos);
    if pos > 0 {
        assert(backed(a, t, chars, w, pos, chars.len() as int));
        let s = choose|s: u32| backed_by(a, t, chars, w, pos, chars.len() as int, s);
        assert(backed_by(a, t, chars, w, pos, chars.len() as int, s));
        let from = w.back[pos].0 as int;
        trail_is_a_cut(a, t, chars, w, from);
        assert(edges.drop_last() =~= trail_edges(a, t, chars, w, from));
        assert(cut_ids(edges) =~= cut_ids(edges.drop_last()).push(w.back[pos].1 as usize));
    } else {
        assert(cut_ids(edges) =~= Seq::<usize>::empty());
    }
}

/// The best cut is a cut: its tokens are those of edges that cover the text without gaps,
/// and its score is the best score. This holds whenever the end is reached, which it is
/// unless scores run out of range.
pub proof fn the_best_cut_is_a_cut<A: Fn(Scalar) -> u32>(
    a: A,
    t: Tokenizer,
    chars: Seq<char>,
) -> (edges: Seq<Edge>)
    requires
        chars.len() <= usize::MAX,
        ways(a, t, chars, chars.len() as int).best[chars.len() as int] != NEG_INFINITY,
    ensures
        is_cut(t, chars, edges, chars.len() as int),
        cut_ids(edges) == best_cut(a, t, chars),
        cut_score(a, edges) == ways(a, t, chars, chars.len() as int).best[chars.len() as int],
{
    let n = chars.len() as int;
    let w = ways(a, t, chars, n);
    ways_in_order(a, t, chars, n);
    ways_are_backed(a, t, chars, n);
    trail_is_a_cut(a, t, chars, w, n);
    trail_edges(a, t, chars, w, n)
}

/// Whether adding a score keeps the order of sums, as it does for every finite score.
pub open spec fn adds_in_order<A: Fn(Scalar) -> u32>(a: A, s: u32) -> bool {
    &&& forall|x: u32, y: u32|
        at_most(x, y) ==> at_most(#[trigger] plus(a, x, s), #[trigger] plus(a, y, s))
    &&& plus(a, NEG_INFINITY, s) == NEG_INFINITY
}

/// No cut scores higher than the best score, where adding scores keeps the order of sums.
pub proof fn no_cut_scores_higher<A: Fn(Scalar) -> u32>(
    a: A,
    t: Tokenizer,
    chars: Seq<char>,
    edges: Seq<Edge>,
    end: int,
)
    requires
        chars.len() <= usize::MAX,
        0 <= end <= chars.len(),
        is_cut(t, chars, edges, end),
        adds_in_order(a, t.unk_score),
        forall|text: Seq<char>| #[trigger]
            t.pieces@.contains_key(text) ==> adds_in_order(a, t.pieces@[text].1),
    ensures
        at_most(cut_score(a, edges), ways(a, t, chars, chars.len() as int).best[end]),
    decreases edges.len(),
{
    let n = chars.len() as int;
    let w = ways(a, t, chars, n);
    if edges.len() == 0 {
        start_stays(a, t, chars, n);
    } else {
        let e = edges.last();
        let before = edges.drop_last();
        no_cut_scores_higher(a, t, chars, before, e.from);
        let x = cut_score(a, before);
        let y = w.best[e.from];
        assert(adds_in_order(a, e.score));
        assert(at_most(plus(a, x, e.score), plus(a, y, e.score)));
        numbers_only(a, t, chars, n, e.to);
        if y == NEG_INFINITY {
            assert(plus(a, y, e.score) == NEG_INFINITY);
        } else {
            edges_are_kept(a, t, chars, e);
        }
    }
}

/// Scores stay numbers.
proof fn numbers_only<A: Fn(Scalar) -> u32>(a: A, t: Tokenizer, chars: Seq<char>, i: int, p: int)
    requires
        chars.len() <= usize::MAX,
        0 <= i <= chars.len(),
        0 <= p <= chars.len(),
    ensures
        !is_nan(ways(a, t, chars, i).best[p]),
{
    ways_grow(a, t, chars, 0, i);
    ways_in_order(a, t, chars, 0);
    let start = ways(a, t, chars, 0);
    assert(!is_nan(start.best[p]));
}

/// A way is taken only where it scores higher than the one known: of equal ways the first stays, and
/// nothing but the end of the way changes.
pub proof fn only_better_ways_are_taken<A: Fn(Scalar) -> u32>(
    a: A,
    w: Ways,
    from: int,
    to: int,
    id: u32,
    score: u32,
    p: int,
)
    requires
        0 <= from < to < w.best.len(),
        w.back.len() == w.best.len(),
        0 <= p < w.best.len(),
        from <= usize::MAX,
    ensures
        ({
            let sum = value(a, Scalar::Add(w.best[from], score));
            let after = tried(a, w, from, to, id, score);
            &&& !greater(sum, w.best[to]) ==> after == w
            &&& greater(sum, w.best[to]) ==> after.best[to] == sum && after.back[to].0 == from
                && after.back[to].1 == id
            &&& p != to ==> after.best[p] == w.best[p] && after.back[p] == w.back[p]
        }),
{
}

} // verus!

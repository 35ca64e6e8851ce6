//! Where each tensor lies: its first element and its length in the region that holds the weights,
//! and in the flat buffers that hold them quantized.

use vstd::prelude::*;

use crate::bytes::{bytes_int8, bytes_of, le_u32, u32_bytes, u32_round_trip, words_of};
use crate::layout::{offset, part, total};
use crate::llama::config::{Config, ModelFormat};
use crate::llama::loader::{stored_lens, stored_tensor, tensors_at, unpacked, Model, QuantBuffers};
use crate::llama::quantize::{
    layer_lens, matmul_views, projection_lens, quantized_lens, v2_lens, views_parts,
    QuantizedWeights,
};
use crate::llama::weights::{legacy_lens, v1_lens, views_legacy, views_v1, Weights};
use crate::quant::group_lens;

verus! {

/// In a legacy weight region the tensors lie one behind the other: embedding, attention gains,
/// queries, keys, values, attention outputs, feed-forward gains, gate, down, up, final gains, two
/// rotary tables that nothing reads, and the classifier where it is not the embedding.
pub proof fn legacy_tensors_lie_in_order<T>(w: Weights<'_, T>, s: Seq<T>, c: Config)
    requires
        views_legacy(w, s, c),
    ensures
        ({
            let (l, d, h, v) = (
                c.n_layers as int,
                c.dim as int,
                c.hidden_dim as int,
                c.vocab_size as int,
            );
            let (att, kv) = (c.att_dim_spec() as int, c.kv_dim_spec() as int);
            let table = c.seq_len as int * (c.head_size_spec() as int / 2);
            let at_token_embedding: int = 0;
            let at_rms_att = at_token_embedding + v * d;
            let at_wq = at_rms_att + l * d;
            let at_wk = at_wq + l * d * att;
            let at_wv = at_wk + l * d * kv;
            let at_wo = at_wv + l * d * kv;
            let at_rms_ffn = at_wo + l * att * d;
            let at_w1 = at_rms_ffn + l * d;
            let at_w2 = at_w1 + l * h * d;
            let at_w3 = at_w2 + l * d * h;
            let at_rms_final = at_w3 + l * h * d;
            let at_cosines = at_rms_final + d;
            let at_sines = at_cosines + table;
            let at_wcls = at_sines + table;
            &&& w.token_embedding@ == s.subrange(at_token_embedding, at_token_embedding + v * d)
            &&& w.rms_att@ == s.subrange(at_rms_att, at_rms_att + l * d)
            &&& w.wq@ == s.subrange(at_wq, at_wq + l * d * att)
            &&& w.wk@ == s.subrange(at_wk, at_wk + l * d * kv)
            &&& w.wv@ == s.subrange(at_wv, at_wv + l * d * kv)
            &&& w.wo@ == s.subrange(at_wo, at_wo + l * att * d)
            &&& w.rms_ffn@ == s.subrange(at_rms_ffn, at_rms_ffn + l * d)
            &&& w.w1@ == s.subrange(at_w1, at_w1 + l * h * d)
            &&& w.w2@ == s.subrange(at_w2, at_w2 + l * d * h)
            &&& w.w3@ == s.subrange(at_w3, at_w3 + l * h * d)
            &&& w.rms_final@ == s.subrange(at_rms_final, at_rms_final + d)
            &&& c.shared_weights ==> w.wcls@ == w.token_embedding@
            &&& !c.shared_weights ==> w.wcls@ == s.subrange(at_wcls, at_wcls + v * d)
        }),
{
    let lens = legacy_lens(c);
    assert(offset(lens, 0) == 0);
    assert(offset(lens, 1) == offset(lens, 0) + lens[0]);
    assert(offset(lens, 2) == offset(lens, 1) + lens[1]);
    assert(offset(lens, 3) == offset(lens, 2) + lens[2]);
    assert(offset(lens, 4) == offset(lens, 3) + lens[3]);
    assert(offset(lens, 5) == offset(lens, 4) + lens[4]);
    assert(offset(lens, 6) == offset(lens, 5) + lens[5]);
    assert(offset(lens, 7) == offset(lens, 6) + lens[6]);
    assert(offset(lens, 8) == offset(lens, 7) + lens[7]);
    assert(offset(lens, 9) == offset(lens, 8) + lens[8]);
    assert(offset(lens, 10) == offset(lens, 9) + lens[9]);
    assert(offset(lens, 11) == offset(lens, 10) + lens[10]);
    assert(offset(lens, 12) == offset(lens, 11) + lens[11]);
    assert(offset(lens, 13) == offset(lens, 12) + lens[12]);
    assert(offset(lens, 14) == offset(lens, 13) + lens[13]);
}

/// In a version 1 weight region the gains come first, then the tensors one behind the other:
/// embedding, queries, keys, values, attention outputs, gate, down, up, and the classifier where it
/// is not the embedding.
pub proof fn v1_tensors_lie_in_order<T>(w: Weights<'_, T>, s: Seq<T>, c: Config)
    requires
        views_v1(w, s, c),
    ensures
        ({
            let (l, d, h, v) = (
                c.n_layers as int,
                c.dim as int,
                c.hidden_dim as int,
                c.vocab_size as int,
            );
            let (att, kv) = (c.att_dim_spec() as int, c.kv_dim_spec() as int);
            let at_rms_att: int = 0;
            let at_rms_ffn = at_rms_att + l * d;
            let at_rms_final = at_rms_ffn + l * d;
            let at_token_embedding = at_rms_final + d;
            let at_wq = at_token_embedding + v * d;
            let at_wk = at_wq + l * d * att;
            let at_wv = at_wk + l * d * kv;
            let at_wo = at_wv + l * d * kv;
            let at_w1 = at_wo + l * att * d;
            let at_w2 = at_w1 + l * h * d;
            let at_w3 = at_w2 + l * d * h;
            let at_wcls = at_w3 + l * h * d;
            &&& w.rms_att@ == s.subrange(at_rms_att, at_rms_att + l * d)
            &&& w.rms_ffn@ == s.subrange(at_rms_ffn, at_rms_ffn + l * d)
            &&& w.rms_final@ == s.subrange(at_rms_final, at_rms_final + d)
            &&& w.token_embedding@ == s.subrange(at_token_embedding, at_token_embedding + v * d)
            &&& w.wq@ == s.subrange(at_wq, at_wq + l * d * att)
            &&& w.wk@ == s.subrange(at_wk, at_wk + l * d * kv)
            &&& w.wv@ == s.subrange(at_wv, at_wv + l * d * kv)
            &&& w.wo@ == s.subrange(at_wo, at_wo + l * att * d)
            &&& w.w1@ == s.subrange(at_w1, at_w1 + l * h * d)
            &&& w.w2@ == s.subrange(at_w2, at_w2 + l * d * h)
            &&& w.w3@ == s.subrange(at_w3, at_w3 + l * h * d)
            &&& c.shared_weights ==> w.wcls@ == w.token_embedding@
            &&& !c.shared_weights ==> w.wcls@ == s.subrange(at_wcls, at_wcls + v * d)
        }),
{
    let lens = v1_lens(c);
    assert(offset(lens, 0) == 0);
    assert(offset(lens, 1) == offset(lens, 0) + lens[0]);
    assert(offset(lens, 2) == offset(lens, 1) + lens[1]);
    assert(offset(lens, 3) == offset(lens, 2) + lens[2]);
    assert(offset(lens, 4) == offset(lens, 3) + lens[3]);
    assert(offset(lens, 5) == offset(lens, 4) + lens[4]);
    assert(offset(lens, 6) == offset(lens, 5) + lens[5]);
    assert(offset(lens, 7) == offset(lens, 6) + lens[6]);
    assert(offset(lens, 8) == offset(lens, 7) + lens[7]);
    assert(offset(lens, 9) == offset(lens, 8) + lens[8]);
    assert(offset(lens, 10) == offset(lens, 9) + lens[9]);
    assert(offset(lens, 11) == offset(lens, 10) + lens[10]);
    assert(offset(lens, 12) == offset(lens, 11) + lens[11]);
}

/// Where all tensors are made of whole groups, the scales of a tensor lie at its offset over the
/// group size.
pub proof fn scale_offset(lens: Seq<nat>, gs: nat, i: int)
    requires
        gs > 0,
        0 <= i <= lens.len(),
        forall|k: int| 0 <= k < lens.len() ==> #[trigger] lens[k] % gs == 0,
    ensures
        offset(lens, i) % gs == 0,
        offset(group_lens(lens, gs), i) == offset(lens, i) / gs,
    decreases i,
{
    if i > 0 {
        scale_offset(lens, gs, i - 1);
        let (x, y) = (offset(lens, i - 1) as int, lens[i - 1] as int);
        let g = gs as int;
        assert(y % g == 0);
        assert(group_lens(lens, gs)[i - 1] == lens[i - 1] / gs);
        vstd::arithmetic::div_mod::lemma_fundamental_div_mod(x, g);
        vstd::arithmetic::div_mod::lemma_fundamental_div_mod(y, g);
        assert(x + y == g * (x / g + y / g)) by (nonlinear_arith)
            requires
                x == g * (x / g) + 0,
                y == g * (y / g) + 0,
        ;
        vstd::arithmetic::div_mod::lemma_fundamental_div_mod_converse(
            x + y,
            g,
            x / g + y / g,
            0,
        );
    } else {
        assert(offset(lens, 0) == 0 && offset(group_lens(lens, gs), 0) == 0);
    }
}

/// In the two flat buffers of quantized weights the tensors lie one behind the other: embedding,
/// queries, keys, values, attention outputs, gate, down, up, and the classifier where it is not the
/// embedding; and the scales of a tensor lie at its offset over the group size.
pub proof fn quantized_tensors_lie_in_order<S>(
    w: QuantizedWeights<'_, S>,
    c: Config,
    data: Seq<i8>,
    scales: Seq<S>,
    gs: nat,
)
    requires
        gs > 0,
        views_parts(w, c, data, scales, gs),
        forall|k: int| 0 <= k < 9 ==> #[trigger] quantized_lens(c)[k] % gs == 0,
    ensures
        ({
            let g = gs as int;
            let (l, d, h, v) = (
                c.n_layers as int,
                c.dim as int,
                c.hidden_dim as int,
                c.vocab_size as int,
            );
            let (att, kv) = (c.att_dim_spec() as int, c.kv_dim_spec() as int);
            let at_token_embedding: int = 0;
            let at_wq = at_token_embedding + v * d;
            let at_wk = at_wq + l * d * att;
            let at_wv = at_wk + l * d * kv;
            let at_wo = at_wv + l * d * kv;
            let at_w1 = at_wo + l * att * d;
            let at_w2 = at_w1 + l * h * d;
            let at_w3 = at_w2 + l * d * h;
            let at_wcls = at_w3 + l * h * d;
            &&& w.token_embedding.data@ == data.subrange(at_token_embedding, at_token_embedding + v * d)
            &&& w.token_embedding.scales@ == scales.subrange(at_token_embedding / g, (at_token_embedding + v * d) / g)
            &&& w.token_embedding.group_size == gs
            &&& w.wq.data@ == data.subrange(at_wq, at_wq + l * d * att)
            &&& w.wq.scales@ == scales.subrange(at_wq / g, (at_wq + l * d * att) / g)
            &&& w.wq.group_size == gs
            &&& w.wk.data@ == data.subrange(at_wk, at_wk + l * d * kv)
            &&& w.wk.scales@ == scales.subrange(at_wk / g, (at_wk + l * d * kv) / g)
            &&& w.wk.group_size == gs
            &&& w.wv.data@ == data.subrange(at_wv, at_wv + l * d * kv)
            &&& w.wv.scales@ == scales.subrange(at_wv / g, (at_wv + l * d * kv) / g)
            &&& w.wv.group_size == gs
            &&& w.wo.data@ == data.subrange(at_wo, at_wo + l * att * d)
            &&& w.wo.scales@ == scales.subrange(at_wo / g, (at_wo + l * att * d) / g)
            &&& w.wo.group_size == gs
            &&& w.w1.data@ == data.subrange(at_w1, at_w1 + l * h * d)
            &&& w.w1.scales@ == scales.subrange(at_w1 / g, (at_w1 + l * h * d) / g)
            &&& w.w1.group_size == gs
            &&& w.w2.data@ == data.subrange(at_w2, at_w2 + l * d * h)
            &&& w.w2.scales@ == scales.subrange(at_w2 / g, (at_w2 + l * d * h) / g)
            &&& w.w2.group_size == gs
            &&& w.w3.data@ == data.subrange(at_w3, at_w3 + l * h * d)
            &&& w.w3.scales@ == scales.subrange(at_w3 / g, (at_w3 + l * h * d) / g)
            &&& w.w3.group_size == gs
            &&& c.shared_weights ==> w.wcls == w.token_embedding
            &&& !c.shared_weights ==> w.wcls.data@ == data.subrange(at_wcls, at_wcls + v * d)
                && w.wcls.scales@ == scales.subrange(at_wcls / g, (at_wcls + v * d) / g)
                && w.wcls.group_size == gs
        }),
{
    let lens = quantized_lens(c);
    assert(offset(lens, 0) == 0);
    assert(offset(lens, 1) == offset(lens, 0) + lens[0]);
    assert(offset(lens, 2) == offset(lens, 1) + lens[1]);
    assert(offset(lens, 3) == offset(lens, 2) + lens[2]);
    assert(offset(lens, 4) == offset(lens, 3) + lens[3]);
    assert(offset(lens, 5) == offset(lens, 4) + lens[4]);
    assert(offset(lens, 6) == offset(lens, 5) + lens[5]);
    assert(offset(lens, 7) == offset(lens, 6) + lens[6]);
    assert(offset(lens, 8) == offset(lens, 7) + lens[7]);
    assert(offset(lens, 9) == offset(lens, 8) + lens[8]);
    scale_offset(lens, gs, 0);
    scale_offset(lens, gs, 1);
    scale_offset(lens, gs, 2);
    scale_offset(lens, gs, 3);
    scale_offset(lens, gs, 4);
    scale_offset(lens, gs, 5);
    scale_offset(lens, gs, 6);
    scale_offset(lens, gs, 7);
    scale_offset(lens, gs, 8);
    scale_offset(lens, gs, 9);
}

/// What is quantized is each matrix of the weights, in the order embedding, queries, keys, values,
/// attention outputs, gate, down, up, classifier; a classifier that is the embedding is not
/// quantized again.
pub proof fn matrices_in_order<T>(w: Weights<'_, T>, c: Config)
    ensures
        matmul_views(w, c).len() == 9,
        matmul_views(w, c)[0] == w.token_embedding@,
        matmul_views(w, c)[1] == w.wq@,
        matmul_views(w, c)[2] == w.wk@,
        matmul_views(w, c)[3] == w.wv@,
        matmul_views(w, c)[4] == w.wo@,
        matmul_views(w, c)[5] == w.w1@,
        matmul_views(w, c)[6] == w.w2@,
        matmul_views(w, c)[7] == w.w3@,
        c.shared_weights ==> matmul_views(w, c)[8].len() == 0,
        !c.shared_weights ==> matmul_views(w, c)[8] == w.wcls@,
{
}

/// The elements of one layer of each projection of a version 2 file, in their order: queries, keys,
/// values, attention outputs, gate, down, up.
pub open spec fn layer_elements(c: Config, p: int) -> int {
    let (d, h) = (c.dim as int, c.hidden_dim as int);
    let (att, kv) = (c.att_dim_spec() as int, c.kv_dim_spec() as int);
    if p == 0 {
        d * att
    } else if p == 1 || p == 2 {
        d * kv
    } else if p == 3 {
        att * d
    } else if p == 5 {
        d * h
    } else {
        h * d
    }
}

proof fn projections_in_order(c: Config, n: int, p: int, l: int)
    requires
        0 <= p < n <= 7,
        0 <= l < c.n_layers,
    ensures
        projection_lens(c, n).len() == n * c.n_layers,
        projection_lens(c, n)[p * c.n_layers + l] == layer_elements(c, p),
    decreases n,
{
    let k = c.n_layers as nat;
    let before = projection_lens(c, n - 1);
    projection_count(c, n - 1);
    projection_count(c, n);
    assert(layer_lens(c)[p] == layer_elements(c, p));
    if p < n - 1 {
        projections_in_order(c, n - 1, p, l);
        crate::layout::window_bounds((n - 1) as nat, p, k);
    }
}

proof fn projection_count(c: Config, n: int)
    requires
        0 <= n <= 7,
    ensures
        projection_lens(c, n).len() == n * c.n_layers,
    decreases n,
{
    let k = c.n_layers as int;
    if n > 0 {
        projection_count(c, n - 1);
        assert((n - 1) * k + k == n * k) by (nonlinear_arith);
    } else {
        assert(n * k == 0) by (nonlinear_arith)
            requires
                n == 0,
        ;
    }
}

/// A version 2 file holds the embedding, then all layers of the queries, all layers of the keys, and
/// so on, and last the classifier where it is not the embedding.
pub proof fn v2_tensors_in_order(c: Config, p: int, l: int)
    requires
        0 <= p < 7,
        0 <= l < c.n_layers,
    ensures
        v2_lens(c)[0] == c.vocab_size * c.dim,
        v2_lens(c)[1 + p * c.n_layers + l] == layer_elements(c, p),
        v2_lens(c).len() == 1 + 7 * c.n_layers + if c.shared_weights {
            0int
        } else {
            1
        },
        !c.shared_weights ==> v2_lens(c)[1 + 7 * c.n_layers] == c.vocab_size * c.dim,
{
    projections_in_order(c, 7, p, l);
    crate::layout::window_bounds(7, p, c.n_layers as nat);
    let all = projection_lens(c, 7);
    let at = p * c.n_layers + l;
    assert(v2_lens(c)[1 + at] == all[at]);
}

/// Where the bytes of tensor `i` of a version 2 file begin: behind the header of 256 bytes, the gains
/// of four bytes each, and the bytes and scales of the tensors before it.
pub open spec fn v2_place(c: Config, gs: nat, i: int) -> int
    decreases i,
{
    if i <= 0 {
        256 + 4 * (2 * (c.n_layers * c.dim) + c.dim)
    } else {
        v2_place(c, gs, i - 1) + v2_lens(c)[i - 1] + 4 * (v2_lens(c)[i - 1] / gs)
    }
}

proof fn place_of_offset(c: Config, gs: nat, i: int)
    requires
        gs > 0,
        0 <= i <= v2_lens(c).len(),
    ensures
        v2_place(c, gs, i) == tensors_at(c) + offset(stored_lens(v2_lens(c), gs), i),
    decreases i,
{
    let (l, d) = (c.n_layers as nat, c.dim as nat);
    assert(2 * l * d == 2 * (l * d)) by (nonlinear_arith);
    if i > 0 {
        place_of_offset(c, gs, i - 1);
    }
}

/// Unpacking a version 2 file puts the bytes of every tensor and its scales, which follow them,
/// behind those of the tensors before it.
pub proof fn unpacking_keeps_the_order(
    file: Seq<u8>,
    c: Config,
    gs: nat,
    data: Seq<i8>,
    scales: Seq<u32>,
    i: int,
    k: int,
)
    requires
        gs > 0,
        unpacked(file, c, gs, data, scales),
        0 <= i < v2_lens(c).len(),
        file.len() == tensors_at(c) + total(stored_lens(v2_lens(c), gs)),
    ensures
        0 <= k < v2_lens(c)[i] ==> data[offset(v2_lens(c), i) + k] == file[v2_place(c, gs, i)
            + k] as i8,
        0 <= k < v2_lens(c)[i] / gs ==> scales[offset(group_lens(v2_lens(c), gs), i) + k]
            == le_u32(file, v2_place(c, gs, i) + v2_lens(c)[i] + 4 * k),
{
    let lens = v2_lens(c);
    let groups = group_lens(lens, gs);
    let stored = stored_lens(lens, gs);
    place_of_offset(c, gs, i);
    let t = stored_tensor(file, c, gs, i);
    let at = v2_place(c, gs, i);
    crate::layout::offset_grows(stored, i + 1, lens.len() as int);
    crate::layout::offset_grows(lens, i + 1, lens.len() as int);
    crate::layout::offset_grows(groups, i + 1, lens.len() as int);
    assert(offset(stored, i + 1) == offset(stored, i) + stored[i]);
    assert(offset(lens, i + 1) == offset(lens, i) + lens[i]);
    assert(offset(groups, i + 1) == offset(groups, i) + groups[i]);
    assert(t.len() == stored[i]);
    if 0 <= k < lens[i] {
        assert(part(data, lens, i)[k] == data[offset(lens, i) + k]);
        assert(t[k] == file[at + k]);
        assert(bytes_int8(t.take(lens[i] as int))[k] == t[k] as i8);
    }
    if 0 <= k < lens[i] / gs {
        let rest = t.skip(lens[i] as int);
        assert(part(scales, groups, i)[k] == scales[offset(groups, i) + k]);
        let o = at + lens[i] + 4 * k;
        assert(rest.len() == 4 * (lens[i] / gs));
        assert(rest[4 * k] == file[o]);
        assert(rest[4 * k + 1] == file[o + 1]);
        assert(rest[4 * k + 2] == file[o + 2]);
        assert(rest[4 * k + 3] == file[o + 3]);
        assert(words_of(rest)[k] == le_u32(rest, 4 * k) as u32);
        assert(le_u32(rest, 4 * k) == le_u32(file, o));
    }
}

/// The weights of a checkpoint begin behind its header: element `k` is the word at four times `k`
/// bytes behind it.
pub proof fn weights_begin_behind_the_header(m: Model, k: int)
    requires
        0 <= k,
        m.format.header_bytes() + 4 * k + 4 <= m.file().len(),
    ensures
        m.format == ModelFormat::Legacy ==> m.weight_region()[k] == le_u32(m.file(), 28 + 4 * k),
        m.format != ModelFormat::Legacy ==> m.weight_region()[k] == le_u32(m.file(), 256 + 4 * k),
{
    let j = m.format.header_bytes() as int / 4 + k;
    a_word_of_bytes(m.words@, j);
    assert(m.weight_region()[k] == m.words@[j]);
}

/// A word is read from its own four bytes of a buffer of words.
pub proof fn a_word_of_bytes(w: Seq<u32>, j: int)
    requires
        0 <= j < w.len(),
    ensures
        w[j] == le_u32(bytes_of(w), 4 * j),
{
    let s = bytes_of(w);
    let b = u32_bytes(w[j] as int);
    u32_round_trip(w[j] as int);
    assert(s[4 * j] == b[0]);
    assert(s[4 * j + 1] == b[1]);
    assert(s[4 * j + 2] == b[2]);
    assert(s[4 * j + 3] == b[3]);
}

/// The gains of a version 2 checkpoint lie in front of its tensors: the attention gains of all
/// layers, the feed-forward gains of all layers, and the final gains.
pub proof fn v2_gains_lie_in_front(m: Model, b: QuantBuffers, k: int)
    requires
        m.unpacks_to(b),
        m.file().len() >= 256 + 4 * (2 * (m.config.n_layers * m.config.dim) + m.config.dim),
    ensures
        ({
            let n = m.config.n_layers * m.config.dim;
            &&& 0 <= k < n ==> b.rms_att@[k] == le_u32(m.file(), 256 + 4 * k)
            &&& 0 <= k < n ==> b.rms_ffn@[k] == le_u32(m.file(), 256 + 4 * (n + k))
            &&& 0 <= k < m.config.dim ==> b.rms_final@[k] == le_u32(
                m.file(),
                256 + 4 * (2 * n + k),
            )
        }),
{
    let n = m.config.n_layers * m.config.dim;
    if 0 <= k < n {
        weights_begin_behind_the_header(m, k);
        weights_begin_behind_the_header(m, n + k);
    }
    if 0 <= k < m.config.dim {
        weights_begin_behind_the_header(m, 2 * n + k);
    }
}

} // verus!

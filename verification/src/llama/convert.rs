//! Checkpoint conversion: serialize a loaded full-precision model as v1 or v2.
//!
//! v1 is full precision with the versioned header and the norms first. v2 holds the norms
//! in full precision and every matmul weight quantized, each layer's data followed by its
//! scales. Converting from a v2 checkpoint is refused: it would pass off quantized weights
//! as full precision.

use vstd::prelude::*;

use crate::bytes::{push_u32, push_words};
#[allow(unused_imports)]
use crate::bytes::{
    bytes_of, bytes_of_concat, int8_bytes, int8_round_trip, le_u32, u32_bytes,
    u32_round_trip, words_in_front, words_of, words_of_bytes, words_of_skip,
};
#[allow(unused_imports)]
use crate::error::{ConfigField, EngineError};
use crate::host::args::Target;
use crate::host::error::HostError;
#[allow(unused_imports)]
use crate::layout::{
    joined, joined_concat, joined_len, joined_prefix, lens_of, offset, part, part_of_joined, total,
};
use crate::llama::config::{Config, ModelFormat, MAGIC, VERSIONED_HEADER_BYTES};
#[allow(unused_imports)]
use crate::llama::config::{header_fields, parsed_configs_are_valid, parsed_header};
use crate::llama::loader::{Model, QuantBuffers};
#[allow(unused_imports)]
use crate::llama::loader::{
    groups_divide_layers, groups_divide_tensors, groups_divide_v2_tensors, multiple_of, stored_lens,
    stored_tensor, stored_tensors_fill_the_file, tensors_at, unpacked,
};
#[allow(unused_imports)]
use crate::llama::quantize::{
    layer_lens, layers_make_up_projections, matmul_shapes, matmul_views, projection_lens,
    quantized_lens, repeated, v2_lens, v2_tensor_sizes_sum,
};
use crate::llama::weights::Weights;
#[allow(unused_imports)]
use crate::llama::weights::{file_bytes, norm_len, shaped, v1_lens, views_legacy, views_v1};
#[allow(unused_imports)]
use crate::quant::{
    group_lens, groups_exact, is_function, quantized_as, quantized_lengths, quantized_once,
    quantized_run, quantizes_groups,
};
use crate::quant::quantize;
#[allow(unused_imports)]
use crate::text::decimal;
use crate::text::push_decimal;

verus! {

/// `k` zero bytes.
pub open spec fn zeros(k: nat) -> Seq<u8> {
    Seq::new(k, |i: int| 0u8)
}

/// The parts of a versioned header: the magic, the version, the seven fields, the
/// shared-classifier flag, the group size (zero where there is none), and padding.
pub open spec fn header_parts(c: Config, version: int, group_size: int) -> Seq<Seq<u8>> {
    seq![
        u32_bytes(MAGIC as int),
        u32_bytes(version),
        u32_bytes(c.dim as int),
        u32_bytes(c.hidden_dim as int),
        u32_bytes(c.n_layers as int),
        u32_bytes(c.n_heads as int),
        u32_bytes(c.n_kv_heads as int),
        u32_bytes(c.vocab_size as int),
        u32_bytes(c.seq_len as int),
        seq![
            if c.shared_weights {
                1u8
            } else {
                0u8
            },
        ],
        u32_bytes(group_size),
        zeros(215),
    ]
}

/// A versioned header: its parts back to back.
pub open spec fn header_image(c: Config, version: int, group_size: int) -> Seq<u8> {
    joined(header_parts(c, version, group_size), 12)
}

/// Where the parts of a versioned header begin.
proof fn header_offsets(c: Config, version: int, group_size: int)
    ensures
        ({
            let lens = lens_of(header_parts(c, version, group_size));
            &&& lens.len() == 12
            &&& forall|i: int| 0 <= i <= 9 ==> #[trigger] offset(lens, i) == 4 * i
            &&& offset(lens, 10) == 37
            &&& offset(lens, 11) == 41
            &&& offset(lens, 12) == 256
        }),
        header_image(c, version, group_size).len() == 256,
{
    let parts = header_parts(c, version, group_size);
    let lens = lens_of(parts);
    reveal_with_fuel(offset, 13);
    joined_len(parts, 12);
}

/// In a written header, byte 36 is one where the classifier is the embedding and zero otherwise, and
/// the bytes behind the group size are zero.
pub proof fn headers_end_in_zeros(c: Config, version: int, group_size: int, k: int)
    requires
        41 <= k < 256,
    ensures
        header_image(c, version, group_size).len() == 256,
        header_image(c, version, group_size)[36] == if c.shared_weights {
            1
        } else {
            0int
        },
        header_image(c, version, group_size)[k] == 0,
{
    let parts = header_parts(c, version, group_size);
    let image = header_image(c, version, group_size);
    header_offsets(c, version, group_size);
    part_of_joined(parts, 12, 9);
    part_of_joined(parts, 12, 11);
    let lens = lens_of(parts);
    assert(offset(lens, 9) == 36);
    assert(part(image, lens, 9)[0] == image[36]);
    assert(part(image, lens, 11)[k - 41] == image[k]);
}

/// Build a versioned header.
fn header(c: &Config, version: u32, group_size: u32) -> (r: Vec<u8>)
    requires
        c.valid(),
    ensures
        r@ == header_image(*c, version as int, group_size as int),
        r@.len() == VERSIONED_HEADER_BYTES,
{
    let ghost parts = header_parts(*c, version as int, group_size as int);
    let mut h: Vec<u8> = Vec::new();
    push_u32(&mut h, MAGIC);
    assert(h@ =~= joined(parts, 0) + parts[0]);
    push_u32(&mut h, version);
    assert(h@ == joined(parts, 1) + parts[1]);
    push_u32(&mut h, c.dim as u32);
    assert(h@ == joined(parts, 2) + parts[2]);
    push_u32(&mut h, c.hidden_dim as u32);
    assert(h@ == joined(parts, 3) + parts[3]);
    push_u32(&mut h, c.n_layers as u32);
    assert(h@ == joined(parts, 4) + parts[4]);
    push_u32(&mut h, c.n_heads as u32);
    assert(h@ == joined(parts, 5) + parts[5]);
    push_u32(&mut h, c.n_kv_heads as u32);
    assert(h@ == joined(parts, 6) + parts[6]);
    push_u32(&mut h, c.vocab_size as u32);
    assert(h@ == joined(parts, 7) + parts[7]);
    push_u32(&mut h, c.seq_len as u32);
    assert(h@ == joined(parts, 8) + parts[8]);
    h.push(
        if c.shared_weights {
            1
        } else {
            0
        },
    );
    assert(h@ =~= joined(parts, 9) + parts[9]);
    push_u32(&mut h, group_size);
    assert(h@ == joined(parts, 10) + parts[10]);
    let ghost start = h@;
    proof {
        header_offsets(*c, version as int, group_size as int);
        assert(start + zeros(0) =~= start);
    }
    let mut k: usize = 0;
    while k < 215
        invariant
            k <= 215,
            h@ == start + zeros(k as nat),
        decreases 215 - k,
    {
        h.push(0);
        proof {
            assert(h@ =~= start + zeros((k + 1) as nat));
        }
        k = k + 1;
    }
    assert(h@ == joined(parts, 11) + parts[11]);
    h
}

/// Reading a field back from a header.
proof fn field_at(s: Seq<u8>, o: int, v: int)
    requires
        0 <= o,
        o + 4 <= s.len(),
        0 <= v <= u32::MAX,
        s.subrange(o, o + 4) == u32_bytes(v),
    ensures
        le_u32(s, o) == v,
{
    u32_round_trip(v);
    let b = s.subrange(o, o + 4);
    assert(b[0] == s[o] && b[1] == s[o + 1] && b[2] == s[o + 2] && b[3] == s[o + 3]);
}

/// Reading one of a header's words back.
proof fn header_part(
    c: Config,
    version: int,
    group_size: int,
    rest: Seq<u8>,
    i: int,
    o: int,
    v: int,
)
    requires
        0 <= i < 9 && o == 4 * i || i == 10 && o == 37,
        0 <= v <= u32::MAX,
        header_parts(c, version, group_size)[i] == u32_bytes(v),
    ensures
        le_u32(header_image(c, version, group_size) + rest, o) == v,
{
    let parts = header_parts(c, version, group_size);
    let image = header_image(c, version, group_size);
    header_offsets(c, version, group_size);
    part_of_joined(parts, 12, i);
    assert(offset(lens_of(parts), i) == o);
    assert(offset(lens_of(parts), i + 1) == o + 4);
    assert((image + rest).subrange(o, o + 4) =~= part(image, lens_of(parts), i));
    field_at(image + rest, o, v);
}

/// What parsing a header that was built from a config gives: the config and the format,
/// unless the vocabulary is larger than the field for it can hold.
pub open spec fn read_back(c: Config, format: ModelFormat) -> Result<
    (Config, ModelFormat),
    EngineError,
> {
    if c.vocab_size <= i32::MAX {
        Ok((c, format))
    } else {
        Err(EngineError::InvalidConfig(ConfigField::VocabSize))
    }
}

/// Parsing a header that was built from a config gives the config and the format back,
/// whatever follows the header. A vocabulary of 2^31 tokens, which only a legacy header can
/// hold, is refused.
pub proof fn header_round_trip(c: Config, version: int, group_size: int, rest: Seq<u8>)
    requires
        c.valid(),
        version == 1 || (version == 2 && 0 < group_size <= i32::MAX && c.dim as int % group_size
            == 0 && c.hidden_dim as int % group_size == 0),
        0 <= group_size <= i32::MAX,
    ensures
        parsed_header(header_image(c, version, group_size) + rest) == read_back(
            c,
            if version == 1 {
                ModelFormat::V1
            } else {
                ModelFormat::V2 { group_size: group_size as usize }
            },
        ),
{
    let image = header_image(c, version, group_size);
    let s = image + rest;
    header_offsets(c, version, group_size);
    header_part(c, version, group_size, rest, 0, 0, MAGIC as int);
    header_part(c, version, group_size, rest, 1, 4, version);
    header_part(c, version, group_size, rest, 2, 8, c.dim as int);
    header_part(c, version, group_size, rest, 3, 12, c.hidden_dim as int);
    header_part(c, version, group_size, rest, 4, 16, c.n_layers as int);
    header_part(c, version, group_size, rest, 5, 20, c.n_heads as int);
    header_part(c, version, group_size, rest, 6, 24, c.n_kv_heads as int);
    header_part(c, version, group_size, rest, 7, 28, c.vocab_size as int);
    header_part(c, version, group_size, rest, 8, 32, c.seq_len as int);
    header_part(c, version, group_size, rest, 10, 37, group_size);
    let parts = header_parts(c, version, group_size);
    part_of_joined(parts, 12, 9);
    assert(part(image, lens_of(parts), 9)[0] == s[36]);
    let f = header_fields(s, 8);
    assert(f[0] == c.dim && f[1] == c.hidden_dim && f[2] == c.n_layers && f[3] == c.n_heads && f[4]
        == c.n_kv_heads && f[6] == c.seq_len);
    assert(f[5] == if c.vocab_size <= i32::MAX {
        c.vocab_size as int
    } else {
        c.vocab_size - 0x1_0000_0000
    });
}

/// The tensors of a v1 checkpoint in file order; the classifier is empty where it shares
/// the embedding.
pub open spec fn v1_views<T>(w: Weights<'_, T>, c: Config) -> Seq<Seq<T>> {
    seq![
        w.rms_att@,
        w.rms_ffn@,
        w.rms_final@,
        w.token_embedding@,
        w.wq@,
        w.wk@,
        w.wv@,
        w.wo@,
        w.w1@,
        w.w2@,
        w.w3@,
        if c.shared_weights {
            Seq::empty()
        } else {
            w.wcls@
        },
    ]
}

/// A v1 checkpoint: the header, then every tensor.
pub open spec fn v1_image(w: Weights<'_, u32>, c: Config) -> Seq<u8> {
    header_image(c, 1, 0) + bytes_of(joined(v1_views(w, c), 12))
}

/// Serialize a model as a v1 checkpoint.
pub fn write_v1(w: &Weights<'_, u32>, c: &Config) -> (r: Vec<u8>)
    requires
        c.valid(),
    ensures
        r@ == v1_image(*w, *c),
{
    let mut out = header(c, 1, 0);
    let ghost views = v1_views(*w, *c);
    let ghost head = out@;
    let tensors = [
        w.rms_att,
        w.rms_ffn,
        w.rms_final,
        w.token_embedding,
        w.wq,
        w.wk,
        w.wv,
        w.wo,
        w.w1,
        w.w2,
        w.w3,
    ];
    let mut i: usize = 0;
    proof {
        assert(bytes_of(joined(views, 0)) =~= Seq::<u8>::empty());
        assert(out@ =~= head + bytes_of(joined(views, 0)));
    }
    while i < 11
        invariant
            i <= 11,
            tensors@.len() == 11,
            forall|k: int| 0 <= k < 11 ==> #[trigger] views[k] == tensors@[k]@,
            out@ == head + bytes_of(joined(views, i as int)),
        decreases 11 - i,
    {
        push_words(&mut out, tensors[i]);
        proof {
            assert(views[i as int] == tensors@[i as int]@);
            bytes_of_concat(joined(views, i as int), views[i as int]);
            assert(out@ =~= head + bytes_of(joined(views, i + 1)));
        }
        i = i + 1;
    }
    if !c.shared_weights {
        push_words(&mut out, w.wcls);
    }
    proof {
        bytes_of_concat(joined(views, 11), views[11]);
        assert(bytes_of(Seq::<u32>::empty()) =~= Seq::<u8>::empty());
        assert(joined(views, 12) =~= joined(views, 11) + views[11]);
        assert(out@ =~= head + bytes_of(joined(views, 12)));
    }
    out
}

/// The tensors of a v1 checkpoint have the lengths of its layout.
proof fn v1_shapes(w: Weights<'_, u32>, c: Config)
    requires
        shaped(w, c),
    ensures
        lens_of(v1_views(w, c)) == v1_lens(c),
{
    assert(lens_of(v1_views(w, c)) =~= v1_lens(c));
}

/// Conversion to v1 loses nothing: the file has the length its header implies, its header
/// parses to the config, and carving its weight region gives back every tensor.
pub proof fn v1_conversion_is_lossless(w: Weights<'_, u32>, c: Config, back: Weights<'_, u32>)
    requires
        c.valid(),
        shaped(w, c),
        c.shared_weights ==> w.wcls@ == w.token_embedding@,
        views_v1(back, words_of(v1_image(w, c).skip(VERSIONED_HEADER_BYTES as int)), c),
    ensures
        v1_image(w, c).len() == file_bytes(c, ModelFormat::V1),
        parsed_header(v1_image(w, c)) == read_back(c, ModelFormat::V1),
        back.token_embedding@ == w.token_embedding@,
        back.rms_att@ == w.rms_att@,
        back.wq@ == w.wq@,
        back.wk@ == w.wk@,
        back.wv@ == w.wv@,
        back.wo@ == w.wo@,
        back.rms_ffn@ == w.rms_ffn@,
        back.w1@ == w.w1@,
        back.w2@ == w.w2@,
        back.w3@ == w.w3@,
        back.rms_final@ == w.rms_final@,
        back.wcls@ == w.wcls@,
{
    let views = v1_views(w, c);
    let flat = joined(views, 12);
    let image = v1_image(w, c);
    v1_shapes(w, c);
    joined_len(views, 12);
    header_round_trip(c, 1, 0, bytes_of(flat));
    header_offsets(c, 1, 0);
    assert(image.skip(256) =~= bytes_of(flat));
    words_of_bytes(flat);
    assert forall|i: int| 0 <= i < 12 implies #[trigger] views[i] == part(flat, v1_lens(c), i) by {
        part_of_joined(views, 12, i);
    }
}

/// The layers of a tensor, `n` elements each.
pub open spec fn layer_views<T>(x: Seq<T>, n: int, layers: nat) -> Seq<Seq<T>> {
    Seq::new(layers, |l: int| x.subrange(l * n, l * n + n))
}

/// The layers of the first `p` projections.
pub open spec fn projection_views<T>(w: Weights<'_, T>, c: Config, p: int) -> Seq<Seq<T>>
    decreases p,
{
    if p <= 0 {
        Seq::empty()
    } else {
        projection_views(w, c, p - 1) + layer_views(
            matmul_views(w, c)[p],
            layer_lens(c)[p - 1] as int,
            c.n_layers as nat,
        )
    }
}

/// The tensors of a v2 checkpoint in file order: the embedding, every layer of each
/// projection, and a separate classifier.
pub open spec fn v2_views<T>(w: Weights<'_, T>, c: Config) -> Seq<Seq<T>> {
    seq![w.token_embedding@] + projection_views(w, c, 7) + if c.shared_weights {
        Seq::<Seq<T>>::empty()
    } else {
        seq![w.wcls@]
    }
}

/// Whether `ds` and `ss` are the tensors of a v2 checkpoint, quantized.
pub open spec fn v2_quantized<F: Fn(&[u32]) -> (Vec<i8>, u32)>(
    f: F,
    w: Weights<'_, u32>,
    c: Config,
    group_size: nat,
    ds: Seq<Seq<i8>>,
    ss: Seq<Seq<u32>>,
) -> bool {
    &&& ds.len() == v2_views(w, c).len()
    &&& ss.len() == ds.len()
    &&& forall|i: int|
        0 <= i < ds.len() ==> quantized_as(
            f,
            #[trigger] v2_views(w, c)[i],
            group_size,
            ds[i],
            ss[i],
        )
}

/// Each tensor of a v2 checkpoint as it is stored: the data, then the scales.
pub open spec fn v2_blocks(ds: Seq<Seq<i8>>, ss: Seq<Seq<u32>>) -> Seq<Seq<u8>> {
    Seq::new(ds.len(), |i: int| int8_bytes(ds[i]) + bytes_of(ss[i]))
}

/// A v2 checkpoint: the header, the norms in full precision, then every quantized tensor.
pub open spec fn v2_image(
    w: Weights<'_, u32>,
    c: Config,
    group_size: int,
    ds: Seq<Seq<i8>>,
    ss: Seq<Seq<u32>>,
) -> Seq<u8> {
    header_image(c, 2, group_size) + bytes_of(w.rms_att@ + w.rms_ffn@ + w.rms_final@) + joined(
        v2_blocks(ds, ss),
        ds.len() as int,
    )
}

/// Append int8 values as bytes.
fn push_int8(out: &mut Vec<u8>, values: &[i8])
    ensures
        final(out)@ == old(out)@ + int8_bytes(values@),
{
    let mut i: usize = 0;
    proof {
        assert(out@ =~= old(out)@ + int8_bytes(values@.take(0)));
    }
    while i < values.len()
        invariant
            i <= values@.len(),
            out@ == old(out)@ + int8_bytes(values@.take(i as int)),
        decreases values@.len() - i,
    {
        out.push(values[i] as u8);
        proof {
            assert(out@ =~= old(out)@ + int8_bytes(values@.take(i + 1)));
        }
        i = i + 1;
    }
    proof {
        assert(values@.take(values@.len() as int) =~= values@);
    }
}

/// Quantize one tensor and append it: its data, then its scales. Gives back what was
/// appended.
fn emit<F: Fn(&[u32]) -> (Vec<i8>, u32)>(
    out: &mut Vec<u8>,
    x: &[u32],
    group_size: usize,
    f: &F,
) -> (r: Ghost<(Seq<i8>, Seq<u32>)>)
    requires
        group_size > 0,
        x@.len() % group_size as nat == 0,
        quantizes_groups(*f, group_size as nat),
    ensures
        quantized_as(*f, x@, group_size as nat, r@.0, r@.1),
        final(out)@ == old(out)@ + (int8_bytes(r@.0) + bytes_of(r@.1)),
{
    let mut data: Vec<i8> = vec![0i8; x.len()];
    let mut scales: Vec<u32> = vec![0u32; x.len() / group_size];
    quantize(data.as_mut_slice(), scales.as_mut_slice(), x, group_size, f);
    push_int8(out, data.as_slice());
    push_words(out, scales.as_slice());
    proof {
        assert(out@ =~= old(out)@ + (int8_bytes(data@) + bytes_of(scales@)));
    }
    Ghost((data@, scales@))
}

/// Appending a block to those laid out before it.
proof fn block_appended(
    ds: Seq<Seq<i8>>,
    ss: Seq<Seq<u32>>,
    d: Seq<i8>,
    s: Seq<u32>,
    head: Seq<u8>,
)
    requires
        ds.len() == ss.len(),
    ensures
        head + joined(v2_blocks(ds, ss), ds.len() as int) + (int8_bytes(d) + bytes_of(s)) == head
            + joined(v2_blocks(ds.push(d), ss.push(s)), ds.len() as int + 1),
{
    let a = v2_blocks(ds, ss);
    let b = v2_blocks(ds.push(d), ss.push(s));
    joined_prefix(b, a, ds.len() as int);
    assert(b[ds.len() as int] =~= int8_bytes(d) + bytes_of(s));
    assert(joined(b, ds.len() as int + 1) == joined(a, ds.len() as int) + (int8_bytes(d) + bytes_of(s)));
    assert(head + joined(a, ds.len() as int) + (int8_bytes(d) + bytes_of(s)) =~= head + joined(
        b,
        ds.len() as int + 1,
    ));
}

/// Serialize a model as a v2 checkpoint; each group of weights is quantized by `f`.
#[verifier::rlimit(40)]
pub fn write_v2<F: Fn(&[u32]) -> (Vec<i8>, u32)>(
    w: &Weights<'_, u32>,
    c: &Config,
    group_size: usize,
    f: &F,
) -> (r: Vec<u8>)
    requires
        c.valid(),
        shaped(*w, *c),
        group_size > 0,
        c.dim % group_size == 0,
        c.hidden_dim % group_size == 0,
        quantizes_groups(*f, group_size as nat),
    ensures
        exists|ds: Seq<Seq<i8>>, ss: Seq<Seq<u32>>| #[trigger]
            v2_quantized(*f, *w, *c, group_size as nat, ds, ss) && r@ == v2_image(
                *w,
                *c,
                group_size as int,
                ds,
                ss,
            ),
{
    let ghost gs = group_size as nat;
    let ghost views = v2_views(*w, *c);
    proof {
        assert(group_size <= c.dim) by (nonlinear_arith)
            requires
                c.dim > 0,
                group_size > 0,
                c.dim % group_size == 0,
        ;
        multiple_of(c.vocab_size as nat, c.dim as nat, gs);
    }
    let mut out = header(c, 2, group_size as u32);
    let ghost image = out@;
    push_words(&mut out, w.rms_att);
    push_words(&mut out, w.rms_ffn);
    push_words(&mut out, w.rms_final);
    let ghost head = out@;
    proof {
        bytes_of_concat(w.rms_att@, w.rms_ffn@);
        bytes_of_concat(w.rms_att@ + w.rms_ffn@, w.rms_final@);
        assert(head =~= image + bytes_of(w.rms_att@ + w.rms_ffn@ + w.rms_final@));
    }
    let ghost mut ds: Seq<Seq<i8>> = Seq::empty();
    let ghost mut ss: Seq<Seq<u32>> = Seq::empty();
    proof {
        assert(head + joined(v2_blocks(ds, ss), 0) =~= head);
    }
    let Ghost(done) = emit(&mut out, w.token_embedding, group_size, f);
    proof {
        block_appended(ds, ss, done.0, done.1, head);
        ds = ds.push(done.0);
        ss = ss.push(done.1);
    }
    let projections = [w.wq, w.wk, w.wv, w.wo, w.w1, w.w2, w.w3];
    let mut p: usize = 0;
    proof {
        assert(seq![w.token_embedding@] + projection_views(*w, *c, 0) =~= seq![
            w.token_embedding@,
        ]);
    }
    while p < 7
        invariant
            p <= 7,
            gs == group_size,
            group_size > 0,
            c.valid(),
            c.dim as nat % gs == 0,
            c.hidden_dim as nat % gs == 0,
            shaped(*w, *c),
            quantizes_groups(*f, gs),
            projections@.len() == 7,
            forall|k: int| 0 <= k < 7 ==> #[trigger] projections@[k]@ == matmul_views(*w, *c)[k + 1],
            ds.len() == ss.len(),
            ds.len() == 1 + projection_views(*w, *c, p as int).len(),
            out@ == head + joined(v2_blocks(ds, ss), ds.len() as int),
            forall|i: int|
                0 <= i < ds.len() ==> quantized_as(
                    *f,
                    #[trigger] (seq![w.token_embedding@] + projection_views(*w, *c, p as int))[i],
                    gs,
                    ds[i],
                    ss[i],
                ),
        decreases 7 - p,
    {
        let proj = projections[p];
        let ghost n = layer_lens(*c)[p as int] as int;
        let ghost layers = c.n_layers as int;
        let ghost x = matmul_views(*w, *c)[p + 1];
        let ghost before = seq![w.token_embedding@] + projection_views(*w, *c, p as int);
        let ghost start = ds.len() as int;
        proof {
            assert(projections@[p as int]@ == x);
            layers_make_up_projections(*c, p as int);
            assert(x.len() == layers * n);
            groups_divide_layers(*c, gs, p as int);
            assert(x.len() as int / layers == n) by (nonlinear_arith)
                requires
                    x.len() == layers * n,
                    layers > 0,
                    n >= 0,
            ;
            assert(proj.len() == proj@.len());
        }
        let per_layer: usize = proj.len() / c.n_layers;
        let mut l: usize = 0;
        while l < c.n_layers
            invariant
                l <= c.n_layers,
                gs == group_size,
                group_size > 0,
                quantizes_groups(*f, gs),
                per_layer == n,
                layers == c.n_layers,
                proj@ == x,
                x.len() == layers * n,
                x.len() <= usize::MAX,
                n >= 0,
                n as nat % gs == 0,
                start == before.len(),
                ds.len() == ss.len(),
                ds.len() == start + l,
                out@ == head + joined(v2_blocks(ds, ss), ds.len() as int),
                forall|i: int|
                    0 <= i < start ==> quantized_as(*f, #[trigger] before[i], gs, ds[i], ss[i]),
                forall|k: int|
                    0 <= k < l ==> quantized_as(
                        *f,
                        #[trigger] layer_views(x, n, layers as nat)[k],
                        gs,
                        ds[start + k],
                        ss[start + k],
                    ),
            decreases c.n_layers - l,
        {
            proof {
                assert(0 <= l * n && l * n + n <= layers * n) by (nonlinear_arith)
                    requires
                        0 <= l < layers,
                        n >= 0,
                ;
            }
            let at: usize = l * per_layer;
            let layer = vstd::slice::slice_subrange(proj, at, at + per_layer);
            let Ghost(done) = emit(&mut out, layer, group_size, f);
            proof {
                block_appended(ds, ss, done.0, done.1, head);
                let old_ds = ds;
                let old_ss = ss;
                ds = ds.push(done.0);
                ss = ss.push(done.1);
                assert(layer@ == layer_views(x, n, layers as nat)[l as int]);
                assert forall|i: int| 0 <= i < start implies quantized_as(
                    *f,
                    #[trigger] before[i],
                    gs,
                    ds[i],
                    ss[i],
                ) by {
                    assert(ds[i] == old_ds[i] && ss[i] == old_ss[i]);
                }
            }
            l = l + 1;
        }
        proof {
            let after = seq![w.token_embedding@] + projection_views(*w, *c, p + 1);
            let layered = layer_views(x, n, layers as nat);
            assert(after =~= before + layered);
            assert forall|i: int| 0 <= i < ds.len() implies quantized_as(
                *f,
                #[trigger] after[i],
                gs,
                ds[i],
                ss[i],
            ) by {
                if i < start {
                    assert(after[i] == before[i]);
                } else {
                    assert(after[i] == layered[i - start]);
                }
            }
        }
        p = p + 1;
    }
    if !c.shared_weights {
        let Ghost(done) = emit(&mut out, w.wcls, group_size, f);
        proof {
            block_appended(ds, ss, done.0, done.1, head);
            ds = ds.push(done.0);
            ss = ss.push(done.1);
        }
    }
    proof {
        let front = seq![w.token_embedding@] + projection_views(*w, *c, 7);
        assert forall|i: int| 0 <= i < ds.len() implies quantized_as(
            *f,
            #[trigger] views[i],
            gs,
            ds[i],
            ss[i],
        ) by {
            if i < front.len() {
                assert(views[i] == front[i]);
            } else {
                assert(views[i] == w.wcls@);
            }
        }
        assert(v2_quantized(*f, *w, *c, gs, ds, ss));
        assert(out@ == v2_image(*w, *c, group_size as int, ds, ss));
    }
    out
}

/// The layers of a tensor laid back to back are the tensor.
proof fn layers_make_up_tensor<T>(x: Seq<T>, n: int, layers: nat, k: int)
    requires
        0 <= k <= layers,
        n >= 0,
        x.len() == layers * n,
    ensures
        joined(layer_views(x, n, layers), k) == x.take(k * n),
        0 <= k * n <= x.len(),
    decreases k,
{
    assert(0 <= k * n <= layers * n) by (nonlinear_arith)
        requires
            0 <= k <= layers,
            n >= 0,
    ;
    if k > 0 {
        layers_make_up_tensor(x, n, layers, k - 1);
        assert(k * n == (k - 1) * n + n) by (nonlinear_arith);
        assert(joined(layer_views(x, n, layers), k) =~= x.take(k * n));
    } else {
        assert(0 * n == 0) by (nonlinear_arith);
    }
}

/// The projections' layers, laid back to back, are the projections.
proof fn projection_layers_join<T>(w: Weights<'_, T>, c: Config, p: int)
    requires
        shaped(w, c),
        0 <= p <= 7,
    ensures
        projection_views(w, c, p).len() == p * c.n_layers,
        lens_of(projection_views(w, c, p)) == projection_lens(c, p),
        w.token_embedding@ + joined(
            projection_views(w, c, p),
            projection_views(w, c, p).len() as int,
        ) == joined(matmul_views(w, c), p + 1),
    decreases p,
{
    matmul_shapes(w, c);
    let views = matmul_views(w, c);
    if p == 0 {
        assert(0 * c.n_layers == 0) by (nonlinear_arith);
        assert(joined(views, 1) == joined(views, 0) + views[0]);
        assert(w.token_embedding@ + joined(projection_views(w, c, 0), 0) =~= joined(views, 1));
        assert(lens_of(projection_views(w, c, 0)) =~= projection_lens(c, 0));
    } else {
        projection_layers_join(w, c, p - 1);
        let layers = c.n_layers as nat;
        let n = layer_lens(c)[p - 1] as int;
        let x = views[p];
        let before = projection_views(w, c, p - 1);
        let added = layer_views(x, n, layers);
        layers_make_up_projections(c, p - 1);
        assert(x.len() == lens_of(views)[p]);
        layers_make_up_tensor(x, n, layers, layers as int);
        assert(x.take(layers * n) =~= x);
        joined_concat(before, added, layers as int);
        assert(p * c.n_layers == (p - 1) * c.n_layers + c.n_layers) by (nonlinear_arith);
        assert(joined(views, p + 1) == joined(views, p) + x);
        assert(w.token_embedding@ + (joined(before, before.len() as int) + x) =~= joined(
            views,
            p + 1,
        ));
        assert forall|l: int| 0 <= l < layers implies #[trigger] added[l].len() == n by {
            assert(0 <= l * n && l * n + n <= layers * n) by (nonlinear_arith)
                requires
                    0 <= l < layers,
                    n >= 0,
            ;
        }
        assert(lens_of(before + added) =~= lens_of(before) + repeated(n as nat, layers));
    }
}

/// The tensors of a v2 checkpoint have the lengths of its layout and are, laid back to
/// back, the matmul weights.
proof fn v2_views_join<T>(w: Weights<'_, T>, c: Config)
    requires
        shaped(w, c),
    ensures
        lens_of(v2_views(w, c)) == v2_lens(c),
        joined(v2_views(w, c), v2_views(w, c).len() as int) == joined(matmul_views(w, c), 9),
{
    matmul_shapes(w, c);
    projection_layers_join(w, c, 7);
    let views = matmul_views(w, c);
    let first = seq![w.token_embedding@];
    let middle = projection_views(w, c, 7);
    let last = if c.shared_weights {
        Seq::<Seq<T>>::empty()
    } else {
        seq![w.wcls@]
    };
    joined_concat(first, middle, middle.len() as int);
    joined_concat(first + middle, last, last.len() as int);
    assert(joined(first, 1) == joined(first, 0) + first[0]);
    assert(joined(first, 1) =~= w.token_embedding@);
    assert(joined(views, 9) == joined(views, 8) + views[8]);
    if c.shared_weights {
        assert(joined(last, 0) =~= Seq::<T>::empty());
        assert(joined(views, 8) + Seq::<T>::empty() =~= joined(views, 8));
    } else {
        assert(joined(last, 1) == joined(last, 0) + last[0]);
        assert(joined(last, 1) =~= w.wcls@);
    }
    assert(views[0].len() == lens_of(views)[0]);
    assert(views[8].len() == lens_of(views)[8]);
    assert(lens_of(v2_views(w, c)) =~= v2_lens(c));
}

/// A stored tensor takes its values and its scales.
proof fn block_lens<F: Fn(&[u32]) -> (Vec<i8>, u32)>(
    f: F,
    views: Seq<Seq<u32>>,
    group_size: nat,
    ds: Seq<Seq<i8>>,
    ss: Seq<Seq<u32>>,
)
    requires
        ds.len() == views.len(),
        ss.len() == views.len(),
        forall|i: int|
            0 <= i < ds.len() ==> quantized_as(
                f,
                #[trigger] views[i],
                group_size,
                ds[i],
                ss[i],
            ),
    ensures
        lens_of(v2_blocks(ds, ss)) == stored_lens(lens_of(views), group_size),
        joined(v2_blocks(ds, ss), ds.len() as int).len() == total(
            stored_lens(lens_of(views), group_size),
        ),
        forall|i: int|
            0 <= i < ds.len() ==> #[trigger] ds[i].len() == lens_of(views)[i] && ss[i].len()
                == lens_of(views)[i] / group_size,
{
    let blocks = v2_blocks(ds, ss);
    let lens = lens_of(views);
    assert forall|i: int| 0 <= i < ds.len() implies #[trigger] ds[i].len() == lens[i]
        && ss[i].len() == lens[i] / group_size by {
        quantized_lengths(f, views[i], group_size, ds[i], ss[i]);
    }
    assert forall|i: int| 0 <= i < ds.len() implies #[trigger] blocks[i].len() == stored_lens(
        lens,
        group_size,
    )[i] by {
        assert(ds[i].len() == lens[i]);
    }
    assert(lens_of(blocks) =~= stored_lens(lens, group_size));
    joined_len(blocks, ds.len() as int);
}

/// What lies behind two runs.
proof fn behind<T>(a: Seq<T>, b: Seq<T>, rest: Seq<T>)
    ensures
        (a + b + rest).skip((a.len() + b.len()) as int) == rest,
        (a + b + rest).len() == a.len() + b.len() + rest.len(),
        a + b + rest == a + (b + rest),
{
    assert((a + b + rest).skip((a.len() + b.len()) as int) =~= rest);
    assert(a + b + rest =~= a + (b + rest));
}

/// The norms of a shaped weight view take the space that a v2 checkpoint has for them.
proof fn norms_len(w: Weights<'_, u32>, c: Config)
    requires
        shaped(w, c),
    ensures
        (w.rms_att@ + w.rms_ffn@ + w.rms_final@).len() == norm_len(c),
{
    assert(w.rms_att@.len() == c.n_layers * c.dim);
    let (l, d) = (c.n_layers as int, c.dim as int);
    assert(2 * l * d == 2 * (l * d)) by (nonlinear_arith);
}

/// A v2 checkpoint is laid out as its header says.
#[verifier::rlimit(60)]
#[verifier::spinoff_prover]
proof fn v2_layout<F: Fn(&[u32]) -> (Vec<i8>, u32)>(
    f: F,
    w: Weights<'_, u32>,
    c: Config,
    group_size: usize,
    ds: Seq<Seq<i8>>,
    ss: Seq<Seq<u32>>,
)
    requires
        shaped(w, c),
        group_size > 0,
        v2_quantized(f, w, c, group_size as nat, ds, ss),
    ensures
        lens_of(v2_blocks(ds, ss)) == stored_lens(v2_lens(c), group_size as nat),
        v2_image(w, c, group_size as int, ds, ss).skip(tensors_at(c)) == joined(
            v2_blocks(ds, ss),
            ds.len() as int,
        ),
        v2_image(w, c, group_size as int, ds, ss).len() == tensors_at(c) + total(
            stored_lens(v2_lens(c), group_size as nat),
        ),
        v2_image(w, c, group_size as int, ds, ss) == header_image(c, 2, group_size as int) + (
        bytes_of(w.rms_att@ + w.rms_ffn@ + w.rms_final@) + joined(
            v2_blocks(ds, ss),
            ds.len() as int,
        )),
        ds.len() == v2_lens(c).len(),
        forall|i: int|
            0 <= i < ds.len() ==> #[trigger] ds[i].len() == v2_lens(c)[i] && ss[i].len() == v2_lens(
                c,
            )[i] / group_size as nat,
{
    let blocks = v2_blocks(ds, ss);
    let views = v2_views(w, c);
    v2_views_join(w, c);
    assert(views.len() == lens_of(views).len());
    block_lens(f, views, group_size as nat, ds, ss);
    header_offsets(c, 2, group_size as int);
    norms_len(w, c);
    behind(
        header_image(c, 2, group_size as int),
        bytes_of(w.rms_att@ + w.rms_ffn@ + w.rms_final@),
        joined(blocks, ds.len() as int),
    );
}

/// A v2 checkpoint can be loaded: its header parses to the config and the group size, and
/// the file has the length that they imply.
pub proof fn v2_conversion_loads<F: Fn(&[u32]) -> (Vec<i8>, u32)>(
    f: F,
    w: Weights<'_, u32>,
    c: Config,
    group_size: usize,
    ds: Seq<Seq<i8>>,
    ss: Seq<Seq<u32>>,
)
    requires
        c.valid(),
        shaped(w, c),
        group_size > 0,
        c.dim % group_size == 0,
        c.hidden_dim % group_size == 0,
        v2_quantized(f, w, c, group_size as nat, ds, ss),
    ensures
        ({
            let image = v2_image(w, c, group_size as int, ds, ss);
            let format = ModelFormat::V2 { group_size };
            &&& image.len() == file_bytes(c, format)
            &&& parsed_header(image) == read_back(c, format)
        }),
{
    assert(group_size <= c.dim) by (nonlinear_arith)
        requires
            c.dim > 0,
            group_size > 0,
            c.dim % group_size == 0,
    ;
    let gs = group_size as int;
    let image = v2_image(w, c, gs, ds, ss);
    let norms = w.rms_att@ + w.rms_ffn@ + w.rms_final@;
    v2_layout(f, w, c, group_size, ds, ss);
    stored_tensors_fill_the_file(c, group_size);
    let rest = bytes_of(norms) + joined(v2_blocks(ds, ss), ds.len() as int);
    header_round_trip(c, 2, gs, rest);
}

/// The words of a v2 checkpoint behind its header are the norms.
proof fn norms_are_read_back(
    w: Weights<'_, u32>,
    c: Config,
    group_size: int,
    ds: Seq<Seq<i8>>,
    ss: Seq<Seq<u32>>,
)
    requires
        shaped(w, c),
    ensures
        ({
            let n = c.n_layers * c.dim;
            let region = words_of(v2_image(w, c, group_size, ds, ss)).skip(
                VERSIONED_HEADER_BYTES as int / 4,
            );
            &&& region.subrange(0, n) == w.rms_att@
            &&& region.subrange(n, 2 * n) == w.rms_ffn@
            &&& region.subrange(2 * n, 2 * n + c.dim) == w.rms_final@
        }),
{
    let image = v2_image(w, c, group_size, ds, ss);
    let norms = w.rms_att@ + w.rms_ffn@ + w.rms_final@;
    let head = header_image(c, 2, group_size);
    let rest = joined(v2_blocks(ds, ss), ds.len() as int);
    let region = words_of(image).skip(VERSIONED_HEADER_BYTES as int / 4);
    let n = c.n_layers * c.dim;
    header_offsets(c, 2, group_size);
    assert(image.skip(256) =~= bytes_of(norms) + rest);
    words_of_skip(image, 256);
    words_in_front(norms, rest);
    three_runs(region, w.rms_att@, w.rms_ffn@, w.rms_final@);
}

/// Three runs in front are found again.
proof fn three_runs<T>(s: Seq<T>, x: Seq<T>, y: Seq<T>, z: Seq<T>)
    requires
        (x + y + z).len() <= s.len(),
        s.take((x + y + z).len() as int) == x + y + z,
    ensures
        s.subrange(0, x.len() as int) == x,
        s.subrange(x.len() as int, (x.len() + y.len()) as int) == y,
        s.subrange((x.len() + y.len()) as int, (x.len() + y.len() + z.len()) as int) == z,
{
    let all = x + y + z;
    assert forall|i: int| 0 <= i < all.len() implies #[trigger] s[i] == all[i] by {
        assert(s.take(all.len() as int)[i] == s[i]);
    }
    assert(s.subrange(0, x.len() as int) =~= x);
    assert(s.subrange(x.len() as int, (x.len() + y.len()) as int) =~= y);
    assert(s.subrange((x.len() + y.len()) as int, (x.len() + y.len() + z.len()) as int) =~= z);
}

/// Unpacking a v2 checkpoint gives back every quantized tensor that was written.
proof fn v2_tensors_unpack<F: Fn(&[u32]) -> (Vec<i8>, u32)>(
    f: F,
    w: Weights<'_, u32>,
    c: Config,
    group_size: usize,
    ds: Seq<Seq<i8>>,
    ss: Seq<Seq<u32>>,
    data: Seq<i8>,
    scales: Seq<u32>,
)
    requires
        shaped(w, c),
        group_size > 0,
        v2_quantized(f, w, c, group_size as nat, ds, ss),
        unpacked(v2_image(w, c, group_size as int, ds, ss), c, group_size as nat, data, scales),
    ensures
        forall|i: int|
            0 <= i < ds.len() ==> part(data, v2_lens(c), i) == #[trigger] ds[i] && part(
                scales,
                group_lens(v2_lens(c), group_size as nat),
                i,
            ) == ss[i],
{
    let gs = group_size as nat;
    let image = v2_image(w, c, group_size as int, ds, ss);
    let blocks = v2_blocks(ds, ss);
    v2_layout(f, w, c, group_size, ds, ss);
    assert forall|i: int| 0 <= i < ds.len() implies part(data, v2_lens(c), i) == #[trigger] ds[i]
        && part(scales, group_lens(v2_lens(c), gs), i) == ss[i] by {
        let stored = stored_tensor(image, c, gs, i);
        part_of_joined(blocks, ds.len() as int, i);
        assert(stored == int8_bytes(ds[i]) + bytes_of(ss[i]));
        let n = v2_lens(c)[i] as int;
        assert(ds[i].len() == n);
        assert(stored.take(n) =~= int8_bytes(ds[i]));
        assert(stored.skip(n) =~= bytes_of(ss[i]));
        int8_round_trip(ds[i]);
        words_of_bytes(ss[i]);
    }
}

/// Unpacking a v2 checkpoint gives back every quantized tensor and every norm that was
/// written.
pub proof fn v2_conversion_unpacks<F: Fn(&[u32]) -> (Vec<i8>, u32)>(
    f: F,
    w: Weights<'_, u32>,
    c: Config,
    group_size: usize,
    ds: Seq<Seq<i8>>,
    ss: Seq<Seq<u32>>,
    data: Seq<i8>,
    scales: Seq<u32>,
)
    requires
        shaped(w, c),
        group_size > 0,
        v2_quantized(f, w, c, group_size as nat, ds, ss),
        unpacked(v2_image(w, c, group_size as int, ds, ss), c, group_size as nat, data, scales),
    ensures
        forall|i: int|
            0 <= i < ds.len() ==> part(data, v2_lens(c), i) == #[trigger] ds[i] && part(
                scales,
                group_lens(v2_lens(c), group_size as nat),
                i,
            ) == ss[i],
        ({
            let n = c.n_layers * c.dim;
            let region = words_of(v2_image(w, c, group_size as int, ds, ss)).skip(
                VERSIONED_HEADER_BYTES as int / 4,
            );
            &&& region.subrange(0, n) == w.rms_att@
            &&& region.subrange(n, 2 * n) == w.rms_ffn@
            &&& region.subrange(2 * n, 2 * n + c.dim) == w.rms_final@
        }),
{
    v2_tensors_unpack(f, w, c, group_size, ds, ss, data, scales);
    norms_are_read_back(w, c, group_size as int, ds, ss);
}

/// Loading a converted v2 checkpoint gives, bit for bit, what quantizing the
/// full-precision weights at load time gives, provided the group quantizer is a function.
#[verifier::spinoff_prover]
#[verifier::rlimit(40)]
pub proof fn v2_conversion_is_quantization<F: Fn(&[u32]) -> (Vec<i8>, u32)>(
    f: F,
    w: Weights<'_, u32>,
    c: Config,
    group_size: usize,
    ds: Seq<Seq<i8>>,
    ss: Seq<Seq<u32>>,
    data: Seq<i8>,
    scales: Seq<u32>,
    quantized_data: Seq<i8>,
    quantized_scales: Seq<u32>,
)
    requires
        shaped(w, c),
        group_size > 0,
        c.dim % group_size == 0,
        c.hidden_dim % group_size == 0,
        is_function(f),
        v2_quantized(f, w, c, group_size as nat, ds, ss),
        unpacked(v2_image(w, c, group_size as int, ds, ss), c, group_size as nat, data, scales),
        quantized_data.len() == total(quantized_lens(c)),
        quantized_scales.len() == total(quantized_lens(c)) / group_size as nat,
        forall|i: int|
            0 <= i < 9 ==> quantized_as(
                f,
                #[trigger] matmul_views(w, c)[i],
                group_size as nat,
                part(quantized_data, quantized_lens(c), i),
                part(quantized_scales, group_lens(quantized_lens(c), group_size as nat), i),
            ),
    ensures
        data == quantized_data,
        scales == quantized_scales,
{
    let gs = group_size as nat;
    let stored = v2_views(w, c);
    let flat = matmul_views(w, c);
    v2_views_join(w, c);
    matmul_shapes(w, c);
    v2_tensors_unpack(f, w, c, group_size, ds, ss, data, scales);
    v2_tensor_sizes_sum(c);
    assert forall|i: int| 0 <= i < stored.len() implies (#[trigger] stored[i]).len() % gs
        == 0 by {
        assert(stored[i].len() == v2_lens(c)[i]);
        groups_divide_v2_tensors(c, gs, i);
    }
    assert forall|i: int| 0 <= i < stored.len() implies quantized_as(
        f,
        #[trigger] stored[i],
        gs,
        part(data, lens_of(stored), i),
        part(scales, group_lens(lens_of(stored), gs), i),
    ) by {
        assert(part(data, v2_lens(c), i) == ds[i]);
    }
    quantized_run(f, stored, gs, data, scales, stored.len() as int);
    groups_divide_tensors(c, gs);
    assert forall|i: int| 0 <= i < 9 implies (#[trigger] flat[i]).len() % gs == 0 by {
        assert(flat[i].len() == quantized_lens(c)[i]);
    }
    groups_exact(quantized_lens(c), gs, 9);
    quantized_run(f, flat, gs, quantized_data, quantized_scales, 9);
    assert(data.take(total(v2_lens(c)) as int) =~= data);
    assert(scales.take(scales.len() as int) =~= scales);
    assert(quantized_data.take(quantized_data.len() as int) =~= quantized_data);
    assert(quantized_scales.take(quantized_scales.len() as int) =~= quantized_scales);
    quantized_once(f, joined(flat, 9), gs, data, scales, quantized_data, quantized_scales);
}

/// Whether `w` views the weights of a full-precision model.
pub open spec fn views_model(w: Weights<'_, u32>, m: Model) -> bool {
    match m.format {
        ModelFormat::Legacy => views_legacy(w, m.weight_region(), m.config),
        ModelFormat::V1 => views_v1(w, m.weight_region(), m.config),
        ModelFormat::V2 { .. } => false,
    }
}

/// Whether `image` is a model's weights in the format of `target`.
pub open spec fn converted<F: Fn(&[u32]) -> (Vec<i8>, u32)>(
    f: F,
    w: Weights<'_, u32>,
    c: Config,
    target: Target,
    group_size: nat,
    image: Seq<u8>,
) -> bool {
    match target {
        Target::V1 => image == v1_image(w, c),
        Target::V2 => exists|ds: Seq<Seq<i8>>, ss: Seq<Seq<u32>>| #[trigger]
            v2_quantized(f, w, c, group_size, ds, ss) && image == v2_image(
                w,
                c,
                group_size as int,
                ds,
                ss,
            ),
    }
}

/// Whether `image` is what converting a model gives.
pub open spec fn conversion_of<F: Fn(&[u32]) -> (Vec<i8>, u32)>(
    f: F,
    m: Model,
    target: Target,
    group_size: nat,
    image: Seq<u8>,
) -> bool {
    exists|w: Weights<'_, u32>| #[trigger]
        views_model(w, m) && shaped(w, m.config) && converted(
            f,
            w,
            m.config,
            target,
            group_size,
            image,
        )
}

/// Two views of a model's weights hold the same tensors.
proof fn views_of_a_model_agree(v: Weights<'_, u32>, w: Weights<'_, u32>, m: Model)
    requires
        views_model(v, m),
        views_model(w, m),
    ensures
        matmul_views(v, m.config) == matmul_views(w, m.config),
        v1_views(v, m.config) == v1_views(w, m.config),
        v.rms_att@ == w.rms_att@,
        v.rms_ffn@ == w.rms_ffn@,
        v.rms_final@ == w.rms_final@,
        m.config.shared_weights ==> v.wcls@ == v.token_embedding@,
{
    assert(matmul_views(v, m.config) =~= matmul_views(w, m.config));
    assert(v1_views(v, m.config) =~= v1_views(w, m.config));
}

/// A model that is converted to v1 and loaded again has the config and the tensors that it
/// had: whatever views its weights before and after, views the same.
pub proof fn a_model_survives_conversion_to_v1<F: Fn(&[u32]) -> (Vec<i8>, u32)>(
    f: F,
    m: Model,
    group_size: usize,
    image: Seq<u8>,
    loaded: Model,
    w: Weights<'_, u32>,
    back: Weights<'_, u32>,
)
    requires
        m.wf(),
        conversion_of(f, m, Target::V1, group_size as nat, image),
        loaded.wf(),
        loaded.file() == image,
        views_model(w, m),
        views_model(back, loaded),
    ensures
        loaded.config == m.config,
        loaded.format == ModelFormat::V1,
        matmul_views(back, m.config) == matmul_views(w, m.config),
        back.wcls@ == w.wcls@,
        back.rms_att@ == w.rms_att@,
        back.rms_ffn@ == w.rms_ffn@,
        back.rms_final@ == w.rms_final@,
{
    let c = m.config;
    let v = choose|v: Weights<'_, u32>| #[trigger]
        views_model(v, m) && shaped(v, c) && converted(
            f,
            v,
            c,
            Target::V1,
            group_size as nat,
            image,
        );
    parsed_configs_are_valid(m.file());
    views_of_a_model_agree(v, w, m);
    header_round_trip(c, 1, 0, bytes_of(joined(v1_views(v, c), 12)));
    header_offsets(c, 1, 0);
    words_of_bytes(loaded.words@);
    words_of_skip(image, VERSIONED_HEADER_BYTES as int);
    v1_conversion_is_lossless(v, c, back);
    assert(matmul_views(back, c) =~= matmul_views(v, c));
}

/// A model that is converted to v2, loaded again and unpacked has the config that it had, the
/// norms that it had, and bit for bit the quantized weights that quantizing the model at load
/// time gives, provided the group quantizer is a function.
pub proof fn a_model_converted_to_v2_is_quantized<F: Fn(&[u32]) -> (Vec<i8>, u32)>(
    f: F,
    m: Model,
    group_size: usize,
    image: Seq<u8>,
    loaded: Model,
    b: QuantBuffers,
    w: Weights<'_, u32>,
    data: Seq<i8>,
    scales: Seq<u32>,
)
    requires
        m.wf(),
        group_size > 0,
        m.config.dim % group_size == 0,
        m.config.hidden_dim % group_size == 0,
        is_function(f),
        conversion_of(f, m, Target::V2, group_size as nat, image),
        loaded.wf(),
        loaded.file() == image,
        loaded.unpacks_to(b),
        views_model(w, m),
        data.len() == total(quantized_lens(m.config)),
        scales.len() == total(quantized_lens(m.config)) / group_size as nat,
        forall|i: int|
            0 <= i < 9 ==> quantized_as(
                f,
                #[trigger] matmul_views(w, m.config)[i],
                group_size as nat,
                part(data, quantized_lens(m.config), i),
                part(scales, group_lens(quantized_lens(m.config), group_size as nat), i),
            ),
    ensures
        loaded.config == m.config,
        loaded.format == (ModelFormat::V2 { group_size }),
        b.group_size == group_size,
        b.data@ == data,
        b.scales@ == scales,
        b.rms_att@ == w.rms_att@,
        b.rms_ffn@ == w.rms_ffn@,
        b.rms_final@ == w.rms_final@,
{
    let c = m.config;
    let gs = group_size as nat;
    let v = choose|v: Weights<'_, u32>| #[trigger]
        views_model(v, m) && shaped(v, c) && converted(f, v, c, Target::V2, gs, image);
    let (ds, ss): (Seq<Seq<i8>>, Seq<Seq<u32>>) = choose|
        ds: Seq<Seq<i8>>,
        ss: Seq<Seq<u32>>,
    | #[trigger]
        v2_quantized(f, v, c, gs, ds, ss) && image == v2_image(v, c, group_size as int, ds, ss);
    parsed_configs_are_valid(m.file());
    views_of_a_model_agree(v, w, m);
    v2_conversion_loads(f, v, c, group_size, ds, ss);
    assert(loaded.config == c && b.group_size == group_size);
    words_of_bytes(loaded.words@);
    norms_are_read_back(v, c, group_size as int, ds, ss);
    v2_conversion_is_quantization(
        f,
        v,
        c,
        group_size,
        ds,
        ss,
        b.data@,
        b.scales@,
        data,
        scales,
    );
}

/// Convert a full-precision model: the bytes of the checkpoint in the format of `target`.
///
/// The group size counts for [`Target::V2`] only. A quantized model is refused.
pub fn convert<F: Fn(&[u32]) -> (Vec<i8>, u32)>(
    model: &Model,
    target: Target,
    group_size: usize,
    f: &F,
) -> (r: Result<Vec<u8>, HostError>)
    requires
        model.wf(),
        target == Target::V2 ==> {
            &&& group_size > 0
            &&& model.config.dim % group_size == 0
            &&& model.config.hidden_dim % group_size == 0
            &&& quantizes_groups(*f, group_size as nat)
        },
    ensures
        match r {
            Ok(image) => !(model.format is V2) && conversion_of(
                *f,
                *model,
                target,
                group_size as nat,
                image@,
            ),
            Err(e) => {
                &&& model.format is V2
                &&& e matches HostError::Format { path, msg } && path == model.path && msg@
                    == "already int8 (v2); converting from a quantized checkpoint is not supported"@
            },
        },
{
    proof {
        parsed_configs_are_valid(model.file());
    }
    if let ModelFormat::V2 { .. } = model.format {
        let mut msg = String::new();
        msg.append("already int8 (v2); converting from a quantized checkpoint is not supported");
        proof {
            assert(msg@
                =~= "already int8 (v2); converting from a quantized checkpoint is not supported"@);
        }
        return Err(HostError::Format { path: model.path.clone(), msg });
    }
    let w = match model.weights() {
        Ok(w) => w,
        Err(e) => {
            return Err(e);
        },
    };
    let image = match target {
        Target::V1 => write_v1(&w, &model.config),
        Target::V2 => write_v2(&w, &model.config, group_size, f),
    };
    proof {
        assert(views_model(w, *model));
    }
    Ok(image)
}

/// The line that reports a conversion.
pub open spec fn summary_text(
    target: Target,
    path: Seq<char>,
    written: nat,
    group_size: nat,
) -> Seq<char> {
    match target {
        Target::V1 => "[wrote v1 (fp32) checkpoint: "@ + path + " ("@ + decimal(written)
            + " bytes)]"@,
        Target::V2 => "[wrote v2 (int8) checkpoint: "@ + path + " ("@ + decimal(written)
            + " bytes), group_size "@ + decimal(group_size) + "]"@,
    }
}

/// Report a conversion: the format, where it went, and how many bytes were written.
pub fn summary(target: Target, path: &str, written: u64, group_size: usize) -> (r: String)
    ensures
        r@ == summary_text(target, path@, written as nat, group_size as nat),
{
    let mut out = String::new();
    match target {
        Target::V1 => {
            out.append("[wrote v1 (fp32) checkpoint: ");
            out.append(path);
            out.append(" (");
            push_decimal(&mut out, written);
            out.append(" bytes)]");
        },
        Target::V2 => {
            out.append("[wrote v2 (int8) checkpoint: ");
            out.append(path);
            out.append(" (");
            push_decimal(&mut out, written);
            out.append(" bytes), group_size ");
            push_decimal(&mut out, group_size as u64);
            out.append("]");
        },
    }
    proof {
        assert(out@ =~= summary_text(target, path@, written as nat, group_size as nat));
    }
    out
}

} // verus!

//! Checkpoint loading: hold a checkpoint's bytes against its header, and expose the weight
//! views of its format.
//!
//! The file is kept as 32-bit words, which are the bit patterns of its full-precision
//! values. A v2 file interleaves each tensor's int8 data with its scales;
//! [`Model::unpack_q8`] takes them apart into two flat buffers.

use vstd::prelude::*;

use crate::bytes::{byte_at, read_words};
#[allow(unused_imports)]
use crate::bytes::{bytes_int8, bytes_of, bytes_of_words, le_u32, le_u32_range, words_of};
use crate::error::EngineError;
use crate::host::error::HostError;
use crate::layout::saturate;
#[allow(unused_imports)]
use crate::layout::{offset, offset_grows, part, saturated, total};
use crate::llama::config::{parse_header, Config, ModelFormat, VERSIONED_HEADER_BYTES};
#[allow(unused_imports)]
use crate::llama::config::{parsed_configs_are_valid, parsed_header};
#[allow(unused_imports)]
use crate::llama::quantize::{
    divides_tensors, layer_lens, layers_make_up_projections, nats, projection_lens, quantized_lens,
    v2_lens, v2_tensor_sizes_sum,
};
use crate::llama::quantize::v2_tensor_sizes;
use crate::llama::weights::{expected_file_bytes_checked, Weights};
#[allow(unused_imports)]
use crate::llama::weights::{file_bytes, norm_len, shaped, views_legacy, views_v1};
#[allow(unused_imports)]
use crate::quant::{group_lens, groups_exact};

verus! {

/// A loaded checkpoint.
pub struct Model {
    /// The validated configuration.
    pub config: Config,
    /// Which on-disk format the file uses.
    pub format: ModelFormat,
    /// Size of the file in bytes.
    pub file_bytes: usize,
    /// The file as 32-bit words.
    pub words: Vec<u32>,
    /// Where it was loaded from.
    pub path: String,
}

/// The owned buffers of a v2 checkpoint.
pub struct QuantBuffers {
    /// Every quantized tensor's int8 data, flat, in storage order.
    pub data: Vec<i8>,
    /// The matching scales, flat, in the same order.
    pub scales: Vec<u32>,
    /// Per-layer attention RMSNorm gains.
    pub rms_att: Vec<u32>,
    /// Per-layer feed-forward RMSNorm gains.
    pub rms_ffn: Vec<u32>,
    /// Final RMSNorm gains.
    pub rms_final: Vec<u32>,
    /// Quantization group size.
    pub group_size: usize,
}

/// What is wrong with a checkpoint, if anything: its length is no whole number of words,
/// its header does not parse, or its length is not what the header implies.
pub open spec fn loading_error(path: String, bytes: Seq<u8>) -> Option<HostError> {
    if bytes.len() % 4 != 0 {
        Some(HostError::NotF32Aligned { path, len: bytes.len() as u64 })
    } else {
        match parsed_header(bytes) {
            Err(source) => Some(HostError::Engine { path, source }),
            Ok((c, format)) => if file_bytes(c, format) != bytes.len() {
                Some(
                    HostError::Engine {
                        path,
                        source: EngineError::SizeMismatch {
                            expected: saturated(file_bytes(c, format) as int),
                            actual: bytes.len() as usize,
                        },
                    },
                )
            } else {
                None
            },
        }
    }
}

/// Bytes that each tensor of a v2 file takes up: its data, then its scales.
pub open spec fn stored_lens(lens: Seq<nat>, group_size: nat) -> Seq<nat> {
    lens.map_values(|n: nat| n + 4 * (n / group_size))
}

/// Where the tensors of a v2 file begin.
pub open spec fn tensors_at(c: Config) -> int {
    VERSIONED_HEADER_BYTES + 4 * norm_len(c)
}

/// The bytes of tensor `i` of a v2 file.
pub open spec fn stored_tensor(file: Seq<u8>, c: Config, group_size: nat, i: int) -> Seq<u8> {
    part(file.skip(tensors_at(c)), stored_lens(v2_lens(c), group_size), i)
}

/// Whether flat buffers hold the tensors of a v2 file: the data of each is its first
/// bytes, and its scales are the words behind them.
pub open spec fn unpacked(
    file: Seq<u8>,
    c: Config,
    group_size: nat,
    data: Seq<i8>,
    scales: Seq<u32>,
) -> bool {
    let lens = v2_lens(c);
    &&& data.len() == total(lens)
    &&& scales.len() == total(group_lens(lens, group_size))
    &&& forall|i: int|
        0 <= i < lens.len() ==> {
            let stored = #[trigger] stored_tensor(file, c, group_size, i);
            &&& part(data, lens, i) == bytes_int8(stored.take(lens[i] as int))
            &&& part(scales, group_lens(lens, group_size), i) == words_of(
                stored.skip(lens[i] as int),
            )
        }
}

/// Groups that divide both matmul input widths divide every tensor of a v2 file.
pub proof fn groups_divide_v2_tensors(c: Config, group_size: nat, i: int)
    requires
        group_size > 0,
        c.dim as nat % group_size == 0,
        c.hidden_dim as nat % group_size == 0,
        0 <= i < v2_lens(c).len(),
    ensures
        v2_lens(c)[i] % group_size == 0,
{
    let d = c.dim as nat;
    let emb = c.vocab_size as nat * d;
    multiple_of(c.vocab_size as nat, d, group_size);
    let p = projection_lens(c, 7);
    if i == 0 {
    } else if i < 1 + p.len() {
        groups_divide_projections(c, group_size, 7, i - 1);
        assert(v2_lens(c)[i] == p[i - 1]);
    }
}

/// Groups that divide both matmul input widths divide every layer of a projection.
proof fn groups_divide_projections(c: Config, group_size: nat, p: int, i: int)
    requires
        group_size > 0,
        c.dim as nat % group_size == 0,
        c.hidden_dim as nat % group_size == 0,
        0 <= p <= 7,
        0 <= i < projection_lens(c, p).len(),
    ensures
        projection_lens(c, p)[i] % group_size == 0,
    decreases p,
{
    let before = projection_lens(c, p - 1);
    if i < before.len() {
        groups_divide_projections(c, group_size, p - 1, i);
    } else {
        groups_divide_layers(c, group_size, p - 1);
    }
}

/// Groups that divide both matmul input widths divide every layer.
pub proof fn groups_divide_layers(c: Config, group_size: nat, p: int)
    requires
        group_size > 0,
        c.dim as nat % group_size == 0,
        c.hidden_dim as nat % group_size == 0,
        0 <= p < 7,
    ensures
        layer_lens(c)[p] % group_size == 0,
{
    let d = c.dim as nat;
    let h = c.hidden_dim as nat;
    let a = c.att_dim_spec();
    let k = c.kv_dim_spec();
    multiple_of(a, d, group_size);
    multiple_of(k, d, group_size);
    multiple_of(h, d, group_size);
    assert(d * a == a * d) by (nonlinear_arith);
    assert(d * k == k * d) by (nonlinear_arith);
    assert(d * h == h * d) by (nonlinear_arith);
}

/// A multiple of a multiple is a multiple.
pub proof fn multiple_of(a: nat, b: nat, m: nat)
    requires
        m > 0,
        b % m == 0,
    ensures
        (a * b) % m == 0,
{
    let q = b / m;
    assert(b == q * m) by (nonlinear_arith)
        requires
            m > 0,
            b % m == 0,
            q == b / m,
    ;
    assert(a * b == (a * q) * m) by (nonlinear_arith)
        requires
            b == q * m,
    ;
    let n = a * q;
    assert((n * m) % m == 0) by (nonlinear_arith)
        requires
            m > 0,
    ;
}

/// The stored tensors begin where their data and scales before them end.
pub proof fn stored_offsets(lens: Seq<nat>, group_size: nat, i: int)
    requires
        group_size > 0,
        0 <= i <= lens.len(),
    ensures
        offset(stored_lens(lens, group_size), i) == offset(lens, i) + 4 * offset(
            group_lens(lens, group_size),
            i,
        ),
    decreases i,
{
    if i > 0 {
        stored_offsets(lens, group_size, i - 1);
        assert(stored_lens(lens, group_size)[i - 1] == lens[i - 1] + 4 * (lens[i - 1]
            / group_size));
        assert(group_lens(lens, group_size)[i - 1] == lens[i - 1] / group_size);
    }
}

/// Groups that divide the embedding and the feed-forward dimension divide every quantized
/// tensor.
pub proof fn groups_divide_tensors(c: Config, group_size: nat)
    requires
        group_size > 0,
        c.dim as nat % group_size == 0,
        c.hidden_dim as nat % group_size == 0,
    ensures
        divides_tensors(c, group_size),
{
    assert forall|i: int| 0 <= i < 9 implies #[trigger] quantized_lens(c)[i] % group_size
        == 0 by {
        multiple_of(c.vocab_size as nat, c.dim as nat, group_size);
        assert(0nat % group_size == 0) by (nonlinear_arith)
            requires
                group_size > 0,
        ;
        if 0 < i < 8 {
            layers_make_up_projections(c, i - 1);
            groups_divide_layers(c, group_size, i - 1);
            multiple_of(c.n_layers as nat, layer_lens(c)[i - 1], group_size);
        }
    }
}

/// The tensors of a v2 file of the right length take up exactly what is behind its norms.
pub proof fn stored_tensors_fill_the_file(c: Config, group_size: usize)
    requires
        group_size > 0,
        c.dim as nat % group_size as nat == 0,
        c.hidden_dim as nat % group_size as nat == 0,
    ensures
        ({
            let lens = v2_lens(c);
            let gs = group_size as nat;
            &&& file_bytes(c, ModelFormat::V2 { group_size }) == tensors_at(c) + total(
                stored_lens(lens, gs),
            )
            &&& total(group_lens(lens, gs)) == total(quantized_lens(c)) / gs
            &&& total(lens) == total(quantized_lens(c))
        }),
{
    let lens = v2_lens(c);
    let gs = group_size as nat;
    assert forall|k: int| 0 <= k < lens.len() implies #[trigger] lens[k] % gs == 0 by {
        groups_divide_v2_tensors(c, gs, k);
    }
    groups_exact(lens, gs, lens.len() as int);
    stored_offsets(lens, gs, lens.len() as int);
    v2_tensor_sizes_sum(c);
}

/// The little-endian word that begins at byte `k` of a buffer of words.
fn word_at_byte(words: &[u32], k: usize) -> (r: u32)
    requires
        k + 4 <= 4 * words@.len(),
        4 * words@.len() <= usize::MAX,
    ensures
        r == le_u32(bytes_of(words@), k as int),
{
    byte_at(words, k) as u32 + 0x100 * (byte_at(words, k + 1) as u32) + 0x1_0000 * (byte_at(
        words,
        k + 2,
    ) as u32) + 0x100_0000 * (byte_at(words, k + 3) as u32)
}

/// Copy words from `from` up to `to`.
fn copy_words(words: &[u32], from: usize, to: usize) -> (r: Vec<u32>)
    requires
        from <= to <= words@.len(),
    ensures
        r@ == words@.subrange(from as int, to as int),
{
    let mut r: Vec<u32> = Vec::new();
    let mut i: usize = from;
    while i < to
        invariant
            from <= i <= to <= words@.len(),
            r@ == words@.subrange(from as int, i as int),
        decreases to - i,
    {
        r.push(words[i]);
        proof {
            assert(r@ =~= words@.subrange(from as int, i + 1));
        }
        i = i + 1;
    }
    r
}

/// Copy the norms of a v2 checkpoint.
fn unpack_norms(words: &[u32], c: &Config, group_size: usize) -> (r: (
    Vec<u32>,
    Vec<u32>,
    Vec<u32>,
))
    requires
        4 * words@.len() <= usize::MAX,
        4 * words@.len() == file_bytes(*c, ModelFormat::V2 { group_size }),
    ensures
        ({
            let n = c.n_layers * c.dim;
            let region = words@.skip(VERSIONED_HEADER_BYTES as int / 4);
            &&& r.0@ == region.subrange(0, n)
            &&& r.1@ == region.subrange(n, 2 * n)
            &&& r.2@ == region.subrange(2 * n, 2 * n + c.dim)
        }),
{
    proof {
        let (l, d) = (c.n_layers as int, c.dim as int);
        assert(2 * l * d == 2 * (l * d)) by (nonlinear_arith);
        assert(0 <= l * d) by (nonlinear_arith)
            requires
                0 <= l,
                0 <= d,
        ;
        let scales = total(quantized_lens(*c)) / group_size as nat;
        assert(norm_len(*c) * 4 + VERSIONED_HEADER_BYTES <= 4 * words@.len());
    }
    let n: usize = c.n_layers * c.dim;
    let header: usize = VERSIONED_HEADER_BYTES / 4;
    let rms_att = copy_words(words, header, header + n);
    let rms_ffn = copy_words(words, header + n, header + 2 * n);
    let rms_final = copy_words(words, header + 2 * n, header + 2 * n + c.dim);
    proof {
        let region = words@.skip(header as int);
        assert(rms_att@ =~= region.subrange(0, n as int));
        assert(rms_ffn@ =~= region.subrange(n as int, 2 * n));
        assert(rms_final@ =~= region.subrange(2 * n, 2 * n + c.dim));
    }
    (rms_att, rms_ffn, rms_final)
}

/// Take the quantized tensors of a v2 checkpoint apart: their values, and their scales.
fn unpack_tensors(words: &[u32], c: &Config, group_size: usize) -> (r: (Vec<i8>, Vec<u32>))
    requires
        c.valid(),
        group_size > 0,
        c.dim as nat % group_size as nat == 0,
        c.hidden_dim as nat % group_size as nat == 0,
        4 * words@.len() <= usize::MAX,
        4 * words@.len() == file_bytes(*c, ModelFormat::V2 { group_size }),
    ensures
        unpacked(bytes_of(words@), *c, group_size as nat, r.0@, r.1@),
        r.0@.len() == total(quantized_lens(*c)),
        r.1@.len() == total(quantized_lens(*c)) / group_size as nat,
{
    let ghost gs = group_size as nat;
    let ghost lens = v2_lens(*c);
    let ghost groups = group_lens(lens, gs);
    let ghost stored = stored_lens(lens, gs);
    let ghost file = bytes_of(words@);
    proof {
        stored_tensors_fill_the_file(*c, group_size);
        let (l, d) = (c.n_layers as int, c.dim as int);
        assert(2 * l * d == 2 * (l * d)) by (nonlinear_arith);
        assert(0 <= l * d) by (nonlinear_arith)
            requires
                0 <= l,
                0 <= d,
        ;
    }
    let sizes = v2_tensor_sizes(c);
    let mut off: usize = VERSIONED_HEADER_BYTES + (2 * (c.n_layers * c.dim) + c.dim) * 4;
    let mut data: Vec<i8> = Vec::new();
    let mut scales: Vec<u32> = Vec::new();
    let mut i: usize = 0;
    proof {
        assert(nats(sizes@).len() == sizes@.len());
    }
    while i < sizes.len()
        invariant
            i <= sizes@.len(),
            nats(sizes@) == lens,
            sizes@.len() == lens.len(),
            gs == group_size,
            group_size > 0,
            lens == v2_lens(*c),
            groups == group_lens(lens, gs),
            stored == stored_lens(lens, gs),
            file == bytes_of(words@),
            file.len() == 4 * words@.len(),
            file.len() <= usize::MAX,
            file.len() == tensors_at(*c) + total(stored),
            off == tensors_at(*c) + offset(stored, i as int),
            data@.len() == offset(lens, i as int),
            scales@.len() == offset(groups, i as int),
            forall|j: int|
                0 <= j < i ==> {
                    let tensor = #[trigger] stored_tensor(file, *c, gs, j);
                    &&& part(data@, lens, j) == bytes_int8(tensor.take(lens[j] as int))
                    &&& part(scales@, groups, j) == words_of(tensor.skip(lens[j] as int))
                },
        decreases sizes@.len() - i,
    {
        let size: usize = sizes[i];
        let g: usize = size / group_size;
        let ghost start = off as int;
        let ghost data_before = data@;
        let ghost scales_before = scales@;
        proof {
            assert(nats(sizes@)[i as int] == size as nat);
            assert(stored[i as int] == size + 4 * (size as nat / gs));
            assert(groups[i as int] == size as nat / gs);
            offset_grows(stored, i + 1, stored.len() as int);
        }
        let mut k: usize = 0;
        while k < size
            invariant
                k <= size,
                start + size <= file.len(),
                file == bytes_of(words@),
                file.len() == 4 * words@.len(),
                file.len() <= usize::MAX,
                off == start + k,
                data@.len() == data_before.len() + k,
                forall|m: int| 0 <= m < data_before.len() ==> #[trigger] data@[m] == data_before[m],
                forall|m: int|
                    data_before.len() <= m < data@.len() ==> #[trigger] data@[m] == file[start
                        + (m - data_before.len())] as i8,
            decreases size - k,
        {
            data.push(byte_at(words, off) as i8);
            off = off + 1;
            k = k + 1;
        }
        let ghost middle = off as int;
        let mut k: usize = 0;
        while k < g
            invariant
                k <= g,
                middle + 4 * g <= file.len(),
                file == bytes_of(words@),
                file.len() == 4 * words@.len(),
                file.len() <= usize::MAX,
                off == middle + 4 * k,
                scales@.len() == scales_before.len() + k,
                forall|m: int|
                    0 <= m < scales_before.len() ==> #[trigger] scales@[m] == scales_before[m],
                forall|m: int|
                    scales_before.len() <= m < scales@.len() ==> #[trigger] scales@[m] == le_u32(
                        file,
                        middle + 4 * (m - scales_before.len()),
                    ),
            decreases g - k,
        {
            scales.push(word_at_byte(words, off));
            off = off + 4;
            k = k + 1;
        }
        proof {
            let payload = file.skip(tensors_at(*c));
            let tensor = stored_tensor(file, *c, gs, i as int);
            assert(tensor =~= file.subrange(start, start + size + 4 * g));
            assert(part(data@, lens, i as int) =~= bytes_int8(tensor.take(size as int)));
            assert(tensor.skip(size as int) =~= file.subrange(middle, middle + 4 * g));
            assert forall|m: int| 0 <= m < g implies #[trigger] part(scales@, groups, i as int)[m]
                == words_of(tensor.skip(size as int))[m] by {
                let behind = tensor.skip(size as int);
                le_u32_range(behind, 4 * m);
                assert(le_u32(behind, 4 * m) == le_u32(file, middle + 4 * m));
                assert(scales@[scales_before.len() + m] == le_u32(file, middle + 4 * m));
            }
            assert(part(scales@, groups, i as int) =~= words_of(tensor.skip(size as int)));
            assert forall|j: int| 0 <= j < i + 1 implies ({
                let tensor = #[trigger] stored_tensor(file, *c, gs, j);
                &&& part(data@, lens, j) == bytes_int8(tensor.take(lens[j] as int))
                &&& part(scales@, groups, j) == words_of(tensor.skip(lens[j] as int))
            }) by {
                if j < i {
                    offset_grows(lens, j + 1, i as int);
                    offset_grows(groups, j + 1, i as int);
                    assert(part(data@, lens, j) =~= part(data_before, lens, j));
                    assert(part(scales@, groups, j) =~= part(scales_before, groups, j));
                }
            }
        }
        i = i + 1;
    }
    (data, scales)
}

impl Model {
    /// The file's bytes.
    pub open spec fn file(self) -> Seq<u8> {
        bytes_of(self.words@)
    }

    /// The words behind the header.
    pub open spec fn weight_region(self) -> Seq<u32> {
        self.words@.skip(self.format.header_bytes() as int / 4)
    }

    /// The config and format are those of the file's header, and the file has the length
    /// that they imply.
    pub open spec fn wf(self) -> bool {
        &&& parsed_header(self.file()) == Ok::<(Config, ModelFormat), EngineError>(
            (self.config, self.format),
        )
        &&& self.file_bytes == self.file().len()
        &&& self.file().len() == file_bytes(self.config, self.format)
    }

    /// Whether buffers hold a v2 checkpoint: its group size, its quantized tensors, and its
    /// norms.
    pub open spec fn unpacks_to(self, b: QuantBuffers) -> bool {
        let c = self.config;
        let n = c.n_layers * c.dim;
        let region = self.weight_region();
        &&& self.format == ModelFormat::V2 { group_size: b.group_size }
        &&& unpacked(self.file(), c, b.group_size as nat, b.data@, b.scales@)
        &&& b.data@.len() == total(quantized_lens(c))
        &&& b.scales@.len() == total(quantized_lens(c)) / b.group_size as nat
        &&& b.rms_att@ == region.subrange(0, n)
        &&& b.rms_ffn@ == region.subrange(n, 2 * n)
        &&& b.rms_final@ == region.subrange(2 * n, 2 * n + c.dim)
    }

    /// Take in a checkpoint's bytes and validate them.
    pub fn parse(path: String, bytes: &[u8]) -> (r: Result<Model, HostError>)
        ensures
            match r {
                Ok(m) => {
                    &&& loading_error(path, bytes@) is None
                    &&& m.wf()
                    &&& m.file() == bytes@
                    &&& m.path == path
                },
                Err(e) => loading_error(path, bytes@) == Some(e),
            },
    {
        let len: usize = bytes.len();
        if len % 4 != 0 {
            return Err(HostError::NotF32Aligned { path, len: len as u64 });
        }
        let (config, format) = match parse_header(bytes) {
            Ok(parsed) => parsed,
            Err(source) => {
                return Err(HostError::Engine { path, source });
            },
        };
        proof {
            parsed_configs_are_valid(bytes@);
        }
        let expected = expected_file_bytes_checked(&config, format);
        let matches: bool = match expected.to_option() {
            Some(n) => n == len,
            None => false,
        };
        if !matches {
            return Err(
                HostError::Engine {
                    path,
                    source: EngineError::SizeMismatch {
                        expected: saturate(&expected),
                        actual: len,
                    },
                },
            );
        }
        let words = read_words(bytes);
        proof {
            bytes_of_words(bytes@);
        }
        Ok(Model { config, format, file_bytes: len, words, path })
    }

    /// Views of all weight tensors, as bit patterns. A v2 checkpoint has none.
    pub fn weights(&self) -> (r: Result<Weights<'_, u32>, HostError>)
        requires
            self.wf(),
        ensures
            match r {
                Ok(w) => {
                    &&& shaped(w, self.config)
                    &&& match self.format {
                        ModelFormat::Legacy => views_legacy(w, self.weight_region(), self.config),
                        ModelFormat::V1 => views_v1(w, self.weight_region(), self.config),
                        ModelFormat::V2 { .. } => false,
                    }
                },
                Err(e) => {
                    &&& self.format is V2
                    &&& e matches HostError::Format { path, msg } && path == self.path && msg@
                        == "checkpoint stores int8 (v2) weights; there is no fp32 view"@
                },
            },
    {
        proof {
            parsed_configs_are_valid(self.file());
        }
        let words = self.words.as_slice();
        let header: usize = self.format.header_bytes() / 4;
        let region = vstd::slice::slice_subrange(words, header, words.len());
        proof {
            assert(region@ =~= self.weight_region());
        }
        match self.format {
            ModelFormat::Legacy => match Weights::new(region, &self.config) {
                Ok(w) => Ok(w),
                Err(e) => {
                    proof {
                        assert(false);
                    }
                    Err(HostError::Engine { path: self.path.clone(), source: e })
                },
            },
            ModelFormat::V1 => match Weights::new_v1(region, &self.config) {
                Ok(w) => Ok(w),
                Err(e) => {
                    proof {
                        assert(false);
                    }
                    Err(HostError::Engine { path: self.path.clone(), source: e })
                },
            },
            ModelFormat::V2 { .. } => {
                let mut msg = String::new();
                msg.append("checkpoint stores int8 (v2) weights; there is no fp32 view");
                proof {
                    assert(msg@ =~= "checkpoint stores int8 (v2) weights; there is no fp32 view"@);
                }
                Err(HostError::Format { path: self.path.clone(), msg })
            },
        }
    }

    /// Take a v2 checkpoint apart into flat buffers. The full-precision formats hold no
    /// quantized tensors.
    pub fn unpack_q8(&self) -> (r: Result<QuantBuffers, HostError>)
        requires
            self.wf(),
        ensures
            match r {
                Ok(b) => self.unpacks_to(b),
                Err(e) => {
                    &&& !(self.format is V2)
                    &&& e matches HostError::Format { path, msg } && path == self.path && msg@
                        == "checkpoint stores fp32 weights; quantize at load with --quantize instead"@
                },
            },
    {
        proof {
            parsed_configs_are_valid(self.file());
        }
        let group_size: usize = match self.format {
            ModelFormat::V2 { group_size } => group_size,
            _ => {
                let mut msg = String::new();
                msg.append(
                    "checkpoint stores fp32 weights; quantize at load with --quantize instead",
                );
                proof {
                    assert(msg@
                        =~= "checkpoint stores fp32 weights; quantize at load with --quantize instead"@);
                }
                return Err(HostError::Format { path: self.path.clone(), msg });
            },
        };
        let c = self.config;
        let words = self.words.as_slice();
        proof {
            assert(words.len() == words@.len());
        }
        let (rms_att, rms_ffn, rms_final) = unpack_norms(words, &c, group_size);
        let (data, scales) = unpack_tensors(words, &c, group_size);
        Ok(QuantBuffers { data, scales, rms_att, rms_ffn, rms_final, group_size })
    }

    /// Size of just the weights in bytes.
    pub fn weight_bytes(&self) -> (r: usize)
        requires
            self.wf(),
        ensures
            r == self.file_bytes - self.format.header_bytes(),
    {
        self.file_bytes - self.format.header_bytes()
    }

    /// The path this model was loaded from.
    pub fn path(&self) -> (r: &str)
        ensures
            r@ == self.path@,
    {
        self.path.as_str()
    }
}

} // verus!

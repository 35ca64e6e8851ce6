//! How large checkpoints and their parts are, and which checkpoints are loaded.

use vstd::prelude::*;

use crate::host::error::HostError;
use crate::layout::{offset, total};
use crate::llama::config::{parsed_header, Config, ModelFormat};
use crate::llama::loader::loading_error;
use crate::llama::memory::{activation_len, cache_len};
use crate::llama::quantize::quantized_lens;
use crate::llama::report::{arena_bytes, full_bytes, int8_bytes, reported_group_size};
use crate::llama::weights::{file_bytes, legacy_lens, norm_len, v1_lens};

verus! {

/// The elements of all matrices: the embedding, the layers, and the classifier where it is a matrix of
/// its own.
pub open spec fn matrix_elements(c: Config) -> int {
    let (l, d, h) = (c.n_layers as int, c.dim as int, c.hidden_dim as int);
    let (att, kv) = (c.att_dim_spec() as int, c.kv_dim_spec() as int);
    let table = c.vocab_size * d;
    table + 2 * (l * (att * d)) + 2 * (l * (kv * d)) + 3 * (l * (h * d)) + if c.shared_weights {
        0
    } else {
        table
    }
}

/// The elements of all norms: two for every layer, and the final one.
pub open spec fn gain_elements(c: Config) -> int {
    2 * (c.n_layers * c.dim) + c.dim
}

proof fn matrices_by_kind(c: Config)
    ensures
        total(quantized_lens(c)) == matrix_elements(c),
        norm_len(c) == gain_elements(c),
{
    let (l, d, h) = (c.n_layers as int, c.dim as int, c.hidden_dim as int);
    let (att, kv) = (c.att_dim_spec() as int, c.kv_dim_spec() as int);
    assert(l * d * att == l * (att * d)) by (nonlinear_arith);
    assert(l * d * kv == l * (kv * d)) by (nonlinear_arith);
    assert(l * att * d == l * (att * d)) by (nonlinear_arith);
    assert(l * h * d == l * (h * d)) by (nonlinear_arith);
    assert(l * d * h == l * (h * d)) by (nonlinear_arith);
    assert(2 * l * d == 2 * (l * d)) by (nonlinear_arith);
    reveal_with_fuel(offset, 10);
}

/// A version 1 file is its header and four bytes for every element; a legacy file has two rotary
/// tables more behind its shorter header; a version 2 file has one byte for every element of a
/// matrix, and four for every group of them and for every gain.
pub proof fn files_are_headers_and_elements(c: Config, group_size: usize)
    requires
        group_size > 0,
    ensures
        file_bytes(c, ModelFormat::V1) == 256 + 4 * (matrix_elements(c) + gain_elements(c)),
        file_bytes(c, ModelFormat::Legacy) == 28 + 4 * (matrix_elements(c) + gain_elements(c) + 2
            * (c.seq_len * (c.head_size_spec() / 2))),
        file_bytes(c, ModelFormat::V2 { group_size }) == 256 + 4 * gain_elements(c)
            + matrix_elements(c) + 4 * (matrix_elements(c) / group_size as int),
{
    matrices_by_kind(c);
    let (l, d, h) = (c.n_layers as int, c.dim as int, c.hidden_dim as int);
    let (att, kv) = (c.att_dim_spec() as int, c.kv_dim_spec() as int);
    assert(l * d * att == l * (att * d)) by (nonlinear_arith);
    assert(l * d * kv == l * (kv * d)) by (nonlinear_arith);
    assert(l * att * d == l * (att * d)) by (nonlinear_arith);
    assert(l * h * d == l * (h * d)) by (nonlinear_arith);
    assert(l * d * h == l * (h * d)) by (nonlinear_arith);
    reveal_with_fuel(offset, 15);
    assert(total(v1_lens(c)) == matrix_elements(c) + gain_elements(c));
    assert(total(legacy_lens(c)) == matrix_elements(c) + gain_elements(c) + 2 * (c.seq_len
        * (c.head_size_spec() / 2)));
}

/// What the report counts: four bytes for every element in full precision; quantized, one for every
/// element of a matrix and four for every group and every gain; four for every element of the buffers,
/// the caches of all layers and positions twice, for keys and for values.
pub proof fn reports_count_bytes(c: Config, group_size: nat)
    requires
        group_size > 0,
    ensures
        full_bytes(c) == 4 * (matrix_elements(c) + gain_elements(c)),
        int8_bytes(c, group_size) == matrix_elements(c) + 4 * (matrix_elements(c) / group_size as int)
            + 4 * gain_elements(c),
        arena_bytes(c) == 4 * (activation_len(c) + 2 * cache_len(c)),
        cache_len(c) == c.n_layers * (c.seq_len * c.kv_dim_spec()),
        activation_len(c) == 3 * c.dim + 2 * c.hidden_dim + c.att_dim_spec() + c.n_heads
            * c.seq_len + c.vocab_size,
{
    matrices_by_kind(c);
    let (l, s, k) = (c.n_layers as int, c.seq_len as int, c.kv_dim_spec() as int);
    assert(l * s * k == l * (s * k)) by (nonlinear_arith);
}

/// The group size that is reported on is the greatest of 64, 32, 16 and 8 that divides the widths of
/// all matrices.
pub proof fn the_greatest_group_is_reported(c: Config, g: nat)
    requires
        g == 64 || g == 32 || g == 16 || g == 8,
    ensures
        match reported_group_size(c) {
            Some(gs) => {
                &&& gs == 64 || gs == 32 || gs == 16 || gs == 8
                &&& c.dim as nat % gs as nat == 0
                &&& c.hidden_dim as nat % gs as nat == 0
                &&& c.kv_dim_spec() % gs as nat == 0
                &&& g > gs ==> !(c.dim as nat % g == 0 && c.hidden_dim as nat % g == 0
                    && c.kv_dim_spec() % g == 0)
            },
            None => !(c.dim as nat % g == 0 && c.hidden_dim as nat % g == 0 && c.kv_dim_spec() % g
                == 0),
        },
{
}

/// A checkpoint is loaded exactly where it is made of whole words, its header is read, and it is as
/// long as the header says.
pub proof fn whole_checkpoints_are_loaded(path: String, bytes: Seq<u8>)
    ensures
        loading_error(path, bytes) is None <==> bytes.len() % 4 == 0 && (parsed_header(
            bytes,
        ) matches Ok((c, format)) && file_bytes(c, format) == bytes.len()),
        bytes.len() % 4 != 0 ==> loading_error(path, bytes) == Some(
            HostError::NotF32Aligned { path, len: bytes.len() as u64 },
        ),
{
}

} // verus!

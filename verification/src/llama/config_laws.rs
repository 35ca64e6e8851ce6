//! What a header says: which bytes hold which field, when a header is refused, and for what.

use vstd::prelude::*;

use crate::bytes::{le_i32, le_u32};
use crate::error::{ConfigField, EngineError};
use crate::llama::config::{has_magic, parsed_header, Config, ModelFormat};

verus! {

/// Four bytes are read with the least significant first: one more in byte `k` is 256 to the power
/// of `k` more, and four zeros are zero.
pub proof fn words_are_little_endian(s: Seq<u8>, o: int, k: int)
    requires
        0 <= o,
        o + 4 <= s.len(),
        0 <= k < 4,
        s[o + k] < 255,
    ensures
        le_u32(s.update(o + k, (s[o + k] + 1) as u8), o) - le_u32(s, o) == if k == 0 {
            1
        } else if k == 1 {
            0x100
        } else if k == 2 {
            0x1_0000
        } else {
            0x100_0000int
        },
        s[o] == 0 && s[o + 1] == 0 && s[o + 2] == 0 && s[o + 3] == 0 ==> le_u32(s, o) == 0,
        0 <= le_u32(s, o) <= u32::MAX,
        le_i32(s, o) == le_u32(s, o) || le_i32(s, o) == le_u32(s, o) - 0x1_0000_0000,
        i32::MIN <= le_i32(s, o) <= i32::MAX,
{
    assert(k == 0 || k == 1 || k == 2 || k == 3);
}

/// A versioned checkpoint opens with the letters `24ka`.
pub proof fn versioned_files_open_with_letters(s: Seq<u8>)
    ensures
        has_magic(s) <==> s.len() >= 4 && s[0] == 0x32 && s[1] == 0x34 && s[2] == 0x6b && s[3]
            == 0x61,
{
}

/// The fields that every header holds, from byte `o` on.
pub open spec fn fields_at(s: Seq<u8>, o: int) -> Seq<int> {
    seq![
        le_i32(s, o),
        le_i32(s, o + 4),
        le_i32(s, o + 8),
        le_i32(s, o + 12),
        le_i32(s, o + 16),
        le_i32(s, o + 20),
        le_i32(s, o + 24),
    ]
}

/// The names of the fields, in their order.
pub open spec fn field_names() -> Seq<ConfigField> {
    seq![
        ConfigField::Dim,
        ConfigField::HiddenDim,
        ConfigField::NLayers,
        ConfigField::NHeads,
        ConfigField::NKvHeads,
        ConfigField::VocabSize,
        ConfigField::SeqLen,
    ]
}

/// Whether a config holds the fields.
pub open spec fn holds_fields(c: Config, f: Seq<int>) -> bool {
    &&& c.dim == f[0]
    &&& c.hidden_dim == f[1]
    &&& c.n_layers == f[2]
    &&& c.n_heads == f[3]
    &&& c.n_kv_heads == f[4]
    &&& c.vocab_size == f[5]
    &&& c.seq_len == f[6]
}

/// Whether the first field that is not positive is field `i`.
pub open spec fn first_not_positive(f: Seq<int>, i: int) -> bool {
    &&& 0 <= i < 7
    &&& f[i] <= 0
    &&& forall|k: int| 0 <= k < i ==> #[trigger] f[k] > 0
}

/// Whether fields make up a model: all positive, the heads divide the dimension, and the key/value
/// heads divide the heads.
pub open spec fn fields_fit(f: Seq<int>) -> bool {
    &&& f[0] > 0
    &&& f[1] > 0
    &&& f[2] > 0
    &&& f[3] > 0
    &&& f[4] > 0
    &&& f[5] > 0
    &&& f[6] > 0
    &&& f[0] % f[3] == 0
    &&& f[3] % f[4] == 0
}

/// A legacy header is seven fields from the first byte on, of which the vocabulary counts by its
/// magnitude and tells by its sign whether the classifier is the embedding. It is read exactly where
/// the fields make up a model; otherwise the first field that is not positive is named, or the one
/// that is not divided.
pub proof fn legacy_headers_hold_seven_fields(s: Seq<u8>)
    requires
        !has_magic(s),
    ensures
        s.len() < 28 ==> parsed_header(s) == Err::<(Config, ModelFormat), EngineError>(
            EngineError::HeaderTooShort,
        ),
        s.len() >= 28 ==> ({
            let raw = fields_at(s, 0);
            let f = raw.update(
                5,
                if raw[5] < 0 {
                    -raw[5]
                } else {
                    raw[5]
                },
            );
            &&& fields_fit(f) <==> parsed_header(s) is Ok
            &&& parsed_header(s) matches Ok((c, format)) ==> holds_fields(c, f) && format
                == ModelFormat::Legacy && c.shared_weights == (raw[5] > 0)
            &&& forall|i: int| #[trigger]
                first_not_positive(f, i) ==> parsed_header(s) == Err::<
                    (Config, ModelFormat),
                    EngineError,
                >(EngineError::InvalidConfig(field_names()[i]))
        }),
{
    if s.len() >= 28 {
        let raw = fields_at(s, 0);
        let g = crate::llama::config::header_fields(s, 0);
        assert(raw =~= g);
        let f = raw.update(
            5,
            if raw[5] < 0 {
                -raw[5]
            } else {
                raw[5]
            },
        );
        assert forall|i: int| #[trigger] first_not_positive(f, i) implies parsed_header(s) == Err::<
            (Config, ModelFormat),
            EngineError,
        >(EngineError::InvalidConfig(field_names()[i])) by {
            assert(i > 0 ==> f[0] > 0);
            assert(i > 1 ==> f[1] > 0);
            assert(i > 2 ==> f[2] > 0);
            assert(i > 3 ==> f[3] > 0);
            assert(i > 4 ==> f[4] > 0);
            assert(i > 5 ==> f[5] > 0);
            assert(i == 0 || i == 1 || i == 2 || i == 3 || i == 4 || i == 5 || i == 6);
        }
    }
}

/// A versioned header has the version in bytes 4 to 7, seven fields from byte 8 on, in byte 36 a mark
/// that the classifier is the embedding, and in bytes 37 to 40 the group size of version 2. It is
/// read exactly where it is whole, the version is 1 or 2, the fields make up a model, and in version
/// 2 the group size is positive and divides both widths.
pub proof fn versioned_headers_hold_their_fields(s: Seq<u8>)
    requires
        has_magic(s),
    ensures
        s.len() < 256 ==> parsed_header(s) == Err::<(Config, ModelFormat), EngineError>(
            EngineError::HeaderTooShort,
        ),
        s.len() >= 256 ==> ({
            let version = le_i32(s, 4);
            let f = fields_at(s, 8);
            let group_size = le_i32(s, 37);
            let divides = group_size > 0 && f[0] % group_size == 0 && f[1] % group_size == 0;
            &&& (version != 1 && version != 2) ==> parsed_header(s) == Err::<
                (Config, ModelFormat),
                EngineError,
            >(EngineError::UnsupportedVersion { version: version as i32 })
            &&& parsed_header(s) is Ok <==> fields_fit(f) && (version == 1 || version == 2
                && divides)
            &&& parsed_header(s) matches Ok((c, format)) ==> {
                &&& holds_fields(c, f)
                &&& c.shared_weights == (s[36] != 0)
                &&& version == 1 ==> format == ModelFormat::V1
                &&& version == 2 ==> format == ModelFormat::V2 { group_size: group_size as usize }
                    && group_size as usize == group_size
            }
            &&& forall|i: int| #[trigger]
                first_not_positive(f, i) && (version == 1 || version == 2) ==> parsed_header(s)
                    == Err::<(Config, ModelFormat), EngineError>(
                    EngineError::InvalidConfig(field_names()[i]),
                )
            &&& fields_fit(f) && version == 2 && !divides ==> parsed_header(s) == Err::<
                (Config, ModelFormat),
                EngineError,
            >(EngineError::InvalidConfig(ConfigField::GroupSize))
        }),
{
    if s.len() >= 256 {
        let f = fields_at(s, 8);
        let g = crate::llama::config::header_fields(s, 8);
        assert(f =~= g);
        let version = le_i32(s, 4);
        assert forall|i: int| #[trigger]
            first_not_positive(f, i) && (version == 1 || version == 2) implies parsed_header(s)
            == Err::<(Config, ModelFormat), EngineError>(
            EngineError::InvalidConfig(field_names()[i]),
        ) by {
            assert(i > 0 ==> f[0] > 0);
            assert(i > 1 ==> f[1] > 0);
            assert(i > 2 ==> f[2] > 0);
            assert(i > 3 ==> f[3] > 0);
            assert(i > 4 ==> f[4] > 0);
            assert(i > 5 ==> f[5] > 0);
            assert(i == 0 || i == 1 || i == 2 || i == 3 || i == 4 || i == 5 || i == 6);
        }
    }
}

/// The heads split the dimension evenly, the key/value heads take their share of it, and the header
/// ends where the weights begin.
pub proof fn shapes_follow_from_the_heads(c: Config)
    requires
        c.valid(),
    ensures
        c.n_heads * c.head_size_spec() == c.dim,
        c.kv_dim_spec() * c.n_heads == c.dim * c.n_kv_heads,
        c.att_dim_spec() == c.dim,
        ModelFormat::Legacy.header_bytes() == 7 * 4,
        ModelFormat::V1.header_bytes() == 256,
{
    let (d, h, k) = (c.dim as int, c.n_heads as int, c.n_kv_heads as int);
    let size = c.head_size_spec() as int;
    vstd::arithmetic::div_mod::lemma_fundamental_div_mod(d, h);
    assert(h * size == d);
    assert((k * size) * h == d * k) by (nonlinear_arith)
        requires
            h * size == d,
    ;
}

} // verus!

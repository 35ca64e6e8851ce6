//! What a header says: which bytes hold which field, when a header is refused, and for what.

use vstd::prelude::*;

use crate::bytes::le_i32;
use crate::error::{EngineError, Seq2SeqField};
use crate::seq2seq::config::{
    first_bad_count, has_seq2seq_magic, parsed_config, Activation, Config,
};

verus! {

/// A checkpoint opens with the letters `tis2`.
pub proof fn seq2seq_files_open_with_letters(s: Seq<u8>)
    ensures
        has_seq2seq_magic(s) <==> s.len() >= 4 && s[0] == 0x74 && s[1] == 0x69 && s[2] == 0x73
            && s[3] == 0x32,
{
}

/// The names of the counts, in their order.
pub open spec fn count_names() -> Seq<Seq2SeqField> {
    seq![
        Seq2SeqField::DModel,
        Seq2SeqField::EncLayers,
        Seq2SeqField::DecLayers,
        Seq2SeqField::EncHeads,
        Seq2SeqField::DecHeads,
        Seq2SeqField::EncFfn,
        Seq2SeqField::DecFfn,
        Seq2SeqField::VocabSize,
        Seq2SeqField::MaxSrc,
        Seq2SeqField::MaxTgt,
    ]
}

/// The counts of a header: one every four bytes from byte 8 on.
pub open spec fn counts(s: Seq<u8>) -> Seq<int> {
    seq![
        le_i32(s, 8),
        le_i32(s, 12),
        le_i32(s, 16),
        le_i32(s, 20),
        le_i32(s, 24),
        le_i32(s, 28),
        le_i32(s, 32),
        le_i32(s, 36),
        le_i32(s, 40),
        le_i32(s, 44),
    ]
}

/// Whether a header describes a model: all counts positive, the three token ids within the
/// vocabulary, the heads of both stacks dividing the dimension, and the activation a known one.
pub open spec fn describes(s: Seq<u8>) -> bool {
    let n = counts(s);
    &&& n[0] > 0 && n[1] > 0 && n[2] > 0 && n[3] > 0 && n[4] > 0
    &&& n[5] > 0 && n[6] > 0 && n[7] > 0 && n[8] > 0 && n[9] > 0
    &&& 0 <= le_i32(s, 48) < n[7]
    &&& 0 <= le_i32(s, 52) < n[7]
    &&& 0 <= le_i32(s, 56) < n[7]
    &&& n[0] % n[3] == 0
    &&& n[0] % n[4] == 0
    &&& s[61] <= 1
}

/// A header that is whole, of the right kind and version, and describes a model is read, and no
/// other: ten counts from byte 8 on, the ids of padding, end and beginning in bytes 48, 52 and 56,
/// and marks in bytes 60 to 62 for the norm coming first, for the activation being the swish, and
/// for scaled embeddings.
pub proof fn headers_hold_their_fields(s: Seq<u8>)
    ensures
        parsed_config(s) is Ok <==> s.len() >= 256 && has_seq2seq_magic(s) && le_i32(s, 4) == 1
            && describes(s),
        parsed_config(s) matches Ok(c) ==> {
            &&& c.d_model == le_i32(s, 8)
            &&& c.enc_layers == le_i32(s, 12)
            &&& c.dec_layers == le_i32(s, 16)
            &&& c.enc_heads == le_i32(s, 20)
            &&& c.dec_heads == le_i32(s, 24)
            &&& c.enc_ffn == le_i32(s, 28)
            &&& c.dec_ffn == le_i32(s, 32)
            &&& c.vocab_size == le_i32(s, 36)
            &&& c.max_src == le_i32(s, 40)
            &&& c.max_tgt == le_i32(s, 44)
            &&& c.pad_id == le_i32(s, 48)
            &&& c.eos_id == le_i32(s, 52)
            &&& c.bos_id == le_i32(s, 56)
            &&& c.norm_before == (s[60] != 0)
            &&& (c.activation == Activation::Gelu) == (s[61] == 0)
            &&& (c.activation == Activation::Swish) == (s[61] == 1)
            &&& c.scale_embedding == (s[62] != 0)
        },
{
    reveal_with_fuel(first_bad_count, 11);
}

/// Whether the first count that is not positive is count `i`.
pub open spec fn first_not_positive(n: Seq<int>, i: int) -> bool {
    &&& 0 <= i < 10
    &&& n[i] <= 0
    &&& forall|k: int| 0 <= k < i ==> #[trigger] n[k] > 0
}

/// What a header is refused for: that it is cut short, that it is of another kind or version, the
/// first count that is not positive, or the first thing that does not fit the counts.
pub proof fn headers_are_refused_for_their_fault(s: Seq<u8>, i: int)
    ensures
        s.len() < 4 ==> parsed_config(s) == Err::<Config, EngineError>(
            EngineError::HeaderTooShort,
        ),
        s.len() >= 4 && !has_seq2seq_magic(s) ==> parsed_config(s) == Err::<Config, EngineError>(
            EngineError::NotSeq2Seq,
        ),
        has_seq2seq_magic(s) && s.len() < 256 ==> parsed_config(s) == Err::<Config, EngineError>(
            EngineError::HeaderTooShort,
        ),
        has_seq2seq_magic(s) && s.len() >= 256 && le_i32(s, 4) != 1 ==> parsed_config(s) == Err::<
            Config,
            EngineError,
        >(EngineError::UnsupportedVersion { version: le_i32(s, 4) as i32 }),
        has_seq2seq_magic(s) && s.len() >= 256 && le_i32(s, 4) == 1 && first_not_positive(
            counts(s),
            i,
        ) ==> parsed_config(s) == Err::<Config, EngineError>(
            EngineError::InvalidSeq2SeqConfig(count_names()[i]),
        ),
        has_seq2seq_magic(s) && s.len() >= 256 && le_i32(s, 4) == 1 && (forall|k: int|
            0 <= k < 10 ==> #[trigger] counts(s)[k] > 0) ==> ({
            let n = counts(s);
            let pad = 0 <= le_i32(s, 48) < n[7];
            let eos = 0 <= le_i32(s, 52) < n[7];
            let bos = 0 <= le_i32(s, 56) < n[7];
            let enc = n[0] % n[3] == 0;
            let dec = n[0] % n[4] == 0;
            &&& !pad ==> parsed_config(s) == refused(Seq2SeqField::PadId)
            &&& pad && !eos ==> parsed_config(s) == refused(Seq2SeqField::EosId)
            &&& pad && eos && !bos ==> parsed_config(s) == refused(Seq2SeqField::BosId)
            &&& pad && eos && bos && !enc ==> parsed_config(s) == refused(Seq2SeqField::EncHeads)
            &&& pad && eos && bos && enc && !dec ==> parsed_config(s) == refused(
                Seq2SeqField::DecHeads,
            )
            &&& pad && eos && bos && enc && dec && s[61] > 1 ==> parsed_config(s) == refused(
                Seq2SeqField::Activation,
            )
        }),
{
    reveal_with_fuel(first_bad_count, 11);
    let n = counts(s);
    if first_not_positive(n, i) {
        assert(i > 0 ==> n[0] > 0);
        assert(i > 1 ==> n[1] > 0);
        assert(i > 2 ==> n[2] > 0);
        assert(i > 3 ==> n[3] > 0);
        assert(i > 4 ==> n[4] > 0);
        assert(i > 5 ==> n[5] > 0);
        assert(i > 6 ==> n[6] > 0);
        assert(i > 7 ==> n[7] > 0);
        assert(i > 8 ==> n[8] > 0);
        assert(i == 0 || i == 1 || i == 2 || i == 3 || i == 4 || i == 5 || i == 6 || i == 7 || i == 8
            || i == 9);
    }
    if forall|k: int| 0 <= k < 10 ==> #[trigger] n[k] > 0 {
        assert(n[0] > 0 && n[1] > 0 && n[2] > 0 && n[3] > 0 && n[4] > 0 && n[5] > 0 && n[6] > 0
            && n[7] > 0 && n[8] > 0 && n[9] > 0);
    }
}

/// A refusal that names a field.
pub open spec fn refused(field: Seq2SeqField) -> Result<Config, EngineError> {
    Err(EngineError::InvalidSeq2SeqConfig(field))
}

} // verus!

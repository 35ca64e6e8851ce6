//! Where each tensor lies: its first element and its length in the region that holds the weights,
//! in the flat buffers that hold the matrices quantized, and in the one that holds the rest.

use vstd::prelude::*;

use crate::bytes::le_u32;
use crate::layout::{offset, part};
use crate::llama::weight_laws::{a_word_of_bytes, scale_offset};
use crate::quant::is_quantized_part;
use crate::seq2seq::config::Config;
use crate::seq2seq::loader::Seq2SeqModel;
use crate::seq2seq::quantize::{
    kept_lens, kept_views, matmul_views, quantized_lens, KeptWeights, QuantizedWeights,
};
use crate::seq2seq::weights::{weight_lens, Weights};

verus! {

/// In a weight region the tensors lie one behind the other: the embedding; of the encoder and then
/// of the decoder each projection with its bias behind it, and the gains and offset of a norm
/// behind the block that it norms; and the bias of the logits.
#[verifier::rlimit(60)]
pub proof fn tensors_lie_in_order<T: Copy>(w: Weights<'_, T>, s: Seq<T>, c: Config)
    requires
        forall|i: int| 0 <= i < 44 ==> #[trigger] w.tensors()[i] == part(s, weight_lens(c), i),
    ensures
        ({
            let (d, v) = (c.d_model as int, c.vocab_size as int);
            let (le, ld) = (c.enc_layers as int, c.dec_layers as int);
            let (fe, fd) = (c.enc_ffn as int, c.dec_ffn as int);
            let at_token_embedding: int = 0;
            let at_enc_wq = at_token_embedding + v * d;
            let at_enc_bq = at_enc_wq + le * d * d;
            let at_enc_wk = at_enc_bq + le * d;
            let at_enc_bk = at_enc_wk + le * d * d;
            let at_enc_wv = at_enc_bk + le * d;
            let at_enc_bv = at_enc_wv + le * d * d;
            let at_enc_wo = at_enc_bv + le * d;
            let at_enc_bo = at_enc_wo + le * d * d;
            let at_enc_ln_att_w = at_enc_bo + le * d;
            let at_enc_ln_att_b = at_enc_ln_att_w + le * d;
            let at_enc_fc1_w = at_enc_ln_att_b + le * d;
            let at_enc_fc1_b = at_enc_fc1_w + le * fe * d;
            let at_enc_fc2_w = at_enc_fc1_b + le * fe;
            let at_enc_fc2_b = at_enc_fc2_w + le * d * fe;
            let at_enc_ln_ffn_w = at_enc_fc2_b + le * d;
            let at_enc_ln_ffn_b = at_enc_ln_ffn_w + le * d;
            let at_dec_wq = at_enc_ln_ffn_b + le * d;
            let at_dec_bq = at_dec_wq + ld * d * d;
            let at_dec_wk = at_dec_bq + ld * d;
            let at_dec_bk = at_dec_wk + ld * d * d;
            let at_dec_wv = at_dec_bk + ld * d;
            let at_dec_bv = at_dec_wv + ld * d * d;
            let at_dec_wo = at_dec_bv + ld * d;
            let at_dec_bo = at_dec_wo + ld * d * d;
            let at_dec_ln_self_w = at_dec_bo + ld * d;
            let at_dec_ln_self_b = at_dec_ln_self_w + ld * d;
            let at_dec_cross_wq = at_dec_ln_self_b + ld * d;
            let at_dec_cross_bq = at_dec_cross_wq + ld * d * d;
            let at_dec_cross_wk = at_dec_cross_bq + ld * d;
            let at_dec_cross_bk = at_dec_cross_wk + ld * d * d;
            let at_dec_cross_wv = at_dec_cross_bk + ld * d;
            let at_dec_cross_bv = at_dec_cross_wv + ld * d * d;
            let at_dec_cross_wo = at_dec_cross_bv + ld * d;
            let at_dec_cross_bo = at_dec_cross_wo + ld * d * d;
            let at_dec_ln_cross_w = at_dec_cross_bo + ld * d;
            let at_dec_ln_cross_b = at_dec_ln_cross_w + ld * d;
            let at_dec_fc1_w = at_dec_ln_cross_b + ld * d;
            let at_dec_fc1_b = at_dec_fc1_w + ld * fd * d;
            let at_dec_fc2_w = at_dec_fc1_b + ld * fd;
            let at_dec_fc2_b = at_dec_fc2_w + ld * d * fd;
            let at_dec_ln_ffn_w = at_dec_fc2_b + ld * d;
            let at_dec_ln_ffn_b = at_dec_ln_ffn_w + ld * d;
            let at_final_logits_bias = at_dec_ln_ffn_b + ld * d;
            &&& w.token_embedding@ == s.subrange(at_token_embedding, at_token_embedding + v * d)
            &&& w.enc_wq@ == s.subrange(at_enc_wq, at_enc_wq + le * d * d)
            &&& w.enc_bq@ == s.subrange(at_enc_bq, at_enc_bq + le * d)
            &&& w.enc_wk@ == s.subrange(at_enc_wk, at_enc_wk + le * d * d)
            &&& w.enc_bk@ == s.subrange(at_enc_bk, at_enc_bk + le * d)
            &&& w.enc_wv@ == s.subrange(at_enc_wv, at_enc_wv + le * d * d)
            &&& w.enc_bv@ == s.subrange(at_enc_bv, at_enc_bv + le * d)
            &&& w.enc_wo@ == s.subrange(at_enc_wo, at_enc_wo + le * d * d)
            &&& w.enc_bo@ == s.subrange(at_enc_bo, at_enc_bo + le * d)
            &&& w.enc_ln_att_w@ == s.subrange(at_enc_ln_att_w, at_enc_ln_att_w + le * d)
            &&& w.enc_ln_att_b@ == s.subrange(at_enc_ln_att_b, at_enc_ln_att_b + le * d)
            &&& w.enc_fc1_w@ == s.subrange(at_enc_fc1_w, at_enc_fc1_w + le * fe * d)
            &&& w.enc_fc1_b@ == s.subrange(at_enc_fc1_b, at_enc_fc1_b + le * fe)
            &&& w.enc_fc2_w@ == s.subrange(at_enc_fc2_w, at_enc_fc2_w + le * d * fe)
            &&& w.enc_fc2_b@ == s.subrange(at_enc_fc2_b, at_enc_fc2_b + le * d)
            &&& w.enc_ln_ffn_w@ == s.subrange(at_enc_ln_ffn_w, at_enc_ln_ffn_w + le * d)
            &&& w.enc_ln_ffn_b@ == s.subrange(at_enc_ln_ffn_b, at_enc_ln_ffn_b + le * d)
            &&& w.dec_wq@ == s.subrange(at_dec_wq, at_dec_wq + ld * d * d)
            &&& w.dec_bq@ == s.subrange(at_dec_bq, at_dec_bq + ld * d)
            &&& w.dec_wk@ == s.subrange(at_dec_wk, at_dec_wk + ld * d * d)
            &&& w.dec_bk@ == s.subrange(at_dec_bk, at_dec_bk + ld * d)
            &&& w.dec_wv@ == s.subrange(at_dec_wv, at_dec_wv + ld * d * d)
            &&& w.dec_bv@ == s.subrange(at_dec_bv, at_dec_bv + ld * d)
            &&& w.dec_wo@ == s.subrange(at_dec_wo, at_dec_wo + ld * d * d)
            &&& w.dec_bo@ == s.subrange(at_dec_bo, at_dec_bo + ld * d)
            &&& w.dec_ln_self_w@ == s.subrange(at_dec_ln_self_w, at_dec_ln_self_w + ld * d)
            &&& w.dec_ln_self_b@ == s.subrange(at_dec_ln_self_b, at_dec_ln_self_b + ld * d)
            &&& w.dec_cross_wq@ == s.subrange(at_dec_cross_wq, at_dec_cross_wq + ld * d * d)
            &&& w.dec_cross_bq@ == s.subrange(at_dec_cross_bq, at_dec_cross_bq + ld * d)
            &&& w.dec_cross_wk@ == s.subrange(at_dec_cross_wk, at_dec_cross_wk + ld * d * d)
            &&& w.dec_cross_bk@ == s.subrange(at_dec_cross_bk, at_dec_cross_bk + ld * d)
            &&& w.dec_cross_wv@ == s.subrange(at_dec_cross_wv, at_dec_cross_wv + ld * d * d)
            &&& w.dec_cross_bv@ == s.subrange(at_dec_cross_bv, at_dec_cross_bv + ld * d)
            &&& w.dec_cross_wo@ == s.subrange(at_dec_cross_wo, at_dec_cross_wo + ld * d * d)
            &&& w.dec_cross_bo@ == s.subrange(at_dec_cross_bo, at_dec_cross_bo + ld * d)
            &&& w.dec_ln_cross_w@ == s.subrange(at_dec_ln_cross_w, at_dec_ln_cross_w + ld * d)
            &&& w.dec_ln_cross_b@ == s.subrange(at_dec_ln_cross_b, at_dec_ln_cross_b + ld * d)
            &&& w.dec_fc1_w@ == s.subrange(at_dec_fc1_w, at_dec_fc1_w + ld * fd * d)
            &&& w.dec_fc1_b@ == s.subrange(at_dec_fc1_b, at_dec_fc1_b + ld * fd)
            &&& w.dec_fc2_w@ == s.subrange(at_dec_fc2_w, at_dec_fc2_w + ld * d * fd)
            &&& w.dec_fc2_b@ == s.subrange(at_dec_fc2_b, at_dec_fc2_b + ld * d)
            &&& w.dec_ln_ffn_w@ == s.subrange(at_dec_ln_ffn_w, at_dec_ln_ffn_w + ld * d)
            &&& w.dec_ln_ffn_b@ == s.subrange(at_dec_ln_ffn_b, at_dec_ln_ffn_b + ld * d)
            &&& w.final_logits_bias@ == s.subrange(at_final_logits_bias, at_final_logits_bias + v)
        }),
{
    let lens = weight_lens(c);
    assert(offset(lens, 0) == 0);
    assert(offset(lens, 1) == offset(lens, 0) + lens[0]);
    assert(offset(lens, 2) == offset(lens, 1) + lens[1]);
    assert(offset(lens, 3) == offset(lens, 2) + lens[2]);
    assert(offset(lens, 4) == offset(lens, 3) + lens[3]);
    assert(offset(lens, 5) == offset(lens, 4) + lens[4]);
    assert(offset(lens, 6) == offset(lens, 5) + lens[5]);
    assert(offset(lens, 7) == offset(lens, 6) + lens[6]);
    assert(offset(lens, 8) == offset(lens, 7) + lens[7]);
    assert(offset(lens, 9) == offset(lens, 8) + lens[8]);
    assert(offset(lens, 10) == offset(lens, 9) + lens[9]);
    assert(offset(lens, 11) == offset(lens, 10) + lens[10]);
    assert(offset(lens, 12) == offset(lens, 11) + lens[11]);
    assert(offset(lens, 13) == offset(lens, 12) + lens[12]);
    assert(offset(lens, 14) == offset(lens, 13) + lens[13]);
    assert(offset(lens, 15) == offset(lens, 14) + lens[14]);
    assert(offset(lens, 16) == offset(lens, 15) + lens[15]);
    assert(offset(lens, 17) == offset(lens, 16) + lens[16]);
    assert(offset(lens, 18) == offset(lens, 17) + lens[17]);
    assert(offset(lens, 19) == offset(lens, 18) + lens[18]);
    assert(offset(lens, 20) == offset(lens, 19) + lens[19]);
    assert(offset(lens, 21) == offset(lens, 20) + lens[20]);
    assert(offset(lens, 22) == offset(lens, 21) + lens[21]);
    assert(offset(lens, 23) == offset(lens, 22) + lens[22]);
    assert(offset(lens, 24) == offset(lens, 23) + lens[23]);
    assert(offset(lens, 25) == offset(lens, 24) + lens[24]);
    assert(offset(lens, 26) == offset(lens, 25) + lens[25]);
    assert(offset(lens, 27) == offset(lens, 26) + lens[26]);
    assert(offset(lens, 28) == offset(lens, 27) + lens[27]);
    assert(offset(lens, 29) == offset(lens, 28) + lens[28]);
    assert(offset(lens, 30) == offset(lens, 29) + lens[29]);
    assert(offset(lens, 31) == offset(lens, 30) + lens[30]);
    assert(offset(lens, 32) == offset(lens, 31) + lens[31]);
    assert(offset(lens, 33) == offset(lens, 32) + lens[32]);
    assert(offset(lens, 34) == offset(lens, 33) + lens[33]);
    assert(offset(lens, 35) == offset(lens, 34) + lens[34]);
    assert(offset(lens, 36) == offset(lens, 35) + lens[35]);
    assert(offset(lens, 37) == offset(lens, 36) + lens[36]);
    assert(offset(lens, 38) == offset(lens, 37) + lens[37]);
    assert(offset(lens, 39) == offset(lens, 38) + lens[38]);
    assert(offset(lens, 40) == offset(lens, 39) + lens[39]);
    assert(offset(lens, 41) == offset(lens, 40) + lens[40]);
    assert(offset(lens, 42) == offset(lens, 41) + lens[41]);
    assert(offset(lens, 43) == offset(lens, 42) + lens[42]);
    assert(offset(lens, 44) == offset(lens, 43) + lens[43]);
    let t = w.tensors();
    assert(t[0] == part(s, lens, 0));
    assert(t[1] == part(s, lens, 1));
    assert(t[2] == part(s, lens, 2));
    assert(t[3] == part(s, lens, 3));
    assert(t[4] == part(s, lens, 4));
    assert(t[5] == part(s, lens, 5));
    assert(t[6] == part(s, lens, 6));
    assert(t[7] == part(s, lens, 7));
    assert(t[8] == part(s, lens, 8));
    assert(t[9] == part(s, lens, 9));
    assert(t[10] == part(s, lens, 10));
    assert(t[11] == part(s, lens, 11));
    assert(t[12] == part(s, lens, 12));
    assert(t[13] == part(s, lens, 13));
    assert(t[14] == part(s, lens, 14));
    assert(t[15] == part(s, lens, 15));
    assert(t[16] == part(s, lens, 16));
    assert(t[17] == part(s, lens, 17));
    assert(t[18] == part(s, lens, 18));
    assert(t[19] == part(s, lens, 19));
    assert(t[20] == part(s, lens, 20));
    assert(t[21] == part(s, lens, 21));
    assert(t[22] == part(s, lens, 22));
    assert(t[23] == part(s, lens, 23));
    assert(t[24] == part(s, lens, 24));
    assert(t[25] == part(s, lens, 25));
    assert(t[26] == part(s, lens, 26));
    assert(t[27] == part(s, lens, 27));
    assert(t[28] == part(s, lens, 28));
    assert(t[29] == part(s, lens, 29));
    assert(t[30] == part(s, lens, 30));
    assert(t[31] == part(s, lens, 31));
    assert(t[32] == part(s, lens, 32));
    assert(t[33] == part(s, lens, 33));
    assert(t[34] == part(s, lens, 34));
    assert(t[35] == part(s, lens, 35));
    assert(t[36] == part(s, lens, 36));
    assert(t[37] == part(s, lens, 37));
    assert(t[38] == part(s, lens, 38));
    assert(t[39] == part(s, lens, 39));
    assert(t[40] == part(s, lens, 40));
    assert(t[41] == part(s, lens, 41));
    assert(t[42] == part(s, lens, 42));
    assert(t[43] == part(s, lens, 43));
}

/// In the flat buffer of what stays unquantized the tensors lie one behind the other, in the order
/// that the weight region has them in.
#[verifier::rlimit(60)]
pub proof fn kept_tensors_lie_in_order<T: Copy>(k: KeptWeights<'_, T>, packed: Seq<T>, c: Config)
    requires
        forall|i: int| 0 <= i < 27 ==> #[trigger] k.tensors()[i] == part(packed, kept_lens(c), i),
    ensures
        ({
            let (d, v) = (c.d_model as int, c.vocab_size as int);
            let (le, ld) = (c.enc_layers as int, c.dec_layers as int);
            let (fe, fd) = (c.enc_ffn as int, c.dec_ffn as int);
            let at_enc_bq: int = 0;
            let at_enc_bk = at_enc_bq + le * d;
            let at_enc_bv = at_enc_bk + le * d;
            let at_enc_bo = at_enc_bv + le * d;
            let at_enc_ln_att_w = at_enc_bo + le * d;
            let at_enc_ln_att_b = at_enc_ln_att_w + le * d;
            let at_enc_fc1_b = at_enc_ln_att_b + le * d;
            let at_enc_fc2_b = at_enc_fc1_b + le * fe;
            let at_enc_ln_ffn_w = at_enc_fc2_b + le * d;
            let at_enc_ln_ffn_b = at_enc_ln_ffn_w + le * d;
            let at_dec_bq = at_enc_ln_ffn_b + le * d;
            let at_dec_bk = at_dec_bq + ld * d;
            let at_dec_bv = at_dec_bk + ld * d;
            let at_dec_bo = at_dec_bv + ld * d;
            let at_dec_ln_self_w = at_dec_bo + ld * d;
            let at_dec_ln_self_b = at_dec_ln_self_w + ld * d;
            let at_dec_cross_bq = at_dec_ln_self_b + ld * d;
            let at_dec_cross_bk = at_dec_cross_bq + ld * d;
            let at_dec_cross_bv = at_dec_cross_bk + ld * d;
            let at_dec_cross_bo = at_dec_cross_bv + ld * d;
            let at_dec_ln_cross_w = at_dec_cross_bo + ld * d;
            let at_dec_ln_cross_b = at_dec_ln_cross_w + ld * d;
            let at_dec_fc1_b = at_dec_ln_cross_b + ld * d;
            let at_dec_fc2_b = at_dec_fc1_b + ld * fd;
            let at_dec_ln_ffn_w = at_dec_fc2_b + ld * d;
            let at_dec_ln_ffn_b = at_dec_ln_ffn_w + ld * d;
            let at_final_logits_bias = at_dec_ln_ffn_b + ld * d;
            &&& k.enc_bq@ == packed.subrange(at_enc_bq, at_enc_bq + le * d)
            &&& k.enc_bk@ == packed.subrange(at_enc_bk, at_enc_bk + le * d)
            &&& k.enc_bv@ == packed.subrange(at_enc_bv, at_enc_bv + le * d)
            &&& k.enc_bo@ == packed.subrange(at_enc_bo, at_enc_bo + le * d)
            &&& k.enc_ln_att_w@ == packed.subrange(at_enc_ln_att_w, at_enc_ln_att_w + le * d)
            &&& k.enc_ln_att_b@ == packed.subrange(at_enc_ln_att_b, at_enc_ln_att_b + le * d)
            &&& k.enc_fc1_b@ == packed.subrange(at_enc_fc1_b, at_enc_fc1_b + le * fe)
            &&& k.enc_fc2_b@ == packed.subrange(at_enc_fc2_b, at_enc_fc2_b + le * d)
            &&& k.enc_ln_ffn_w@ == packed.subrange(at_enc_ln_ffn_w, at_enc_ln_ffn_w + le * d)
            &&& k.enc_ln_ffn_b@ == packed.subrange(at_enc_ln_ffn_b, at_enc_ln_ffn_b + le * d)
            &&& k.dec_bq@ == packed.subrange(at_dec_bq, at_dec_bq + ld * d)
            &&& k.dec_bk@ == packed.subrange(at_dec_bk, at_dec_bk + ld * d)
            &&& k.dec_bv@ == packed.subrange(at_dec_bv, at_dec_bv + ld * d)
            &&& k.dec_bo@ == packed.subrange(at_dec_bo, at_dec_bo + ld * d)
            &&& k.dec_ln_self_w@ == packed.subrange(at_dec_ln_self_w, at_dec_ln_self_w + ld * d)
            &&& k.dec_ln_self_b@ == packed.subrange(at_dec_ln_self_b, at_dec_ln_self_b + ld * d)
            &&& k.dec_cross_bq@ == packed.subrange(at_dec_cross_bq, at_dec_cross_bq + ld * d)
            &&& k.dec_cross_bk@ == packed.subrange(at_dec_cross_bk, at_dec_cross_bk + ld * d)
            &&& k.dec_cross_bv@ == packed.subrange(at_dec_cross_bv, at_dec_cross_bv + ld * d)
            &&& k.dec_cross_bo@ == packed.subrange(at_dec_cross_bo, at_dec_cross_bo + ld * d)
            &&& k.dec_ln_cross_w@ == packed.subrange(at_dec_ln_cross_w, at_dec_ln_cross_w + ld * d)
            &&& k.dec_ln_cross_b@ == packed.subrange(at_dec_ln_cross_b, at_dec_ln_cross_b + ld * d)
            &&& k.dec_fc1_b@ == packed.subrange(at_dec_fc1_b, at_dec_fc1_b + ld * fd)
            &&& k.dec_fc2_b@ == packed.subrange(at_dec_fc2_b, at_dec_fc2_b + ld * d)
            &&& k.dec_ln_ffn_w@ == packed.subrange(at_dec_ln_ffn_w, at_dec_ln_ffn_w + ld * d)
            &&& k.dec_ln_ffn_b@ == packed.subrange(at_dec_ln_ffn_b, at_dec_ln_ffn_b + ld * d)
            &&& k.final_logits_bias@ == packed.subrange(at_final_logits_bias, at_final_logits_bias + v)
        }),
{
    let lens = kept_lens(c);
    assert(offset(lens, 0) == 0);
    assert(offset(lens, 1) == offset(lens, 0) + lens[0]);
    assert(offset(lens, 2) == offset(lens, 1) + lens[1]);
    assert(offset(lens, 3) == offset(lens, 2) + lens[2]);
    assert(offset(lens, 4) == offset(lens, 3) + lens[3]);
    assert(offset(lens, 5) == offset(lens, 4) + lens[4]);
    assert(offset(lens, 6) == offset(lens, 5) + lens[5]);
    assert(offset(lens, 7) == offset(lens, 6) + lens[6]);
    assert(offset(lens, 8) == offset(lens, 7) + lens[7]);
    assert(offset(lens, 9) == offset(lens, 8) + lens[8]);
    assert(offset(lens, 10) == offset(lens, 9) + lens[9]);
    assert(offset(lens, 11) == offset(lens, 10) + lens[10]);
    assert(offset(lens, 12) == offset(lens, 11) + lens[11]);
    assert(offset(lens, 13) == offset(lens, 12) + lens[12]);
    assert(offset(lens, 14) == offset(lens, 13) + lens[13]);
    assert(offset(lens, 15) == offset(lens, 14) + lens[14]);
    assert(offset(lens, 16) == offset(lens, 15) + lens[15]);
    assert(offset(lens, 17) == offset(lens, 16) + lens[16]);
    assert(offset(lens, 18) == offset(lens, 17) + lens[17]);
    assert(offset(lens, 19) == offset(lens, 18) + lens[18]);
    assert(offset(lens, 20) == offset(lens, 19) + lens[19]);
    assert(offset(lens, 21) == offset(lens, 20) + lens[20]);
    assert(offset(lens, 22) == offset(lens, 21) + lens[21]);
    assert(offset(lens, 23) == offset(lens, 22) + lens[22]);
    assert(offset(lens, 24) == offset(lens, 23) + lens[23]);
    assert(offset(lens, 25) == offset(lens, 24) + lens[24]);
    assert(offset(lens, 26) == offset(lens, 25) + lens[25]);
    assert(offset(lens, 27) == offset(lens, 26) + lens[26]);
    let t = k.tensors();
    assert(t[0] == part(packed, lens, 0));
    assert(t[1] == part(packed, lens, 1));
    assert(t[2] == part(packed, lens, 2));
    assert(t[3] == part(packed, lens, 3));
    assert(t[4] == part(packed, lens, 4));
    assert(t[5] == part(packed, lens, 5));
    assert(t[6] == part(packed, lens, 6));
    assert(t[7] == part(packed, lens, 7));
    assert(t[8] == part(packed, lens, 8));
    assert(t[9] == part(packed, lens, 9));
    assert(t[10] == part(packed, lens, 10));
    assert(t[11] == part(packed, lens, 11));
    assert(t[12] == part(packed, lens, 12));
    assert(t[13] == part(packed, lens, 13));
    assert(t[14] == part(packed, lens, 14));
    assert(t[15] == part(packed, lens, 15));
    assert(t[16] == part(packed, lens, 16));
    assert(t[17] == part(packed, lens, 17));
    assert(t[18] == part(packed, lens, 18));
    assert(t[19] == part(packed, lens, 19));
    assert(t[20] == part(packed, lens, 20));
    assert(t[21] == part(packed, lens, 21));
    assert(t[22] == part(packed, lens, 22));
    assert(t[23] == part(packed, lens, 23));
    assert(t[24] == part(packed, lens, 24));
    assert(t[25] == part(packed, lens, 25));
    assert(t[26] == part(packed, lens, 26));
}

/// Keeping tensors keeps each of them, under its own name.
pub proof fn kept_tensors_keep_their_names<T: Copy>(k: KeptWeights<'_, T>, w: Weights<'_, T>)
    requires
        k.tensors() == kept_views(w),
    ensures
        k.enc_bq@ == w.enc_bq@,
        k.enc_bk@ == w.enc_bk@,
        k.enc_bv@ == w.enc_bv@,
        k.enc_bo@ == w.enc_bo@,
        k.enc_ln_att_w@ == w.enc_ln_att_w@,
        k.enc_ln_att_b@ == w.enc_ln_att_b@,
        k.enc_fc1_b@ == w.enc_fc1_b@,
        k.enc_fc2_b@ == w.enc_fc2_b@,
        k.enc_ln_ffn_w@ == w.enc_ln_ffn_w@,
        k.enc_ln_ffn_b@ == w.enc_ln_ffn_b@,
        k.dec_bq@ == w.dec_bq@,
        k.dec_bk@ == w.dec_bk@,
        k.dec_bv@ == w.dec_bv@,
        k.dec_bo@ == w.dec_bo@,
        k.dec_ln_self_w@ == w.dec_ln_self_w@,
        k.dec_ln_self_b@ == w.dec_ln_self_b@,
        k.dec_cross_bq@ == w.dec_cross_bq@,
        k.dec_cross_bk@ == w.dec_cross_bk@,
        k.dec_cross_bv@ == w.dec_cross_bv@,
        k.dec_cross_bo@ == w.dec_cross_bo@,
        k.dec_ln_cross_w@ == w.dec_ln_cross_w@,
        k.dec_ln_cross_b@ == w.dec_ln_cross_b@,
        k.dec_fc1_b@ == w.dec_fc1_b@,
        k.dec_fc2_b@ == w.dec_fc2_b@,
        k.dec_ln_ffn_w@ == w.dec_ln_ffn_w@,
        k.dec_ln_ffn_b@ == w.dec_ln_ffn_b@,
        k.final_logits_bias@ == w.final_logits_bias@,
{
    let (t, v) = (k.tensors(), kept_views(w));
    assert(t[0] == v[0]);
    assert(t[1] == v[1]);
    assert(t[2] == v[2]);
    assert(t[3] == v[3]);
    assert(t[4] == v[4]);
    assert(t[5] == v[5]);
    assert(t[6] == v[6]);
    assert(t[7] == v[7]);
    assert(t[8] == v[8]);
    assert(t[9] == v[9]);
    assert(t[10] == v[10]);
    assert(t[11] == v[11]);
    assert(t[12] == v[12]);
    assert(t[13] == v[13]);
    assert(t[14] == v[14]);
    assert(t[15] == v[15]);
    assert(t[16] == v[16]);
    assert(t[17] == v[17]);
    assert(t[18] == v[18]);
    assert(t[19] == v[19]);
    assert(t[20] == v[20]);
    assert(t[21] == v[21]);
    assert(t[22] == v[22]);
    assert(t[23] == v[23]);
    assert(t[24] == v[24]);
    assert(t[25] == v[25]);
    assert(t[26] == v[26]);
}

/// In the two flat buffers of quantized weights the matrices lie one behind the other, in the order
/// that the weight region has them in, and the scales of a matrix lie at its offset over the group
/// size.
#[verifier::rlimit(60)]
pub proof fn quantized_tensors_lie_in_order<S: Copy>(
    w: QuantizedWeights<'_, S>,
    c: Config,
    data: Seq<i8>,
    scales: Seq<S>,
    gs: nat,
)
    requires
        gs > 0,
        forall|i: int|
            0 <= i < 17 ==> is_quantized_part(
                #[trigger] w.tensors()[i],
                data,
                scales,
                quantized_lens(c),
                gs,
                i,
            ),
        forall|k: int| 0 <= k < 17 ==> #[trigger] quantized_lens(c)[k] % gs == 0,
    ensures
        ({
            let g = gs as int;
            let (d, v) = (c.d_model as int, c.vocab_size as int);
            let (le, ld) = (c.enc_layers as int, c.dec_layers as int);
            let (fe, fd) = (c.enc_ffn as int, c.dec_ffn as int);
            let at_token_embedding: int = 0;
            let at_enc_wq = at_token_embedding + v * d;
            let at_enc_wk = at_enc_wq + le * d * d;
            let at_enc_wv = at_enc_wk + le * d * d;
            let at_enc_wo = at_enc_wv + le * d * d;
            let at_enc_fc1_w = at_enc_wo + le * d * d;
            let at_enc_fc2_w = at_enc_fc1_w + le * fe * d;
            let at_dec_wq = at_enc_fc2_w + le * d * fe;
            let at_dec_wk = at_dec_wq + ld * d * d;
            let at_dec_wv = at_dec_wk + ld * d * d;
            let at_dec_wo = at_dec_wv + ld * d * d;
            let at_dec_cross_wq = at_dec_wo + ld * d * d;
            let at_dec_cross_wk = at_dec_cross_wq + ld * d * d;
            let at_dec_cross_wv = at_dec_cross_wk + ld * d * d;
            let at_dec_cross_wo = at_dec_cross_wv + ld * d * d;
            let at_dec_fc1_w = at_dec_cross_wo + ld * d * d;
            let at_dec_fc2_w = at_dec_fc1_w + ld * fd * d;
            &&& w.token_embedding.data@ == data.subrange(at_token_embedding, at_token_embedding + v * d)
            &&& w.token_embedding.scales@ == scales.subrange(at_token_embedding / g, (at_token_embedding + v * d) / g)
            &&& w.enc_wq.data@ == data.subrange(at_enc_wq, at_enc_wq + le * d * d)
            &&& w.enc_wq.scales@ == scales.subrange(at_enc_wq / g, (at_enc_wq + le * d * d) / g)
            &&& w.enc_wk.data@ == data.subrange(at_enc_wk, at_enc_wk + le * d * d)
            &&& w.enc_wk.scales@ == scales.subrange(at_enc_wk / g, (at_enc_wk + le * d * d) / g)
            &&& w.enc_wv.data@ == data.subrange(at_enc_wv, at_enc_wv + le * d * d)
            &&& w.enc_wv.scales@ == scales.subrange(at_enc_wv / g, (at_enc_wv + le * d * d) / g)
            &&& w.enc_wo.data@ == data.subrange(at_enc_wo, at_enc_wo + le * d * d)
            &&& w.enc_wo.scales@ == scales.subrange(at_enc_wo / g, (at_enc_wo + le * d * d) / g)
            &&& w.enc_fc1_w.data@ == data.subrange(at_enc_fc1_w, at_enc_fc1_w + le * fe * d)
            &&& w.enc_fc1_w.scales@ == scales.subrange(at_enc_fc1_w / g, (at_enc_fc1_w + le * fe * d) / g)
            &&& w.enc_fc2_w.data@ == data.subrange(at_enc_fc2_w, at_enc_fc2_w + le * d * fe)
            &&& w.enc_fc2_w.scales@ == scales.subrange(at_enc_fc2_w / g, (at_enc_fc2_w + le * d * fe) / g)
            &&& w.dec_wq.data@ == data.subrange(at_dec_wq, at_dec_wq + ld * d * d)
            &&& w.dec_wq.scales@ == scales.subrange(at_dec_wq / g, (at_dec_wq + ld * d * d) / g)
            &&& w.dec_wk.data@ == data.subrange(at_dec_wk, at_dec_wk + ld * d * d)
            &&& w.dec_wk.scales@ == scales.subrange(at_dec_wk / g, (at_dec_wk + ld * d * d) / g)
            &&& w.dec_wv.data@ == data.subrange(at_dec_wv, at_dec_wv + ld * d * d)
            &&& w.dec_wv.scales@ == scales.subrange(at_dec_wv / g, (at_dec_wv + ld * d * d) / g)
            &&& w.dec_wo.data@ == data.subrange(at_dec_wo, at_dec_wo + ld * d * d)
            &&& w.dec_wo.scales@ == scales.subrange(at_dec_wo / g, (at_dec_wo + ld * d * d) / g)
            &&& w.dec_cross_wq.data@ == data.subrange(at_dec_cross_wq, at_dec_cross_wq + ld * d * d)
            &&& w.dec_cross_wq.scales@ == scales.subrange(at_dec_cross_wq / g, (at_dec_cross_wq + ld * d * d) / g)
            &&& w.dec_cross_wk.data@ == data.subrange(at_dec_cross_wk, at_dec_cross_wk + ld * d * d)
            &&& w.dec_cross_wk.scales@ == scales.subrange(at_dec_cross_wk / g, (at_dec_cross_wk + ld * d * d) / g)
            &&& w.dec_cross_wv.data@ == data.subrange(at_dec_cross_wv, at_dec_cross_wv + ld * d * d)
            &&& w.dec_cross_wv.scales@ == scales.subrange(at_dec_cross_wv / g, (at_dec_cross_wv + ld * d * d) / g)
            &&& w.dec_cross_wo.data@ == data.subrange(at_dec_cross_wo, at_dec_cross_wo + ld * d * d)
            &&& w.dec_cross_wo.scales@ == scales.subrange(at_dec_cross_wo / g, (at_dec_cross_wo + ld * d * d) / g)
            &&& w.dec_fc1_w.data@ == data.subrange(at_dec_fc1_w, at_dec_fc1_w + ld * fd * d)
            &&& w.dec_fc1_w.scales@ == scales.subrange(at_dec_fc1_w / g, (at_dec_fc1_w + ld * fd * d) / g)
            &&& w.dec_fc2_w.data@ == data.subrange(at_dec_fc2_w, at_dec_fc2_w + ld * d * fd)
            &&& w.dec_fc2_w.scales@ == scales.subrange(at_dec_fc2_w / g, (at_dec_fc2_w + ld * d * fd) / g)
        }),
{
    let lens = quantized_lens(c);
    assert(offset(lens, 0) == 0);
    assert(offset(lens, 1) == offset(lens, 0) + lens[0]);
    assert(offset(lens, 2) == offset(lens, 1) + lens[1]);
    assert(offset(lens, 3) == offset(lens, 2) + lens[2]);
    assert(offset(lens, 4) == offset(lens, 3) + lens[3]);
    assert(offset(lens, 5) == offset(lens, 4) + lens[4]);
    assert(offset(lens, 6) == offset(lens, 5) + lens[5]);
    assert(offset(lens, 7) == offset(lens, 6) + lens[6]);
    assert(offset(lens, 8) == offset(lens, 7) + lens[7]);
    assert(offset(lens, 9) == offset(lens, 8) + lens[8]);
    assert(offset(lens, 10) == offset(lens, 9) + lens[9]);
    assert(offset(lens, 11) == offset(lens, 10) + lens[10]);
    assert(offset(lens, 12) == offset(lens, 11) + lens[11]);
    assert(offset(lens, 13) == offset(lens, 12) + lens[12]);
    assert(offset(lens, 14) == offset(lens, 13) + lens[13]);
    assert(offset(lens, 15) == offset(lens, 14) + lens[14]);
    assert(offset(lens, 16) == offset(lens, 15) + lens[15]);
    assert(offset(lens, 17) == offset(lens, 16) + lens[16]);
    scale_offset(lens, gs, 0);
    scale_offset(lens, gs, 1);
    scale_offset(lens, gs, 2);
    scale_offset(lens, gs, 3);
    scale_offset(lens, gs, 4);
    scale_offset(lens, gs, 5);
    scale_offset(lens, gs, 6);
    scale_offset(lens, gs, 7);
    scale_offset(lens, gs, 8);
    scale_offset(lens, gs, 9);
    scale_offset(lens, gs, 10);
    scale_offset(lens, gs, 11);
    scale_offset(lens, gs, 12);
    scale_offset(lens, gs, 13);
    scale_offset(lens, gs, 14);
    scale_offset(lens, gs, 15);
    scale_offset(lens, gs, 16);
    scale_offset(lens, gs, 17);
    let t = w.tensors();
    assert(is_quantized_part(t[0], data, scales, lens, gs, 0));
    assert(is_quantized_part(t[1], data, scales, lens, gs, 1));
    assert(is_quantized_part(t[2], data, scales, lens, gs, 2));
    assert(is_quantized_part(t[3], data, scales, lens, gs, 3));
    assert(is_quantized_part(t[4], data, scales, lens, gs, 4));
    assert(is_quantized_part(t[5], data, scales, lens, gs, 5));
    assert(is_quantized_part(t[6], data, scales, lens, gs, 6));
    assert(is_quantized_part(t[7], data, scales, lens, gs, 7));
    assert(is_quantized_part(t[8], data, scales, lens, gs, 8));
    assert(is_quantized_part(t[9], data, scales, lens, gs, 9));
    assert(is_quantized_part(t[10], data, scales, lens, gs, 10));
    assert(is_quantized_part(t[11], data, scales, lens, gs, 11));
    assert(is_quantized_part(t[12], data, scales, lens, gs, 12));
    assert(is_quantized_part(t[13], data, scales, lens, gs, 13));
    assert(is_quantized_part(t[14], data, scales, lens, gs, 14));
    assert(is_quantized_part(t[15], data, scales, lens, gs, 15));
    assert(is_quantized_part(t[16], data, scales, lens, gs, 16));
}

/// What is quantized is each matrix of the weights, in the order that the weight region has them
/// in.
pub proof fn matrices_in_order<T: Copy>(w: Weights<'_, T>)
    ensures
        matmul_views(w).len() == 17,
        matmul_views(w)[0] == w.token_embedding@,
        matmul_views(w)[1] == w.enc_wq@,
        matmul_views(w)[2] == w.enc_wk@,
        matmul_views(w)[3] == w.enc_wv@,
        matmul_views(w)[4] == w.enc_wo@,
        matmul_views(w)[5] == w.enc_fc1_w@,
        matmul_views(w)[6] == w.enc_fc2_w@,
        matmul_views(w)[7] == w.dec_wq@,
        matmul_views(w)[8] == w.dec_wk@,
        matmul_views(w)[9] == w.dec_wv@,
        matmul_views(w)[10] == w.dec_wo@,
        matmul_views(w)[11] == w.dec_cross_wq@,
        matmul_views(w)[12] == w.dec_cross_wk@,
        matmul_views(w)[13] == w.dec_cross_wv@,
        matmul_views(w)[14] == w.dec_cross_wo@,
        matmul_views(w)[15] == w.dec_fc1_w@,
        matmul_views(w)[16] == w.dec_fc2_w@,
{
}

/// The weights of a checkpoint begin behind its header of 256 bytes: element `k` is the word at four
/// times `k` bytes behind it.
pub proof fn weights_begin_behind_the_header(m: Seq2SeqModel, k: int)
    requires
        0 <= k,
        256 + 4 * k + 4 <= m.file().len(),
    ensures
        m.weight_region()[k] == le_u32(m.file(), 256 + 4 * k),
{
    a_word_of_bytes(m.words@, 64 + k);
    assert(m.weight_region()[k] == m.words@[64 + k]);
}

} // verus!

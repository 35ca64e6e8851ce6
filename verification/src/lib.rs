//! A small inference engine for transformer models, with its logic proved correct.

pub mod arena;
pub mod bytes;
pub mod dsp;
pub mod error;
pub mod host;
pub mod kernel_laws;
pub mod kernels;
pub mod layout;
pub mod llama;
pub mod math;
pub mod nn;
pub mod nn_laws;
pub mod order;
pub mod order_laws;
pub mod q8;
pub mod q8_laws;
pub mod quant;
pub mod quant_laws;
pub mod sample;
pub mod sample_laws;
pub mod scalar;
pub mod scalar_laws;
pub mod seq2seq;
pub mod text;
pub mod text_laws;
pub mod whole;

//! The Marian-style encoder-decoder architecture.

pub mod block_laws;
pub mod blocks;
pub mod config;
pub mod config_laws;
pub mod decoder;
pub mod decoder_laws;
pub mod generate;
pub mod generate_laws;
pub mod loader;
pub mod matrix;
pub mod memory;
pub mod model;
pub mod params;
pub mod quantize;
pub mod report;
pub mod run;
pub mod state;
pub mod tokenizer;
pub mod tokenizer_laws;
pub mod viterbi;
pub mod viterbi_laws;
pub mod weight_laws;
pub mod weights;

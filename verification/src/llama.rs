//! The decoder-only Llama-2 architecture.

pub mod bpe;
pub mod bpe_laws;
pub mod config;
pub mod config_laws;
pub mod convert;
pub mod forward_laws;
pub mod generate;
pub mod generate_laws;
pub mod loader;
pub mod memory;
pub mod model;
pub mod model_laws;
pub mod quantize;
pub mod report;
pub mod run;
pub mod run_laws;
pub mod size_laws;
pub mod state;
pub mod tokenizer;
pub mod tokenizer_laws;
pub mod weight_laws;
pub mod weights;

//! Checkpoint loading for encoder-decoder models: hold a file's bytes against its header,
//! and expose the weight views.

use vstd::prelude::*;

use crate::bytes::read_words;
#[allow(unused_imports)]
use crate::bytes::{bytes_of, bytes_of_words};
use crate::error::EngineError;
use crate::host::error::HostError;
use crate::layout::saturate;
#[allow(unused_imports)]
use crate::layout::{part, saturated};
use crate::seq2seq::config::{Config, SEQ2SEQ_HEADER_BYTES};
#[allow(unused_imports)]
use crate::seq2seq::config::parsed_config;
use crate::seq2seq::weights::{expected_file_bytes_checked, Weights};
#[allow(unused_imports)]
use crate::seq2seq::weights::{file_bytes, weight_lens};

verus! {

/// A loaded checkpoint.
pub struct Seq2SeqModel {
    /// The validated configuration.
    pub config: Config,
    /// Size of the file in bytes.
    pub file_bytes: usize,
    /// The file as 32-bit words.
    pub words: Vec<u32>,
    /// Where it was loaded from.
    pub path: String,
}

/// The error of loading a file, if there is one.
pub open spec fn seq2seq_loading_error(path: String, bytes: Seq<u8>) -> Option<HostError> {
    if bytes.len() % 4 != 0 {
        Some(HostError::NotF32Aligned { path, len: bytes.len() as u64 })
    } else {
        match parsed_config(bytes) {
            Err(source) => Some(HostError::Engine { path, source }),
            Ok(c) => if file_bytes(c) != bytes.len() {
                Some(
                    HostError::Engine {
                        path,
                        source: EngineError::SizeMismatch {
                            expected: saturated(file_bytes(c) as int),
                            actual: bytes.len() as usize,
                        },
                    },
                )
            } else {
                None
            },
        }
    }
}

impl Seq2SeqModel {
    /// The file's bytes.
    pub open spec fn file(self) -> Seq<u8> {
        bytes_of(self.words@)
    }

    /// The words behind the header.
    pub open spec fn weight_region(self) -> Seq<u32> {
        self.words@.skip(SEQ2SEQ_HEADER_BYTES as int / 4)
    }

    /// The config is that of the file's header, and the file has the length that it
    /// implies.
    pub open spec fn wf(self) -> bool {
        &&& parsed_config(self.file()) == Ok::<Config, EngineError>(self.config)
        &&& self.file_bytes == self.file().len()
        &&& self.file().len() == file_bytes(self.config)
    }

    /// Take in a checkpoint's bytes and validate them.
    pub fn parse(path: String, bytes: &[u8]) -> (r: Result<Seq2SeqModel, HostError>)
        ensures
            match r {
                Ok(m) => {
                    &&& seq2seq_loading_error(path, bytes@) is None
                    &&& m.wf()
                    &&& m.file() == bytes@
                    &&& m.path == path
                },
                Err(e) => seq2seq_loading_error(path, bytes@) == Some(e),
            },
    {
        let len: usize = bytes.len();
        if len % 4 != 0 {
            return Err(HostError::NotF32Aligned { path, len: len as u64 });
        }
        let config = match Config::parse(bytes) {
            Ok(config) => config,
            Err(source) => {
                return Err(HostError::Engine { path, source });
            },
        };
        let expected = expected_file_bytes_checked(&config);
        let matches: bool = match expected.to_option() {
            Some(n) => n == len,
            None => false,
        };
        if !matches {
            return Err(
                HostError::Engine {
                    path,
                    source: EngineError::SizeMismatch {
                        expected: saturate(&expected),
                        actual: len,
                    },
                },
            );
        }
        let words = read_words(bytes);
        proof {
            bytes_of_words(bytes@);
        }
        Ok(Seq2SeqModel { config, file_bytes: len, words, path })
    }

    /// Views of all weight tensors, as bit patterns. A loaded checkpoint always has them.
    pub fn weights(&self) -> (r: Result<Weights<'_, u32>, HostError>)
        requires
            self.wf(),
        ensures
            r matches Ok(w) && w.shaped(self.config) && forall|i: int|
                0 <= i < 44 ==> #[trigger] w.tensors()[i] == part(
                    self.weight_region(),
                    weight_lens(self.config),
                    i,
                ),
    {
        let words = self.words.as_slice();
        let header: usize = SEQ2SEQ_HEADER_BYTES / 4;
        let region = vstd::slice::slice_subrange(words, header, words.len());
        proof {
            assert(region@ =~= self.weight_region());
        }
        match Weights::new(region, &self.config) {
            Ok(w) => Ok(w),
            Err(source) => {
                proof {
                    assert(false);
                }
                Err(HostError::Engine { path: self.path.clone(), source })
            },
        }
    }

    /// Size of just the weights in bytes.
    pub fn weight_bytes(&self) -> (r: usize)
        requires
            self.wf(),
        ensures
            r == self.file_bytes - SEQ2SEQ_HEADER_BYTES,
    {
        self.file_bytes - SEQ2SEQ_HEADER_BYTES
    }
}

} // verus!

//! Everything that can go wrong while loading files or reading arguments.

use vstd::prelude::*;
use vstd::string::to_string_from_display_ensures;

use crate::error::EngineError;
#[allow(unused_imports)]
use crate::text::decimal;
use crate::text::push_decimal;

verus! {

/// `std::io::Error`, carried through unread.
#[verifier::external_type_specification]
#[verifier::external_body]
pub struct ExIoError(std::io::Error);

/// An error with what a user needs to know about it.
#[derive(Debug)]
pub enum HostError {
    /// A command-line usage problem.
    Usage(String),
    /// An I/O failure, with the path it happened on.
    Io {
        /// The path.
        path: String,
        /// The failure.
        source: std::io::Error,
    },
    /// A checkpoint whose length is not a whole number of 32-bit values.
    NotF32Aligned {
        /// The path.
        path: String,
        /// The length in bytes.
        len: u64,
    },
    /// An error from the engine core.
    Engine {
        /// The path.
        path: String,
        /// The error.
        source: EngineError,
    },
    /// A checkpoint whose format does not fit the requested operation.
    Format {
        /// The path.
        path: String,
        /// What is wrong.
        msg: String,
    },
    /// A malformed tokenizer file.
    Tokenizer(String),
}

impl HostError {
    /// An I/O failure at a path.
    pub fn io(path: String, source: std::io::Error) -> (r: Self)
        ensures
            r == (HostError::Io { path, source }),
    {
        HostError::Io { path, source }
    }

    /// An engine error at a path.
    pub fn engine(path: String, source: EngineError) -> (r: Self)
        ensures
            r == (HostError::Engine { path, source }),
    {
        HostError::Engine { path, source }
    }

    /// Whether `text` is the diagnostic for this error.
    pub open spec fn has_message(self, text: Seq<char>) -> bool {
        match self {
            HostError::Usage(msg) => text == msg@,
            HostError::Io { path, source } => exists|shown: String| #[trigger]
                to_string_from_display_ensures(&source, shown) && text == path@ + ": "@ + shown@,
            HostError::NotF32Aligned { path, len } => text == path@ + ": file length "@ + decimal(
                len as nat,
            ) + " is not a multiple of 4 bytes, so it is not a valid fp32 checkpoint"@,
            HostError::Engine { path, source } => text == path@ + ": "@ + source.message_text(),
            HostError::Format { path, msg } => text == path@ + ": "@ + msg@,
            HostError::Tokenizer(msg) => text == "tokenizer: "@ + msg@,
        }
    }

    /// A user-facing diagnostic.
    pub fn message(&self) -> (r: String)
        ensures
            self.has_message(r@),
    {
        let mut out = String::new();
        match self {
            HostError::Usage(msg) => {
                out.append(msg.as_str());
                proof {
                    assert(out@ =~= msg@);
                }
            },
            HostError::Io { path, source } => {
                out.append(path.as_str());
                out.append(": ");
                let shown = source.to_string();
                out.append(shown.as_str());
                proof {
                    assert(out@ =~= path@ + ": "@ + shown@);
                }
            },
            HostError::NotF32Aligned { path, len } => {
                out.append(path.as_str());
                out.append(": file length ");
                push_decimal(&mut out, *len);
                out.append(" is not a multiple of 4 bytes, so it is not a valid fp32 checkpoint");
                proof {
                    assert(out@ =~= path@ + ": file length "@ + decimal(*len as nat)
                        + " is not a multiple of 4 bytes, so it is not a valid fp32 checkpoint"@);
                }
            },
            HostError::Engine { path, source } => {
                out.append(path.as_str());
                out.append(": ");
                let shown = source.message();
                out.append(shown.as_str());
                proof {
                    assert(out@ =~= path@ + ": "@ + source.message_text());
                }
            },
            HostError::Format { path, msg } => {
                out.append(path.as_str());
                out.append(": ");
                out.append(msg.as_str());
                proof {
                    assert(out@ =~= path@ + ": "@ + msg@);
                }
            },
            HostError::Tokenizer(msg) => {
                out.append("tokenizer: ");
                out.append(msg.as_str());
                proof {
                    assert(out@ =~= "tokenizer: "@ + msg@);
                }
            },
        }
        out
    }
}

} // verus!

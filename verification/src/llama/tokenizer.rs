//! The llama2.c vocabulary: reading `tokenizer.bin`, and turning tokens back into bytes.
//!
//! The file holds the longest token length as a 32-bit integer, then one entry per token: a
//! score, a length, and that many raw bytes. The number of tokens is not stored; it comes
//! from the model, and the file must end exactly behind the last token.

use vstd::prelude::*;

use crate::bytes::{read_i32, read_u32};
#[allow(unused_imports)]
use crate::bytes::{le_i32, le_u32};
use crate::host::error::HostError;
use crate::text::{chars_of, push_decimal};
#[allow(unused_imports)]
use crate::text::{decimal, signed_decimal};

verus! {

/// The token that opens a sequence, and at which a generation stops.
pub const BOS_ID: usize = 1;

/// The byte-fallback token of byte `b` has the id `b + 3`.
pub const BYTE_TOKEN_OFFSET: usize = 3;

/// One vocabulary entry.
#[derive(Debug, Clone)]
pub struct TokenEntry {
    /// Merge priority, as a bit pattern.
    pub score: u32,
    /// The raw bytes, not necessarily valid UTF-8.
    pub bytes: Vec<u8>,
}

impl View for TokenEntry {
    type V = (u32, Seq<u8>);

    open spec fn view(&self) -> (u32, Seq<u8>) {
        (self.score, self.bytes@)
    }
}

/// The value of a hexadecimal digit.
pub open spec fn hex_value(b: u8) -> Option<int> {
    if 0x30 <= b <= 0x39 {
        Some(b - 0x30)
    } else if 0x41 <= b <= 0x46 {
        Some(b - 0x41 + 10)
    } else if 0x61 <= b <= 0x66 {
        Some(b - 0x61 + 10)
    } else {
        None
    }
}

/// Whether a piece has the form `<0x..>` of a byte-fallback token.
pub open spec fn byte_form(piece: Seq<u8>) -> bool {
    piece.len() == 6 && piece[0] == 0x3c && piece[1] == 0x30 && piece[2] == 0x78 && piece[5] == 0x3e
}

/// The byte that a piece of the form `<0xNN>` stands for.
pub open spec fn byte_value(piece: Seq<u8>) -> Option<int> {
    if byte_form(piece) && hex_value(piece[3]) is Some && hex_value(piece[4]) is Some {
        Some(hex_value(piece[3]).unwrap() * 16 + hex_value(piece[4]).unwrap())
    } else {
        None
    }
}

/// The value of a hexadecimal digit.
fn hex_digit(b: u8) -> (r: Option<u8>)
    ensures
        match r {
            Some(v) => hex_value(b) == Some(v as int) && v < 16,
            None => hex_value(b) is None,
        },
{
    if 0x30 <= b && b <= 0x39 {
        Some(b - 0x30)
    } else if 0x41 <= b && b <= 0x46 {
        Some(b - 0x41 + 10)
    } else if 0x61 <= b && b <= 0x66 {
        Some(b - 0x61 + 10)
    } else {
        None
    }
}

/// The characters of bytes that may not be valid UTF-8, as `String::from_utf8_lossy` gives
/// them.
pub uninterp spec fn lossy_text(bytes: Seq<u8>) -> Seq<char>;

/// `String::from_utf8_lossy`: the text of the bytes, in which replacement characters stand
/// for what is not UTF-8. It depends on the bytes alone; valid UTF-8 is decoded unchanged.
#[verifier::external_body]
fn from_utf8_lossy(bytes: &[u8]) -> (r: String)
    ensures
        r@ == lossy_text(bytes@),
        vstd::utf8::valid_utf8(bytes@) ==> r@ == vstd::utf8::decode_utf8(bytes@),
{
    String::from_utf8_lossy(bytes).into_owned()
}

/// Text with the word marker U+2581 shown as an underscore.
pub open spec fn marker_shown(s: Seq<char>) -> Seq<char> {
    s.map_values(
        |c: char|
            if c == '\u{2581}' {
                '_'
            } else {
                c
            },
    )
}

/// Show the word marker as an underscore.
pub fn show_marker(s: &str) -> (r: String)
    ensures
        r@ == marker_shown(s@),
{
    let mut out = String::new();
    let chars = chars_of(s);
    let n: usize = chars.len();
    let mut i: usize = 0;
    proof {
        assert(out@ =~= marker_shown(s@.take(0)));
    }
    while i < n
        invariant
            n == s@.len(),
            chars@ == s@,
            i <= n,
            out@ == marker_shown(s@.take(i as int)),
        decreases n - i,
    {
        let c: char = chars[i];
        if c == '\u{2581}' {
            out.push('_');
        } else {
            out.push(c);
        }
        proof {
            assert(out@ =~= marker_shown(s@.take(i + 1)));
        }
        i = i + 1;
    }
    proof {
        assert(s@.take(n as int) =~= s@);
    }
    out
}

impl TokenEntry {
    /// The piece for display: the word marker becomes an underscore, and what is not UTF-8
    /// is shown lossily.
    pub fn display(&self) -> (r: String)
        ensures
            r@ == marker_shown(lossy_text(self.bytes@)),
    {
        let text = from_utf8_lossy(self.bytes.as_slice());
        show_marker(text.as_str())
    }

    /// Whether this is a byte-fallback token of the form `<0xNN>`.
    pub fn is_byte_fallback(&self) -> (r: bool)
        ensures
            r == byte_form(self.bytes@),
    {
        self.bytes.len() == 6 && self.bytes[0] == 0x3c && self.bytes[1] == 0x30 && self.bytes[2]
            == 0x78 && self.bytes[5] == 0x3e
    }

    /// The byte that a byte-fallback token stands for.
    pub fn byte_fallback_value(&self) -> (r: Option<u8>)
        ensures
            match r {
                Some(b) => byte_value(self.bytes@) == Some(b as int),
                None => byte_value(self.bytes@) is None,
            },
    {
        if !self.is_byte_fallback() {
            return None;
        }
        match hex_digit(self.bytes[3]) {
            Some(hi) => match hex_digit(self.bytes[4]) {
                Some(lo) => Some(hi * 16 + lo),
                None => None,
            },
            None => None,
        }
    }
}

/// A parsed vocabulary.
#[derive(Debug)]
pub struct Vocab {
    /// Longest token in bytes, as the file says.
    pub max_token_length: usize,
    /// The entries, indexed by token id.
    pub tokens: Vec<TokenEntry>,
}

/// The entries of a vocabulary as values.
pub open spec fn entries(tokens: Seq<TokenEntry>) -> Seq<(u32, Seq<u8>)> {
    tokens.map_values(|t: TokenEntry| t@)
}

/// The complaint about a file that ends too early.
pub open spec fn truncated_text(what: Seq<char>, need: nat, have: nat) -> Seq<char> {
    "unexpected end of file reading "@ + what + " (need "@ + decimal(need) + " more bytes, have "@
        + decimal(have) + ")"@
}

/// The entries from `pos` on, of which `i` were read before, up to `n`; or the complaint
/// about the first that cannot be read. Gives where the last entry ends, too.
pub open spec fn parsed_entries(s: Seq<u8>, pos: int, i: nat, n: nat) -> Result<
    (Seq<(u32, Seq<u8>)>, int),
    Seq<char>,
>
    decreases n - i,
{
    if i >= n {
        Ok((Seq::empty(), pos))
    } else if pos + 4 > s.len() {
        Err(truncated_text("score for token "@ + decimal(i), 4, (s.len() - pos) as nat))
    } else if pos + 8 > s.len() {
        Err(truncated_text("length of token "@ + decimal(i), 4, (s.len() - pos - 4) as nat))
    } else if le_i32(s, pos + 4) < 0 {
        Err("token "@ + decimal(i) + " has negative length "@ + signed_decimal(le_i32(s, pos + 4)))
    } else if pos + 8 + le_i32(s, pos + 4) > s.len() {
        Err(
            truncated_text(
                "bytes of token "@ + decimal(i),
                le_i32(s, pos + 4) as nat,
                (s.len() - pos - 8) as nat,
            ),
        )
    } else {
        let end = pos + 8 + le_i32(s, pos + 4);
        let entry = (le_u32(s, pos) as u32, s.subrange(pos + 8, end));
        match parsed_entries(s, end, i + 1, n) {
            Ok((rest, stop)) => Ok((seq![entry] + rest, stop)),
            Err(e) => Err(e),
        }
    }
}

/// The vocabulary of `n` tokens that a file holds, or the complaint about the file.
pub open spec fn parsed_vocab(s: Seq<u8>, n: nat) -> Result<
    (int, Seq<(u32, Seq<u8>)>),
    Seq<char>,
> {
    if s.len() < 4 {
        Err(truncated_text("max_token_length"@, 4, s.len()))
    } else if le_i32(s, 0) < 0 {
        Err("negative max_token_length ("@ + signed_decimal(le_i32(s, 0)) + ")"@)
    } else {
        match parsed_entries(s, 4, 0, n) {
            Ok((tokens, end)) => if end == s.len() {
                Ok((le_i32(s, 0), tokens))
            } else {
                Err(
                    "trailing data: "@ + decimal((s.len() - end) as nat) + " bytes remain after "@
                        + decimal(n) + " tokens"@,
                )
            },
            Err(e) => Err(e),
        }
    }
}

/// Complain about a file that ends too early.
fn truncated(what: &str, need: usize, have: usize) -> (r: HostError)
    ensures
        r matches HostError::Tokenizer(msg) && msg@ == truncated_text(
            what@,
            need as nat,
            have as nat,
        ),
{
    let mut msg = String::new();
    msg.append("unexpected end of file reading ");
    msg.append(what);
    msg.append(" (need ");
    push_decimal(&mut msg, need as u64);
    msg.append(" more bytes, have ");
    push_decimal(&mut msg, have as u64);
    msg.append(")");
    proof {
        assert(msg@ =~= truncated_text(what@, need as nat, have as nat));
    }
    HostError::Tokenizer(msg)
}

/// Text followed by a number.
fn numbered(text: &str, i: usize) -> (r: String)
    ensures
        r@ == text@ + decimal(i as nat),
{
    let mut out = String::new();
    out.append(text);
    push_decimal(&mut out, i as u64);
    proof {
        assert(out@ =~= text@ + decimal(i as nat));
    }
    out
}

/// Append a number that may be negative.
fn push_signed(out: &mut String, v: i32)
    ensures
        final(out)@ == old(out)@ + signed_decimal(v as int),
{
    if v < 0 {
        out.push('-');
        push_decimal(out, (-(v as i64)) as u64);
        proof {
            assert(out@ =~= old(out)@ + signed_decimal(v as int));
        }
    } else {
        push_decimal(out, v as u64);
    }
}

/// The bytes from `from` up to `to`.
fn copy_bytes(bytes: &[u8], from: usize, to: usize) -> (r: Vec<u8>)
    requires
        from <= to <= bytes@.len(),
    ensures
        r@ == bytes@.subrange(from as int, to as int),
{
    let mut r: Vec<u8> = Vec::new();
    let mut i: usize = from;
    while i < to
        invariant
            from <= i <= to <= bytes@.len(),
            r@ == bytes@.subrange(from as int, i as int),
        decreases to - i,
    {
        r.push(bytes[i]);
        proof {
            assert(r@ =~= bytes@.subrange(from as int, i + 1));
        }
        i = i + 1;
    }
    r
}

impl Vocab {
    /// Number of tokens.
    pub fn len(&self) -> (r: usize)
        ensures
            r == self.tokens@.len(),
    {
        self.tokens.len()
    }

    /// Whether there are no tokens.
    pub fn is_empty(&self) -> (r: bool)
        ensures
            r == (self.tokens@.len() == 0),
    {
        self.tokens.len() == 0
    }

    /// Parse a file that holds exactly `vocab_size` tokens.
    pub fn parse(bytes: &[u8], vocab_size: usize) -> (r: Result<Vocab, HostError>)
        ensures
            match r {
                Ok(v) => parsed_vocab(bytes@, vocab_size as nat) == Ok::<_, Seq<char>>(
                    (v.max_token_length as int, entries(v.tokens@)),
                ),
                Err(HostError::Tokenizer(msg)) => parsed_vocab(bytes@, vocab_size as nat) == Err::<
                    (int, Seq<(u32, Seq<u8>)>),
                    _,
                >(msg@),
                Err(_) => false,
            },
    {
        let len: usize = bytes.len();
        if len < 4 {
            return Err(truncated("max_token_length", 4, len));
        }
        let max_token_length: i32 = read_i32(bytes, 0);
        if max_token_length < 0 {
            let mut msg = String::new();
            msg.append("negative max_token_length (");
            push_signed(&mut msg, max_token_length);
            msg.append(")");
            proof {
                assert(msg@ =~= "negative max_token_length ("@ + signed_decimal(
                    max_token_length as int,
                ) + ")"@);
            }
            return Err(HostError::Tokenizer(msg));
        }
        let ghost n = vocab_size as nat;
        let ghost whole = parsed_entries(bytes@, 4, 0, n);
        let mut tokens: Vec<TokenEntry> = Vec::new();
        let mut pos: usize = 4;
        let mut i: usize = 0;
        proof {
            assert(entries(tokens@) =~= Seq::empty());
            match whole {
                Ok((rest, stop)) => {
                    assert(entries(tokens@) + rest =~= rest);
                },
                Err(_) => {},
            }
        }
        while i < vocab_size
            invariant
                i <= vocab_size,
                n == vocab_size,
                len == bytes@.len(),
                4 <= pos <= len,
                len >= 4,
                max_token_length >= 0,
                max_token_length == le_i32(bytes@, 0),
                whole == parsed_entries(bytes@, 4, 0, n),
                whole == (match parsed_entries(bytes@, pos as int, i as nat, n) {
                    Ok((rest, stop)) => Ok::<(Seq<(u32, Seq<u8>)>, int), Seq<char>>(
                        (entries(tokens@) + rest, stop),
                    ),
                    Err(e) => Err(e),
                }),
            decreases vocab_size - i,
        {
            if len - pos < 4 {
                return Err(truncated(numbered("score for token ", i).as_str(), 4, len - pos));
            }
            let score: u32 = read_u32(bytes, pos);
            if len - pos < 8 {
                return Err(truncated(numbered("length of token ", i).as_str(), 4, len - pos - 4));
            }
            let size: i32 = read_i32(bytes, pos + 4);
            if size < 0 {
                let mut msg = numbered("token ", i);
                msg.append(" has negative length ");
                push_signed(&mut msg, size);
                proof {
                    assert(msg@ =~= "token "@ + decimal(i as nat) + " has negative length "@
                        + signed_decimal(size as int));
                }
                return Err(HostError::Tokenizer(msg));
            }
            let size: usize = size as usize;
            if len - pos - 8 < size {
                return Err(
                    truncated(numbered("bytes of token ", i).as_str(), size, len - pos - 8),
                );
            }
            let end: usize = pos + 8 + size;
            let piece = copy_bytes(bytes, pos + 8, end);
            let entry = TokenEntry { score, bytes: piece };
            let ghost before = entries(tokens@);
            tokens.push(entry);
            proof {
                assert(entries(tokens@) =~= before + seq![entry@]);
                match parsed_entries(bytes@, end as int, i as nat + 1, n) {
                    Ok((rest, stop)) => {
                        assert(before + (seq![entry@] + rest) =~= entries(tokens@) + rest);
                    },
                    Err(_) => {},
                }
            }
            pos = end;
            i = i + 1;
        }
        proof {
            assert(entries(tokens@) + Seq::empty() =~= entries(tokens@));
        }
        if pos != len {
            let mut msg = String::new();
            msg.append("trailing data: ");
            push_decimal(&mut msg, (len - pos) as u64);
            msg.append(" bytes remain after ");
            push_decimal(&mut msg, vocab_size as u64);
            msg.append(" tokens");
            proof {
                assert(msg@ =~= "trailing data: "@ + decimal((len - pos) as nat)
                    + " bytes remain after "@ + decimal(n) + " tokens"@);
            }
            return Err(HostError::Tokenizer(msg));
        }
        Ok(Vocab { max_token_length: max_token_length as usize, tokens })
    }

    /// The bytes of `token` behind `prev_token`: a byte-fallback token is the byte it
    /// stands for, and a token right behind the opening one loses a leading space.
    pub fn decode(&self, prev_token: usize, token: usize) -> (r: Vec<u8>)
        requires
            token < self.tokens@.len(),
        ensures
            r@ == decoded(self.tokens@[token as int].bytes@, prev_token as int),
    {
        let entry = &self.tokens[token];
        if let Some(b) = entry.byte_fallback_value() {
            let mut r: Vec<u8> = Vec::new();
            r.push(b);
            proof {
                assert(r@ =~= seq![b]);
            }
            return r;
        }
        let piece = entry.bytes.as_slice();
        let n: usize = piece.len();
        if prev_token == BOS_ID && n > 0 && piece[0] == 0x20 {
            copy_bytes(piece, 1, n)
        } else {
            let r = copy_bytes(piece, 0, n);
            proof {
                assert(piece@.subrange(0, n as int) =~= piece@);
            }
            r
        }
    }
}

/// The bytes that a piece decodes to behind token `prev`.
pub open spec fn decoded(piece: Seq<u8>, prev: int) -> Seq<u8> {
    match byte_value(piece) {
        Some(b) => seq![b as u8],
        None => if prev == BOS_ID && piece.len() > 0 && piece[0] == 0x20 {
            piece.subrange(1, piece.len() as int)
        } else {
            piece
        },
    }
}

} // verus!

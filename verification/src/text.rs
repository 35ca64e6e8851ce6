//! Text: comparing, decimal numbers, and padding.

use vstd::arithmetic::overflow::CheckedU64;
use vstd::prelude::*;

verus! {

/// `String::push` appends one character.
pub assume_specification[ String::push ](s: &mut String, c: char)
    ensures
        final(s)@ == old(s)@.push(c),
;

/// `==` on string slices (`str`'s `PartialEq`): the two hold the same characters.
#[verifier::external_body]
pub(crate) fn str_eq(a: &str, b: &str) -> (r: bool)
    ensures
        r == (a@ == b@),
{
    a == b
}

/// The decimal digit `d` as a character.
pub open spec fn digit_char(d: int) -> char {
    (48 + d) as char
}

/// A number in decimal, without leading zeros.
pub open spec fn decimal(n: nat) -> Seq<char>
    decreases n,
{
    if n < 10 {
        seq![digit_char(n as int)]
    } else {
        decimal(n / 10).push(digit_char(n as int % 10))
    }
}

/// A signed number in decimal.
pub open spec fn signed_decimal(n: int) -> Seq<char> {
    if n < 0 {
        seq!['-'] + decimal((-n) as nat)
    } else {
        decimal(n as nat)
    }
}

/// Append `n` in decimal.
pub fn push_decimal(out: &mut String, n: u64)
    ensures
        final(out)@ == old(out)@ + decimal(n as nat),
    decreases n,
{
    if n >= 10 {
        push_decimal(out, n / 10);
    }
    let d: u8 = (n % 10) as u8;
    out.push((48 + d) as char);
    proof {
        assert(((48 + d) as u8) as char == digit_char(n as int % 10));
        assert(out@ =~= old(out)@ + decimal(n as nat));
    }
}

/// A copy of a string slice.
pub fn owned(s: &str) -> (r: String)
    ensures
        r@ == s@,
{
    let mut out = String::new();
    out.append(s);
    proof {
        assert(out@ =~= s@);
    }
    out
}

/// The characters of `s`, as a vector.
pub fn chars_of(s: &str) -> (r: Vec<char>)
    ensures
        r@ == s@,
{
    let mut r: Vec<char> = Vec::new();
    for c in it: s.chars()
        invariant
            it.seq() == s@,
            r@ == s@.take(it.index() as int),
    {
        r.push(c);
    }
    r
}

/// Append the characters of `v` from `i` up to `j`.
pub fn push_chars(out: &mut String, v: &[char], i: usize, j: usize)
    requires
        i <= j <= v@.len(),
    ensures
        final(out)@ == old(out)@ + v@.subrange(i as int, j as int),
{
    let mut k: usize = i;
    while k < j
        invariant
            i <= k <= j <= v@.len(),
            out@ == old(out)@ + v@.subrange(i as int, k as int),
        decreases j - k,
    {
        out.push(v[k]);
        proof {
            assert(out@ =~= old(out)@ + v@.subrange(i as int, k + 1));
        }
        k = k + 1;
    }
}

/// A number below a thousand as three digits.
pub open spec fn three_digits(n: int) -> Seq<char> {
    seq![digit_char(n / 100 % 10), digit_char(n / 10 % 10), digit_char(n % 10)]
}

/// A number in decimal, with a comma between groups of three digits from the right.
pub open spec fn with_commas(n: nat) -> Seq<char>
    decreases n,
{
    if n < 1000 {
        decimal(n)
    } else {
        with_commas(n / 1000) + seq![','] + three_digits(n as int % 1000)
    }
}

/// `thousands::Separable::separate_with_commas` on an unsigned integer: its decimal digits
/// with a comma after every third digit from the right.
#[verifier::external_body]
pub(crate) fn separate_with_commas(n: usize) -> (r: String)
    ensures
        r@ == with_commas(n as nat),
{
    thousands::Separable::separate_with_commas(&n)
}

/// What `humansize::format_size` makes of a size in bytes under its binary options.
pub uninterp spec fn human_size(n: nat) -> Seq<char>;

/// `humansize::format_size` with the `BINARY` options: the size in the largest fitting
/// binary unit, with two decimal places where it is not whole. It depends on the size alone;
/// a size under one kibibyte is shown in bytes.
#[verifier::external_body]
pub(crate) fn format_size(n: usize) -> (r: String)
    ensures
        r@ == human_size(n as nat),
        n < 1024 ==> r@ == decimal(n as nat) + " B"@,
{
    humansize::format_size(n, humansize::BINARY)
}

/// `k` spaces.
pub open spec fn spaces(k: nat) -> Seq<char> {
    Seq::new(k, |i: int| ' ')
}

/// Text aligned to the right in a column of `width` characters.
pub open spec fn right_aligned(s: Seq<char>, width: nat) -> Seq<char> {
    if s.len() >= width {
        s
    } else {
        spaces((width - s.len()) as nat) + s
    }
}

/// Append text aligned to the right in a column of `width` characters.
pub fn push_right_aligned(out: &mut String, s: &str, width: usize)
    ensures
        final(out)@ == old(out)@ + right_aligned(s@, width as nat),
{
    let len: usize = s.unicode_len();
    let mut k: usize = len;
    proof {
        assert(spaces(0) =~= Seq::<char>::empty());
        assert(old(out)@ + spaces(0) =~= old(out)@);
    }
    while k < width
        invariant
            len == s@.len(),
            len <= k,
            len < width ==> k <= width,
            len >= width ==> k == len,
            out@ == old(out)@ + spaces((k - len) as nat),
        decreases width - k,
    {
        out.push(' ');
        proof {
            assert(out@ =~= old(out)@ + spaces((k + 1 - len) as nat));
        }
        k = k + 1;
    }
    out.append(s);
    proof {
        assert(out@ =~= old(out)@ + right_aligned(s@, width as nat));
    }
}

/// Whether `s` begins with `prefix`.
pub open spec fn begins_with(s: Seq<char>, prefix: Seq<char>) -> bool {
    prefix.len() <= s.len() && s.subrange(0, prefix.len() as int) == prefix
}

/// What follows `prefix` in `s`, if `s` begins with it.
pub fn strip_prefix(s: &str, prefix: &str) -> (r: Option<String>)
    ensures
        match r {
            Some(rest) => begins_with(s@, prefix@) && rest@ == s@.skip(prefix@.len() as int),
            None => !begins_with(s@, prefix@),
        },
{
    let chars = chars_of(s);
    let start = chars_of(prefix);
    if start.len() > chars.len() {
        return None;
    }
    let mut i: usize = 0;
    while i < start.len()
        invariant
            i <= start@.len() <= chars@.len(),
            chars@ == s@,
            start@ == prefix@,
            chars@.subrange(0, i as int) == start@.subrange(0, i as int),
        decreases start@.len() - i,
    {
        if chars[i] != start[i] {
            proof {
                assert(s@.subrange(0, prefix@.len() as int)[i as int] != prefix@[i as int]);
            }
            return None;
        }
        proof {
            assert(chars@.subrange(0, i + 1) =~= chars@.subrange(0, i as int).push(
                chars@[i as int],
            ));
            assert(start@.subrange(0, i + 1) =~= start@.subrange(0, i as int).push(
                start@[i as int],
            ));
        }
        i = i + 1;
    }
    proof {
        assert(start@.subrange(0, start@.len() as int) =~= prefix@);
    }
    let mut rest = String::new();
    push_chars(&mut rest, chars.as_slice(), start.len(), chars.len());
    proof {
        assert(rest@ =~= s@.skip(prefix@.len() as int));
    }
    Some(rest)
}

/// Whether a character is a decimal digit.
pub open spec fn is_digit(c: char) -> bool {
    '0' <= c <= '9'
}

/// The value of decimal digits.
pub open spec fn digits_value(s: Seq<char>) -> nat
    decreases s.len(),
{
    if s.len() == 0 {
        0
    } else {
        (10 * digits_value(s.drop_last()) + (s.last() as int - 48)) as nat
    }
}

/// Text without one leading plus sign.
pub open spec fn without_plus(s: Seq<char>) -> Seq<char> {
    if s.len() > 0 && s[0] == '+' {
        s.skip(1)
    } else {
        s
    }
}

/// Whether text is at least one digit and nothing else.
pub open spec fn all_digits(s: Seq<char>) -> bool {
    s.len() > 0 && forall|i: int| 0 <= i < s.len() ==> is_digit(#[trigger] s[i])
}

/// The value of an unsigned number: an optional plus sign, then digits.
pub open spec fn number_value(s: Seq<char>) -> Option<nat> {
    if all_digits(without_plus(s)) {
        Some(digits_value(without_plus(s)))
    } else {
        None
    }
}

/// Read an unsigned number of at most 64 bits.
pub fn parse_u64(s: &str) -> (r: Option<u64>)
    ensures
        r == match number_value(s@) {
            Some(v) => if v <= u64::MAX {
                Some(v as u64)
            } else {
                None
            },
            None => None::<u64>,
        },
{
    let chars = chars_of(s);
    let start: usize = if chars.len() > 0 && chars[0] == '+' {
        1
    } else {
        0
    };
    let ghost digits = without_plus(s@);
    proof {
        assert(digits =~= s@.skip(start as int));
    }
    if start == chars.len() {
        return None;
    }
    let mut value = CheckedU64::new(0);
    let mut i: usize = start;
    while i < chars.len()
        invariant
            start <= i <= chars@.len(),
            chars@ == s@,
            digits == s@.skip(start as int),
            digits == without_plus(s@),
            forall|j: int| 0 <= j < i - start ==> is_digit(#[trigger] digits[j]),
            value@ == digits_value(digits.take(i - start)),
        decreases chars@.len() - i,
    {
        let c: char = chars[i];
        proof {
            assert(digits[i - start] == c);
        }
        if !('0' <= c && c <= '9') {
            proof {
                assert(!is_digit(digits[i - start]));
            }
            return None;
        }
        value = value.mul_value(10).add_value((c as u32 - 48) as u64);
        proof {
            assert(digits.take(i + 1 - start).drop_last() =~= digits.take(i - start));
        }
        i = i + 1;
    }
    proof {
        assert(digits.take(i - start) =~= digits);
    }
    value.to_option()
}

/// Read an unsigned number that fits a `usize`.
pub fn parse_usize(s: &str) -> (r: Option<usize>)
    ensures
        r == match number_value(s@) {
            Some(v) => if v <= usize::MAX {
                Some(v as usize)
            } else {
                None
            },
            None => None::<usize>,
        },
{
    match parse_u64(s) {
        Some(v) => if v <= usize::MAX as u64 {
            Some(v as usize)
        } else {
            None
        },
        None => None,
    }
}

/// Whether a character is white space in the sense of Unicode.
pub open spec fn is_white(c: char) -> bool {
    let v = c as u32;
    (0x09 <= v <= 0x0d) || v == 0x20 || v == 0x85 || v == 0xa0 || v == 0x1680 || (0x2000 <= v
        <= 0x200a) || v == 0x2028 || v == 0x2029 || v == 0x202f || v == 0x205f || v == 0x3000
}

/// Whether a character is white space in the sense of Unicode.
pub fn white(c: char) -> (r: bool)
    ensures
        r == is_white(c),
{
    let v: u32 = c as u32;
    (0x09 <= v && v <= 0x0d) || v == 0x20 || v == 0x85 || v == 0xa0 || v == 0x1680 || (0x2000 <= v
        && v <= 0x200a) || v == 0x2028 || v == 0x2029 || v == 0x202f || v == 0x205f || v == 0x3000
}

/// Text without white space at its ends.
pub open spec fn trimmed(s: Seq<char>) -> Seq<char>
    decreases s.len(),
{
    if s.len() > 0 && is_white(s[0]) {
        trimmed(s.skip(1))
    } else if s.len() > 0 && is_white(s.last()) {
        trimmed(s.drop_last())
    } else {
        s
    }
}

/// Cut white space off both ends.
pub fn trim(s: &str) -> (r: String)
    ensures
        r@ == trimmed(s@),
{
    let chars = chars_of(s);
    let mut i: usize = 0;
    let mut j: usize = chars.len();
    proof {
        assert(chars@.subrange(0, j as int) =~= chars@);
    }
    while i < j && white(chars[i])
        invariant
            i <= j,
            j == chars@.len(),
            trimmed(chars@) == trimmed(chars@.subrange(i as int, j as int)),
        decreases j - i,
    {
        proof {
            let cut = chars@.subrange(i as int, j as int);
            assert(cut.skip(1) =~= chars@.subrange(i + 1, j as int));
        }
        i = i + 1;
    }
    while i < j && white(chars[j - 1])
        invariant
            i <= j <= chars@.len(),
            i < j ==> !is_white(chars@[i as int]),
            trimmed(chars@) == trimmed(chars@.subrange(i as int, j as int)),
        decreases j - i,
    {
        proof {
            let cut = chars@.subrange(i as int, j as int);
            assert(cut.drop_last() =~= chars@.subrange(i as int, j - 1));
        }
        j = j - 1;
    }
    let mut out = String::new();
    push_chars(&mut out, chars.as_slice(), i, j);
    proof {
        assert(out@ =~= chars@.subrange(i as int, j as int));
    }
    out
}

} // verus!

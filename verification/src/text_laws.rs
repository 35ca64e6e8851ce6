//! What numbers look like as text, and what reading, trimming and aligning keep.

use vstd::prelude::*;

use crate::text::{
    all_digits, decimal, digits_value, is_digit, is_white, number_value, right_aligned,
    signed_decimal, three_digits, trimmed, with_commas, without_plus,
};

verus! {

/// A number written in decimal is all digits, and reads as the number.
proof fn decimals_are_digits(n: nat)
    ensures
        decimal(n).len() > 0,
        all_digits(decimal(n)),
        digits_value(decimal(n)) == n,
    decreases n,
{
    if n < 10 {
        let s = decimal(n);
        assert(s.drop_last() =~= Seq::<char>::empty());
        assert(digits_value(Seq::<char>::empty()) == 0);
        assert(s.last() as int == 48 + n);
    } else {
        decimals_are_digits(n / 10);
        let s = decimal(n);
        let before = decimal(n / 10);
        assert(s.drop_last() =~= before);
        assert(s.last() as int == 48 + n % 10);
        assert forall|i: int| 0 <= i < s.len() implies is_digit(#[trigger] s[i]) by {
            if i < before.len() {
                assert(s[i] == before[i]);
            }
        }
    }
}

/// What is written in decimal is read back, also behind a plus sign.
pub proof fn decimals_are_read_back(n: nat)
    ensures
        number_value(decimal(n)) == Some(n),
        number_value(seq!['+'] + decimal(n)) == Some(n),
{
    decimals_are_digits(n);
    let s = decimal(n);
    assert(is_digit(s[0]));
    assert(without_plus(s) == s);
    assert((seq!['+'] + s).skip(1) =~= s);
}

/// A decimal has no leading zero, unless it is zero.
pub proof fn decimals_have_no_leading_zero(n: nat)
    ensures
        n > 0 ==> decimal(n)[0] != '0',
        decimal(0) == seq!['0'],
    decreases n,
{
    if n >= 10 {
        decimals_have_no_leading_zero(n / 10);
        decimals_are_digits(n / 10);
        assert(decimal(n)[0] == decimal(n / 10)[0]);
    }
}

/// The sign of a negative number stands in front of its magnitude.
pub proof fn signs_stand_in_front(n: int)
    ensures
        n < 0 ==> signed_decimal(n)[0] == '-' && number_value(signed_decimal(n).skip(1)) == Some(
            (-n) as nat,
        ),
        n >= 0 ==> number_value(signed_decimal(n)) == Some(n as nat),
{
    if n < 0 {
        decimals_are_read_back((-n) as nat);
        assert(signed_decimal(n).skip(1) =~= decimal((-n) as nat));
    } else {
        decimals_are_read_back(n as nat);
    }
}

/// Text without its commas.
pub open spec fn without_commas(s: Seq<char>) -> Seq<char>
    decreases s.len(),
{
    if s.len() == 0 {
        Seq::empty()
    } else if s.last() == ',' {
        without_commas(s.drop_last())
    } else {
        without_commas(s.drop_last()).push(s.last())
    }
}

proof fn digits_have_no_commas(s: Seq<char>)
    requires
        forall|i: int| 0 <= i < s.len() ==> is_digit(#[trigger] s[i]),
    ensures
        without_commas(s) == s,
    decreases s.len(),
{
    if s.len() > 0 {
        assert(is_digit(s[s.len() - 1]));
        assert forall|i: int| 0 <= i < s.drop_last().len() implies is_digit(
            #[trigger] s.drop_last()[i],
        ) by {
            assert(s.drop_last()[i] == s[i]);
        }
        digits_have_no_commas(s.drop_last());
        assert(s.drop_last().push(s.last()) =~= s);
    } else {
        assert(s =~= Seq::<char>::empty());
    }
}

/// The last three digits of a number of more than three.
proof fn decimal_of_thousands(n: nat)
    requires
        n >= 1000,
    ensures
        decimal(n) == decimal(n / 1000) + three_digits(n as int % 1000),
{
    assert(n / 10 / 10 / 10 == n / 1000);
    assert(n / 10 >= 10 && n / 10 / 10 >= 10);
    assert(n / 10 % 10 == n % 1000 / 10 % 10);
    assert(n / 10 / 10 % 10 == n % 1000 / 100 % 10);
    assert(decimal(n) == decimal(n / 10).push(crate::text::digit_char(n as int % 10)));
    assert(decimal(n / 10) == decimal(n / 10 / 10).push(
        crate::text::digit_char((n / 10) as int % 10),
    ));
    assert(decimal(n / 10 / 10) == decimal(n / 10 / 10 / 10).push(
        crate::text::digit_char((n / 10 / 10) as int % 10),
    ));
    assert(n as int % 1000 % 10 == n as int % 10);
    assert(decimal(n) =~= decimal(n / 1000) + three_digits(n as int % 1000));
}

/// Commas set off every three digits from the right, and nothing else is changed: without them the
/// number stands there, and a place is a comma exactly where three more than a multiple of four
/// places follow it.
pub proof fn commas_set_off_thousands(n: nat)
    ensures
        without_commas(with_commas(n)) == decimal(n),
        forall|k: int|
            0 <= k < with_commas(n).len() ==> ((#[trigger] with_commas(n)[k] == ',') <==> (
            with_commas(n).len() - 1 - k) % 4 == 3),
    decreases n,
{
    decimals_are_digits(n);
    if n < 1000 {
        digits_have_no_commas(decimal(n));
        reveal_with_fuel(decimal, 4);
        assert(decimal(n).len() <= 3);
        assert forall|k: int| 0 <= k < with_commas(n).len() implies ((#[trigger] with_commas(n)[k]
            == ',') <==> (with_commas(n).len() - 1 - k) % 4 == 3) by {
            assert(is_digit(decimal(n)[k]));
        }
    } else {
        commas_set_off_thousands(n / 1000);
        decimal_of_thousands(n);
        let head = with_commas(n / 1000);
        let tail = three_digits(n as int % 1000);
        let s = with_commas(n);
        assert(s == head + seq![','] + tail);
        let (d0, d1, d2) = (tail[0], tail[1], tail[2]);
        assert(d0 != ',' && d1 != ',' && d2 != ',');
        let s2 = s.drop_last();
        let s1 = s2.drop_last();
        let s0 = s1.drop_last();
        assert(s.last() == d2 && s2.last() == d1 && s1.last() == d0 && s0.last() == ',');
        assert(s0.drop_last() =~= head);
        assert(without_commas(s0) == without_commas(head));
        assert(without_commas(s1) == without_commas(s0).push(d0));
        assert(without_commas(s2) == without_commas(s1).push(d1));
        assert(without_commas(s) == without_commas(s2).push(d2));
        assert(without_commas(s) =~= decimal(n));
        assert forall|k: int| 0 <= k < s.len() implies ((#[trigger] s[k] == ',') <==> (s.len() - 1
            - k) % 4 == 3) by {
            if k < head.len() {
                assert(s[k] == head[k]);
                assert((head[k] == ',') <==> (head.len() - 1 - k) % 4 == 3);
            } else if k > head.len() {
                assert(s[k] == tail[k - head.len() - 1]);
            }
        }
    }
}

/// Whether `t` stands in `s` from place `k` on.
pub open spec fn stands_at(s: Seq<char>, t: Seq<char>, k: int) -> bool {
    &&& 0 <= k
    &&& k + t.len() <= s.len()
    &&& s.subrange(k, k + t.len()) == t
}

/// Whether all characters from place `from` to place `to` are white space.
#[verifier::opaque]
pub open spec fn white_run(s: Seq<char>, from: int, to: int) -> bool {
    forall|i: int| from <= i < to ==> is_white(#[trigger] s[i])
}

proof fn trim_place(s: Seq<char>) -> (k: int)
    ensures
        stands_at(s, trimmed(s), k),
        white_run(s, 0, k),
        white_run(s, k + trimmed(s).len(), s.len() as int),
    decreases s.len(),
{
    if s.len() > 0 && is_white(s[0]) {
        let t = s.skip(1);
        let k = trim_place(t);
        let u = trimmed(t);
        assert(s.subrange(k + 1, k + 1 + u.len()) =~= t.subrange(k, k + u.len()));
        assert(white_run(s, 0, k + 1) && white_run(s, k + 1 + u.len(), s.len() as int)) by {
            reveal(white_run);
            assert forall|i: int| 0 <= i < k + 1 implies is_white(#[trigger] s[i]) by {
                if i > 0 {
                    assert(is_white(t[i - 1]));
                }
            }
            assert forall|i: int| k + 1 + u.len() <= i < s.len() implies is_white(
                #[trigger] s[i],
            ) by {
                assert(is_white(t[i - 1]));
            }
        }
        k + 1
    } else if s.len() > 0 && is_white(s.last()) {
        let t = s.drop_last();
        let k = trim_place(t);
        let u = trimmed(t);
        assert(s.subrange(k, k + u.len()) =~= t.subrange(k, k + u.len()));
        assert(white_run(s, 0, k) && white_run(s, k + u.len(), s.len() as int)) by {
            reveal(white_run);
            assert forall|i: int| 0 <= i < k implies is_white(#[trigger] s[i]) by {
                assert(is_white(t[i]));
            }
            assert forall|i: int| k + u.len() <= i < s.len() implies is_white(#[trigger] s[i]) by {
                if i < s.len() - 1 {
                    assert(is_white(t[i]));
                }
            }
        }
        k
    } else {
        assert(s.subrange(0int, 0int + s.len()) =~= s);
        assert(white_run(s, 0, 0) && white_run(s, s.len() as int, s.len() as int)) by {
            reveal(white_run);
        }
        0
    }
}

proof fn trimmed_ends(s: Seq<char>)
    ensures
        trimmed(s).len() > 0 ==> !is_white(trimmed(s)[0]) && !is_white(trimmed(s).last()),
    decreases s.len(),
{
    if s.len() > 0 && is_white(s[0]) {
        trimmed_ends(s.skip(1));
    } else if s.len() > 0 && is_white(s.last()) {
        trimmed_ends(s.drop_last());
    }
}

/// Trimming takes white space off both ends and nothing else: what is left neither begins nor ends
/// with it, and it stands in the text with only white space around it.
pub proof fn trimming_takes_the_ends_off(s: Seq<char>)
    ensures
        trimmed(s).len() > 0 ==> !is_white(trimmed(s)[0]) && !is_white(trimmed(s).last()),
        exists|k: int| #[trigger]
            stands_at(s, trimmed(s), k) && white_run(s, 0, k) && white_run(
                s,
                k + trimmed(s).len(),
                s.len() as int,
            ),
{
    trimmed_ends(s);
    let k = trim_place(s);
    assert(stands_at(s, trimmed(s), k));
}

/// Aligning to the right puts spaces in front, as many as are missing.
pub proof fn alignment_puts_spaces_in_front(s: Seq<char>, width: nat)
    ensures
        ({
            let r = right_aligned(s, width);
            let missing = if s.len() < width {
                width - s.len()
            } else {
                0
            };
            &&& r.len() == s.len() + missing
            &&& r.skip(missing) == s
            &&& forall|i: int| 0 <= i < missing ==> #[trigger] r[i] == ' '
        }),
{
    let missing = if s.len() < width {
        width - s.len()
    } else {
        0
    };
    assert(right_aligned(s, width).skip(missing) =~= s);
}

} // verus!

//! Sizes and offsets of buffers that lie back to back.

use vstd::arithmetic::overflow::CheckedUsize;
use vstd::prelude::*;

use crate::error::EngineError;
#[allow(unused_imports)]
use vstd::layout::size_of;

verus! {

/// Where part `i` begins when parts of the given lengths lie back to back.
pub open spec fn offset(lens: Seq<nat>, i: int) -> nat
    decreases i,
{
    if i <= 0 {
        0
    } else {
        offset(lens, i - 1) + lens[i - 1]
    }
}

/// The length of all parts together.
pub open spec fn total(lens: Seq<nat>) -> nat {
    offset(lens, lens.len() as int)
}

/// Part `i` of `s`, when `s` holds parts of the given lengths back to back.
pub open spec fn part<T>(s: Seq<T>, lens: Seq<nat>, i: int) -> Seq<T> {
    s.subrange(offset(lens, i) as int, offset(lens, i + 1) as int)
}

/// The parts laid back to back, up to part `n`.
pub open spec fn joined<T>(parts: Seq<Seq<T>>, n: int) -> Seq<T>
    decreases n,
{
    if n <= 0 {
        Seq::empty()
    } else {
        joined(parts, n - 1) + parts[n - 1]
    }
}

/// The lengths of the parts.
pub open spec fn lens_of<T>(parts: Seq<Seq<T>>) -> Seq<nat> {
    Seq::new(parts.len(), |i: int| parts[i].len())
}

/// A size that may exceed the machine's range, cut off at the largest `usize`.
pub open spec fn saturated(n: int) -> usize {
    if n <= usize::MAX {
        n as usize
    } else {
        usize::MAX
    }
}

/// Offsets only grow.
pub proof fn offset_grows(lens: Seq<nat>, i: int, j: int)
    requires
        i <= j,
    ensures
        offset(lens, i) <= offset(lens, j),
    decreases j - i,
{
    if i < j {
        offset_grows(lens, i, j - 1);
    }
}

/// Offsets depend on the lengths before them only.
pub proof fn offset_depends_on_prefix(a: Seq<nat>, b: Seq<nat>, i: int)
    requires
        forall|k: int| 0 <= k < i ==> a[k] == b[k],
    ensures
        offset(a, i) == offset(b, i),
    decreases i,
{
    if i > 0 {
        offset_depends_on_prefix(a, b, i - 1);
    }
}

/// Laying parts back to back gives a sequence as long as their lengths' total.
pub proof fn joined_len<T>(parts: Seq<Seq<T>>, n: int)
    requires
        n <= parts.len(),
    ensures
        joined(parts, n).len() == offset(lens_of(parts), n),
    decreases n,
{
    if n > 0 {
        joined_len(parts, n - 1);
    }
}

/// What was laid back to back is found again, part by part.
pub proof fn part_of_joined<T>(parts: Seq<Seq<T>>, n: int, i: int)
    requires
        0 <= i < n <= parts.len(),
    ensures
        part(joined(parts, n), lens_of(parts), i) == parts[i],
        joined(parts, n).len() == offset(lens_of(parts), n),
        offset(lens_of(parts), i + 1) <= offset(lens_of(parts), n),
    decreases n,
{
    joined_len(parts, n);
    joined_len(parts, n - 1);
    offset_grows(lens_of(parts), i + 1, n);
    if i < n - 1 {
        part_of_joined(parts, n - 1, i);
        assert(part(joined(parts, n), lens_of(parts), i) =~= part(
            joined(parts, n - 1),
            lens_of(parts),
            i,
        ));
    } else {
        assert(part(joined(parts, n), lens_of(parts), i) =~= parts[i]);
    }
}

/// Parts of two runs laid back to back are the one run's parts, then the other's.
pub proof fn joined_concat<T>(a: Seq<Seq<T>>, b: Seq<Seq<T>>, k: int)
    requires
        0 <= k <= b.len(),
    ensures
        joined(a + b, a.len() + k) == joined(a, a.len() as int) + joined(b, k),
    decreases k,
{
    if k > 0 {
        joined_concat(a, b, k - 1);
        assert((a + b)[a.len() + k - 1] == b[k - 1]);
        assert(joined(a + b, a.len() + k) =~= joined(a, a.len() as int) + joined(b, k));
    } else {
        joined_prefix(a + b, a, a.len() as int);
        assert(joined(a, a.len() as int) + joined(b, 0) =~= joined(a, a.len() as int));
    }
}

/// What is laid out depends on the parts before only.
pub proof fn joined_prefix<T>(a: Seq<Seq<T>>, b: Seq<Seq<T>>, k: int)
    requires
        forall|i: int| 0 <= i < k ==> a[i] == b[i],
    ensures
        joined(a, k) == joined(b, k),
    decreases k,
{
    if k > 0 {
        joined_prefix(a, b, k - 1);
    }
}

/// The true values of checked lengths.
pub open spec fn true_lens(lens: Seq<CheckedUsize>) -> Seq<nat> {
    lens.map_values(|n: CheckedUsize| n@)
}

/// `a * b`, kept exact beyond the machine's range.
pub fn product(a: usize, b: usize) -> (r: CheckedUsize)
    ensures
        r@ == a as nat * b as nat,
{
    CheckedUsize::new(a).mul_value(b)
}

/// `a * b * c`, kept exact beyond the machine's range.
pub fn product3(a: usize, b: usize, c: usize) -> (r: CheckedUsize)
    ensures
        r@ == a as nat * b as nat * c as nat,
{
    CheckedUsize::new(a).mul_value(b).mul_value(c)
}

/// A checked size, cut off at the largest `usize`.
pub fn saturate(n: &CheckedUsize) -> (r: usize)
    ensures
        r == saturated(n@ as int),
{
    match n.to_option() {
        Some(v) => v,
        None => usize::MAX,
    }
}

/// The total of checked lengths, kept exact beyond the machine's range.
pub fn total_checked(lens: &[CheckedUsize]) -> (r: CheckedUsize)
    ensures
        r@ == total(true_lens(lens@)),
{
    let mut sum = CheckedUsize::new(0);
    let mut i: usize = 0;
    while i < lens.len()
        invariant
            i <= lens@.len(),
            sum@ == offset(true_lens(lens@), i as int),
        decreases lens@.len() - i,
    {
        sum = sum.add_checked(&lens[i]);
        i = i + 1;
    }
    sum
}

/// Take the next `n` elements of `s` behind the cursor `at`.
pub fn cut<'a, T>(s: &'a [T], at: &mut usize, n: usize) -> (r: &'a [T])
    requires
        *old(at) + n <= s.len(),
    ensures
        *final(at) == *old(at) + n,
        r@ == s@.subrange(*old(at) as int, *old(at) + n),
{
    let start: usize = *at;
    *at = start + n;
    vstd::slice::slice_subrange(s, start, start + n)
}

/// Take part `i` of `s`, behind a cursor that stands where the part begins.
pub fn cut_part<'a, T>(s: &'a [T], lens: &[CheckedUsize], i: usize, at: &mut usize) -> (r: &'a [T])
    requires
        i < lens@.len(),
        *old(at) == offset(true_lens(lens@), i as int),
        total(true_lens(lens@)) <= s@.len(),
    ensures
        *final(at) == offset(true_lens(lens@), i + 1),
        r@ == part(s@, true_lens(lens@), i as int),
        r@.len() == true_lens(lens@)[i as int],
{
    proof {
        offset_grows(true_lens(lens@), i + 1, lens@.len() as int);
        assert(s.len() == s@.len());
    }
    cut(s, at, lens[i].unwrap())
}

/// The error for a weight region of `have` elements where `need` are due.
pub open spec fn short_region<T>(need: nat, have: nat) -> EngineError {
    EngineError::SizeMismatch {
        expected: saturated(need * size_of::<T>() as int),
        actual: saturated(have * size_of::<T>() as int),
    }
}

/// Whether the region of `have` elements holds the needed ones, or the error if not.
pub fn check_region<T>(need: &CheckedUsize, have: usize) -> (r: Result<(), EngineError>)
    ensures
        r == if have < need@ {
            Err::<(), EngineError>(short_region::<T>(need@, have as nat))
        } else {
            Ok(())
        },
{
    let enough: bool = match need.to_option() {
        Some(n) => n <= have,
        None => false,
    };
    if enough {
        Ok(())
    } else {
        let size: usize = core::mem::size_of::<T>();
        Err(
            EngineError::SizeMismatch {
                expected: saturate(&need.mul_value(size)),
                actual: saturate(&product(have, size)),
            },
        )
    }
}

/// Layer `l` of a tensor, `n` elements.
pub open spec fn window<T>(s: Seq<T>, l: int, n: int) -> Seq<T> {
    s.subrange(l * n, l * n + n)
}

/// A layer lies within its tensor.
pub proof fn window_bounds(layers: nat, l: int, n: nat)
    requires
        0 <= l < layers,
    ensures
        0 <= l * n,
        l * n + n <= layers * n,
        (l + 1) * n == l * n + n,
{
    assert(0 <= l * n && l * n + n <= layers * n && (l + 1) * n == l * n + n) by (nonlinear_arith)
        requires
            0 <= l < layers,
            n >= 0,
    ;
}

/// A sequence with `v` written over it at `at`.
pub open spec fn written<T>(s: Seq<T>, at: int, v: Seq<T>) -> Seq<T> {
    s.take(at) + v + s.skip(at + v.len())
}

/// Copy `src` over `dst` from `at` on.
pub(crate) fn copy_into(dst: &mut [u32], at: usize, src: &[u32])
    requires
        at + src@.len() <= old(dst)@.len(),
    ensures
        final(dst)@ == written(old(dst)@, at as int, src@),
{
    let ghost start = dst@;
    proof {
        assert(dst.len() == dst@.len());
    }
    let mut i: usize = 0;
    while i < src.len()
        invariant
            i <= src@.len(),
            dst@.len() == start.len(),
            at + src@.len() <= dst@.len(),
            dst@.len() <= usize::MAX,
            forall|k: int| 0 <= k < i ==> #[trigger] dst@[at + k] == src@[k],
            forall|k: int|
                (0 <= k < at || at + i <= k < dst@.len()) ==> #[trigger] dst@[k] == start[k],
        decreases src@.len() - i,
    {
        let v: u32 = src[i];
        dst[at + i] = v;
        i = i + 1;
    }
    proof {
        assert forall|k: int| 0 <= k < dst@.len() implies #[trigger] dst@[k] == written(
            start,
            at as int,
            src@,
        )[k] by {
            if at <= k < at + src@.len() {
                assert(dst@[at + (k - at)] == src@[k - at]);
            }
        }
        assert(dst@ =~= written(start, at as int, src@));
    }
}

} // verus!

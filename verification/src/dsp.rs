//! The magnitude spectrum of a real signal, from its packed transform.
//!
//! The transform takes [`FFT_LEN`] real samples to [`FFT_BINS`] complex bins. Bin zero
//! packs two real values, the constant term and the highest frequency, so its magnitude is
//! that of the two together.

use vstd::prelude::*;

use crate::scalar::{eval, Scalar};
#[allow(unused_imports)]
use crate::scalar::{is_arithmetic, plus, times, value};

verus! {

/// Samples of a window.
pub const FFT_LEN: usize = 512;

/// Bins of its spectrum.
pub const FFT_BINS: usize = 256;

/// The magnitude of a complex value.
pub open spec fn magnitude_of<A: Fn(Scalar) -> u32>(a: A, re: u32, im: u32) -> u32 {
    value(a, Scalar::Sqrt(plus(a, times(a, re, re), times(a, im, im))))
}

/// The magnitudes of complex bins, given by their real and imaginary parts.
pub fn magnitudes<A: Fn(Scalar) -> u32>(out: &mut [u32], re: &[u32], im: &[u32], a: &A)
    requires
        is_arithmetic(*a),
        old(out)@.len() == re@.len(),
        im@.len() == re@.len(),
    ensures
        final(out)@ == Seq::new(re@.len(), |k: int| magnitude_of(*a, re@[k], im@[k])),
{
    let n: usize = re.len();
    let mut k: usize = 0;
    while k < n
        invariant
            k <= n,
            n == re@.len(),
            n == im@.len(),
            n == out@.len(),
            is_arithmetic(*a),
            forall|m: int| 0 <= m < k ==> #[trigger] out@[m] == magnitude_of(*a, re@[m], im@[m]),
        decreases n - k,
    {
        let r2: u32 = eval(a, Scalar::Mul(re[k], re[k]));
        let i2: u32 = eval(a, Scalar::Mul(im[k], im[k]));
        let sum: u32 = eval(a, Scalar::Add(r2, i2));
        out[k] = eval(a, Scalar::Sqrt(sum));
        k = k + 1;
    }
    proof {
        assert(out@ =~= Seq::new(re@.len(), |k: int| magnitude_of(*a, re@[k], im@[k])));
    }
}

} // verus!

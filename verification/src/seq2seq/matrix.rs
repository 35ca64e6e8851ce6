//! Linear layers whose matrix is in full precision or quantized, and the norms between
//! them.

use vstd::prelude::*;

use crate::kernels::{add_bias, matmul, matmul_simd};
#[allow(unused_imports)]
use crate::kernels::{added, lane_product_sum, product_of};
use crate::math::Kernel;
use crate::q8::matmul_w8a8;
#[allow(unused_imports)]
use crate::q8::w8a8_product;
use crate::quant::{QuantScratch, QuantizedTensor};
use crate::scalar::Scalar;
#[allow(unused_imports)]
use crate::scalar::is_arithmetic;

verus! {

/// A matrix, one row per output.
#[derive(Debug, Clone, Copy)]
pub enum Matrix<'a> {
    /// Full precision.
    F32(&'a [u32]),
    /// Quantized.
    Q8(QuantizedTensor<'a, u32>),
}

/// A matrix as values.
pub enum MatrixView {
    /// Full precision.
    F32 {
        /// The values, row by row.
        values: Seq<u32>,
    },
    /// Quantized.
    Q8 {
        /// The bytes, row by row.
        data: Seq<i8>,
        /// The scales, group by group.
        scales: Seq<u32>,
        /// Bytes to a scale.
        group_size: nat,
    },
}

impl<'a> View for Matrix<'a> {
    type V = MatrixView;

    open spec fn view(&self) -> MatrixView {
        match self {
            Matrix::F32(w) => MatrixView::F32 { values: w@ },
            Matrix::Q8(t) => MatrixView::Q8 {
                data: t.data@,
                scales: t.scales@,
                group_size: t.group_size as nat,
            },
        }
    }
}

impl MatrixView {
    /// Whether the matrix has this shape, and its groups fit its rows.
    pub open spec fn shaped(self, d_in: nat, d_out: nat) -> bool {
        match self {
            MatrixView::F32 { values } => values.len() == d_out * d_in,
            MatrixView::Q8 { data, scales, group_size } => {
                &&& 0 < group_size < 0x2_0000
                &&& d_in % group_size == 0
                &&& data.len() == d_out * d_in
                &&& scales.len() == d_out * (d_in / group_size)
            },
        }
    }

    /// The matrix times a vector. A quantized matrix is multiplied with the quantized
    /// vector, whatever the kernel.
    pub open spec fn product<A: Fn(Scalar) -> u32>(
        self,
        a: A,
        kernel: Kernel,
        x: Seq<u32>,
        d_out: nat,
    ) -> Seq<u32> {
        let d_in = x.len() as int;
        match self {
            MatrixView::F32 { values } => match kernel {
                Kernel::Scalar => product_of(a, values, x, d_in, d_out),
                _ => Seq::new(d_out, |i: int| lane_product_sum(a, values, i * d_in, x, 0, d_in)),
            },
            MatrixView::Q8 { data, scales, group_size } => w8a8_product(
                a,
                data,
                scales,
                group_size as int,
                x,
                d_in,
                d_out,
            ),
        }
    }

    /// Whether a scratch of this room is enough to multiply with a vector of `d_in`.
    pub open spec fn room_enough(self, d_in: nat, room: int) -> bool {
        self is Q8 ==> d_in <= room
    }
}

/// The longest vector that a scratch can hold.
pub open spec fn room(qs: Option<QuantScratch<'_, u32>>) -> int {
    match qs {
        Some(s) => {
            let most = if s.xq@.len() < s.scales@.len() {
                s.xq@.len() as int
            } else {
                s.scales@.len() as int
            };
            if most < s.gsums@.len() {
                most
            } else {
                s.gsums@.len() as int
            }
        },
        None => -1,
    }
}

impl<'a> Matrix<'a> {
    /// Multiply the matrix with `x`.
    pub fn apply<A: Fn(Scalar) -> u32>(
        &self,
        out: &mut [u32],
        x: &[u32],
        kernel: Kernel,
        qs: &mut Option<QuantScratch<'_, u32>>,
        a: &A,
    )
        requires
            is_arithmetic(*a),
            self@.shaped(x@.len(), old(out)@.len()),
            self@.room_enough(x@.len(), room(*old(qs))),
        ensures
            final(out)@ == self@.product(*a, kernel, x@, old(out)@.len()),
            final(out)@.len() == old(out)@.len(),
            room(*final(qs)) == room(*old(qs)),
    {
        let d_in: usize = x.len();
        let d_out: usize = out.len();
        match self {
            Matrix::F32(w) => match kernel {
                Kernel::Scalar => matmul(out, x, w, d_in, d_out, a),
                _ => matmul_simd(out, x, w, d_in, d_out, a),
            },
            Matrix::Q8(t) => {
                proof {
                    assert(d_in as nat / t.group_size as nat <= d_in) by (nonlinear_arith)
                        requires
                            t.group_size > 0,
                    ;
                }
                if let Some(scratch) = qs {
                    matmul_w8a8(kernel, out, x, t, d_in, d_out, scratch, a);
                }
            },
        }
    }
}

/// A linear layer: a matrix and a bias.
#[derive(Debug, Clone, Copy)]
pub struct Linear<'a> {
    /// The matrix.
    pub m: Matrix<'a>,
    /// The bias.
    pub b: &'a [u32],
}

/// A linear layer as values.
pub struct LinearView {
    /// The matrix.
    pub m: MatrixView,
    /// The bias.
    pub b: Seq<u32>,
}

impl<'a> View for Linear<'a> {
    type V = LinearView;

    open spec fn view(&self) -> LinearView {
        LinearView { m: self.m@, b: self.b@ }
    }
}

impl LinearView {
    /// Whether the layer has this shape.
    pub open spec fn shaped(self, d_in: nat, d_out: nat) -> bool {
        self.m.shaped(d_in, d_out) && self.b.len() == d_out
    }

    /// What the layer makes of a vector.
    pub open spec fn made<A: Fn(Scalar) -> u32>(
        self,
        a: A,
        kernel: Kernel,
        x: Seq<u32>,
    ) -> Seq<u32> {
        added(a, self.m.product(a, kernel, x, self.b.len()), self.b)
    }
}

impl<'a> Linear<'a> {
    /// Apply the layer to `x`.
    pub fn apply<A: Fn(Scalar) -> u32>(
        &self,
        out: &mut [u32],
        x: &[u32],
        kernel: Kernel,
        qs: &mut Option<QuantScratch<'_, u32>>,
        a: &A,
    )
        requires
            is_arithmetic(*a),
            self@.shaped(x@.len(), old(out)@.len()),
            self@.m.room_enough(x@.len(), room(*old(qs))),
        ensures
            final(out)@ == self@.made(*a, kernel, x@),
            final(out)@.len() == old(out)@.len(),
            room(*final(qs)) == room(*old(qs)),
    {
        self.m.apply(out, x, kernel, qs, a);
        add_bias(out, self.b, a);
    }
}

/// Gains and biases of a norm.
#[derive(Debug, Clone, Copy)]
pub struct Norm<'a> {
    /// The gains.
    pub w: &'a [u32],
    /// The biases.
    pub b: &'a [u32],
}

/// Gains and biases of a norm as values.
pub struct NormView {
    /// The gains.
    pub w: Seq<u32>,
    /// The biases.
    pub b: Seq<u32>,
}

impl<'a> View for Norm<'a> {
    type V = NormView;

    open spec fn view(&self) -> NormView {
        NormView { w: self.w@, b: self.b@ }
    }
}

impl NormView {
    /// Whether the norm is one of vectors of this length.
    pub open spec fn shaped(self, d: nat) -> bool {
        self.w.len() == d && self.b.len() == d
    }
}

} // verus!

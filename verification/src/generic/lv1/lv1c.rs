//! The vector-vector kernels over complex scalars.
//!
//! Rotation coefficients and the results of `asum`, `dotc` and `nrm2` are
//! real; `dotu` and `dot` give a complex result.

use crate::builtins::{
    lemma_offset_in_span, lemma_offsets_distinct, strided_offset, Complex, Rank1,
};
use crate::generic::lv1::{copy, copy_spec, offsets_in, vector_fits, KernelError, LV1};
use vstd::prelude::*;

verus! {

/// The sum of the L1 norms `|re| + |im|` of the first `k` elements,
/// accumulated from zero in logical order.
pub open spec fn asum_spec<T: Rank1>(x: Seq<Complex<T>>, n: nat, incx: int, k: nat) -> T
    decreases k,
{
    if k == 0 {
        T::zero_spec()
    } else {
        asum_spec(x, n, incx, (k - 1) as nat).add_spec(
            x[strided_offset(n, incx, k - 1)].l1_norm_spec(),
        )
    }
}

/// The target buffer after `y[i] := alpha * x[i] + y[i]`, in complex
/// arithmetic, was done for the first `k` logical positions.
pub open spec fn axpy_spec<T: Rank1>(
    alpha: Complex<T>,
    x: Seq<Complex<T>>,
    incx: int,
    y: Seq<Complex<T>>,
    incy: int,
    n: nat,
    k: nat,
) -> Seq<Complex<T>>
    decreases k,
{
    if k == 0 {
        y
    } else {
        let prev = axpy_spec(alpha, x, incx, y, incy, n, (k - 1) as nat);
        let ox = strided_offset(n, incx, k - 1);
        let oy = strided_offset(n, incy, k - 1);
        prev.update(oy, alpha.mul_spec(x[ox]).add_spec(prev[oy]))
    }
}

/// The sum over the first `k` pairs of the bilinear form of `x[i]`, or of
/// its conjugate where `conj` is set, with `y[i]`, accumulated from zero.
pub open spec fn form_sum_spec<T: Rank1>(
    conj: bool,
    x: Seq<Complex<T>>,
    incx: int,
    y: Seq<Complex<T>>,
    incy: int,
    n: nat,
    k: nat,
) -> T
    decreases k,
{
    if k == 0 {
        T::zero_spec()
    } else {
        let xv = x[strided_offset(n, incx, k - 1)];
        let yv = y[strided_offset(n, incy, k - 1)];
        let left = if conj {
            xv.conj_spec()
        } else {
            xv
        };
        form_sum_spec(conj, x, incx, y, incy, n, (k - 1) as nat).add_spec(
            crate::builtins::ComplexOp::dot_spec(&left, &yv),
        )
    }
}

/// The sum of the complex products of the first `k` pairs, accumulated
/// from complex zero.
pub open spec fn dot_spec<T: Rank1>(
    x: Seq<Complex<T>>,
    incx: int,
    y: Seq<Complex<T>>,
    incy: int,
    n: nat,
    k: nat,
) -> Complex<T>
    decreases k,
{
    if k == 0 {
        Complex::<T>::zero_spec()
    } else {
        dot_spec(x, incx, y, incy, n, (k - 1) as nat).add_spec(
            x[strided_offset(n, incx, k - 1)].mul_spec(y[strided_offset(n, incy, k - 1)]),
        )
    }
}

/// One pair of complex elements under the real plane rotation `(c, s)`:
/// the first becomes `x * c + y * s`, the second `-x * s + y * c`.
pub open spec fn rot_pair<T: Rank1>(c: T, s: T, xv: Complex<T>, yv: Complex<T>) -> (
    Complex<T>,
    Complex<T>,
) {
    (
        xv.scale_spec(c).add_spec(yv.scale_spec(s)),
        xv.neg_spec().scale_spec(s).add_spec(yv.scale_spec(c)),
    )
}

/// Both buffers after the first `k` pairs were rotated, one after the other.
pub open spec fn rot_spec<T: Rank1>(
    x: Seq<Complex<T>>,
    incx: int,
    y: Seq<Complex<T>>,
    incy: int,
    n: nat,
    c: T,
    s: T,
    k: nat,
) -> (Seq<Complex<T>>, Seq<Complex<T>>)
    decreases k,
{
    if k == 0 {
        (x, y)
    } else {
        let prev = rot_spec(x, incx, y, incy, n, c, s, (k - 1) as nat);
        let ox = strided_offset(n, incx, k - 1);
        let oy = strided_offset(n, incy, k - 1);
        let pair = rot_pair(c, s, prev.0[ox], prev.1[oy]);
        (prev.0.update(ox, pair.0), prev.1.update(oy, pair.1))
    }
}

/// Sums the L1 norms of the `n` strided elements of `x`.
pub fn asum<T: Rank1>(n: usize, x: &[Complex<T>], incx: i64, result: &mut T)
    requires
        vector_fits(x@.len(), n as nat, incx as int),
    ensures
        *final(result) == asum_spec(x@, n as nat, incx as int, n as nat),
{
    *result = T::zero();
    let mut itrx = offsets_in(n, incx, x.len());
    let mut i: usize = 0;
    while i < n
        invariant
            i <= n,
            itrx.wf(),
            itrx.count() == n,
            itrx.stride() == incx,
            itrx.position() == i,
            vector_fits(x@.len(), n as nat, incx as int),
            *result == asum_spec(x@, n as nat, incx as int, i as nat),
        decreases n - i,
    {
        proof {
            lemma_offset_in_span(n as nat, incx as int, i as int);
        }
        match itrx.next() {
            Some(idx) => {
                *result = result.plus(x[idx].l1_norm());
            },
            None => {},
        }
        i = i + 1;
    }
}

/// `y[i] := alpha * x[i] + y[i]` for each logical position, in complex
/// arithmetic.
pub fn axpy<T: Rank1>(
    n: usize,
    alpha: Complex<T>,
    x: &[Complex<T>],
    incx: i64,
    y: &mut [Complex<T>],
    incy: i64,
)
    requires
        vector_fits(x@.len(), n as nat, incx as int),
        vector_fits(old(y)@.len(), n as nat, incy as int),
    ensures
        final(y)@ == axpy_spec(alpha, x@, incx as int, old(y)@, incy as int, n as nat, n as nat),
        final(y)@.len() == old(y)@.len(),
{
    let ghost y0 = y@;
    let mut itrx = offsets_in(n, incx, x.len());
    let mut itry = offsets_in(n, incy, y.len());
    let mut i: usize = 0;
    while i < n
        invariant
            i <= n,
            itrx.wf(),
            itry.wf(),
            itrx.count() == n,
            itry.count() == n,
            itrx.stride() == incx,
            itry.stride() == incy,
            itrx.position() == i,
            itry.position() == i,
            y@.len() == y0.len(),
            vector_fits(x@.len(), n as nat, incx as int),
            vector_fits(y0.len(), n as nat, incy as int),
            y@ == axpy_spec(alpha, x@, incx as int, y0, incy as int, n as nat, i as nat),
        decreases n - i,
    {
        proof {
            lemma_offset_in_span(n as nat, incx as int, i as int);
            lemma_offset_in_span(n as nat, incy as int, i as int);
        }
        match (itrx.next(), itry.next()) {
            (Some(idx), Some(idy)) => {
                y[idy] = alpha.times(x[idx]).plus(y[idy]);
            },
            _ => {},
        }
        i = i + 1;
    }
}

/// Accumulates the bilinear form of the paired elements from zero, with
/// the left operand conjugated where `conj` is set.
fn form_sum<T: Rank1>(
    conj: bool,
    n: usize,
    x: &[Complex<T>],
    incx: i64,
    y: &[Complex<T>],
    incy: i64,
) -> (sum: T)
    requires
        vector_fits(x@.len(), n as nat, incx as int),
        vector_fits(y@.len(), n as nat, incy as int),
    ensures
        sum == form_sum_spec(conj, x@, incx as int, y@, incy as int, n as nat, n as nat),
{
    let mut sum = T::zero();
    let mut itrx = offsets_in(n, incx, x.len());
    let mut itry = offsets_in(n, incy, y.len());
    let mut i: usize = 0;
    while i < n
        invariant
            i <= n,
            itrx.wf(),
            itry.wf(),
            itrx.count() == n,
            itry.count() == n,
            itrx.stride() == incx,
            itry.stride() == incy,
            itrx.position() == i,
            itry.position() == i,
            vector_fits(x@.len(), n as nat, incx as int),
            vector_fits(y@.len(), n as nat, incy as int),
            sum == form_sum_spec(conj, x@, incx as int, y@, incy as int, n as nat, i as nat),
        decreases n - i,
    {
        proof {
            lemma_offset_in_span(n as nat, incx as int, i as int);
            lemma_offset_in_span(n as nat, incy as int, i as int);
        }
        match (itrx.next(), itry.next()) {
            (Some(idx), Some(idy)) => {
                let left = if conj {
                    x[idx].conj()
                } else {
                    x[idx]
                };
                sum = sum.plus(crate::builtins::ComplexOp::dot(&left, &y[idy]));
            },
            _ => {},
        }
        i = i + 1;
    }
    sum
}

/// The conjugated inner product: the bilinear form of `conj(x[i])` with
/// `y[i]`, summed from zero into a real result.
pub fn dotc<T: Rank1>(
    n: usize,
    x: &[Complex<T>],
    incx: i64,
    y: &mut [Complex<T>],
    incy: i64,
    result: &mut T,
)
    requires
        vector_fits(x@.len(), n as nat, incx as int),
        vector_fits(old(y)@.len(), n as nat, incy as int),
    ensures
        *final(result) == form_sum_spec(
            true,
            x@,
            incx as int,
            old(y)@,
            incy as int,
            n as nat,
            n as nat,
        ),
        final(y)@ == old(y)@,
{
    *result = form_sum(true, n, x, incx, y, incy);
}

/// The norm of a complex vector as a real number: the square root of the
/// bilinear form of each element with itself, summed from zero.
pub fn nrm2<T: Rank1>(n: usize, x: &[Complex<T>], incx: i64, result: &mut T)
    requires
        vector_fits(x@.len(), n as nat, incx as int),
    ensures
        *final(result) == form_sum_spec(
            false,
            x@,
            incx as int,
            x@,
            incx as int,
            n as nat,
            n as nat,
        ).sqrt_spec(),
{
    let sum = form_sum(false, n, x, incx, x, incx);
    *result = sum.sqrt();
}

/// Accumulates the complex products of the paired elements from zero.
fn dot_sum<T: Rank1>(n: usize, x: &[Complex<T>], incx: i64, y: &[Complex<T>], incy: i64) -> (sum:
    Complex<T>)
    requires
        vector_fits(x@.len(), n as nat, incx as int),
        vector_fits(y@.len(), n as nat, incy as int),
    ensures
        sum == dot_spec(x@, incx as int, y@, incy as int, n as nat, n as nat),
{
    let mut sum = Complex::<T>::zero();
    let mut itrx = offsets_in(n, incx, x.len());
    let mut itry = offsets_in(n, incy, y.len());
    let mut i: usize = 0;
    while i < n
        invariant
            i <= n,
            itrx.wf(),
            itry.wf(),
            itrx.count() == n,
            itry.count() == n,
            itrx.stride() == incx,
            itry.stride() == incy,
            itrx.position() == i,
            itry.position() == i,
            vector_fits(x@.len(), n as nat, incx as int),
            vector_fits(y@.len(), n as nat, incy as int),
            sum == dot_spec(x@, incx as int, y@, incy as int, n as nat, i as nat),
        decreases n - i,
    {
        proof {
            lemma_offset_in_span(n as nat, incx as int, i as int);
            lemma_offset_in_span(n as nat, incy as int, i as int);
        }
        match (itrx.next(), itry.next()) {
            (Some(idx), Some(idy)) => {
                sum = sum.plus(x[idx].times(y[idy]));
            },
            _ => {},
        }
        i = i + 1;
    }
    sum
}

/// The inner product in complex arithmetic, without conjugation, summed
/// from complex zero.
pub fn dot<T: Rank1>(
    n: usize,
    x: &[Complex<T>],
    incx: i64,
    y: &mut [Complex<T>],
    incy: i64,
    result: &mut Complex<T>,
)
    requires
        vector_fits(x@.len(), n as nat, incx as int),
        vector_fits(old(y)@.len(), n as nat, incy as int),
    ensures
        *final(result) == dot_spec(x@, incx as int, old(y)@, incy as int, n as nat, n as nat),
        final(y)@ == old(y)@,
{
    *result = dot_sum(n, x, incx, y, incy);
}

/// The norm of a complex vector as a complex number: the complex square
/// root of the sum, from complex zero, of the complex squares.
pub fn nrm2_complex<T: Rank1>(n: usize, x: &[Complex<T>], incx: i64, result: &mut Complex<T>)
    requires
        vector_fits(x@.len(), n as nat, incx as int),
    ensures
        *final(result) == dot_spec(
            x@,
            incx as int,
            x@,
            incx as int,
            n as nat,
            n as nat,
        ).sqrt_spec(),
{
    let sum = dot_sum(n, x, incx, x, incx);
    *result = sum.sqrt();
}

/// The unconjugated inner product: the same sum of complex products as
/// `dot`.
pub fn dotu<T: Rank1>(
    n: usize,
    x: &[Complex<T>],
    incx: i64,
    y: &mut [Complex<T>],
    incy: i64,
    result: &mut Complex<T>,
)
    requires
        vector_fits(x@.len(), n as nat, incx as int),
        vector_fits(old(y)@.len(), n as nat, incy as int),
    ensures
        *final(result) == dot_spec(x@, incx as int, old(y)@, incy as int, n as nat, n as nat),
        final(y)@ == old(y)@,
{
    dot(n, x, incx, y, incy, result);
}

/// Applies the real plane rotation `(c, s)` to each pair of complex
/// elements in place.
pub fn rot<T: Rank1>(
    n: usize,
    x: &mut [Complex<T>],
    incx: i64,
    y: &mut [Complex<T>],
    incy: i64,
    c: T,
    s: T,
)
    requires
        vector_fits(old(x)@.len(), n as nat, incx as int),
        vector_fits(old(y)@.len(), n as nat, incy as int),
    ensures
        (final(x)@, final(y)@) == rot_spec(
            old(x)@,
            incx as int,
            old(y)@,
            incy as int,
            n as nat,
            c,
            s,
            n as nat,
        ),
        final(x)@.len() == old(x)@.len(),
        final(y)@.len() == old(y)@.len(),
{
    let ghost x0 = x@;
    let ghost y0 = y@;
    let mut itrx = offsets_in(n, incx, x.len());
    let mut itry = offsets_in(n, incy, y.len());
    let mut i: usize = 0;
    while i < n
        invariant
            i <= n,
            itrx.wf(),
            itry.wf(),
            itrx.count() == n,
            itry.count() == n,
            itrx.stride() == incx,
            itry.stride() == incy,
            itrx.position() == i,
            itry.position() == i,
            x@.len() == x0.len(),
            y@.len() == y0.len(),
            vector_fits(x0.len(), n as nat, incx as int),
            vector_fits(y0.len(), n as nat, incy as int),
            (x@, y@) == rot_spec(x0, incx as int, y0, incy as int, n as nat, c, s, i as nat),
        decreases n - i,
    {
        proof {
            lemma_offset_in_span(n as nat, incx as int, i as int);
            lemma_offset_in_span(n as nat, incy as int, i as int);
        }
        match (itrx.next(), itry.next()) {
            (Some(idx), Some(idy)) => {
                let x_tmp = x[idx].scale(c).plus(y[idy].scale(s));
                let y_tmp = x[idx].negated().scale(s).plus(y[idy].scale(c));
                x[idx] = x_tmp;
                y[idy] = y_tmp;
            },
            _ => {},
        }
        i = i + 1;
    }
}

impl<T: Rank1> LV1<Complex<T>, T> for Complex<T> {
    open spec fn axpy_done(
        tag: Option<T>,
        alpha: Complex<T>,
        x: Seq<Complex<T>>,
        incx: int,
        y: Seq<Complex<T>>,
        incy: int,
        n: nat,
        after: Seq<Complex<T>>,
        r: Result<(), KernelError>,
    ) -> bool {
        r is Ok && after == axpy_spec(alpha, x, incx, y, incy, n, n)
    }

    open spec fn copy_done(
        tag: Option<T>,
        x: Seq<Complex<T>>,
        incx: int,
        y: Seq<Complex<T>>,
        incy: int,
        n: nat,
        after: Seq<Complex<T>>,
        r: Result<(), KernelError>,
    ) -> bool {
        r is Ok && after == copy_spec(x, n, incx, y, n, incy, n)
    }

    open spec fn rotg_done(
        tag: Option<T>,
        before: (Complex<T>, Complex<T>, Complex<T>, Complex<T>),
        after: (Complex<T>, Complex<T>, Complex<T>, Complex<T>),
        r: Result<(), KernelError>,
    ) -> bool {
        r == Err::<(), KernelError>(KernelError::Undefined) && after == before
    }

    open spec fn rotm_done(
        tag: Option<T>,
        x: Seq<Complex<T>>,
        incx: int,
        y: Seq<Complex<T>>,
        incy: int,
        n: nat,
        param: Seq<Complex<T>>,
        after: (Seq<Complex<T>>, Seq<Complex<T>>),
        r: Result<(), KernelError>,
    ) -> bool {
        r == Err::<(), KernelError>(KernelError::Undefined) && after == (x, y)
    }

    open spec fn rotmg_done(
        tag: Option<T>,
        before: (Complex<T>, Complex<T>, Complex<T>),
        after: (Complex<T>, Complex<T>, Complex<T>),
        r: Result<(), KernelError>,
    ) -> bool {
        r == Err::<(), KernelError>(KernelError::Undefined) && after == before
    }

    /// The sum of the L1 norms, from zero.
    fn asum(
        n: usize,
        x: &[Complex<T>],
        incx: i64,
        result: &mut T,
    ) -> (r: Result<(), KernelError>)
        ensures
            r is Ok,
            *final(result) == asum_spec(x@, n as nat, incx as int, n as nat),
    {
        asum(n, x, incx, result);
        Ok(())
    }

    /// `y[i] := alpha * x[i] + y[i]` in complex arithmetic.
    fn axpy(
        n: usize,
        alpha: Complex<T>,
        x: &[Complex<T>],
        incx: i64,
        y: &mut [Complex<T>],
        incy: i64,
    ) -> (r: Result<(), KernelError>)
    {
        axpy(n, alpha, x, incx, y, incy);
        Ok(())
    }

    /// `y[i] := x[i]` for each logical position.
    fn copy(
        n: usize,
        x: &[Complex<T>],
        incx: i64,
        y: &mut [Complex<T>],
        incy: i64,
    ) -> (r: Result<(), KernelError>)
    {
        copy(n, x, incx, y, incy);
        Ok(())
    }

    /// `dot` is not defined for complex scalars with a real result.
    fn dot(
        n: usize,
        x: &[Complex<T>],
        incx: i64,
        y: &mut [Complex<T>],
        incy: i64,
        result: &mut T,
    ) -> (r: Result<(), KernelError>)
        ensures
            r == Err::<(), KernelError>(KernelError::Undefined),
            *final(result) == *old(result),
    {
        Err(KernelError::Undefined)
    }

    /// `sdsdot` is not defined for complex scalars with a real result.
    fn sdsdot(
        n: usize,
        sb: Complex<T>,
        x: &[Complex<T>],
        incx: i64,
        y: &mut [Complex<T>],
        incy: i64,
        result: &mut T,
    ) -> (r: Result<(), KernelError>)
        ensures
            r == Err::<(), KernelError>(KernelError::Undefined),
            *final(result) == *old(result),
    {
        Err(KernelError::Undefined)
    }

    /// The conjugated inner product, from zero.
    fn dotc(
        n: usize,
        x: &[Complex<T>],
        incx: i64,
        y: &mut [Complex<T>],
        incy: i64,
        result: &mut T,
    ) -> (r: Result<(), KernelError>)
        ensures
            r is Ok,
            *final(result) == form_sum_spec(
                true,
                x@,
                incx as int,
                old(y)@,
                incy as int,
                n as nat,
                n as nat,
            ),
    {
        dotc(n, x, incx, y, incy, result);
        Ok(())
    }

    /// `dotu` is not defined for complex scalars with a real result.
    fn dotu(
        n: usize,
        x: &[Complex<T>],
        incx: i64,
        y: &mut [Complex<T>],
        incy: i64,
        result: &mut T,
    ) -> (r: Result<(), KernelError>)
        ensures
            r == Err::<(), KernelError>(KernelError::Undefined),
            *final(result) == *old(result),
    {
        Err(KernelError::Undefined)
    }

    /// The square root of the bilinear form of each element with itself,
    /// summed from zero.
    fn nrm2(
        n: usize,
        x: &[Complex<T>],
        incx: i64,
        result: &mut T,
    ) -> (r: Result<(), KernelError>)
        ensures
            r is Ok,
            *final(result) == form_sum_spec(
                false,
                x@,
                incx as int,
                x@,
                incx as int,
                n as nat,
                n as nat,
            ).sqrt_spec(),
    {
        nrm2(n, x, incx, result);
        Ok(())
    }

    /// The real plane rotation `(c, s)` of each pair of elements.
    fn rot(
        n: usize,
        x: &mut [Complex<T>],
        incx: i64,
        y: &mut [Complex<T>],
        incy: i64,
        c: T,
        s: T,
    ) -> (r: Result<(), KernelError>)
        ensures
            r is Ok,
            (final(x)@, final(y)@) == rot_spec(
                old(x)@,
                incx as int,
                old(y)@,
                incy as int,
                n as nat,
                c,
                s,
                n as nat,
            ),
    {
        rot(n, x, incx, y, incy, c, s);
        Ok(())
    }

    /// `rotg` is not defined for complex scalars with a real result.
    fn rotg(
        a: &mut Complex<T>,
        b: &mut Complex<T>,
        c: &mut Complex<T>,
        s: &mut Complex<T>,
    ) -> (r: Result<(), KernelError>)
    {
        Err(KernelError::Undefined)
    }

    /// `rotm` is not defined for complex scalars with a real result.
    fn rotm(
        n: usize,
        x: &mut [Complex<T>],
        incx: i64,
        y: &mut [Complex<T>],
        incy: i64,
        param: &[Complex<T>; 5],
    ) -> (r: Result<(), KernelError>)
    {
        Err(KernelError::Undefined)
    }

    /// `rotmg` is not defined for complex scalars with a real result.
    fn rotmg(
        d1: &mut Complex<T>,
        d2: &mut Complex<T>,
        x1: &mut Complex<T>,
        y1: &Complex<T>,
        param: &[Complex<T>; 5],
    ) -> (r: Result<(), KernelError>)
    {
        Err(KernelError::Undefined)
    }
}

impl<T: Rank1> LV1<Complex<T>, Complex<T>> for Complex<T> {
    open spec fn axpy_done(
        tag: Option<Complex<T>>,
        alpha: Complex<T>,
        x: Seq<Complex<T>>,
        incx: int,
        y: Seq<Complex<T>>,
        incy: int,
        n: nat,
        after: Seq<Complex<T>>,
        r: Result<(), KernelError>,
    ) -> bool {
        r == Err::<(), KernelError>(KernelError::Undefined) && after == y
    }

    open spec fn copy_done(
        tag: Option<Complex<T>>,
        x: Seq<Complex<T>>,
        incx: int,
        y: Seq<Complex<T>>,
        incy: int,
        n: nat,
        after: Seq<Complex<T>>,
        r: Result<(), KernelError>,
    ) -> bool {
        r == Err::<(), KernelError>(KernelError::Undefined) && after == y
    }

    open spec fn rotg_done(
        tag: Option<Complex<T>>,
        before: (Complex<T>, Complex<T>, Complex<T>, Complex<T>),
        after: (Complex<T>, Complex<T>, Complex<T>, Complex<T>),
        r: Result<(), KernelError>,
    ) -> bool {
        r == Err::<(), KernelError>(KernelError::Undefined) && after == before
    }

    open spec fn rotm_done(
        tag: Option<Complex<T>>,
        x: Seq<Complex<T>>,
        incx: int,
        y: Seq<Complex<T>>,
        incy: int,
        n: nat,
        param: Seq<Complex<T>>,
        after: (Seq<Complex<T>>, Seq<Complex<T>>),
        r: Result<(), KernelError>,
    ) -> bool {
        r == Err::<(), KernelError>(KernelError::Undefined) && after == (x, y)
    }

    open spec fn rotmg_done(
        tag: Option<Complex<T>>,
        before: (Complex<T>, Complex<T>, Complex<T>),
        after: (Complex<T>, Complex<T>, Complex<T>),
        r: Result<(), KernelError>,
    ) -> bool {
        r == Err::<(), KernelError>(KernelError::Undefined) && after == before
    }

    /// `asum` is not defined for complex scalars with a complex result.
    fn asum(
        n: usize,
        x: &[Complex<T>],
        incx: i64,
        result: &mut Complex<T>,
    ) -> (r: Result<(), KernelError>)
        ensures
            r == Err::<(), KernelError>(KernelError::Undefined),
            *final(result) == *old(result),
    {
        Err(KernelError::Undefined)
    }

    /// `axpy` is not defined for complex scalars with a complex result.
    fn axpy(
        n: usize,
        alpha: Complex<T>,
        x: &[Complex<T>],
        incx: i64,
        y: &mut [Complex<T>],
        incy: i64,
    ) -> (r: Result<(), KernelError>)
    {
        Err(KernelError::Undefined)
    }

    /// `copy` is not defined for complex scalars with a complex result.
    fn copy(
        n: usize,
        x: &[Complex<T>],
        incx: i64,
        y: &mut [Complex<T>],
        incy: i64,
    ) -> (r: Result<(), KernelError>)
    {
        Err(KernelError::Undefined)
    }

    /// The sum of the complex products, from complex zero.
    fn dot(
        n: usize,
        x: &[Complex<T>],
        incx: i64,
        y: &mut [Complex<T>],
        incy: i64,
        result: &mut Complex<T>,
    ) -> (r: Result<(), KernelError>)
        ensures
            r is Ok,
            *final(result) == dot_spec(x@, incx as int, old(y)@, incy as int, n as nat, n as nat),
    {
        dot(n, x, incx, y, incy, result);
        Ok(())
    }

    /// `sdsdot` is not defined for complex scalars with a complex result.
    fn sdsdot(
        n: usize,
        sb: Complex<T>,
        x: &[Complex<T>],
        incx: i64,
        y: &mut [Complex<T>],
        incy: i64,
        result: &mut Complex<T>,
    ) -> (r: Result<(), KernelError>)
        ensures
            r == Err::<(), KernelError>(KernelError::Undefined),
            *final(result) == *old(result),
    {
        Err(KernelError::Undefined)
    }

    /// `dotc` is not defined for complex scalars with a complex result.
    fn dotc(
        n: usize,
        x: &[Complex<T>],
        incx: i64,
        y: &mut [Complex<T>],
        incy: i64,
        result: &mut Complex<T>,
    ) -> (r: Result<(), KernelError>)
        ensures
            r == Err::<(), KernelError>(KernelError::Undefined),
            *final(result) == *old(result),
    {
        Err(KernelError::Undefined)
    }

    /// The unconjugated inner product: the sum of the complex products.
    fn dotu(
        n: usize,
        x: &[Complex<T>],
        incx: i64,
        y: &mut [Complex<T>],
        incy: i64,
        result: &mut Complex<T>,
    ) -> (r: Result<(), KernelError>)
        ensures
            r is Ok,
            *final(result) == dot_spec(x@, incx as int, old(y)@, incy as int, n as nat, n as nat),
    {
        dotu(n, x, incx, y, incy, result);
        Ok(())
    }

    /// The complex square root of the sum of the complex squares.
    fn nrm2(
        n: usize,
        x: &[Complex<T>],
        incx: i64,
        result: &mut Complex<T>,
    ) -> (r: Result<(), KernelError>)
        ensures
            r is Ok,
            *final(result) == dot_spec(
                x@,
                incx as int,
                x@,
                incx as int,
                n as nat,
                n as nat,
            ).sqrt_spec(),
    {
        nrm2_complex(n, x, incx, result);
        Ok(())
    }

    /// `rot` is not defined for complex scalars with a complex result.
    fn rot(
        n: usize,
        x: &mut [Complex<T>],
        incx: i64,
        y: &mut [Complex<T>],
        incy: i64,
        c: Complex<T>,
        s: Complex<T>,
    ) -> (r: Result<(), KernelError>)
        ensures
            r == Err::<(), KernelError>(KernelError::Undefined),
            final(x)@ == old(x)@,
            final(y)@ == old(y)@,
    {
        Err(KernelError::Undefined)
    }

    /// `rotg` is not defined for complex scalars with a complex result.
    fn rotg(
        a: &mut Complex<T>,
        b: &mut Complex<T>,
        c: &mut Complex<T>,
        s: &mut Complex<T>,
    ) -> (r: Result<(), KernelError>)
    {
        Err(KernelError::Undefined)
    }

    /// `rotm` is not defined for complex scalars with a complex result.
    fn rotm(
        n: usize,
        x: &mut [Complex<T>],
        incx: i64,
        y: &mut [Complex<T>],
        incy: i64,
        param: &[Complex<T>; 5],
    ) -> (r: Result<(), KernelError>)
    {
        Err(KernelError::Undefined)
    }

    /// `rotmg` is not defined for complex scalars with a complex result.
    fn rotmg(
        d1: &mut Complex<T>,
        d2: &mut Complex<T>,
        x1: &mut Complex<T>,
        y1: &Complex<T>,
        param: &[Complex<T>; 5],
    ) -> (r: Result<(), KernelError>)
    {
        Err(KernelError::Undefined)
    }
}

/// Where the target's stride is not zero (or there is at most one
/// element), each logical position is updated once and from its own old
/// value: after `k` steps position `i` below `k` holds
/// `alpha * x[i] + y[i]`, and every later position still holds `y[i]`.
pub proof fn lemma_axpy_pointwise<T: Rank1>(
    alpha: Complex<T>,
    x: Seq<Complex<T>>,
    incx: int,
    y: Seq<Complex<T>>,
    incy: int,
    n: nat,
    k: nat,
)
    requires
        k <= n,
        vector_fits(y.len(), n, incy),
        n <= 1 || incy != 0,
    ensures
        axpy_spec(alpha, x, incx, y, incy, n, k).len() == y.len(),
        forall|i: int|
            0 <= i < k ==> #[trigger] axpy_spec(alpha, x, incx, y, incy, n, k)[strided_offset(
                n,
                incy,
                i,
            )] == alpha.mul_spec(x[strided_offset(n, incx, i)]).add_spec(
                y[strided_offset(n, incy, i)],
            ),
        forall|i: int|
            k <= i < n ==> #[trigger] axpy_spec(alpha, x, incx, y, incy, n, k)[strided_offset(
                n,
                incy,
                i,
            )] == y[strided_offset(n, incy, i)],
    decreases k,
{
    if k > 0 {
        lemma_axpy_pointwise(alpha, x, incx, y, incy, n, (k - 1) as nat);
        lemma_offset_in_span(n, incy, k - 1);
        assert forall|i: int| 0 <= i < n implies #[trigger] strided_offset(n, incy, i)
            != strided_offset(n, incy, k - 1) || i == k - 1 by {
            if i != k - 1 {
                lemma_offsets_distinct(n, incy, i, k - 1);
            }
        }
        assert forall|i: int| 0 <= i < n implies 0 <= #[trigger] strided_offset(n, incy, i)
            < y.len() by {
            lemma_offset_in_span(n, incy, i);
        }
    }
}

/// Where neither stride is zero (or there is at most one element), each
/// pair is rotated once and from its own old values: after the whole
/// rotation position `i` holds `x[i] * c + y[i] * s` in the first buffer
/// and `-x[i] * s + y[i] * c` in the second.
pub proof fn lemma_rot_pointwise<T: Rank1>(
    x: Seq<Complex<T>>,
    incx: int,
    y: Seq<Complex<T>>,
    incy: int,
    n: nat,
    c: T,
    s: T,
    k: nat,
)
    requires
        k <= n,
        vector_fits(x.len(), n, incx),
        vector_fits(y.len(), n, incy),
        n <= 1 || (incx != 0 && incy != 0),
    ensures
        rot_spec(x, incx, y, incy, n, c, s, k).0.len() == x.len(),
        rot_spec(x, incx, y, incy, n, c, s, k).1.len() == y.len(),
        forall|i: int|
            0 <= i < k ==> #[trigger] rot_spec(x, incx, y, incy, n, c, s, k).0[strided_offset(
                n,
                incx,
                i,
            )] == rot_pair(c, s, x[strided_offset(n, incx, i)], y[strided_offset(n, incy, i)]).0,
        forall|i: int|
            0 <= i < k ==> #[trigger] rot_spec(x, incx, y, incy, n, c, s, k).1[strided_offset(
                n,
                incy,
                i,
            )] == rot_pair(c, s, x[strided_offset(n, incx, i)], y[strided_offset(n, incy, i)]).1,
        forall|i: int|
            k <= i < n ==> #[trigger] rot_spec(x, incx, y, incy, n, c, s, k).0[strided_offset(
                n,
                incx,
                i,
            )] == x[strided_offset(n, incx, i)],
        forall|i: int|
            k <= i < n ==> #[trigger] rot_spec(x, incx, y, incy, n, c, s, k).1[strided_offset(
                n,
                incy,
                i,
            )] == y[strided_offset(n, incy, i)],
    decreases k,
{
    if k > 0 {
        lemma_rot_pointwise(x, incx, y, incy, n, c, s, (k - 1) as nat);
        assert forall|i: int| 0 <= i < n implies #[trigger] strided_offset(n, incx, i)
            != strided_offset(n, incx, k - 1) || i == k - 1 by {
            if i != k - 1 {
                lemma_offsets_distinct(n, incx, i, k - 1);
            }
        }
        assert forall|i: int| 0 <= i < n implies #[trigger] strided_offset(n, incy, i)
            != strided_offset(n, incy, k - 1) || i == k - 1 by {
            if i != k - 1 {
                lemma_offsets_distinct(n, incy, i, k - 1);
            }
        }
        assert forall|i: int| 0 <= i < n implies 0 <= #[trigger] strided_offset(n, incx, i)
            < x.len() by {
            lemma_offset_in_span(n, incx, i);
        }
        assert forall|i: int| 0 <= i < n implies 0 <= #[trigger] strided_offset(n, incy, i)
            < y.len() by {
            lemma_offset_in_span(n, incy, i);
        }
    }
}

/// A place of the target that is the offset of no logical position keeps
/// its value, whatever the strides.
pub proof fn lemma_axpy_frame<T: Rank1>(
    alpha: Complex<T>,
    x: Seq<Complex<T>>,
    incx: int,
    y: Seq<Complex<T>>,
    incy: int,
    n: nat,
    k: nat,
    p: int,
)
    requires
        k <= n,
        vector_fits(y.len(), n, incy),
        0 <= p < y.len(),
        forall|i: int| 0 <= i < k ==> #[trigger] strided_offset(n, incy, i) != p,
    ensures
        axpy_spec(alpha, x, incx, y, incy, n, k).len() == y.len(),
        axpy_spec(alpha, x, incx, y, incy, n, k)[p] == y[p],
    decreases k,
{
    if k > 0 {
        lemma_axpy_frame(alpha, x, incx, y, incy, n, (k - 1) as nat, p);
        lemma_offset_in_span(n, incy, k - 1);
        assert(strided_offset(n, incy, k - 1) != p);
    }
}

/// A place that is the offset of no logical position keeps its value, in
/// either buffer and whatever the strides.
pub proof fn lemma_rot_frame<T: Rank1>(
    x: Seq<Complex<T>>,
    incx: int,
    y: Seq<Complex<T>>,
    incy: int,
    n: nat,
    c: T,
    s: T,
    k: nat,
    px: int,
    py: int,
)
    requires
        k <= n,
        vector_fits(x.len(), n, incx),
        vector_fits(y.len(), n, incy),
        0 <= px < x.len(),
        0 <= py < y.len(),
        forall|i: int| 0 <= i < k ==> #[trigger] strided_offset(n, incx, i) != px,
        forall|i: int| 0 <= i < k ==> #[trigger] strided_offset(n, incy, i) != py,
    ensures
        rot_spec(x, incx, y, incy, n, c, s, k).0.len() == x.len(),
        rot_spec(x, incx, y, incy, n, c, s, k).1.len() == y.len(),
        rot_spec(x, incx, y, incy, n, c, s, k).0[px] == x[px],
        rot_spec(x, incx, y, incy, n, c, s, k).1[py] == y[py],
    decreases k,
{
    if k > 0 {
        lemma_rot_frame(x, incx, y, incy, n, c, s, (k - 1) as nat, px, py);
        lemma_offset_in_span(n, incx, k - 1);
        lemma_offset_in_span(n, incy, k - 1);
        assert(strided_offset(n, incx, k - 1) != px);
        assert(strided_offset(n, incy, k - 1) != py);
    }
}

} // verus!

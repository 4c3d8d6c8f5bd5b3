//! Vector-vector kernels: what is shared by the real and the complex suite.

use crate::builtins::{
    lemma_offset_in_span, lemma_offsets_distinct, stride_magnitude, strided_offset, strided_span,
    VecIterator,
};
use vstd::prelude::*;

pub mod lv1c;
pub mod lv1r;

verus! {

/// Why a kernel did not run.
#[derive(Clone, Copy, Debug, PartialEq, Eq, Structural)]
pub enum KernelError {
    /// The kernel is not defined for this scalar and result type.
    Undefined,
    /// The kernel is not implemented.
    NotImplemented,
    /// The flag of a modified rotation selects none of the four transforms.
    UnknownFlag,
}

/// The vector-vector kernels of a scalar type `T` with results of type `R`.
///
/// Every kernel asks that each buffer holds its strided vector. A kernel
/// that fails leaves what it would have written as it was; what a kernel
/// computes, and whether it is defined, each implementation states for
/// itself: in its own `ensures` where the kernel's signature names the
/// result type, through a `*_done` relation where it does not.
pub trait LV1<T, R> {
    /// The sum of the magnitudes of the elements of `x`.
    fn asum(n: usize, x: &[T], incx: i64, result: &mut R) -> (r: Result<(), KernelError>)
        requires
            vector_fits(x@.len(), n as nat, incx as int),
        ensures
            r is Err ==> *final(result) == *old(result),
    ;

    /// What `axpy` returns and leaves in `y`; `tag` only names the result type.
    spec fn axpy_done(
        tag: Option<R>,
        alpha: T,
        x: Seq<T>,
        incx: int,
        y: Seq<T>,
        incy: int,
        n: nat,
        after: Seq<T>,
        r: Result<(), KernelError>,
    ) -> bool;

    /// `y[i] := alpha * x[i] + y[i]`.
    fn axpy(
        n: usize,
        alpha: T,
        x: &[T],
        incx: i64,
        y: &mut [T],
        incy: i64,
    ) -> (r: Result<(), KernelError>)
        requires
            vector_fits(x@.len(), n as nat, incx as int),
            vector_fits(old(y)@.len(), n as nat, incy as int),
        ensures
            Self::axpy_done(
                None::<R>,
                alpha,
                x@,
                incx as int,
                old(y)@,
                incy as int,
                n as nat,
                final(y)@,
                r,
            ),
            final(y)@.len() == old(y)@.len(),
            r is Err ==> final(y)@ == old(y)@,
    ;

    /// What `copy` returns and leaves in `y`; `tag` only names the result type.
    spec fn copy_done(
        tag: Option<R>,
        x: Seq<T>,
        incx: int,
        y: Seq<T>,
        incy: int,
        n: nat,
        after: Seq<T>,
        r: Result<(), KernelError>,
    ) -> bool;

    /// `y[i] := x[i]`.
    fn copy(n: usize, x: &[T], incx: i64, y: &mut [T], incy: i64) -> (r: Result<(), KernelError>)
        requires
            vector_fits(x@.len(), n as nat, incx as int),
            vector_fits(old(y)@.len(), n as nat, incy as int),
        ensures
            Self::copy_done(
                None::<R>,
                x@,
                incx as int,
                old(y)@,
                incy as int,
                n as nat,
                final(y)@,
                r,
            ),
            final(y)@.len() == old(y)@.len(),
            r is Err ==> final(y)@ == old(y)@,
    ;

    /// The inner product of `x` and `y`.
    fn dot(
        n: usize,
        x: &[T],
        incx: i64,
        y: &mut [T],
        incy: i64,
        result: &mut R,
    ) -> (r: Result<(), KernelError>)
        requires
            vector_fits(x@.len(), n as nat, incx as int),
            vector_fits(old(y)@.len(), n as nat, incy as int),
        ensures
            final(y)@ == old(y)@,
            r is Err ==> *final(result) == *old(result),
    ;

    /// The inner product of `x` and `y` on top of the bias `sb`.
    fn sdsdot(
        n: usize,
        sb: T,
        x: &[T],
        incx: i64,
        y: &mut [T],
        incy: i64,
        result: &mut R,
    ) -> (r: Result<(), KernelError>)
        requires
            vector_fits(x@.len(), n as nat, incx as int),
            vector_fits(old(y)@.len(), n as nat, incy as int),
        ensures
            final(y)@ == old(y)@,
            r is Err ==> *final(result) == *old(result),
    ;

    /// The conjugated inner product of `x` and `y`.
    fn dotc(
        n: usize,
        x: &[T],
        incx: i64,
        y: &mut [T],
        incy: i64,
        result: &mut R,
    ) -> (r: Result<(), KernelError>)
        requires
            vector_fits(x@.len(), n as nat, incx as int),
            vector_fits(old(y)@.len(), n as nat, incy as int),
        ensures
            final(y)@ == old(y)@,
            r is Err ==> *final(result) == *old(result),
    ;

    /// The unconjugated inner product of `x` and `y`.
    fn dotu(
        n: usize,
        x: &[T],
        incx: i64,
        y: &mut [T],
        incy: i64,
        result: &mut R,
    ) -> (r: Result<(), KernelError>)
        requires
            vector_fits(x@.len(), n as nat, incx as int),
            vector_fits(old(y)@.len(), n as nat, incy as int),
        ensures
            final(y)@ == old(y)@,
            r is Err ==> *final(result) == *old(result),
    ;

    /// The Euclidean norm of `x`.
    fn nrm2(n: usize, x: &[T], incx: i64, result: &mut R) -> (r: Result<(), KernelError>)
        requires
            vector_fits(x@.len(), n as nat, incx as int),
        ensures
            r is Err ==> *final(result) == *old(result),
    ;

    /// The plane rotation `(c, s)` applied to each pair of elements.
    fn rot(
        n: usize,
        x: &mut [T],
        incx: i64,
        y: &mut [T],
        incy: i64,
        c: R,
        s: R,
    ) -> (r: Result<(), KernelError>)
        requires
            vector_fits(old(x)@.len(), n as nat, incx as int),
            vector_fits(old(y)@.len(), n as nat, incy as int),
        ensures
            final(x)@.len() == old(x)@.len(),
            final(y)@.len() == old(y)@.len(),
            r is Err ==> final(x)@ == old(x)@ && final(y)@ == old(y)@,
    ;

    /// What `rotg` returns and leaves in `(a, b, c, s)`; `tag` only names the
    /// result type.
    spec fn rotg_done(
        tag: Option<R>,
        before: (T, T, T, T),
        after: (T, T, T, T),
        r: Result<(), KernelError>,
    ) -> bool;

    /// The plane rotation that takes `(a, b)` to `(r, 0)`.
    fn rotg(a: &mut T, b: &mut T, c: &mut T, s: &mut T) -> (r: Result<(), KernelError>)
        ensures
            Self::rotg_done(
                None::<R>,
                (*old(a), *old(b), *old(c), *old(s)),
                (*final(a), *final(b), *final(c), *final(s)),
                r,
            ),
            r is Err ==> *final(a) == *old(a) && *final(b) == *old(b) && *final(c) == *old(c)
                && *final(s) == *old(s),
    ;

    /// What `rotm` returns and leaves in `(x, y)`; `tag` only names the result
    /// type.
    spec fn rotm_done(
        tag: Option<R>,
        x: Seq<T>,
        incx: int,
        y: Seq<T>,
        incy: int,
        n: nat,
        param: Seq<T>,
        after: (Seq<T>, Seq<T>),
        r: Result<(), KernelError>,
    ) -> bool;

    /// The modified rotation that `param[0]` selects, applied to each pair
    /// of elements.
    fn rotm(
        n: usize,
        x: &mut [T],
        incx: i64,
        y: &mut [T],
        incy: i64,
        param: &[T; 5],
    ) -> (r: Result<(), KernelError>)
        requires
            vector_fits(old(x)@.len(), n as nat, incx as int),
            vector_fits(old(y)@.len(), n as nat, incy as int),
        ensures
            Self::rotm_done(
                None::<R>,
                old(x)@,
                incx as int,
                old(y)@,
                incy as int,
                n as nat,
                param@,
                (final(x)@, final(y)@),
                r,
            ),
            final(x)@.len() == old(x)@.len(),
            final(y)@.len() == old(y)@.len(),
            r is Err ==> final(x)@ == old(x)@ && final(y)@ == old(y)@,
    ;

    /// What `rotmg` returns and leaves in `(d1, d2, x1)`; `tag` only names the
    /// result type.
    spec fn rotmg_done(
        tag: Option<R>,
        before: (T, T, T),
        after: (T, T, T),
        r: Result<(), KernelError>,
    ) -> bool;

    /// The parameters of a modified rotation.
    fn rotmg(
        d1: &mut T,
        d2: &mut T,
        x1: &mut T,
        y1: &T,
        param: &[T; 5],
    ) -> (r: Result<(), KernelError>)
        ensures
            Self::rotmg_done(
                None::<R>,
                (*old(d1), *old(d2), *old(x1)),
                (*final(d1), *final(d2), *final(x1)),
                r,
            ),
            r is Err ==> *final(d1) == *old(d1) && *final(d2) == *old(d2) && *final(x1) == *old(x1),
    ;
}

/// Whether a buffer of `len` elements holds a vector of `n` elements with
/// stride `inc`.
pub open spec fn vector_fits(len: nat, n: nat, inc: int) -> bool {
    strided_span(n, inc) <= len
}

/// Tells whether a buffer of `len` elements holds a vector of `n` elements
/// with stride `inc`.
pub fn buffer_holds(len: usize, n: usize, inc: i64) -> (r: bool)
    ensures
        r == vector_fits(len as nat, n as nat, inc as int),
{
    if n == 0 {
        true
    } else {
        let mag: u64 = stride_magnitude(inc);
        let last: usize = n - 1;
        proof {
            assert(last * mag <= 0xffff_ffff_ffff_ffff * 0xffff_ffff_ffff_ffff)
                by (nonlinear_arith)
                requires
                    0 <= last <= 0xffff_ffff_ffff_ffff,
                    0 <= mag <= 0xffff_ffff_ffff_ffff,
            ;
        }
        let reach: u128 = (last as u128) * (mag as u128);
        reach < len as u128
    }
}

/// The offsets of a vector that lies in a buffer of `len` elements.
pub fn offsets_in(n: usize, inc: i64, len: usize) -> (itr: VecIterator)
    requires
        vector_fits(len as nat, n as nat, inc as int),
    ensures
        itr.wf(),
        itr.count() == n,
        itr.stride() == inc,
        itr.position() == 0,
{
    VecIterator::new(n, inc)
}

/// The target buffer after the first `k` elements of `x` were copied to
/// their places in `y`, one after the other.
pub open spec fn copy_spec<E>(
    x: Seq<E>,
    nx: nat,
    incx: int,
    y: Seq<E>,
    ny: nat,
    incy: int,
    k: nat,
) -> Seq<E>
    decreases k,
{
    if k == 0 {
        y
    } else {
        let i = (k - 1) as int;
        copy_spec(x, nx, incx, y, ny, incy, (k - 1) as nat).update(
            strided_offset(ny, incy, i),
            x[strided_offset(nx, incx, i)],
        )
    }
}

/// `y[i] := x[i]` for each logical position `i` below `n`.
pub fn copy<E: Copy>(n: usize, x: &[E], incx: i64, y: &mut [E], incy: i64)
    requires
        vector_fits(x@.len(), n as nat, incx as int),
        vector_fits(old(y)@.len(), n as nat, incy as int),
    ensures
        final(y)@ == copy_spec(
            x@,
            n as nat,
            incx as int,
            old(y)@,
            n as nat,
            incy as int,
            n as nat,
        ),
        final(y)@.len() == old(y)@.len(),
{
    let ghost y0 = y@;
    let mut itrx = offsets_in(n, incx, x.len());
    let mut itry = offsets_in(n, incy, y.len());
    let mut i: usize = 0;
    while i < n
        invariant
            i <= n,
            itrx.wf(),
            itry.wf(),
            itrx.count() == n,
            itry.count() == n,
            itrx.stride() == incx,
            itry.stride() == incy,
            itrx.position() == i,
            itry.position() == i,
            y@.len() == y0.len(),
            vector_fits(x@.len(), n as nat, incx as int),
            vector_fits(y0.len(), n as nat, incy as int),
            y@ == copy_spec(x@, n as nat, incx as int, y0, n as nat, incy as int, i as nat),
        decreases n - i,
    {
        proof {
            lemma_offset_in_span(n as nat, incx as int, i as int);
            lemma_offset_in_span(n as nat, incy as int, i as int);
        }
        match (itrx.next(), itry.next()) {
            (Some(idx), Some(idy)) => {
                y[idy] = x[idx];
            },
            _ => {},
        }
        i = i + 1;
    }
}

/// Where the target's stride is not zero (or there is at most one element),
/// copying puts each source element at its own place and touches nothing
/// else: position `i` of the target then holds position `i` of the source.
pub proof fn lemma_copy_pointwise<E>(
    x: Seq<E>,
    nx: nat,
    incx: int,
    y: Seq<E>,
    ny: nat,
    incy: int,
    k: nat,
)
    requires
        k <= ny,
        vector_fits(y.len(), ny, incy),
        ny <= 1 || incy != 0,
    ensures
        copy_spec(x, nx, incx, y, ny, incy, k).len() == y.len(),
        forall|i: int|
            0 <= i < k ==> #[trigger] copy_spec(x, nx, incx, y, ny, incy, k)[strided_offset(
                ny,
                incy,
                i,
            )] == x[strided_offset(nx, incx, i)],
    decreases k,
{
    if k > 0 {
        let prev = copy_spec(x, nx, incx, y, ny, incy, (k - 1) as nat);
        lemma_copy_pointwise(x, nx, incx, y, ny, incy, (k - 1) as nat);
        lemma_offset_in_span(ny, incy, k - 1);
        assert forall|i: int| 0 <= i < k implies #[trigger] copy_spec(
            x,
            nx,
            incx,
            y,
            ny,
            incy,
            k,
        )[strided_offset(ny, incy, i)] == x[strided_offset(nx, incx, i)] by {
            lemma_offset_in_span(ny, incy, i);
            if i < k - 1 {
                lemma_offsets_distinct(ny, incy, i, k - 1);
            }
        }
    }
}

/// Copying `x` into `y` and then `y` into `z` leaves in `z`, position by
/// position, what `x` holds, whenever neither target collapses onto a single
/// element.
pub proof fn lemma_copy_round_trip<E>(
    x: Seq<E>,
    incx: int,
    y: Seq<E>,
    incy: int,
    z: Seq<E>,
    incz: int,
    n: nat,
)
    requires
        vector_fits(y.len(), n, incy),
        vector_fits(z.len(), n, incz),
        n <= 1 || (incy != 0 && incz != 0),
    ensures
        forall|i: int|
            0 <= i < n ==> #[trigger] copy_spec(
                copy_spec(x, n, incx, y, n, incy, n),
                n,
                incy,
                z,
                n,
                incz,
                n,
            )[strided_offset(n, incz, i)] == x[strided_offset(n, incx, i)],
{
    let mid = copy_spec(x, n, incx, y, n, incy, n);
    lemma_copy_pointwise(x, n, incx, y, n, incy, n);
    lemma_copy_pointwise(mid, n, incy, z, n, incz, n);
}

/// A place of the target that is the offset of no logical position keeps
/// its value, whatever the strides.
pub proof fn lemma_copy_frame<E>(
    x: Seq<E>,
    incx: int,
    y: Seq<E>,
    incy: int,
    n: nat,
    k: nat,
    p: int,
)
    requires
        k <= n,
        vector_fits(y.len(), n, incy),
        0 <= p < y.len(),
        forall|i: int| 0 <= i < k ==> #[trigger] strided_offset(n, incy, i) != p,
    ensures
        copy_spec(x, n, incx, y, n, incy, k).len() == y.len(),
        copy_spec(x, n, incx, y, n, incy, k)[p] == y[p],
    decreases k,
{
    if k > 0 {
        lemma_copy_frame(x, incx, y, incy, n, (k - 1) as nat, p);
        lemma_offset_in_span(n, incy, k - 1);
        assert(strided_offset(n, incy, k - 1) != p);
    }
}

} // verus!

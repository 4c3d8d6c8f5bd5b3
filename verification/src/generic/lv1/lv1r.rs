//! The vector-vector kernels over real scalars.

use crate::builtins::{lemma_offset_in_span, lemma_offsets_distinct, strided_offset, Rank1};
use crate::generic::lv1::{copy, copy_spec, offsets_in, vector_fits, KernelError, LV1};
use vstd::prelude::*;

verus! {

/// The sum of the absolute values of the first `k` elements of the vector,
/// accumulated from zero in logical order.
pub open spec fn asum_spec<T: Rank1>(x: Seq<T>, n: nat, incx: int, k: nat) -> T
    decreases k,
{
    if k == 0 {
        T::zero_spec()
    } else {
        asum_spec(x, n, incx, (k - 1) as nat).add_spec(
            x[strided_offset(n, incx, k - 1)].abs_spec(),
        )
    }
}

/// The sum of the products of the first `k` pairs of elements, accumulated
/// from `init` in logical order.
pub open spec fn dot_spec<T: Rank1>(
    init: T,
    x: Seq<T>,
    incx: int,
    y: Seq<T>,
    incy: int,
    n: nat,
    k: nat,
) -> T
    decreases k,
{
    if k == 0 {
        init
    } else {
        dot_spec(init, x, incx, y, incy, n, (k - 1) as nat).add_spec(
            x[strided_offset(n, incx, k - 1)].mul_spec(y[strided_offset(n, incy, k - 1)]),
        )
    }
}

/// The target buffer after `y[i] := alpha * x[i] + y[i]` was done for the
/// first `k` logical positions, one after the other.
pub open spec fn axpy_spec<T: Rank1>(
    alpha: T,
    x: Seq<T>,
    incx: int,
    y: Seq<T>,
    incy: int,
    n: nat,
    k: nat,
) -> Seq<T>
    decreases k,
{
    if k == 0 {
        y
    } else {
        let prev = axpy_spec(alpha, x, incx, y, incy, n, (k - 1) as nat);
        let ox = strided_offset(n, incx, k - 1);
        let oy = strided_offset(n, incy, k - 1);
        prev.update(oy, alpha.mul_spec(x[ox]).add_spec(prev[oy]))
    }
}

/// One pair of elements under the plane rotation `(c, s)`: the first
/// becomes `c * x + s * y`, the second `-s * x + c * y`, both from the
/// values before the rotation.
pub open spec fn rot_pair<T: Rank1>(c: T, s: T, xv: T, yv: T) -> (T, T) {
    (
        c.mul_spec(xv).add_spec(s.mul_spec(yv)),
        s.neg_spec().mul_spec(xv).add_spec(c.mul_spec(yv)),
    )
}

/// Both buffers after the first `k` pairs were rotated, one after the other.
pub open spec fn rot_spec<T: Rank1>(
    x: Seq<T>,
    incx: int,
    y: Seq<T>,
    incy: int,
    n: nat,
    c: T,
    s: T,
    k: nat,
) -> (Seq<T>, Seq<T>)
    decreases k,
{
    if k == 0 {
        (x, y)
    } else {
        let prev = rot_spec(x, incx, y, incy, n, c, s, (k - 1) as nat);
        let ox = strided_offset(n, incx, k - 1);
        let oy = strided_offset(n, incy, k - 1);
        let pair = rot_pair(c, s, prev.0[ox], prev.1[oy]);
        (prev.0.update(ox, pair.0), prev.1.update(oy, pair.1))
    }
}

/// The four transforms that a modified rotation can select.
#[derive(Clone, Copy, Debug, PartialEq, Eq, Structural)]
pub enum RotmFlag {
    /// All four entries of the matrix are taken from the parameters.
    Full,
    /// The diagonal is one; the off-diagonal entries are parameters.
    UnitDiagonal,
    /// The anti-diagonal is `1, -1`; the diagonal entries are parameters.
    UnitAntiDiagonal,
    /// The identity: nothing changes.
    Identity,
}

/// The transform that a flag value selects: `-1`, `0`, `1` and `-2` select
/// one each, every other value selects none.
pub open spec fn rotm_flag_spec<T: Rank1>(flag: T) -> Option<RotmFlag> {
    if flag.eq_spec(T::from_i8_spec(-1i8)) {
        Some(RotmFlag::Full)
    } else if flag.eq_spec(T::from_i8_spec(0i8)) {
        Some(RotmFlag::UnitDiagonal)
    } else if flag.eq_spec(T::from_i8_spec(1i8)) {
        Some(RotmFlag::UnitAntiDiagonal)
    } else if flag.eq_spec(T::from_i8_spec(-2i8)) {
        Some(RotmFlag::Identity)
    } else {
        None
    }
}

/// One pair of elements under the modified rotation that `flag` selects,
/// with matrix entries `h11 = param[1]`, `h21 = param[2]`, `h12 = param[3]`
/// and `h22 = param[4]`.
pub open spec fn rotm_pair<T: Rank1>(flag: RotmFlag, param: Seq<T>, xv: T, yv: T) -> (T, T) {
    match flag {
        RotmFlag::Full => (
            param[1].mul_spec(xv).add_spec(param[3].mul_spec(yv)),
            param[2].mul_spec(xv).add_spec(param[4].mul_spec(yv)),
        ),
        RotmFlag::UnitDiagonal => (
            xv.add_spec(param[3].mul_spec(yv)),
            param[2].mul_spec(xv).add_spec(yv),
        ),
        RotmFlag::UnitAntiDiagonal => (
            param[1].mul_spec(xv).add_spec(yv),
            xv.neg_spec().add_spec(param[4].mul_spec(yv)),
        ),
        RotmFlag::Identity => (xv, yv),
    }
}

/// Both buffers after the first `k` pairs went through the modified
/// rotation, one after the other.
pub open spec fn rotm_spec<T: Rank1>(
    x: Seq<T>,
    incx: int,
    y: Seq<T>,
    incy: int,
    n: nat,
    flag: RotmFlag,
    param: Seq<T>,
    k: nat,
) -> (Seq<T>, Seq<T>)
    decreases k,
{
    if k == 0 {
        (x, y)
    } else {
        let prev = rotm_spec(x, incx, y, incy, n, flag, param, (k - 1) as nat);
        let ox = strided_offset(n, incx, k - 1);
        let oy = strided_offset(n, incy, k - 1);
        let pair = rotm_pair(flag, param, prev.0[ox], prev.1[oy]);
        (prev.0.update(ox, pair.0), prev.1.update(oy, pair.1))
    }
}

/// What constructing a plane rotation from `a` and `b` yields, as
/// `(a', b', c, s)`.
///
/// With `r = sqrt(a * a + b * b)`: `c = a / r`, `s = b / r`, `a' = r`, and
/// `b'` is `s` where `|a| > |b|`, else `1 / c` where `c` is not zero, else
/// one. Where `r` compares equal to zero nothing is divided: the rotation
/// is the identity, `c = 1` and `s = 0`, and `a' = r`, `b' = 0`.
pub open spec fn rotg_spec<T: Rank1>(a: T, b: T) -> (T, T, T, T) {
    let r = a.mul_spec(a).add_spec(b.mul_spec(b)).sqrt_spec();
    if r.eq_spec(T::zero_spec()) {
        (r, T::zero_spec(), T::one_spec(), T::zero_spec())
    } else {
        let c = a.div_spec(r);
        let s = b.div_spec(r);
        let z = if a.abs_spec().gt_spec(b.abs_spec()) {
            s
        } else if !c.eq_spec(T::zero_spec()) {
            T::one_spec().div_spec(c)
        } else {
            T::one_spec()
        };
        (r, z, c, s)
    }
}

/// Sums the absolute values of the `n` strided elements of `x`.
pub fn asum<T: Rank1>(n: usize, x: &[T], incx: i64, result: &mut T)
    requires
        vector_fits(x@.len(), n as nat, incx as int),
    ensures
        *final(result) == asum_spec(x@, n as nat, incx as int, n as nat),
{
    *result = T::zero();
    let mut itrx = offsets_in(n, incx, x.len());
    let mut i: usize = 0;
    while i < n
        invariant
            i <= n,
            itrx.wf(),
            itrx.count() == n,
            itrx.stride() == incx,
            itrx.position() == i,
            vector_fits(x@.len(), n as nat, incx as int),
            *result == asum_spec(x@, n as nat, incx as int, i as nat),
        decreases n - i,
    {
        proof {
            lemma_offset_in_span(n as nat, incx as int, i as int);
        }
        match itrx.next() {
            Some(idx) => {
                *result = result.plus(x[idx].abs());
            },
            None => {},
        }
        i = i + 1;
    }
}

/// `y[i] := alpha * x[i] + y[i]` for each logical position.
pub fn axpy<T: Rank1>(n: usize, alpha: T, x: &[T], incx: i64, y: &mut [T], incy: i64)
    requires
        vector_fits(x@.len(), n as nat, incx as int),
        vector_fits(old(y)@.len(), n as nat, incy as int),
    ensures
        final(y)@ == axpy_spec(alpha, x@, incx as int, old(y)@, incy as int, n as nat, n as nat),
        final(y)@.len() == old(y)@.len(),
{
    let ghost y0 = y@;
    let mut itrx = offsets_in(n, incx, x.len());
    let mut itry = offsets_in(n, incy, y.len());
    let mut i: usize = 0;
    while i < n
        invariant
            i <= n,
            itrx.wf(),
            itry.wf(),
            itrx.count() == n,
            itry.count() == n,
            itrx.stride() == incx,
            itry.stride() == incy,
            itrx.position() == i,
            itry.position() == i,
            y@.len() == y0.len(),
            vector_fits(x@.len(), n as nat, incx as int),
            vector_fits(y0.len(), n as nat, incy as int),
            y@ == axpy_spec(alpha, x@, incx as int, y0, incy as int, n as nat, i as nat),
        decreases n - i,
    {
        proof {
            lemma_offset_in_span(n as nat, incx as int, i as int);
            lemma_offset_in_span(n as nat, incy as int, i as int);
        }
        match (itrx.next(), itry.next()) {
            (Some(idx), Some(idy)) => {
                y[idy] = alpha.times(x[idx]).plus(y[idy]);
            },
            _ => {},
        }
        i = i + 1;
    }
}

/// Accumulates the products of the paired elements onto `init`.
fn dot_from<T: Rank1>(init: T, n: usize, x: &[T], incx: i64, y: &[T], incy: i64) -> (sum: T)
    requires
        vector_fits(x@.len(), n as nat, incx as int),
        vector_fits(y@.len(), n as nat, incy as int),
    ensures
        sum == dot_spec(init, x@, incx as int, y@, incy as int, n as nat, n as nat),
{
    let mut sum = init;
    let mut itrx = offsets_in(n, incx, x.len());
    let mut itry = offsets_in(n, incy, y.len());
    let mut i: usize = 0;
    while i < n
        invariant
            i <= n,
            itrx.wf(),
            itry.wf(),
            itrx.count() == n,
            itry.count() == n,
            itrx.stride() == incx,
            itry.stride() == incy,
            itrx.position() == i,
            itry.position() == i,
            vector_fits(x@.len(), n as nat, incx as int),
            vector_fits(y@.len(), n as nat, incy as int),
            sum == dot_spec(init, x@, incx as int, y@, incy as int, n as nat, i as nat),
        decreases n - i,
    {
        proof {
            lemma_offset_in_span(n as nat, incx as int, i as int);
            lemma_offset_in_span(n as nat, incy as int, i as int);
        }
        match (itrx.next(), itry.next()) {
            (Some(idx), Some(idy)) => {
                sum = sum.plus(x[idx].times(y[idy]));
            },
            _ => {},
        }
        i = i + 1;
    }
    sum
}

/// The inner product of two strided vectors, accumulated from zero.
pub fn dot<T: Rank1>(n: usize, x: &[T], incx: i64, y: &mut [T], incy: i64, result: &mut T)
    requires
        vector_fits(x@.len(), n as nat, incx as int),
        vector_fits(old(y)@.len(), n as nat, incy as int),
    ensures
        *final(result) == dot_spec(
            T::zero_spec(),
            x@,
            incx as int,
            old(y)@,
            incy as int,
            n as nat,
            n as nat,
        ),
        final(y)@ == old(y)@,
{
    *result = dot_from(T::zero(), n, x, incx, y, incy);
}

/// The inner product of two strided vectors, accumulated from the bias `sb`.
pub fn sdsdot<T: Rank1>(
    n: usize,
    sb: T,
    x: &[T],
    incx: i64,
    y: &mut [T],
    incy: i64,
    result: &mut T,
)
    requires
        vector_fits(x@.len(), n as nat, incx as int),
        vector_fits(old(y)@.len(), n as nat, incy as int),
    ensures
        *final(result) == dot_spec(sb, x@, incx as int, old(y)@, incy as int, n as nat, n as nat),
        final(y)@ == old(y)@,
{
    *result = dot_from(sb, n, x, incx, y, incy);
}

/// The Euclidean norm of a strided vector: the square root of its inner
/// product with itself.
pub fn nrm2<T: Rank1>(n: usize, x: &[T], incx: i64, result: &mut T)
    requires
        vector_fits(x@.len(), n as nat, incx as int),
    ensures
        *final(result) == dot_spec(
            T::zero_spec(),
            x@,
            incx as int,
            x@,
            incx as int,
            n as nat,
            n as nat,
        ).sqrt_spec(),
{
    let sum = dot_from(T::zero(), n, x, incx, x, incx);
    *result = sum.sqrt();
}

/// Applies the plane rotation `(c, s)` to each pair of elements in place.
pub fn rot<T: Rank1>(n: usize, x: &mut [T], incx: i64, y: &mut [T], incy: i64, c: T, s: T)
    requires
        vector_fits(old(x)@.len(), n as nat, incx as int),
        vector_fits(old(y)@.len(), n as nat, incy as int),
    ensures
        (final(x)@, final(y)@) == rot_spec(
            old(x)@,
            incx as int,
            old(y)@,
            incy as int,
            n as nat,
            c,
            s,
            n as nat,
        ),
        final(x)@.len() == old(x)@.len(),
        final(y)@.len() == old(y)@.len(),
{
    let ghost x0 = x@;
    let ghost y0 = y@;
    let mut itrx = offsets_in(n, incx, x.len());
    let mut itry = offsets_in(n, incy, y.len());
    let mut i: usize = 0;
    while i < n
        invariant
            i <= n,
            itrx.wf(),
            itry.wf(),
            itrx.count() == n,
            itry.count() == n,
            itrx.stride() == incx,
            itry.stride() == incy,
            itrx.position() == i,
            itry.position() == i,
            x@.len() == x0.len(),
            y@.len() == y0.len(),
            vector_fits(x0.len(), n as nat, incx as int),
            vector_fits(y0.len(), n as nat, incy as int),
            (x@, y@) == rot_spec(x0, incx as int, y0, incy as int, n as nat, c, s, i as nat),
        decreases n - i,
    {
        proof {
            lemma_offset_in_span(n as nat, incx as int, i as int);
            lemma_offset_in_span(n as nat, incy as int, i as int);
        }
        match (itrx.next(), itry.next()) {
            (Some(idx), Some(idy)) => {
                let x_tmp = c.times(x[idx]).plus(s.times(y[idy]));
                let y_tmp = s.negated().times(x[idx]).plus(c.times(y[idy]));
                x[idx] = x_tmp;
                y[idy] = y_tmp;
            },
            _ => {},
        }
        i = i + 1;
    }
}

/// Constructs a plane rotation from `a` and `b`: the radius goes to `a`,
/// the reconstruction parameter to `b`, the rotation to `c` and `s`.
pub fn rotg<T: Rank1>(a: &mut T, b: &mut T, c: &mut T, s: &mut T)
    ensures
        (*final(a), *final(b), *final(c), *final(s)) == rotg_spec(*old(a), *old(b)),
{
    let r = a.times(*a).plus(b.times(*b)).sqrt();
    if r.equals(T::zero()) {
        *c = T::one();
        *s = T::zero();
        *b = T::zero();
    } else {
        *c = a.over(r);
        *s = b.over(r);
        if a.abs().greater(b.abs()) {
            *b = *s;
        } else if !c.equals(T::zero()) {
            *b = T::one().over(*c);
        } else {
            *b = T::one();
        }
    }
    *a = r;
}

/// Reads the transform that a flag value selects, if it selects one.
pub fn rotm_flag<T: Rank1>(flag: T) -> (r: Option<RotmFlag>)
    ensures
        r == rotm_flag_spec(flag),
{
    if flag.equals(T::from_i8(-1)) {
        Some(RotmFlag::Full)
    } else if flag.equals(T::from_i8(0)) {
        Some(RotmFlag::UnitDiagonal)
    } else if flag.equals(T::from_i8(1)) {
        Some(RotmFlag::UnitAntiDiagonal)
    } else if flag.equals(T::from_i8(-2)) {
        Some(RotmFlag::Identity)
    } else {
        None
    }
}

/// One pair of elements under the modified rotation that `flag` selects.
pub fn rotm_apply<T: Rank1>(flag: RotmFlag, param: &[T; 5], xv: T, yv: T) -> (r: (T, T))
    ensures
        r == rotm_pair(flag, param@, xv, yv),
{
    match flag {
        RotmFlag::Full => (
            param[1].times(xv).plus(param[3].times(yv)),
            param[2].times(xv).plus(param[4].times(yv)),
        ),
        RotmFlag::UnitDiagonal => (xv.plus(param[3].times(yv)), param[2].times(xv).plus(yv)),
        RotmFlag::UnitAntiDiagonal => (
            param[1].times(xv).plus(yv),
            xv.negated().plus(param[4].times(yv)),
        ),
        RotmFlag::Identity => (xv, yv),
    }
}

/// Applies the modified rotation that `param[0]` selects to each pair of
/// elements in place. The flag must select a transform.
pub fn rotm<T: Rank1>(n: usize, x: &mut [T], incx: i64, y: &mut [T], incy: i64, param: &[T; 5])
    requires
        vector_fits(old(x)@.len(), n as nat, incx as int),
        vector_fits(old(y)@.len(), n as nat, incy as int),
        rotm_flag_spec(param@[0]) is Some,
    ensures
        (final(x)@, final(y)@) == rotm_spec(
            old(x)@,
            incx as int,
            old(y)@,
            incy as int,
            n as nat,
            rotm_flag_spec(param@[0]).unwrap(),
            param@,
            n as nat,
        ),
        final(x)@.len() == old(x)@.len(),
        final(y)@.len() == old(y)@.len(),
        rotm_flag_spec(param@[0]) == Some(RotmFlag::Identity) ==> final(x)@ == old(x)@,
        rotm_flag_spec(param@[0]) == Some(RotmFlag::Identity) ==> final(y)@ == old(y)@,
{
    let ghost x0 = x@;
    let ghost y0 = y@;
    let flag = match rotm_flag(param[0]) {
        Some(f) => f,
        None => RotmFlag::Identity,
    };
    let mut itrx = offsets_in(n, incx, x.len());
    let mut itry = offsets_in(n, incy, y.len());
    let mut i: usize = 0;
    while i < n
        invariant
            i <= n,
            itrx.wf(),
            itry.wf(),
            itrx.count() == n,
            itry.count() == n,
            itrx.stride() == incx,
            itry.stride() == incy,
            itrx.position() == i,
            itry.position() == i,
            x@.len() == x0.len(),
            y@.len() == y0.len(),
            vector_fits(x0.len(), n as nat, incx as int),
            vector_fits(y0.len(), n as nat, incy as int),
            (x@, y@) == rotm_spec(
                x0,
                incx as int,
                y0,
                incy as int,
                n as nat,
                flag,
                param@,
                i as nat,
            ),
        decreases n - i,
    {
        proof {
            lemma_offset_in_span(n as nat, incx as int, i as int);
            lemma_offset_in_span(n as nat, incy as int, i as int);
        }
        match (itrx.next(), itry.next()) {
            (Some(idx), Some(idy)) => {
                let pair = rotm_apply(flag, param, x[idx], y[idy]);
                x[idx] = pair.0;
                y[idy] = pair.1;
            },
            _ => {},
        }
        i = i + 1;
    }
    proof {
        if flag == RotmFlag::Identity {
            lemma_rotm_identity(x0, incx as int, y0, incy as int, n as nat, param@, n as nat);
        }
    }
}

impl<T: Rank1> LV1<T, T> for T {
    open spec fn axpy_done(
        tag: Option<T>,
        alpha: T,
        x: Seq<T>,
        incx: int,
        y: Seq<T>,
        incy: int,
        n: nat,
        after: Seq<T>,
        r: Result<(), KernelError>,
    ) -> bool {
        r is Ok && after == axpy_spec(alpha, x, incx, y, incy, n, n)
    }

    open spec fn copy_done(
        tag: Option<T>,
        x: Seq<T>,
        incx: int,
        y: Seq<T>,
        incy: int,
        n: nat,
        after: Seq<T>,
        r: Result<(), KernelError>,
    ) -> bool {
        r is Ok && after == copy_spec(x, n, incx, y, n, incy, n)
    }

    open spec fn rotg_done(
        tag: Option<T>,
        before: (T, T, T, T),
        after: (T, T, T, T),
        r: Result<(), KernelError>,
    ) -> bool {
        r is Ok && after == rotg_spec(before.0, before.1)
    }

    open spec fn rotm_done(
        tag: Option<T>,
        x: Seq<T>,
        incx: int,
        y: Seq<T>,
        incy: int,
        n: nat,
        param: Seq<T>,
        after: (Seq<T>, Seq<T>),
        r: Result<(), KernelError>,
    ) -> bool {
        match rotm_flag_spec(param[0]) {
            Some(flag) => r is Ok && after == rotm_spec(x, incx, y, incy, n, flag, param, n),
            None => r == Err::<(), KernelError>(KernelError::UnknownFlag) && after == (x, y),
        }
    }

    open spec fn rotmg_done(
        tag: Option<T>,
        before: (T, T, T),
        after: (T, T, T),
        r: Result<(), KernelError>,
    ) -> bool {
        r == Err::<(), KernelError>(KernelError::NotImplemented) && after == before
    }

    /// The sum of the absolute values, from zero.
    fn asum(
        n: usize,
        x: &[T],
        incx: i64,
        result: &mut T,
    ) -> (r: Result<(), KernelError>)
        ensures
            r is Ok,
            *final(result) == asum_spec(x@, n as nat, incx as int, n as nat),
    {
        asum(n, x, incx, result);
        Ok(())
    }

    /// `y[i] := alpha * x[i] + y[i]` for each logical position.
    fn axpy(
        n: usize,
        alpha: T,
        x: &[T],
        incx: i64,
        y: &mut [T],
        incy: i64,
    ) -> (r: Result<(), KernelError>)
    {
        axpy(n, alpha, x, incx, y, incy);
        Ok(())
    }

    /// `y[i] := x[i]` for each logical position.
    fn copy(
        n: usize,
        x: &[T],
        incx: i64,
        y: &mut [T],
        incy: i64,
    ) -> (r: Result<(), KernelError>)
    {
        copy(n, x, incx, y, incy);
        Ok(())
    }

    /// The inner product, from zero.
    fn dot(
        n: usize,
        x: &[T],
        incx: i64,
        y: &mut [T],
        incy: i64,
        result: &mut T,
    ) -> (r: Result<(), KernelError>)
        ensures
            r is Ok,
            *final(result) == dot_spec(
                T::zero_spec(),
                x@,
                incx as int,
                old(y)@,
                incy as int,
                n as nat,
                n as nat,
            ),
    {
        dot(n, x, incx, y, incy, result);
        Ok(())
    }

    /// The inner product, from the bias `sb`.
    fn sdsdot(
        n: usize,
        sb: T,
        x: &[T],
        incx: i64,
        y: &mut [T],
        incy: i64,
        result: &mut T,
    ) -> (r: Result<(), KernelError>)
        ensures
            r is Ok,
            *final(result) == dot_spec(
                sb,
                x@,
                incx as int,
                old(y)@,
                incy as int,
                n as nat,
                n as nat,
            ),
    {
        sdsdot(n, sb, x, incx, y, incy, result);
        Ok(())
    }

    /// `dotc` is defined for complex scalars only.
    fn dotc(
        n: usize,
        x: &[T],
        incx: i64,
        y: &mut [T],
        incy: i64,
        result: &mut T,
    ) -> (r: Result<(), KernelError>)
        ensures
            r == Err::<(), KernelError>(KernelError::Undefined),
            *final(result) == *old(result),
    {
        Err(KernelError::Undefined)
    }

    /// `dotu` is defined for complex scalars only.
    fn dotu(
        n: usize,
        x: &[T],
        incx: i64,
        y: &mut [T],
        incy: i64,
        result: &mut T,
    ) -> (r: Result<(), KernelError>)
        ensures
            r == Err::<(), KernelError>(KernelError::Undefined),
            *final(result) == *old(result),
    {
        Err(KernelError::Undefined)
    }

    /// The square root of the inner product of `x` with itself.
    fn nrm2(
        n: usize,
        x: &[T],
        incx: i64,
        result: &mut T,
    ) -> (r: Result<(), KernelError>)
        ensures
            r is Ok,
            *final(result) == dot_spec(
                T::zero_spec(),
                x@,
                incx as int,
                x@,
                incx as int,
                n as nat,
                n as nat,
            ).sqrt_spec(),
    {
        nrm2(n, x, incx, result);
        Ok(())
    }

    /// The plane rotation `(c, s)` of each pair of elements.
    fn rot(
        n: usize,
        x: &mut [T],
        incx: i64,
        y: &mut [T],
        incy: i64,
        c: T,
        s: T,
    ) -> (r: Result<(), KernelError>)
        ensures
            r is Ok,
            (final(x)@, final(y)@) == rot_spec(
                old(x)@,
                incx as int,
                old(y)@,
                incy as int,
                n as nat,
                c,
                s,
                n as nat,
            ),
    {
        rot(n, x, incx, y, incy, c, s);
        Ok(())
    }

    /// The rotation constructed from `a` and `b`.
    fn rotg(
        a: &mut T,
        b: &mut T,
        c: &mut T,
        s: &mut T,
    ) -> (r: Result<(), KernelError>)
    {
        rotg(a, b, c, s);
        Ok(())
    }

    /// The modified rotation that `param[0]` selects, of each pair of
    /// elements; a flag that selects none is an error and changes nothing.
    fn rotm(
        n: usize,
        x: &mut [T],
        incx: i64,
        y: &mut [T],
        incy: i64,
        param: &[T; 5],
    ) -> (r: Result<(), KernelError>)
    {
        match rotm_flag(param[0]) {
            Some(_) => {
                rotm(n, x, incx, y, incy, param);
                Ok(())
            },
            None => Err(KernelError::UnknownFlag),
        }
    }

    /// Constructing a modified rotation is not implemented.
    fn rotmg(
        d1: &mut T,
        d2: &mut T,
        x1: &mut T,
        y1: &T,
        param: &[T; 5],
    ) -> (r: Result<(), KernelError>)
    {
        Err(KernelError::NotImplemented)
    }
}

/// The identity flag changes nothing: whatever the strides and the other
/// parameters, both buffers come out as they went in.
pub proof fn lemma_rotm_identity<T: Rank1>(
    x: Seq<T>,
    incx: int,
    y: Seq<T>,
    incy: int,
    n: nat,
    param: Seq<T>,
    k: nat,
)
    requires
        k <= n,
        vector_fits(x.len(), n, incx),
        vector_fits(y.len(), n, incy),
    ensures
        rotm_spec(x, incx, y, incy, n, RotmFlag::Identity, param, k) == (x, y),
    decreases k,
{
    if k > 0 {
        lemma_rotm_identity(x, incx, y, incy, n, param, (k - 1) as nat);
        lemma_offset_in_span(n, incx, k - 1);
        lemma_offset_in_span(n, incy, k - 1);
        let ox = strided_offset(n, incx, k - 1);
        let oy = strided_offset(n, incy, k - 1);
        assert(x.update(ox, x[ox]) =~= x);
        assert(y.update(oy, y[oy]) =~= y);
    }
}

/// Where multiplication commutes, as it does for real scalars, the inner
/// product does not depend on the order of its two vectors.
pub proof fn lemma_dot_symmetric<T: Rank1>(
    init: T,
    x: Seq<T>,
    incx: int,
    y: Seq<T>,
    incy: int,
    n: nat,
    k: nat,
)
    requires
        forall|a: T, b: T| #[trigger] a.mul_spec(b) == b.mul_spec(a),
    ensures
        dot_spec(init, x, incx, y, incy, n, k) == dot_spec(init, y, incy, x, incx, n, k),
    decreases k,
{
    if k > 0 {
        lemma_dot_symmetric(init, x, incx, y, incy, n, (k - 1) as nat);
    }
}

/// Where the target's stride is not zero (or there is at most one
/// element), each logical position is updated once and from its own old
/// value: after `k` steps position `i` below `k` holds
/// `alpha * x[i] + y[i]`, and every later position still holds `y[i]`.
pub proof fn lemma_axpy_pointwise<T: Rank1>(
    alpha: T,
    x: Seq<T>,
    incx: int,
    y: Seq<T>,
    incy: int,
    n: nat,
    k: nat,
)
    requires
        k <= n,
        vector_fits(y.len(), n, incy),
        n <= 1 || incy != 0,
    ensures
        axpy_spec(alpha, x, incx, y, incy, n, k).len() == y.len(),
        forall|i: int|
            0 <= i < k ==> #[trigger] axpy_spec(alpha, x, incx, y, incy, n, k)[strided_offset(
                n,
                incy,
                i,
            )] == alpha.mul_spec(x[strided_offset(n, incx, i)]).add_spec(
                y[strided_offset(n, incy, i)],
            ),
        forall|i: int|
            k <= i < n ==> #[trigger] axpy_spec(alpha, x, incx, y, incy, n, k)[strided_offset(
                n,
                incy,
                i,
            )] == y[strided_offset(n, incy, i)],
    decreases k,
{
    if k > 0 {
        lemma_axpy_pointwise(alpha, x, incx, y, incy, n, (k - 1) as nat);
        lemma_offset_in_span(n, incy, k - 1);
        assert forall|i: int| 0 <= i < n implies #[trigger] strided_offset(n, incy, i)
            != strided_offset(n, incy, k - 1) || i == k - 1 by {
            if i != k - 1 {
                lemma_offsets_distinct(n, incy, i, k - 1);
            }
        }
        assert forall|i: int| 0 <= i < n implies 0 <= #[trigger] strided_offset(n, incy, i)
            < y.len() by {
            lemma_offset_in_span(n, incy, i);
        }
    }
}

/// Where neither stride is zero (or there is at most one element), each
/// pair is rotated once and from its own old values: after the whole
/// rotation position `i` holds `c * x[i] + s * y[i]` in the first buffer
/// and `-s * x[i] + c * y[i]` in the second.
pub proof fn lemma_rot_pointwise<T: Rank1>(
    x: Seq<T>,
    incx: int,
    y: Seq<T>,
    incy: int,
    n: nat,
    c: T,
    s: T,
    k: nat,
)
    requires
        k <= n,
        vector_fits(x.len(), n, incx),
        vector_fits(y.len(), n, incy),
        n <= 1 || (incx != 0 && incy != 0),
    ensures
        rot_spec(x, incx, y, incy, n, c, s, k).0.len() == x.len(),
        rot_spec(x, incx, y, incy, n, c, s, k).1.len() == y.len(),
        forall|i: int|
            0 <= i < k ==> #[trigger] rot_spec(x, incx, y, incy, n, c, s, k).0[strided_offset(
                n,
                incx,
                i,
            )] == rot_pair(c, s, x[strided_offset(n, incx, i)], y[strided_offset(n, incy, i)]).0,
        forall|i: int|
            0 <= i < k ==> #[trigger] rot_spec(x, incx, y, incy, n, c, s, k).1[strided_offset(
                n,
                incy,
                i,
            )] == rot_pair(c, s, x[strided_offset(n, incx, i)], y[strided_offset(n, incy, i)]).1,
        forall|i: int|
            k <= i < n ==> #[trigger] rot_spec(x, incx, y, incy, n, c, s, k).0[strided_offset(
                n,
                incx,
                i,
            )] == x[strided_offset(n, incx, i)],
        forall|i: int|
            k <= i < n ==> #[trigger] rot_spec(x, incx, y, incy, n, c, s, k).1[strided_offset(
                n,
                incy,
                i,
            )] == y[strided_offset(n, incy, i)],
    decreases k,
{
    if k > 0 {
        lemma_rot_pointwise(x, incx, y, incy, n, c, s, (k - 1) as nat);
        assert forall|i: int| 0 <= i < n implies #[trigger] strided_offset(n, incx, i)
            != strided_offset(n, incx, k - 1) || i == k - 1 by {
            if i != k - 1 {
                lemma_offsets_distinct(n, incx, i, k - 1);
            }
        }
        assert forall|i: int| 0 <= i < n implies #[trigger] strided_offset(n, incy, i)
            != strided_offset(n, incy, k - 1) || i == k - 1 by {
            if i != k - 1 {
                lemma_offsets_distinct(n, incy, i, k - 1);
            }
        }
        assert forall|i: int| 0 <= i < n implies 0 <= #[trigger] strided_offset(n, incx, i)
            < x.len() by {
            lemma_offset_in_span(n, incx, i);
        }
        assert forall|i: int| 0 <= i < n implies 0 <= #[trigger] strided_offset(n, incy, i)
            < y.len() by {
            lemma_offset_in_span(n, incy, i);
        }
    }
}

/// A rotation that leaves every pair of scalars as it is leaves both
/// vectors as they are, whatever the strides.
pub proof fn lemma_rot_fixed_pairs<T: Rank1>(
    x: Seq<T>,
    incx: int,
    y: Seq<T>,
    incy: int,
    n: nat,
    c: T,
    s: T,
    k: nat,
)
    requires
        k <= n,
        vector_fits(x.len(), n, incx),
        vector_fits(y.len(), n, incy),
        forall|xv: T, yv: T| #[trigger] rot_pair(c, s, xv, yv) == (xv, yv),
    ensures
        rot_spec(x, incx, y, incy, n, c, s, k) == (x, y),
    decreases k,
{
    if k > 0 {
        lemma_rot_fixed_pairs(x, incx, y, incy, n, c, s, (k - 1) as nat);
        lemma_offset_in_span(n, incx, k - 1);
        lemma_offset_in_span(n, incy, k - 1);
        let ox = strided_offset(n, incx, k - 1);
        let oy = strided_offset(n, incy, k - 1);
        assert(rot_pair(c, s, x[ox], y[oy]) == (x[ox], y[oy]));
        assert(x.update(ox, x[ox]) =~= x);
        assert(y.update(oy, y[oy]) =~= y);
    }
}

/// Where neither stride is zero (or there is at most one element), each
/// pair goes through the modified rotation once and from its own old
/// values: after `k` steps position `i` below `k` holds in either buffer
/// its part of `rotm_pair` of the old pair, and every later position is as
/// it was.
pub proof fn lemma_rotm_pointwise<T: Rank1>(
    x: Seq<T>,
    incx: int,
    y: Seq<T>,
    incy: int,
    n: nat,
    flag: RotmFlag,
    param: Seq<T>,
    k: nat,
)
    requires
        k <= n,
        vector_fits(x.len(), n, incx),
        vector_fits(y.len(), n, incy),
        n <= 1 || (incx != 0 && incy != 0),
    ensures
        rotm_spec(x, incx, y, incy, n, flag, param, k).0.len() == x.len(),
        rotm_spec(x, incx, y, incy, n, flag, param, k).1.len() == y.len(),
        forall|i: int|
            0 <= i < k ==> #[trigger] rotm_spec(x, incx, y, incy, n, flag, param, k).0[strided_offset(
                n,
                incx,
                i,
            )] == rotm_pair(flag, param, x[strided_offset(n, incx, i)], y[strided_offset(n, incy, i)]).0,
        forall|i: int|
            0 <= i < k ==> #[trigger] rotm_spec(x, incx, y, incy, n, flag, param, k).1[strided_offset(
                n,
                incy,
                i,
            )] == rotm_pair(flag, param, x[strided_offset(n, incx, i)], y[strided_offset(n, incy, i)]).1,
        forall|i: int|
            k <= i < n ==> #[trigger] rotm_spec(x, incx, y, incy, n, flag, param, k).0[strided_offset(
                n,
                incx,
                i,
            )] == x[strided_offset(n, incx, i)],
        forall|i: int|
            k <= i < n ==> #[trigger] rotm_spec(x, incx, y, incy, n, flag, param, k).1[strided_offset(
                n,
                incy,
                i,
            )] == y[strided_offset(n, incy, i)],
    decreases k,
{
    if k > 0 {
        lemma_rotm_pointwise(x, incx, y, incy, n, flag, param, (k - 1) as nat);
        assert forall|i: int| 0 <= i < n implies #[trigger] strided_offset(n, incx, i)
            != strided_offset(n, incx, k - 1) || i == k - 1 by {
            if i != k - 1 {
                lemma_offsets_distinct(n, incx, i, k - 1);
            }
        }
        assert forall|i: int| 0 <= i < n implies #[trigger] strided_offset(n, incy, i)
            != strided_offset(n, incy, k - 1) || i == k - 1 by {
            if i != k - 1 {
                lemma_offsets_distinct(n, incy, i, k - 1);
            }
        }
        assert forall|i: int| 0 <= i < n implies 0 <= #[trigger] strided_offset(n, incx, i)
            < x.len() by {
            lemma_offset_in_span(n, incx, i);
        }
        assert forall|i: int| 0 <= i < n implies 0 <= #[trigger] strided_offset(n, incy, i)
            < y.len() by {
            lemma_offset_in_span(n, incy, i);
        }
    }
}

/// A place of the target that is the offset of no logical position keeps
/// its value, whatever the strides.
pub proof fn lemma_axpy_frame<T: Rank1>(
    alpha: T,
    x: Seq<T>,
    incx: int,
    y: Seq<T>,
    incy: int,
    n: nat,
    k: nat,
    p: int,
)
    requires
        k <= n,
        vector_fits(y.len(), n, incy),
        0 <= p < y.len(),
        forall|i: int| 0 <= i < k ==> #[trigger] strided_offset(n, incy, i) != p,
    ensures
        axpy_spec(alpha, x, incx, y, incy, n, k).len() == y.len(),
        axpy_spec(alpha, x, incx, y, incy, n, k)[p] == y[p],
    decreases k,
{
    if k > 0 {
        lemma_axpy_frame(alpha, x, incx, y, incy, n, (k - 1) as nat, p);
        lemma_offset_in_span(n, incy, k - 1);
        assert(strided_offset(n, incy, k - 1) != p);
    }
}

/// A place that is the offset of no logical position keeps its value, in
/// either buffer and whatever the strides.
pub proof fn lemma_rot_frame<T: Rank1>(
    x: Seq<T>,
    incx: int,
    y: Seq<T>,
    incy: int,
    n: nat,
    c: T,
    s: T,
    k: nat,
    px: int,
    py: int,
)
    requires
        k <= n,
        vector_fits(x.len(), n, incx),
        vector_fits(y.len(), n, incy),
        0 <= px < x.len(),
        0 <= py < y.len(),
        forall|i: int| 0 <= i < k ==> #[trigger] strided_offset(n, incx, i) != px,
        forall|i: int| 0 <= i < k ==> #[trigger] strided_offset(n, incy, i) != py,
    ensures
        rot_spec(x, incx, y, incy, n, c, s, k).0.len() == x.len(),
        rot_spec(x, incx, y, incy, n, c, s, k).1.len() == y.len(),
        rot_spec(x, incx, y, incy, n, c, s, k).0[px] == x[px],
        rot_spec(x, incx, y, incy, n, c, s, k).1[py] == y[py],
    decreases k,
{
    if k > 0 {
        lemma_rot_frame(x, incx, y, incy, n, c, s, (k - 1) as nat, px, py);
        lemma_offset_in_span(n, incx, k - 1);
        lemma_offset_in_span(n, incy, k - 1);
        assert(strided_offset(n, incx, k - 1) != px);
        assert(strided_offset(n, incy, k - 1) != py);
    }
}

/// A place that is the offset of no logical position keeps its value, in
/// either buffer and whatever the strides.
pub proof fn lemma_rotm_frame<T: Rank1>(
    x: Seq<T>,
    incx: int,
    y: Seq<T>,
    incy: int,
    n: nat,
    flag: RotmFlag,
    param: Seq<T>,
    k: nat,
    px: int,
    py: int,
)
    requires
        k <= n,
        vector_fits(x.len(), n, incx),
        vector_fits(y.len(), n, incy),
        0 <= px < x.len(),
        0 <= py < y.len(),
        forall|i: int| 0 <= i < k ==> #[trigger] strided_offset(n, incx, i) != px,
        forall|i: int| 0 <= i < k ==> #[trigger] strided_offset(n, incy, i) != py,
    ensures
        rotm_spec(x, incx, y, incy, n, flag, param, k).0.len() == x.len(),
        rotm_spec(x, incx, y, incy, n, flag, param, k).1.len() == y.len(),
        rotm_spec(x, incx, y, incy, n, flag, param, k).0[px] == x[px],
        rotm_spec(x, incx, y, incy, n, flag, param, k).1[py] == y[py],
    decreases k,
{
    if k > 0 {
        lemma_rotm_frame(x, incx, y, incy, n, flag, param, (k - 1) as nat, px, py);
        lemma_offset_in_span(n, incx, k - 1);
        lemma_offset_in_span(n, incy, k - 1);
        assert(strided_offset(n, incx, k - 1) != px);
        assert(strided_offset(n, incy, k - 1) != py);
    }
}

/// The scalar is not below zero.
pub open spec fn not_negative<T: Rank1>(v: T) -> bool {
    !T::zero_spec().gt_spec(v)
}

/// The scalar compares equal to zero.
pub open spec fn is_zero<T: Rank1>(v: T) -> bool {
    v.eq_spec(T::zero_spec())
}

/// The laws of an ordered scalar that the sign of a sum of magnitudes
/// rests on: zero is zero and not negative; a magnitude is not negative,
/// and zero exactly when its scalar is; a sum of two scalars that are not
/// negative is not negative, and zero exactly when both are.
pub open spec fn magnitudes_are_ordered<T: Rank1>() -> bool {
    &&& is_zero(T::zero_spec())
    &&& not_negative(T::zero_spec())
    &&& forall|v: T| not_negative(#[trigger] v.abs_spec())
    &&& forall|v: T| is_zero(#[trigger] v.abs_spec()) == is_zero(v)
    &&& forall|a: T, b: T|
        not_negative(a) && not_negative(b) ==> not_negative(#[trigger] a.add_spec(b))
    &&& forall|a: T, b: T|
        not_negative(a) && not_negative(b) ==> (is_zero(#[trigger] a.add_spec(b)) == (is_zero(a)
            && is_zero(b)))
}

/// For a scalar with those laws, the sum of magnitudes is not negative,
/// and it is zero exactly when every strided element is zero.
pub proof fn lemma_asum_sign<T: Rank1>(x: Seq<T>, n: nat, incx: int, k: nat)
    requires
        magnitudes_are_ordered::<T>(),
    ensures
        not_negative(asum_spec(x, n, incx, k)),
        is_zero(asum_spec(x, n, incx, k)) == (forall|i: int|
            0 <= i < k ==> is_zero(#[trigger] x[strided_offset(n, incx, i)])),
    decreases k,
{
    if k > 0 {
        lemma_asum_sign(x, n, incx, (k - 1) as nat);
        let prev = asum_spec(x, n, incx, (k - 1) as nat);
        let last = x[strided_offset(n, incx, k - 1)];
        assert(not_negative(last.abs_spec()));
        assert(is_zero(last.abs_spec()) == is_zero(last));
        assert(is_zero(prev.add_spec(last.abs_spec())) == (is_zero(prev) && is_zero(
            last.abs_spec(),
        )));
        if is_zero(asum_spec(x, n, incx, k)) {
            assert forall|i: int| 0 <= i < k implies is_zero(
                #[trigger] x[strided_offset(n, incx, i)],
            ) by {
                if i == k - 1 {
                } else {
                    assert(0 <= i < k - 1);
                }
            }
        }
    }
}

/// The Euclidean norm is the square root of the inner product of the
/// vector with itself; so for a scalar whose square root squares back, the
/// norm squared is that inner product.
pub proof fn lemma_nrm2_squares_to_dot<T: Rank1>(x: Seq<T>, incx: int, n: nat, norm: T, prod: T)
    requires
        norm == dot_spec(T::zero_spec(), x, incx, x, incx, n, n).sqrt_spec(),
        prod == dot_spec(T::zero_spec(), x, incx, x, incx, n, n),
    ensures
        norm == prod.sqrt_spec(),
        (forall|v: T| (#[trigger] v.sqrt_spec()).mul_spec(v.sqrt_spec()) == v) ==> norm.mul_spec(
            norm,
        ) == prod,
{
}

/// The laws of one and zero that make the rotation with `c = 1` and
/// `s = 0` the identity: one times a scalar is that scalar, zero times a
/// scalar is zero, zero added on either side changes nothing, and the
/// negation of zero is zero.
pub open spec fn one_and_zero_are_neutral<T: Rank1>() -> bool {
    &&& T::zero_spec().neg_spec() == T::zero_spec()
    &&& forall|v: T| #[trigger] T::one_spec().mul_spec(v) == v
    &&& forall|v: T| #[trigger] T::zero_spec().mul_spec(v) == T::zero_spec()
    &&& forall|v: T| #[trigger] v.add_spec(T::zero_spec()) == v
    &&& forall|v: T| #[trigger] T::zero_spec().add_spec(v) == v
}

/// For a scalar with those laws, rotating by `c = 1` and `s = 0` leaves
/// both vectors as they are.
pub proof fn lemma_rot_identity<T: Rank1>(x: Seq<T>, incx: int, y: Seq<T>, incy: int, n: nat)
    requires
        vector_fits(x.len(), n, incx),
        vector_fits(y.len(), n, incy),
        one_and_zero_are_neutral::<T>(),
    ensures
        rot_spec(x, incx, y, incy, n, T::one_spec(), T::zero_spec(), n) == (x, y),
{
    assert forall|xv: T, yv: T| #[trigger]
        rot_pair(T::one_spec(), T::zero_spec(), xv, yv) == (xv, yv) by {
        assert(T::one_spec().mul_spec(xv) == xv);
        assert(T::one_spec().mul_spec(yv) == yv);
        assert(T::zero_spec().mul_spec(yv) == T::zero_spec());
        assert(T::zero_spec().mul_spec(xv) == T::zero_spec());
        assert(xv.add_spec(T::zero_spec()) == xv);
        assert(T::zero_spec().add_spec(yv) == yv);
    }
    lemma_rot_fixed_pairs(x, incx, y, incy, n, T::one_spec(), T::zero_spec(), n);
}

} // verus!

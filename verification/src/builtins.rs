//! The scalar abstraction, the storage descriptors and the strided index
//! sequence that every kernel is driven by.

use vstd::prelude::*;

verus! {

/// A real scalar: the arithmetic that the vector kernels need.
///
/// Every operation has a mathematical counterpart (`*_spec`) that the
/// kernels' contracts are stated over. An implementation promises that each
/// executable operation returns exactly what its counterpart denotes; the
/// kernels are proved against that promise and add nothing to it. The
/// counterparts themselves are never run.
pub trait Rank1: Copy + Sized {
    /// The additive identity.
    spec fn zero_spec() -> Self;

    /// The multiplicative identity.
    spec fn one_spec() -> Self;

    /// The scalar that stands for a small integer.
    spec fn from_i8_spec(v: i8) -> Self;

    /// The sum of two scalars.
    spec fn add_spec(self, rhs: Self) -> Self;

    /// The difference of two scalars.
    spec fn sub_spec(self, rhs: Self) -> Self;

    /// The product of two scalars.
    spec fn mul_spec(self, rhs: Self) -> Self;

    /// The quotient of two scalars.
    spec fn div_spec(self, rhs: Self) -> Self;

    /// The additive inverse.
    spec fn neg_spec(self) -> Self;

    /// The absolute value.
    spec fn abs_spec(self) -> Self;

    /// The square root.
    spec fn sqrt_spec(self) -> Self;

    /// The principal square root of the complex number `re + i im`, as
    /// its real and imaginary part.
    spec fn complex_sqrt_spec(re: Self, im: Self) -> (Self, Self);

    /// Whether `self` is strictly greater than `rhs`.
    spec fn gt_spec(self, rhs: Self) -> bool;

    /// Whether the two scalars compare equal.
    spec fn eq_spec(self, rhs: Self) -> bool;

    /// The additive identity.
    fn zero() -> (r: Self)
        ensures
            r == Self::zero_spec(),
    ;

    /// The multiplicative identity.
    fn one() -> (r: Self)
        ensures
            r == Self::one_spec(),
    ;

    /// The scalar that stands for the small integer `v`.
    fn from_i8(v: i8) -> (r: Self)
        ensures
            r == Self::from_i8_spec(v),
    ;

    /// `self + rhs`.
    fn plus(self, rhs: Self) -> (r: Self)
        ensures
            r == self.add_spec(rhs),
    ;

    /// `self - rhs`.
    fn minus(self, rhs: Self) -> (r: Self)
        ensures
            r == self.sub_spec(rhs),
    ;

    /// `self * rhs`.
    fn times(self, rhs: Self) -> (r: Self)
        ensures
            r == self.mul_spec(rhs),
    ;

    /// `self / rhs`.
    fn over(self, rhs: Self) -> (r: Self)
        ensures
            r == self.div_spec(rhs),
    ;

    /// `-self`.
    fn negated(self) -> (r: Self)
        ensures
            r == self.neg_spec(),
    ;

    /// `|self|`.
    fn abs(self) -> (r: Self)
        ensures
            r == self.abs_spec(),
    ;

    /// The square root of `self`.
    fn sqrt(self) -> (r: Self)
        ensures
            r == self.sqrt_spec(),
    ;

    /// The principal square root of `re + i im`.
    fn complex_sqrt(re: Self, im: Self) -> (r: (Self, Self))
        ensures
            r == Self::complex_sqrt_spec(re, im),
    ;

    /// Whether `self > rhs`.
    fn greater(self, rhs: Self) -> (r: bool)
        ensures
            r == self.gt_spec(rhs),
    ;

    /// Whether `self == rhs` as scalars compare.
    fn equals(self, rhs: Self) -> (r: bool)
        ensures
            r == self.eq_spec(rhs),
    ;
}

/// How a matrix buffer is ordered.
#[derive(Clone, Copy, Debug, PartialEq, Eq, Structural)]
pub enum Storage {
    /// Row-major storage.
    R,
    /// Column-major storage.
    C,
}

/// How a matrix operand is to be read.
#[derive(Clone, Copy, Debug, PartialEq, Eq, Structural)]
pub enum Transpose {
    /// As it is.
    N,
    /// Transposed.
    T,
    /// Conjugate-transposed.
    C,
}

/// Which triangular part of a banded matrix is stored.
#[derive(Clone, Copy, Debug, PartialEq, Eq, Structural)]
pub enum Uplo {
    /// The upper triangular part.
    U,
    /// The lower triangular part.
    L,
}

/// A dense matrix: a buffer, a shape and the order the buffer is held in.
pub struct Matrix<T: Rank1> {
    pub data: Vec<T>,
    pub n_rows: usize,
    pub n_cols: usize,
    pub storage_type: Option<Storage>,
}

/// A banded matrix: a core matrix holding the packed diagonals, the number of
/// super- and sub-diagonals, and the triangular part that is stored.
pub struct BandMatrix<T: Rank1> {
    pub matrix: Matrix<T>,
    pub ku: usize,
    pub kl: usize,
    pub uplo: Uplo,
}

/// A strided vector: a buffer, a logical element count and a signed stride.
pub struct Vector<T: Rank1> {
    pub data: Vec<T>,
    pub n: usize,
    pub incx: i32,
}

/// Loading a dense row-major input into a container's own storage.
///
/// Each implementor says, through the `*_ready` predicates, which inputs
/// it accepts, and through the `*_filled` relations, what the container
/// holds afterwards.
pub trait FromRowVector<T: Rank1>: Sized {
    /// Whether `data` can be loaded in column-major order.
    spec fn column_major_ready(&self, data: Seq<T>) -> bool;

    /// Whether `after` is this container with `data` loaded in column-major
    /// order.
    spec fn column_major_filled(&self, data: Seq<T>, after: &Self) -> bool;

    /// Whether `data` can be loaded in row-major order.
    spec fn row_major_ready(&self, data: Seq<T>) -> bool;

    /// Whether `after` is this container with `data` loaded in row-major
    /// order.
    spec fn row_major_filled(&self, data: Seq<T>, after: &Self) -> bool;

    /// Fills the container in column-major order.
    fn as_column_major(&mut self, data: &[T])
        requires
            old(self).column_major_ready(data@),
        ensures
            old(self).column_major_filled(data@, final(self)),
    ;

    /// Fills the container in row-major order.
    fn as_row_major(&mut self, data: &[T])
        requires
            old(self).row_major_ready(data@),
        ensures
            old(self).row_major_filled(data@, final(self)),
    ;

    /// Whether `data` can be loaded in the container's own order.
    spec fn with_data_ready(&self, data: Seq<T>) -> bool;

    /// Whether `after` is this container with `data` loaded in its own
    /// order.
    spec fn with_data_filled(&self, data: Seq<T>, after: &Self) -> bool;

    /// Fills the container in its own order.
    fn with_data(&mut self, data: &[T])
        requires
            old(self).with_data_ready(data@),
        ensures
            old(self).with_data_filled(data@, final(self)),
    ;
}

/// The magnitude of a stride.
pub open spec fn stride_abs(inc: int) -> nat {
    if inc < 0 {
        (-inc) as nat
    } else {
        inc as nat
    }
}

/// The buffer offset of logical position `i` in a vector of `n` elements
/// with stride `inc`: forward from the start for a stride that is not
/// negative, backward from the last strided element for a negative one.
pub open spec fn strided_offset(n: nat, inc: int, i: int) -> int {
    if inc >= 0 {
        i * inc
    } else {
        (n - 1 - i) * (-inc)
    }
}

/// All `n` offsets, in logical order.
pub open spec fn strided_offsets(n: nat, inc: int) -> Seq<int> {
    Seq::new(n, |i: int| strided_offset(n, inc, i))
}

/// The number of buffer elements that a vector of `n` elements with stride
/// `inc` spans: nothing for an empty vector, else `1 + (n - 1) * |inc|`.
pub open spec fn strided_span(n: nat, inc: int) -> nat {
    if n == 0 {
        0
    } else {
        (1 + (n - 1) * stride_abs(inc)) as nat
    }
}

/// The magnitude of a signed stride as an unsigned number.
pub fn stride_magnitude(inc: i64) -> (r: u64)
    ensures
        r == stride_abs(inc as int),
{
    if inc >= 0 {
        inc as u64
    } else {
        let up: i64 = inc + 1;
        let m: u64 = (-up) as u64;
        m + 1
    }
}

/// The sequence of buffer offsets of a strided vector, produced one by one.
pub struct VecIterator {
    n: usize,
    inc: u64,
    rev: bool,
    curr: usize,
    data_size: u64,
}

impl VecIterator {
    /// The number of offsets in the whole sequence.
    pub closed spec fn count(&self) -> nat {
        self.n as nat
    }

    /// The signed stride the sequence was made for.
    pub closed spec fn stride(&self) -> int {
        if self.rev {
            -(self.inc as int)
        } else {
            self.inc as int
        }
    }

    /// How many offsets have been produced so far.
    pub closed spec fn position(&self) -> nat {
        self.curr as nat
    }

    /// The sequence's invariant: it is not past its end, and its last
    /// offset is the one it was made with.
    pub closed spec fn wf(&self) -> bool {
        &&& self.curr <= self.n
        &&& (self.rev ==> self.inc > 0)
        &&& (self.n > 0 ==> self.data_size == (self.n - 1) * self.inc)
        &&& self.data_size <= usize::MAX
    }

    /// A fresh sequence for `n` elements with stride `inc`.
    pub fn new(n: usize, inc: i64) -> (itr: Self)
        requires
            strided_span(n as nat, inc as int) <= usize::MAX,
        ensures
            itr.wf(),
            itr.count() == n,
            itr.stride() == inc,
            itr.position() == 0,
    {
        let mag: u64 = stride_magnitude(inc);
        let mut itr = VecIterator { n, inc: mag, rev: inc < 0, curr: 0, data_size: 0 };
        if n > 0 {
            let last: usize = n - 1;
            proof {
                assert(last * mag <= usize::MAX);
            }
            itr.data_size = (last as u64) * mag;
        }
        itr
    }

    /// The next offset, or nothing once all `count()` offsets were given.
    pub fn next(&mut self) -> (val: Option<usize>)
        requires
            old(self).wf(),
        ensures
            final(self).wf(),
            final(self).count() == old(self).count(),
            final(self).stride() == old(self).stride(),
            old(self).position() < old(self).count() ==> {
                &&& final(self).position() == old(self).position() + 1
                &&& val matches Some(off)
                &&& off as int == strided_offset(
                    old(self).count(),
                    old(self).stride(),
                    old(self).position() as int,
                )
            },
            old(self).position() >= old(self).count() ==> {
                &&& final(self).position() == old(self).position()
                &&& val is None
            },
    {
        if self.curr < self.n {
            let step: u64 = self.curr as u64;
            proof {
                assert(step * self.inc <= (self.n - 1) * self.inc) by (nonlinear_arith)
                    requires
                        step <= self.n - 1,
                        self.inc >= 0,
                ;
                assert((self.n - 1 - step) * self.inc == (self.n - 1) * self.inc - step
                    * self.inc) by (nonlinear_arith);
            }
            let walked: u64 = step * self.inc;
            let off: u64 = if self.rev {
                self.data_size - walked
            } else {
                walked
            };
            self.curr = self.curr + 1;
            Some(off as usize)
        } else {
            None
        }
    }
}

/// A forward stride visits the buffer in steps of `inc` from its start: the
/// offsets are `0, inc, 2 * inc, ..., (n - 1) * inc`.
pub proof fn lemma_forward_offsets(n: nat, inc: int)
    requires
        inc > 0,
    ensures
        strided_offsets(n, inc).len() == n,
        forall|i: int| 0 <= i < n ==> #[trigger] strided_offsets(n, inc)[i] == i * inc,
{
}

/// A negative stride visits the very offsets of its magnitude, last one
/// first: position `i` of the one is position `n - 1 - i` of the other.
pub proof fn lemma_reverse_offsets(n: nat, inc: int)
    requires
        inc < 0,
    ensures
        strided_offsets(n, inc).len() == strided_offsets(n, -inc).len(),
        forall|i: int|
            0 <= i < n ==> #[trigger] strided_offsets(n, inc)[i] == strided_offsets(n, -inc)[n
                - 1 - i],
        forall|i: int| 0 <= i < n ==> #[trigger] strided_offsets(n, inc)[i] == (n - 1 - i) * (-inc),
{
}

/// Every offset of a strided vector lies inside the span of the vector.
pub proof fn lemma_offset_in_span(n: nat, inc: int, i: int)
    requires
        0 <= i < n,
    ensures
        0 <= strided_offset(n, inc, i) < strided_span(n, inc),
        strided_offset(n, inc, i) <= (n - 1) * stride_abs(inc),
{
    let a = stride_abs(inc) as int;
    assert(0 <= i * a <= (n - 1) * a) by (nonlinear_arith)
        requires
            0 <= i <= n - 1,
            a >= 0,
    ;
    assert(0 <= (n - 1 - i) * a <= (n - 1) * a) by (nonlinear_arith)
        requires
            0 <= i <= n - 1,
            a >= 0,
    ;
}

/// With a stride other than zero, distinct positions have distinct offsets.
pub proof fn lemma_offsets_distinct(n: nat, inc: int, i: int, j: int)
    requires
        0 <= i < n,
        0 <= j < n,
        i != j,
        inc != 0,
    ensures
        strided_offset(n, inc, i) != strided_offset(n, inc, j),
{
    let a = stride_abs(inc) as int;
    assert(i * a != j * a) by (nonlinear_arith)
        requires
            i != j,
            a > 0,
    ;
    assert((n - 1 - i) * a != (n - 1 - j) * a) by (nonlinear_arith)
        requires
            i != j,
            a > 0,
    ;
}

/// A buffer of `len` zeros.
pub open spec fn zeros_spec<T: Rank1>(len: nat) -> Seq<T> {
    Seq::new(len, |i: int| T::zero_spec())
}

/// Allocates a buffer of `len` zeros.
pub fn zeros<T: Rank1>(len: usize) -> (buf: Vec<T>)
    ensures
        buf@ == zeros_spec::<T>(len as nat),
{
    let mut buf: Vec<T> = Vec::new();
    let mut i: usize = 0;
    while i < len
        invariant
            i <= len,
            buf@ == zeros_spec::<T>(i as nat),
        decreases len - i,
    {
        buf.push(T::zero());
        i = i + 1;
        assert(buf@ =~= zeros_spec::<T>(i as nat));
    }
    buf
}

/// A complex scalar: a real and an imaginary part.
#[derive(Clone, Copy, Debug, PartialEq)]
pub struct Complex<T: Rank1> {
    pub re: T,
    pub im: T,
}

impl<T: Rank1> Complex<T> {
    /// Complex zero.
    pub open spec fn zero_spec() -> Self {
        Complex { re: T::zero_spec(), im: T::zero_spec() }
    }

    /// The sum, part by part.
    pub open spec fn add_spec(self, rhs: Self) -> Self {
        Complex { re: self.re.add_spec(rhs.re), im: self.im.add_spec(rhs.im) }
    }

    /// The complex product:
    /// `(a + i b) (c + i d) = (a c - b d) + i (a d + b c)`.
    pub open spec fn mul_spec(self, rhs: Self) -> Self {
        Complex {
            re: self.re.mul_spec(rhs.re).sub_spec(self.im.mul_spec(rhs.im)),
            im: self.re.mul_spec(rhs.im).add_spec(self.im.mul_spec(rhs.re)),
        }
    }

    /// Both parts multiplied by the real scalar `t`.
    pub open spec fn scale_spec(self, t: T) -> Self {
        Complex { re: self.re.mul_spec(t), im: self.im.mul_spec(t) }
    }

    /// Both parts negated.
    pub open spec fn neg_spec(self) -> Self {
        Complex { re: self.re.neg_spec(), im: self.im.neg_spec() }
    }

    /// The conjugate: the imaginary part negated.
    pub open spec fn conj_spec(self) -> Self {
        Complex { re: self.re, im: self.im.neg_spec() }
    }

    /// The L1 norm `|re| + |im|`.
    pub open spec fn l1_norm_spec(self) -> T {
        self.re.abs_spec().add_spec(self.im.abs_spec())
    }

    /// The principal square root.
    pub open spec fn sqrt_spec(self) -> Self {
        Complex {
            re: T::complex_sqrt_spec(self.re, self.im).0,
            im: T::complex_sqrt_spec(self.re, self.im).1,
        }
    }

    /// The complex number `re + i im`.
    pub fn new(re: T, im: T) -> (z: Self)
        ensures
            z == (Complex { re, im }),
    {
        Complex { re, im }
    }

    /// Complex zero.
    pub fn zero() -> (z: Self)
        ensures
            z == Self::zero_spec(),
    {
        Complex { re: T::zero(), im: T::zero() }
    }

    /// `self + rhs`.
    pub fn plus(self, rhs: Self) -> (z: Self)
        ensures
            z == self.add_spec(rhs),
    {
        Complex { re: self.re.plus(rhs.re), im: self.im.plus(rhs.im) }
    }

    /// `self * rhs`, in complex arithmetic.
    pub fn times(self, rhs: Self) -> (z: Self)
        ensures
            z == self.mul_spec(rhs),
    {
        let re = self.re.times(rhs.re).minus(self.im.times(rhs.im));
        let im = self.re.times(rhs.im).plus(self.im.times(rhs.re));
        Complex { re, im }
    }

    /// `self * t` for a real `t`.
    pub fn scale(self, t: T) -> (z: Self)
        ensures
            z == self.scale_spec(t),
    {
        Complex { re: self.re.times(t), im: self.im.times(t) }
    }

    /// `-self`.
    pub fn negated(self) -> (z: Self)
        ensures
            z == self.neg_spec(),
    {
        Complex { re: self.re.negated(), im: self.im.negated() }
    }

    /// The conjugate of `self`.
    pub fn conj(self) -> (z: Self)
        ensures
            z == self.conj_spec(),
    {
        Complex { re: self.re, im: self.im.negated() }
    }

    /// `|re| + |im|`.
    pub fn l1_norm(self) -> (r: T)
        ensures
            r == self.l1_norm_spec(),
    {
        self.re.abs().plus(self.im.abs())
    }

    /// The principal square root of `self`.
    pub fn sqrt(self) -> (z: Self)
        ensures
            z == self.sqrt_spec(),
    {
        let parts = T::complex_sqrt(self.re, self.im);
        Complex { re: parts.0, im: parts.1 }
    }
}

/// The real-valued bilinear form that the complex reductions are built on.
pub trait ComplexOp<T: Rank1> {
    /// The form of two complex values: `self.re * other.re - self.im *
    /// other.im`.
    spec fn dot_spec(&self, other: &Complex<T>) -> T;

    /// The form of `self` and `other`.
    fn dot(&self, other: &Complex<T>) -> (r: T)
        ensures
            r == self.dot_spec(other),
    ;
}

impl<T: Rank1> ComplexOp<T> for Complex<T> {
    open spec fn dot_spec(&self, other: &Complex<T>) -> T {
        self.re.mul_spec(other.re).sub_spec(self.im.mul_spec(other.im))
    }

    fn dot(&self, other: &Complex<T>) -> (r: T) {
        self.re.times(other.re).minus(self.im.times(other.im))
    }
}

} // verus!

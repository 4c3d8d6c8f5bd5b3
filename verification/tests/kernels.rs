use rblas::builtins::{stride_magnitude, zeros, Rank1, VecIterator};
use rblas::generic::lv1::copy;
use rblas::generic::lv1::lv1r::{
    asum, axpy, dot, nrm2, rot, rotg, rotm, rotm_apply, rotm_flag, sdsdot, RotmFlag,
};

#[derive(Clone, Copy, Debug, PartialEq)]
struct Real(f64);

impl Rank1 for Real {
    fn zero_spec() -> Self {
        unreachable!()
    }

    fn one_spec() -> Self {
        unreachable!()
    }

    fn from_i8_spec(_v: i8) -> Self {
        unreachable!()
    }

    fn add_spec(self, _rhs: Self) -> Self {
        unreachable!()
    }

    fn sub_spec(self, _rhs: Self) -> Self {
        unreachable!()
    }

    fn mul_spec(self, _rhs: Self) -> Self {
        unreachable!()
    }

    fn div_spec(self, _rhs: Self) -> Self {
        unreachable!()
    }

    fn neg_spec(self) -> Self {
        unreachable!()
    }

    fn abs_spec(self) -> Self {
        unreachable!()
    }

    fn sqrt_spec(self) -> Self {
        unreachable!()
    }

    fn complex_sqrt_spec(_re: Self, _im: Self) -> (Self, Self) {
        unreachable!()
    }

    fn gt_spec(self, _rhs: Self) -> bool {
        unreachable!()
    }

    fn eq_spec(self, _rhs: Self) -> bool {
        unreachable!()
    }

    fn zero() -> Self {
        Real(0.0)
    }

    fn one() -> Self {
        Real(1.0)
    }

    fn from_i8(v: i8) -> Self {
        Real(f64::from(v))
    }

    fn plus(self, rhs: Self) -> Self {
        Real(self.0 + rhs.0)
    }

    fn minus(self, rhs: Self) -> Self {
        Real(self.0 - rhs.0)
    }

    fn times(self, rhs: Self) -> Self {
        Real(self.0 * rhs.0)
    }

    fn over(self, rhs: Self) -> Self {
        Real(self.0 / rhs.0)
    }

    fn negated(self) -> Self {
        Real(-self.0)
    }

    fn abs(self) -> Self {
        Real(self.0.abs())
    }

    fn sqrt(self) -> Self {
        Real(self.0.sqrt())
    }

    fn complex_sqrt(re: Self, im: Self) -> (Self, Self) {
        let root = num::Complex::new(re.0, im.0).sqrt();
        (Real(root.re), Real(root.im))
    }

    fn greater(self, rhs: Self) -> bool {
        self.0 > rhs.0
    }

    fn equals(self, rhs: Self) -> bool {
        self.0 == rhs.0
    }
}

fn reals(values: &[f64]) -> Vec<Real> {
    values.iter().map(|v| Real(*v)).collect()
}

fn plain(values: &[Real]) -> Vec<f64> {
    values.iter().map(|v| v.0).collect()
}

fn offsets(n: usize, inc: i64) -> Vec<usize> {
    let mut itr = VecIterator::new(n, inc);
    let mut out = Vec::new();
    while let Some(off) = itr.next() {
        out.push(off);
    }
    assert_eq!(itr.next(), None);
    out
}

#[test]
fn forward_stride_counts_up_from_zero() {
    assert_eq!(offsets(4, 3), vec![0, 3, 6, 9]);
    assert_eq!(offsets(5, 1), vec![0, 1, 2, 3, 4]);
}

#[test]
fn negative_stride_walks_back_from_the_end() {
    assert_eq!(offsets(3, -1), vec![2, 1, 0]);
    assert_eq!(offsets(4, -3), vec![9, 6, 3, 0]);
}

#[test]
fn negative_stride_reverses_its_magnitude() {
    let mut forward = offsets(6, 4);
    forward.reverse();
    assert_eq!(offsets(6, -4), forward);
}

#[test]
fn empty_vector_has_no_offsets() {
    assert_eq!(offsets(0, 1), Vec::<usize>::new());
    assert_eq!(offsets(0, -7), Vec::<usize>::new());
    assert_eq!(offsets(0, 0), Vec::<usize>::new());
}

#[test]
fn zero_stride_stays_on_the_first_element() {
    assert_eq!(offsets(3, 0), vec![0, 0, 0]);
}

#[test]
fn single_element_sits_at_zero_whatever_the_stride() {
    assert_eq!(offsets(1, 9), vec![0]);
    assert_eq!(offsets(1, -9), vec![0]);
    assert_eq!(offsets(1, i64::MIN), vec![0]);
}

#[test]
fn stride_magnitude_of_extremes() {
    assert_eq!(stride_magnitude(0), 0);
    assert_eq!(stride_magnitude(5), 5);
    assert_eq!(stride_magnitude(-5), 5);
    assert_eq!(stride_magnitude(i64::MAX), 9223372036854775807);
    assert_eq!(stride_magnitude(i64::MIN), 9223372036854775808);
}

#[test]
fn zeros_gives_that_many_zeros() {
    assert_eq!(zeros::<Real>(3), reals(&[0.0, 0.0, 0.0]));
    assert_eq!(zeros::<Real>(0), Vec::<Real>::new());
}

#[test]
fn asum_adds_absolute_values() {
    let x = reals(&[1.0, -2.0, 3.0]);
    let mut r = Real(99.0);
    asum(3, &x, 1, &mut r);
    assert_eq!(r, Real(6.0));
}

#[test]
fn asum_honours_the_stride() {
    let x = reals(&[1.0, 100.0, -2.0, 100.0, 3.0]);
    let mut r = Real(0.0);
    asum(3, &x, 2, &mut r);
    assert_eq!(r, Real(6.0));
    asum(3, &x, -2, &mut r);
    assert_eq!(r, Real(6.0));
    asum(4, &x, 0, &mut r);
    assert_eq!(r, Real(4.0));
}

#[test]
fn asum_of_nothing_is_zero() {
    let x = reals(&[]);
    let mut r = Real(5.0);
    asum(0, &x, 1, &mut r);
    assert_eq!(r, Real(0.0));
}

#[test]
fn asum_is_zero_only_for_zeros() {
    let mut r = Real(1.0);
    asum(3, &reals(&[0.0, 0.0, 0.0]), 1, &mut r);
    assert_eq!(r, Real(0.0));
    asum(3, &reals(&[0.0, -0.5, 0.0]), 1, &mut r);
    assert!(r.0 > 0.0);
    asum(3, &reals(&[-1.0, -2.0, -3.0]), 1, &mut r);
    assert!(r.0 >= 0.0);
}

#[test]
fn axpy_scales_and_adds() {
    let x = reals(&[1.0, 2.0, 3.0]);
    let mut y = reals(&[10.0, 20.0, 30.0]);
    axpy(3, Real(2.0), &x, 1, &mut y, 1);
    assert_eq!(plain(&y), vec![12.0, 24.0, 36.0]);
}

#[test]
fn axpy_pairs_logical_positions() {
    let x = reals(&[1.0, 2.0, 3.0]);
    let mut y = reals(&[10.0, 0.0, 20.0, 0.0, 30.0]);
    axpy(3, Real(1.0), &x, -1, &mut y, 2);
    assert_eq!(plain(&y), vec![13.0, 0.0, 22.0, 0.0, 31.0]);
}

#[test]
fn axpy_with_zero_target_stride_accumulates() {
    let x = reals(&[1.0, 2.0, 3.0]);
    let mut y = reals(&[10.0, 7.0]);
    axpy(3, Real(2.0), &x, 1, &mut y, 0);
    assert_eq!(plain(&y), vec![22.0, 7.0]);
}

#[test]
fn copy_puts_each_element_at_its_place() {
    let x = reals(&[1.0, 2.0, 3.0]);
    let mut y = reals(&[0.0; 5]);
    copy(3, &x, 1, &mut y, -2);
    assert_eq!(plain(&y), vec![3.0, 0.0, 2.0, 0.0, 1.0]);
}

#[test]
fn copy_there_and_on_keeps_the_elements() {
    let x = reals(&[1.0, 9.0, 2.0, 9.0, 3.0, 9.0, 4.0]);
    let mut y = reals(&[0.0; 10]);
    let mut z = reals(&[0.0; 4]);
    copy(4, &x, 2, &mut y, -3);
    copy(4, &y, -3, &mut z, 1);
    assert_eq!(plain(&z), vec![1.0, 2.0, 3.0, 4.0]);
}

#[test]
fn dot_multiplies_and_adds() {
    let x = reals(&[1.0, 2.0, 3.0]);
    let mut y = reals(&[4.0, 5.0, 6.0]);
    let mut r = Real(7.0);
    dot(3, &x, 1, &mut y, 1, &mut r);
    assert_eq!(r, Real(32.0));
    assert_eq!(plain(&y), vec![4.0, 5.0, 6.0]);
    dot(3, &x, -1, &mut y, 1, &mut r);
    assert_eq!(r, Real(28.0));
}

#[test]
fn dot_is_symmetric() {
    let mut x = reals(&[1.5, -2.0, 3.25, 0.5]);
    let mut y = reals(&[4.0, 0.0, 5.5, 0.0, -6.0, 0.0, 2.0]);
    let mut xy = Real(0.0);
    let mut yx = Real(0.0);
    let x_ro = x.clone();
    let y_ro = y.clone();
    dot(4, &x_ro, -1, &mut y, 2, &mut xy);
    dot(4, &y_ro, 2, &mut x, -1, &mut yx);
    assert_eq!(xy, yx);
}

#[test]
fn sdsdot_starts_from_the_bias() {
    let x = reals(&[1.0, 2.0, 3.0]);
    let mut y = reals(&[4.0, 5.0, 6.0]);
    let mut r = Real(0.0);
    sdsdot(3, Real(0.5), &x, 1, &mut y, 1, &mut r);
    assert_eq!(r, Real(32.5));
    sdsdot(0, Real(0.5), &x, 1, &mut y, 1, &mut r);
    assert_eq!(r, Real(0.5));
}

#[test]
fn nrm2_is_the_euclidean_length() {
    let x = reals(&[3.0, 0.0, 4.0]);
    let mut r = Real(0.0);
    nrm2(2, &x, 2, &mut r);
    assert_eq!(r, Real(5.0));
    nrm2(0, &x, 1, &mut r);
    assert_eq!(r, Real(0.0));
}

#[test]
fn nrm2_squared_is_dot_with_itself() {
    let x = reals(&[1.0, -2.5, 3.0, 0.25]);
    let mut y = x.clone();
    let mut norm = Real(0.0);
    let mut prod = Real(0.0);
    nrm2(4, &x, 1, &mut norm);
    dot(4, &x, 1, &mut y, 1, &mut prod);
    assert!((norm.0 * norm.0 - prod.0).abs() < 1e-12);
    assert_eq!(norm, Real(prod.0.sqrt()));
}

#[test]
fn rot_uses_the_values_before_the_update() {
    let mut x = reals(&[1.0, 2.0]);
    let mut y = reals(&[3.0, 4.0]);
    rot(2, &mut x, 1, &mut y, 1, Real(2.0), Real(3.0));
    assert_eq!(plain(&x), vec![11.0, 16.0]);
    assert_eq!(plain(&y), vec![3.0, 2.0]);
}

#[test]
fn rot_by_one_and_zero_changes_nothing() {
    let mut x = reals(&[1.0, -2.0, 3.5]);
    let mut y = reals(&[4.0, 0.0, 5.0, 0.0, -6.0]);
    rot(3, &mut x, -1, &mut y, 2, Real(1.0), Real(0.0));
    assert_eq!(plain(&x), vec![1.0, -2.0, 3.5]);
    assert_eq!(plain(&y), vec![4.0, 0.0, 5.0, 0.0, -6.0]);
}

#[test]
fn rotg_of_three_and_four() {
    let (mut a, mut b, mut c, mut s) = (Real(3.0), Real(4.0), Real(0.0), Real(0.0));
    rotg(&mut a, &mut b, &mut c, &mut s);
    assert_eq!(a, Real(5.0));
    assert_eq!(c, Real(0.6));
    assert_eq!(s, Real(0.8));
    assert_eq!(b, Real(1.0 / 0.6));
}

#[test]
fn rotg_packs_the_sine_when_a_dominates() {
    let (mut a, mut b, mut c, mut s) = (Real(4.0), Real(3.0), Real(0.0), Real(0.0));
    rotg(&mut a, &mut b, &mut c, &mut s);
    assert_eq!(a, Real(5.0));
    assert_eq!(c, Real(0.8));
    assert_eq!(s, Real(0.6));
    assert_eq!(b, Real(0.6));
}

#[test]
fn rotg_packs_one_when_the_cosine_is_zero() {
    let (mut a, mut b, mut c, mut s) = (Real(0.0), Real(2.0), Real(9.0), Real(9.0));
    rotg(&mut a, &mut b, &mut c, &mut s);
    assert_eq!(a, Real(2.0));
    assert_eq!(c, Real(0.0));
    assert_eq!(s, Real(1.0));
    assert_eq!(b, Real(1.0));
}

#[test]
fn rotg_of_zero_and_zero_is_the_identity_rotation() {
    let (mut a, mut b, mut c, mut s) = (Real(0.0), Real(0.0), Real(9.0), Real(9.0));
    rotg(&mut a, &mut b, &mut c, &mut s);
    assert_eq!(a, Real(0.0));
    assert_eq!(b, Real(0.0));
    assert_eq!(c, Real(1.0));
    assert_eq!(s, Real(0.0));
}

#[test]
fn rotm_flag_reads_the_four_values() {
    assert_eq!(rotm_flag(Real(-1.0)), Some(RotmFlag::Full));
    assert_eq!(rotm_flag(Real(0.0)), Some(RotmFlag::UnitDiagonal));
    assert_eq!(rotm_flag(Real(1.0)), Some(RotmFlag::UnitAntiDiagonal));
    assert_eq!(rotm_flag(Real(-2.0)), Some(RotmFlag::Identity));
    assert_eq!(rotm_flag(Real(2.0)), None);
    assert_eq!(rotm_flag(Real(0.5)), None);
    assert_eq!(rotm_flag(Real(f64::NAN)), None);
}

#[test]
fn rotm_apply_each_transform() {
    let p = [Real(0.0), Real(2.0), Real(3.0), Real(5.0), Real(7.0)];
    let (x, y) = (Real(1.0), Real(10.0));
    assert_eq!(rotm_apply(RotmFlag::Full, &p, x, y), (Real(52.0), Real(73.0)));
    assert_eq!(rotm_apply(RotmFlag::UnitDiagonal, &p, x, y), (Real(51.0), Real(13.0)));
    assert_eq!(rotm_apply(RotmFlag::UnitAntiDiagonal, &p, x, y), (Real(12.0), Real(69.0)));
    assert_eq!(rotm_apply(RotmFlag::Identity, &p, x, y), (Real(1.0), Real(10.0)));
}

#[test]
fn rotm_with_the_full_matrix() {
    let p = [Real(-1.0), Real(2.0), Real(3.0), Real(5.0), Real(7.0)];
    let mut x = reals(&[1.0, 2.0]);
    let mut y = reals(&[10.0, 20.0]);
    rotm(2, &mut x, 1, &mut y, -1, &p);
    assert_eq!(plain(&x), vec![102.0, 54.0]);
    assert_eq!(plain(&y), vec![76.0, 143.0]);
}

#[test]
fn rotm_with_unit_diagonal_and_anti_diagonal() {
    let mut p = [Real(0.0), Real(2.0), Real(3.0), Real(5.0), Real(7.0)];
    let mut x = reals(&[1.0]);
    let mut y = reals(&[10.0]);
    rotm(1, &mut x, 1, &mut y, 1, &p);
    assert_eq!((x[0], y[0]), (Real(51.0), Real(13.0)));
    p[0] = Real(1.0);
    let mut x = reals(&[1.0]);
    let mut y = reals(&[10.0]);
    rotm(1, &mut x, 1, &mut y, 1, &p);
    assert_eq!((x[0], y[0]), (Real(12.0), Real(69.0)));
}

#[test]
fn rotm_identity_flag_leaves_the_bits_alone() {
    let p = [Real(-2.0), Real(2.0), Real(3.0), Real(5.0), Real(7.0)];
    let before_x = [1.0, -0.0, f64::NAN, f64::INFINITY, 1e-310];
    let before_y = [-3.5, 0.0, 2.0, f64::NEG_INFINITY, f64::NAN];
    let mut x = reals(&before_x);
    let mut y = reals(&before_y);
    rotm(5, &mut x, 1, &mut y, -1, &p);
    for i in 0..5 {
        assert_eq!(x[i].0.to_bits(), before_x[i].to_bits());
        assert_eq!(y[i].0.to_bits(), before_y[i].to_bits());
    }
}

use rblas::builtins::{Complex, ComplexOp, Rank1};
use rblas::generic::lv1::lv1c::{asum, axpy, dot, dotc, dotu, nrm2, nrm2_complex, rot};
use rblas::generic::lv1::{buffer_holds, copy, KernelError, LV1};

#[derive(Clone, Copy, Debug, PartialEq)]
struct Real(f64);

impl Rank1 for Real {
    fn zero_spec() -> Self {
        unreachable!()
    }

    fn one_spec() -> Self {
        unreachable!()
    }

    fn from_i8_spec(_v: i8) -> Self {
        unreachable!()
    }

    fn add_spec(self, _rhs: Self) -> Self {
        unreachable!()
    }

    fn sub_spec(self, _rhs: Self) -> Self {
        unreachable!()
    }

    fn mul_spec(self, _rhs: Self) -> Self {
        unreachable!()
    }

    fn div_spec(self, _rhs: Self) -> Self {
        unreachable!()
    }

    fn neg_spec(self) -> Self {
        unreachable!()
    }

    fn abs_spec(self) -> Self {
        unreachable!()
    }

    fn sqrt_spec(self) -> Self {
        unreachable!()
    }

    fn complex_sqrt_spec(_re: Self, _im: Self) -> (Self, Self) {
        unreachable!()
    }

    fn gt_spec(self, _rhs: Self) -> bool {
        unreachable!()
    }

    fn eq_spec(self, _rhs: Self) -> bool {
        unreachable!()
    }

    fn zero() -> Self {
        Real(0.0)
    }

    fn one() -> Self {
        Real(1.0)
    }

    fn from_i8(v: i8) -> Self {
        Real(f64::from(v))
    }

    fn plus(self, rhs: Self) -> Self {
        Real(self.0 + rhs.0)
    }

    fn minus(self, rhs: Self) -> Self {
        Real(self.0 - rhs.0)
    }

    fn times(self, rhs: Self) -> Self {
        Real(self.0 * rhs.0)
    }

    fn over(self, rhs: Self) -> Self {
        Real(self.0 / rhs.0)
    }

    fn negated(self) -> Self {
        Real(-self.0)
    }

    fn abs(self) -> Self {
        Real(self.0.abs())
    }

    fn sqrt(self) -> Self {
        Real(self.0.sqrt())
    }

    fn complex_sqrt(re: Self, im: Self) -> (Self, Self) {
        let root = num::Complex::new(re.0, im.0).sqrt();
        (Real(root.re), Real(root.im))
    }

    fn greater(self, rhs: Self) -> bool {
        self.0 > rhs.0
    }

    fn equals(self, rhs: Self) -> bool {
        self.0 == rhs.0
    }
}

fn c(re: f64, im: f64) -> Complex<Real> {
    Complex::new(Real(re), Real(im))
}

#[test]
fn complex_arithmetic() {
    let x = c(1.0, 2.0);
    let y = c(3.0, 4.0);
    assert_eq!(x.plus(y), c(4.0, 6.0));
    assert_eq!(x.times(y), c(-5.0, 10.0));
    assert_eq!(x.scale(Real(2.0)), c(2.0, 4.0));
    assert_eq!(x.negated(), c(-1.0, -2.0));
    assert_eq!(x.conj(), c(1.0, -2.0));
    assert_eq!(c(1.0, -2.0).l1_norm(), Real(3.0));
    assert_eq!(Complex::<Real>::zero(), c(0.0, 0.0));
}

#[test]
fn bilinear_form_subtracts_the_imaginary_product() {
    assert_eq!(c(1.0, 2.0).dot(&c(3.0, 4.0)), Real(-5.0));
    assert_eq!(c(1.0, 2.0).conj().dot(&c(3.0, 4.0)), Real(11.0));
}

#[test]
fn complex_asum_adds_l1_norms_from_zero() {
    let x = vec![c(1.0, -2.0), c(100.0, 100.0), c(-3.0, 4.0)];
    let mut r = Real(50.0);
    asum(2, &x, 2, &mut r);
    assert_eq!(r, Real(10.0));
    asum(2, &x, -2, &mut r);
    assert_eq!(r, Real(10.0));
    asum(0, &x, 1, &mut r);
    assert_eq!(r, Real(0.0));
}

#[test]
fn complex_axpy_multiplies_in_complex_arithmetic() {
    let x = vec![c(1.0, 2.0), c(0.0, 1.0)];
    let mut y = vec![c(10.0, 20.0), c(1.0, 1.0)];
    axpy(2, c(0.0, 1.0), &x, 1, &mut y, -1);
    assert_eq!(y, vec![c(9.0, 20.0), c(-1.0, 2.0)]);
}

#[test]
fn complex_copy_is_the_same_copy() {
    let x = vec![c(1.0, 2.0), c(3.0, 4.0)];
    let mut y = vec![c(0.0, 0.0); 3];
    copy(2, &x, -1, &mut y, 2);
    assert_eq!(y, vec![c(3.0, 4.0), c(0.0, 0.0), c(1.0, 2.0)]);
}

#[test]
fn dotc_conjugates_the_left_operand() {
    let x = vec![c(1.0, 2.0), c(3.0, 4.0)];
    let mut y = vec![c(5.0, 6.0), c(7.0, 8.0)];
    let mut r = Real(1000.0);
    dotc(2, &x, 1, &mut y, 1, &mut r);
    assert_eq!(r, Real(70.0));
    assert_eq!(y, vec![c(5.0, 6.0), c(7.0, 8.0)]);
}

#[test]
fn dotu_and_dot_sum_complex_products() {
    let x = vec![c(1.0, 2.0), c(3.0, 4.0)];
    let mut y = vec![c(5.0, 6.0), c(7.0, 8.0)];
    let mut r = c(1000.0, 1000.0);
    dotu(2, &x, 1, &mut y, 1, &mut r);
    assert_eq!(r, c(-18.0, 68.0));
    let mut r = c(1000.0, 1000.0);
    dot(2, &x, 1, &mut y, 1, &mut r);
    assert_eq!(r, c(-18.0, 68.0));
    dot(2, &x, -1, &mut y, 1, &mut r);
    assert_eq!(r, c(-18.0, 60.0));
}

#[test]
fn complex_nrm2_takes_the_root_of_the_form() {
    let x = vec![c(5.0, 3.0), c(0.0, 0.0), c(3.0, 0.0)];
    let mut r = Real(0.0);
    nrm2(2, &x, 2, &mut r);
    assert_eq!(r, Real(5.0));
    nrm2(1, &x, 1, &mut r);
    assert_eq!(r, Real(4.0));
}

#[test]
fn complex_rot_scales_by_real_coefficients() {
    let mut x = vec![c(1.0, 2.0)];
    let mut y = vec![c(10.0, 20.0)];
    rot(1, &mut x, 1, &mut y, 1, Real(2.0), Real(3.0));
    assert_eq!(x, vec![c(32.0, 64.0)]);
    assert_eq!(y, vec![c(17.0, 34.0)]);
}

#[test]
fn complex_square_root_is_the_principal_one() {
    assert_eq!(c(-4.0, 0.0).sqrt(), c(0.0, 2.0));
    assert_eq!(c(3.0, 4.0).sqrt(), c(2.0, 1.0));
    assert_eq!(c(0.0, 0.0).sqrt(), c(0.0, 0.0));
}

#[test]
fn complex_nrm2_with_a_complex_result() {
    // (2 + i)^2 + (0 + 2i)^2 = (3 + 4i) + (-4) = -1 + 4i
    let x = vec![c(2.0, 1.0), c(0.0, 2.0)];
    let mut r = c(9.0, 9.0);
    nrm2_complex(2, &x, 1, &mut r);
    let expected = num::Complex::new(-1.0f64, 4.0).sqrt();
    assert_eq!(r, c(expected.re, expected.im));
    nrm2_complex(1, &x, 1, &mut r);
    assert_eq!(r, c(2.0, 1.0));
    nrm2_complex(0, &x, 1, &mut r);
    assert_eq!(r, c(0.0, 0.0));
}

#[test]
fn rotmg_says_it_is_not_implemented() {
    let (mut d1, mut d2, mut x1) = (Real(1.0), Real(2.0), Real(3.0));
    let p = [Real(0.0); 5];
    let r = <Real as LV1<Real, Real>>::rotmg(&mut d1, &mut d2, &mut x1, &Real(4.0), &p);
    assert_eq!(r, Err(KernelError::NotImplemented));
    assert_eq!((d1, d2, x1), (Real(1.0), Real(2.0), Real(3.0)));
}

#[test]
fn real_kernels_through_the_trait() {
    let x = vec![Real(1.0), Real(-2.0), Real(3.0)];
    let mut y = vec![Real(4.0), Real(5.0), Real(6.0)];
    let mut r = Real(0.0);
    assert_eq!(<Real as LV1<Real, Real>>::asum(3, &x, 1, &mut r), Ok(()));
    assert_eq!(r, Real(6.0));
    assert_eq!(<Real as LV1<Real, Real>>::dot(3, &x, 1, &mut y, 1, &mut r), Ok(()));
    assert_eq!(r, Real(12.0));
    assert_eq!(<Real as LV1<Real, Real>>::sdsdot(3, Real(1.0), &x, 1, &mut y, 1, &mut r), Ok(()));
    assert_eq!(r, Real(13.0));
    assert_eq!(<Real as LV1<Real, Real>>::nrm2(2, &[Real(3.0), Real(4.0)], 1, &mut r), Ok(()));
    assert_eq!(r, Real(5.0));
    assert_eq!(<Real as LV1<Real, Real>>::axpy(3, Real(2.0), &x, 1, &mut y, 1), Ok(()));
    assert_eq!(y, vec![Real(6.0), Real(1.0), Real(12.0)]);
    assert_eq!(<Real as LV1<Real, Real>>::copy(3, &x, -1, &mut y, 1), Ok(()));
    assert_eq!(y, vec![Real(3.0), Real(-2.0), Real(1.0)]);
    let mut u = vec![Real(1.0)];
    let mut v = vec![Real(3.0)];
    assert_eq!(<Real as LV1<Real, Real>>::rot(1, &mut u, 1, &mut v, 1, Real(2.0), Real(3.0)), Ok(()));
    assert_eq!((u[0], v[0]), (Real(11.0), Real(3.0)));
    let (mut a, mut b, mut cc, mut s) = (Real(3.0), Real(4.0), Real(0.0), Real(0.0));
    assert_eq!(<Real as LV1<Real, Real>>::rotg(&mut a, &mut b, &mut cc, &mut s), Ok(()));
    assert_eq!((a, cc, s), (Real(5.0), Real(0.6), Real(0.8)));
}

#[test]
fn real_scalars_have_no_conjugated_products() {
    let x = vec![Real(1.0)];
    let mut y = vec![Real(2.0)];
    let mut r = Real(7.0);
    assert_eq!(<Real as LV1<Real, Real>>::dotc(1, &x, 1, &mut y, 1, &mut r), Err(KernelError::Undefined));
    assert_eq!(<Real as LV1<Real, Real>>::dotu(1, &x, 1, &mut y, 1, &mut r), Err(KernelError::Undefined));
    assert_eq!(r, Real(7.0));
}

#[test]
fn rotm_through_the_trait_reports_an_unknown_flag() {
    let mut x = vec![Real(1.0), Real(2.0)];
    let mut y = vec![Real(10.0), Real(20.0)];
    let bad = [Real(3.0), Real(2.0), Real(3.0), Real(5.0), Real(7.0)];
    let r = <Real as LV1<Real, Real>>::rotm(2, &mut x, 1, &mut y, 1, &bad);
    assert_eq!(r, Err(KernelError::UnknownFlag));
    assert_eq!(x, vec![Real(1.0), Real(2.0)]);
    assert_eq!(y, vec![Real(10.0), Real(20.0)]);
    let empty = <Real as LV1<Real, Real>>::rotm(0, &mut x, 1, &mut y, 1, &bad);
    assert_eq!(empty, Err(KernelError::UnknownFlag));
    let good = [Real(-1.0), Real(2.0), Real(3.0), Real(5.0), Real(7.0)];
    let r = <Real as LV1<Real, Real>>::rotm(2, &mut x, 1, &mut y, -1, &good);
    assert_eq!(r, Ok(()));
    assert_eq!(x, vec![Real(102.0), Real(54.0)]);
    assert_eq!(y, vec![Real(76.0), Real(143.0)]);
}

#[test]
fn complex_kernels_through_the_trait() {
    let x = vec![c(1.0, 2.0), c(3.0, 4.0)];
    let mut y = vec![c(5.0, 6.0), c(7.0, 8.0)];
    let mut r = Real(0.0);
    assert_eq!(<Complex<Real> as LV1<Complex<Real>, Real>>::asum(2, &x, 1, &mut r), Ok(()));
    assert_eq!(r, Real(10.0));
    assert_eq!(<Complex<Real> as LV1<Complex<Real>, Real>>::dotc(2, &x, 1, &mut y, 1, &mut r), Ok(()));
    assert_eq!(r, Real(70.0));
    assert_eq!(<Complex<Real> as LV1<Complex<Real>, Real>>::nrm2(1, &[c(5.0, 3.0)], 1, &mut r), Ok(()));
    assert_eq!(r, Real(4.0));
    assert_eq!(<Complex<Real> as LV1<Complex<Real>, Real>>::copy(2, &x, 1, &mut y, -1), Ok(()));
    assert_eq!(y, vec![c(3.0, 4.0), c(1.0, 2.0)]);
    assert_eq!(<Complex<Real> as LV1<Complex<Real>, Real>>::axpy(1, c(0.0, 1.0), &x, 1, &mut y, 1), Ok(()));
    assert_eq!(y, vec![c(1.0, 5.0), c(1.0, 2.0)]);
    let mut u = vec![c(1.0, 2.0)];
    let mut v = vec![c(10.0, 20.0)];
    assert_eq!(<Complex<Real> as LV1<Complex<Real>, Real>>::rot(1, &mut u, 1, &mut v, 1, Real(2.0), Real(3.0)), Ok(()));
    assert_eq!((u[0], v[0]), (c(32.0, 64.0), c(17.0, 34.0)));
}

#[test]
fn complex_scalars_have_no_real_only_kernels() {
    let x = vec![c(1.0, 2.0)];
    let mut y = vec![c(3.0, 4.0)];
    let mut u = vec![c(1.0, 2.0)];
    let mut r = Real(7.0);
    let p = [c(-2.0, 0.0); 5];
    let undefined = Err(KernelError::Undefined);
    assert_eq!(<Complex<Real> as LV1<Complex<Real>, Real>>::sdsdot(1, c(0.0, 0.0), &x, 1, &mut y, 1, &mut r), undefined);
    assert_eq!(<Complex<Real> as LV1<Complex<Real>, Real>>::dot(1, &x, 1, &mut y, 1, &mut r), undefined);
    assert_eq!(<Complex<Real> as LV1<Complex<Real>, Real>>::dotu(1, &x, 1, &mut y, 1, &mut r), undefined);
    assert_eq!(<Complex<Real> as LV1<Complex<Real>, Real>>::rotm(1, &mut u, 1, &mut y, 1, &p), undefined);
    let (mut a, mut b, mut cc, mut s) = (c(3.0, 0.0), c(4.0, 0.0), c(0.0, 0.0), c(0.0, 0.0));
    assert_eq!(<Complex<Real> as LV1<Complex<Real>, Real>>::rotg(&mut a, &mut b, &mut cc, &mut s), undefined);
    assert_eq!(<Complex<Real> as LV1<Complex<Real>, Real>>::rotmg(&mut a, &mut b, &mut cc, &s, &p), undefined);
    assert_eq!(r, Real(7.0));
    assert_eq!((a, b), (c(3.0, 0.0), c(4.0, 0.0)));
    assert_eq!((u[0], y[0]), (c(1.0, 2.0), c(3.0, 4.0)));
}

#[test]
fn buffer_holds_the_span() {
    assert!(buffer_holds(0, 0, 5));
    assert!(!buffer_holds(0, 1, 5));
    assert!(buffer_holds(1, 1, -5));
    assert!(buffer_holds(7, 3, 3));
    assert!(!buffer_holds(6, 3, 3));
    assert!(buffer_holds(7, 3, -3));
    assert!(!buffer_holds(6, 3, -3));
    assert!(buffer_holds(1, 9, 0));
    assert!(!buffer_holds(usize::MAX, 3, i64::MIN));
}

#[test]
fn complex_results_through_the_trait() {
    let x = vec![c(1.0, 2.0), c(3.0, 4.0)];
    let mut y = vec![c(5.0, 6.0), c(7.0, 8.0)];
    let mut r = c(9.0, 9.0);
    assert_eq!(<Complex<Real> as LV1<Complex<Real>, Complex<Real>>>::dot(2, &x, 1, &mut y, 1, &mut r), Ok(()));
    assert_eq!(r, c(-18.0, 68.0));
    let mut r = c(9.0, 9.0);
    assert_eq!(<Complex<Real> as LV1<Complex<Real>, Complex<Real>>>::dotu(2, &x, -1, &mut y, 1, &mut r), Ok(()));
    assert_eq!(r, c(-18.0, 60.0));
    let squares = vec![c(2.0, 1.0)];
    assert_eq!(<Complex<Real> as LV1<Complex<Real>, Complex<Real>>>::nrm2(1, &squares, 1, &mut r), Ok(()));
    assert_eq!(r, c(2.0, 1.0));
}

#[test]
fn complex_results_are_undefined_for_the_other_kernels() {
    let x = vec![c(1.0, 2.0)];
    let mut y = vec![c(3.0, 4.0)];
    let mut u = vec![c(1.0, 2.0)];
    let mut r = c(7.0, 7.0);
    let p = [c(-2.0, 0.0); 5];
    let undefined = Err(KernelError::Undefined);
    assert_eq!(<Complex<Real> as LV1<Complex<Real>, Complex<Real>>>::asum(1, &x, 1, &mut r), undefined);
    assert_eq!(<Complex<Real> as LV1<Complex<Real>, Complex<Real>>>::axpy(1, c(2.0, 0.0), &x, 1, &mut y, 1), undefined);
    assert_eq!(<Complex<Real> as LV1<Complex<Real>, Complex<Real>>>::copy(1, &x, 1, &mut y, 1), undefined);
    assert_eq!(<Complex<Real> as LV1<Complex<Real>, Complex<Real>>>::sdsdot(1, c(0.0, 0.0), &x, 1, &mut y, 1, &mut r), undefined);
    assert_eq!(<Complex<Real> as LV1<Complex<Real>, Complex<Real>>>::dotc(1, &x, 1, &mut y, 1, &mut r), undefined);
    assert_eq!(<Complex<Real> as LV1<Complex<Real>, Complex<Real>>>::rot(1, &mut u, 1, &mut y, 1, c(1.0, 0.0), c(0.0, 0.0)), undefined);
    assert_eq!(<Complex<Real> as LV1<Complex<Real>, Complex<Real>>>::rotm(1, &mut u, 1, &mut y, 1, &p), undefined);
    let (mut a, mut b, mut cc, mut s) = (c(3.0, 0.0), c(4.0, 0.0), c(0.0, 0.0), c(0.0, 0.0));
    assert_eq!(<Complex<Real> as LV1<Complex<Real>, Complex<Real>>>::rotg(&mut a, &mut b, &mut cc, &mut s), undefined);
    assert_eq!(<Complex<Real> as LV1<Complex<Real>, Complex<Real>>>::rotmg(&mut a, &mut b, &mut cc, &s, &p), undefined);
    assert_eq!(r, c(7.0, 7.0));
    assert_eq!((u[0], y[0]), (c(1.0, 2.0), c(3.0, 4.0)));
    assert_eq!((a, b), (c(3.0, 0.0), c(4.0, 0.0)));
}

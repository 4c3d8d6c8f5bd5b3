use rblas::builtins::{BandMatrix, FromRowVector, Matrix, Rank1, Storage, Uplo, Vector};
use rblas::data::{pack_column_major, pack_row_major, to_column_major};

#[derive(Clone, Copy, Debug, PartialEq)]
struct Real(f64);

impl Rank1 for Real {
    fn zero_spec() -> Self {
        unreachable!()
    }

    fn one_spec() -> Self {
        unreachable!()
    }

    fn from_i8_spec(_v: i8) -> Self {
        unreachable!()
    }

    fn add_spec(self, _rhs: Self) -> Self {
        unreachable!()
    }

    fn sub_spec(self, _rhs: Self) -> Self {
        unreachable!()
    }

    fn mul_spec(self, _rhs: Self) -> Self {
        unreachable!()
    }

    fn div_spec(self, _rhs: Self) -> Self {
        unreachable!()
    }

    fn neg_spec(self) -> Self {
        unreachable!()
    }

    fn abs_spec(self) -> Self {
        unreachable!()
    }

    fn sqrt_spec(self) -> Self {
        unreachable!()
    }

    fn complex_sqrt_spec(_re: Self, _im: Self) -> (Self, Self) {
        unreachable!()
    }

    fn gt_spec(self, _rhs: Self) -> bool {
        unreachable!()
    }

    fn eq_spec(self, _rhs: Self) -> bool {
        unreachable!()
    }

    fn zero() -> Self {
        Real(0.0)
    }

    fn one() -> Self {
        Real(1.0)
    }

    fn from_i8(v: i8) -> Self {
        Real(f64::from(v))
    }

    fn plus(self, rhs: Self) -> Self {
        Real(self.0 + rhs.0)
    }

    fn minus(self, rhs: Self) -> Self {
        Real(self.0 - rhs.0)
    }

    fn times(self, rhs: Self) -> Self {
        Real(self.0 * rhs.0)
    }

    fn over(self, rhs: Self) -> Self {
        Real(self.0 / rhs.0)
    }

    fn negated(self) -> Self {
        Real(-self.0)
    }

    fn abs(self) -> Self {
        Real(self.0.abs())
    }

    fn sqrt(self) -> Self {
        Real(self.0.sqrt())
    }

    fn complex_sqrt(re: Self, im: Self) -> (Self, Self) {
        let root = num::Complex::new(re.0, im.0).sqrt();
        (Real(root.re), Real(root.im))
    }

    fn greater(self, rhs: Self) -> bool {
        self.0 > rhs.0
    }

    fn equals(self, rhs: Self) -> bool {
        self.0 == rhs.0
    }
}

fn reals(values: &[f64]) -> Vec<Real> {
    values.iter().map(|v| Real(*v)).collect()
}

fn plain(values: &[Real]) -> Vec<f64> {
    values.iter().map(|v| v.0).collect()
}

fn counting(len: usize) -> Vec<Real> {
    (1..=len).map(|v| Real(v as f64)).collect()
}

#[test]
fn new_matrix_holds_no_data() {
    let m: Matrix<Real> = Matrix::new(2, 3, None);
    assert!(m.data.is_empty());
    assert_eq!(m.n_rows, 2);
    assert_eq!(m.n_cols, 3);
    assert_eq!(m.storage_type, None);
    let m: Matrix<Real> = Matrix::new(0, 0, Some(Storage::R));
    assert_eq!(m.storage_type, Some(Storage::R));
}

#[test]
fn row_major_takes_the_input_verbatim() {
    let mut m: Matrix<Real> = Matrix::new(2, 3, None);
    m.as_row_major(&counting(6));
    assert_eq!(plain(&m.data), vec![1.0, 2.0, 3.0, 4.0, 5.0, 6.0]);
    assert_eq!(m.storage_type, Some(Storage::R));
    assert_eq!((m.n_rows, m.n_cols), (2, 3));
}

#[test]
fn column_major_transposes_a_square() {
    let mut m: Matrix<Real> = Matrix::new(3, 3, None);
    m.as_column_major(&counting(9));
    assert_eq!(plain(&m.data), vec![1.0, 4.0, 7.0, 2.0, 5.0, 8.0, 3.0, 6.0, 9.0]);
    assert_eq!(m.storage_type, Some(Storage::C));
}

#[test]
fn column_major_uses_the_column_count_as_leading_dimension() {
    // two rows, three columns; the buffer is long enough for place 1 + 2 * 3
    let input = counting(8);
    let out = to_column_major(&input, 2, 3);
    assert_eq!(plain(&out), vec![1.0, 3.0, 0.0, 2.0, 4.0, 0.0, 3.0, 5.0]);
}

#[test]
fn column_major_twice_gives_the_input_back() {
    for n in 1..6usize {
        let input = counting(n * n);
        let once = to_column_major(&input, n, n);
        let twice = to_column_major(&once, n, n);
        assert_eq!(twice, input);
        if n > 1 {
            assert_ne!(once, input);
        }
    }
}

#[test]
fn column_major_of_an_empty_shape_writes_nothing() {
    let out = to_column_major(&counting(3), 0, 5);
    assert_eq!(plain(&out), vec![0.0, 0.0, 0.0]);
}

#[test]
fn with_data_follows_the_tag() {
    let mut m: Matrix<Real> = Matrix::new(2, 2, Some(Storage::R));
    m.with_data(&counting(4));
    assert_eq!(plain(&m.data), vec![1.0, 2.0, 3.0, 4.0]);
    assert_eq!(m.storage_type, Some(Storage::R));

    let mut m: Matrix<Real> = Matrix::new(2, 2, Some(Storage::C));
    m.with_data(&counting(4));
    assert_eq!(plain(&m.data), vec![1.0, 3.0, 2.0, 4.0]);
    assert_eq!(m.storage_type, Some(Storage::C));
}

#[test]
fn with_data_defaults_to_column_major() {
    let mut m: Matrix<Real> = Matrix::new(2, 2, None);
    m.with_data(&counting(4));
    assert_eq!(plain(&m.data), vec![1.0, 3.0, 2.0, 4.0]);
    assert_eq!(m.storage_type, Some(Storage::C));
}

#[test]
fn uplo_masks_the_other_side() {
    assert_eq!(BandMatrix::<Real>::uplo_diags(2, 3, Uplo::U), (0, 3));
    assert_eq!(BandMatrix::<Real>::uplo_diags(2, 3, Uplo::L), (2, 0));
}

#[test]
fn new_band_matrix_keeps_its_metadata() {
    let b: BandMatrix<Real> = BandMatrix::new(4, 5, Some(Storage::C), 1, 2, Uplo::L);
    assert!(b.matrix.data.is_empty());
    assert_eq!((b.matrix.n_rows, b.matrix.n_cols), (4, 5));
    assert_eq!(b.matrix.storage_type, Some(Storage::C));
    assert_eq!((b.kl, b.ku), (1, 2));
    assert_eq!(b.uplo, Uplo::L);
}

#[test]
fn tridiagonal_packing_keeps_thirteen_elements() {
    let input = counting(25);
    let packed = pack_column_major(&input, 5, 5, 1, 1);
    let mut expected = vec![0.0; 25];
    let mut stored = 0;
    for j in 0..5usize {
        for i in 0..5usize {
            if i + 1 >= j && i <= j + 1 {
                expected[1 + i - j + j * 5] = input[i * 5 + j].0;
                stored += 1;
            }
        }
    }
    assert_eq!(stored, 13);
    assert_eq!(plain(&packed), expected);
    assert_eq!(packed.iter().filter(|v| v.0 != 0.0).count(), 13);

    let packed = pack_row_major(&input, 5, 5, 1, 1);
    assert_eq!(packed.iter().filter(|v| v.0 != 0.0).count(), 13);
}

#[test]
fn column_packing_places() {
    let input = counting(9);
    let packed = pack_column_major(&input, 3, 3, 0, 1);
    // column 0: row 0 at 1; column 1: rows 0, 1 at 3, 4; column 2: rows 1, 2 at 6, 7
    assert_eq!(plain(&packed), vec![0.0, 1.0, 0.0, 2.0, 5.0, 0.0, 6.0, 9.0, 0.0]);
}

#[test]
fn row_packing_places() {
    let input = counting(9);
    let packed = pack_row_major(&input, 3, 3, 1, 0);
    // row 0: column 0 at 0; row 1: columns 0, 1 at 2, 3; row 2: columns 1, 2 at 5, 6
    assert_eq!(plain(&packed), vec![1.0, 0.0, 4.0, 5.0, 0.0, 8.0, 9.0, 0.0, 0.0]);
}

#[test]
fn band_matrix_packs_its_own_triangle() {
    let input = counting(9);
    let mut b: BandMatrix<Real> = BandMatrix::new(3, 3, None, 1, 1, Uplo::U);
    b.with_data(&input);
    assert_eq!(b.matrix.data, pack_column_major(&input, 3, 3, 0, 1));
    assert_eq!(b.matrix.storage_type, Some(Storage::C));
    assert_eq!((b.kl, b.ku), (1, 1));

    let mut b: BandMatrix<Real> = BandMatrix::new(3, 3, Some(Storage::R), 1, 1, Uplo::L);
    b.with_data(&input);
    assert_eq!(b.matrix.data, pack_row_major(&input, 3, 3, 1, 0));
    assert_eq!(b.matrix.storage_type, Some(Storage::R));

    let mut b: BandMatrix<Real> = BandMatrix::new(3, 3, Some(Storage::R), 1, 1, Uplo::L);
    b.as_column_major(&input);
    assert_eq!(b.matrix.data, pack_column_major(&input, 3, 3, 1, 0));
    assert_eq!(b.matrix.storage_type, Some(Storage::C));

    let mut b: BandMatrix<Real> = BandMatrix::new(3, 3, None, 1, 1, Uplo::U);
    b.as_row_major(&input);
    assert_eq!(b.matrix.data, pack_row_major(&input, 3, 3, 0, 1));
}

#[test]
fn new_vector_spans_its_elements() {
    let v: Vector<Real> = Vector::new(4, -3);
    assert_eq!(v.data, reals(&[0.0; 10]));
    assert_eq!((v.n, v.incx), (4, -3));
    let v: Vector<Real> = Vector::new(0, 2);
    assert!(v.data.is_empty());
    let v: Vector<Real> = Vector::new(3, 0);
    assert_eq!(v.data.len(), 1);
}

#[test]
fn vector_takes_data_along_its_stride() {
    let mut v: Vector<Real> = Vector::new(3, 2);
    v.with_data(&counting(3));
    assert_eq!(plain(&v.data), vec![1.0, 0.0, 2.0, 0.0, 3.0]);

    let mut v: Vector<Real> = Vector::new(3, -2);
    v.with_data(&counting(3));
    assert_eq!(plain(&v.data), vec![3.0, 0.0, 2.0, 0.0, 1.0]);

    let mut v: Vector<Real> = Vector::new(3, -1);
    v.with_data(&counting(2));
    assert_eq!(plain(&v.data), vec![0.0, 2.0, 1.0]);
}

#[test]
fn band_input_is_read_row_major() {
    // [1 2; 3 4] with one super-diagonal: element (0, 1) is input[1]
    let input = counting(4);
    let mut b: BandMatrix<Real> = BandMatrix::new(2, 2, None, 0, 1, Uplo::U);
    b.as_column_major(&input);
    assert_eq!(plain(&b.matrix.data), vec![0.0, 1.0, 2.0, 4.0]);
    let mut b: BandMatrix<Real> = BandMatrix::new(2, 2, None, 0, 1, Uplo::U);
    b.as_row_major(&input);
    assert_eq!(plain(&b.matrix.data), vec![0.0, 1.0, 2.0, 4.0]);
}

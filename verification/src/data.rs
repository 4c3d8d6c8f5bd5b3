//! Filling matrices and vectors from dense row-major input: verbatim,
//! transposed into column-major order, or packed into banded storage.

use crate::builtins::{
    lemma_offset_in_span, stride_magnitude, strided_span, zeros, zeros_spec, BandMatrix,
    FromRowVector, Matrix, Rank1, Storage, Uplo, Vector,
};
use crate::generic::lv1::{copy_spec, offsets_in, vector_fits};
use vstd::prelude::*;
use vstd::arithmetic::div_mod::{lemma_fundamental_div_mod, lemma_fundamental_div_mod_converse};
use vstd::slice::slice_to_vec;

verus! {

/// Whether every index that the column-major conversion of an `m` by `n`
/// matrix touches lies inside a buffer of `len` elements.
pub open spec fn dense_fits(len: nat, m: nat, n: nat) -> bool {
    m == 0 || n == 0 || ((m - 1) + (n - 1) * n < len && (n - 1) + (m - 1) * m < len)
}

/// The buffer after the first `jn` entries of row `i` went to their
/// column-major places: `out[i + j * n] := data[j + i * m]`.
pub open spec fn dense_row<T>(out: Seq<T>, data: Seq<T>, m: nat, n: nat, i: nat, jn: nat) -> Seq<T>
    decreases jn,
{
    if jn == 0 {
        out
    } else {
        let j = (jn - 1) as nat;
        dense_row(out, data, m, n, i, j).update((i + j * n) as int, data[(j + i * m) as int])
    }
}

/// The buffer after the first `im` rows went to their column-major places,
/// row by row.
pub open spec fn dense_rows<T>(out: Seq<T>, data: Seq<T>, m: nat, n: nat, im: nat) -> Seq<T>
    decreases im,
{
    if im == 0 {
        out
    } else {
        let i = (im - 1) as nat;
        dense_row(dense_rows(out, data, m, n, i), data, m, n, i, n)
    }
}

/// The column-major buffer of an `m` by `n` matrix given as dense
/// row-major `data`: as long as the input, zero wherever nothing is put.
pub open spec fn column_major_spec<T: Rank1>(data: Seq<T>, m: nat, n: nat) -> Seq<T> {
    dense_rows(zeros_spec::<T>(data.len()), data, m, n, m)
}

proof fn lemma_dense_index(m: nat, n: nat, i: nat, j: nat)
    requires
        i < m,
        j < n,
    ensures
        i + j * n <= (m - 1) + (n - 1) * n,
        j + i * m <= (n - 1) + (m - 1) * m,
{
    assert(j * n <= (n - 1) * n) by (nonlinear_arith)
        requires
            j <= n - 1,
    ;
    assert(i * m <= (m - 1) * m) by (nonlinear_arith)
        requires
            i <= m - 1,
    ;
}

/// Converts dense row-major `data` of an `m` by `n` matrix into a fresh
/// column-major buffer.
pub fn to_column_major<T: Rank1>(data: &[T], m: usize, n: usize) -> (out: Vec<T>)
    requires
        dense_fits(data@.len(), m as nat, n as nat),
    ensures
        out@ == column_major_spec(data@, m as nat, n as nat),
        out@.len() == data@.len(),
{
    let len: usize = data.len();
    let mut out: Vec<T> = zeros(len);
    let mut i: usize = 0;
    while i < m
        invariant
            i <= m,
            len == data@.len(),
            out@.len() == len,
            dense_fits(data@.len(), m as nat, n as nat),
            out@ == dense_rows(zeros_spec::<T>(len as nat), data@, m as nat, n as nat, i as nat),
        decreases m - i,
    {
        let ghost before = out@;
        let mut j: usize = 0;
        while j < n
            invariant
                i < m,
                j <= n,
                len == data@.len(),
                out@.len() == len,
                dense_fits(data@.len(), m as nat, n as nat),
                out@ == dense_row(before, data@, m as nat, n as nat, i as nat, j as nat),
            decreases n - j,
        {
            proof {
                lemma_dense_index(m as nat, n as nat, i as nat, j as nat);
            }
            let cm_idx: usize = i + j * n;
            let rm_idx: usize = j + i * m;
            out.set(cm_idx, data[rm_idx]);
            j = j + 1;
        }
        i = i + 1;
    }
    out
}

impl<T: Rank1> Matrix<T> {
    /// A matrix of `m` rows and `n` columns that holds no data yet.
    pub fn new(m: usize, n: usize, storage: Option<Storage>) -> (mat: Self)
        ensures
            mat.data@ == Seq::<T>::empty(),
            mat.n_rows == m,
            mat.n_cols == n,
            mat.storage_type == storage,
    {
        Self { data: Vec::new(), n_rows: m, n_cols: n, storage_type: storage }
    }
}

impl<T: Rank1> FromRowVector<T> for Matrix<T> {
    open spec fn column_major_ready(&self, data: Seq<T>) -> bool {
        dense_fits(data.len(), self.n_rows as nat, self.n_cols as nat)
    }

    open spec fn column_major_filled(&self, data: Seq<T>, after: &Self) -> bool {
        &&& after.data@ == column_major_spec(data, self.n_rows as nat, self.n_cols as nat)
        &&& after.data@.len() == data.len()
        &&& after.n_rows == self.n_rows
        &&& after.n_cols == self.n_cols
        &&& after.storage_type == Some(Storage::C)
    }

    open spec fn row_major_ready(&self, data: Seq<T>) -> bool {
        true
    }

    open spec fn row_major_filled(&self, data: Seq<T>, after: &Self) -> bool {
        &&& after.data@ == data
        &&& after.n_rows == self.n_rows
        &&& after.n_cols == self.n_cols
        &&& after.storage_type == Some(Storage::R)
    }

    /// A matrix is filled in the order it is tagged with, column-major
    /// where it carries no tag.
    open spec fn with_data_ready(&self, data: Seq<T>) -> bool {
        if self.storage_type == Some(Storage::R) {
            self.row_major_ready(data)
        } else {
            self.column_major_ready(data)
        }
    }

    open spec fn with_data_filled(&self, data: Seq<T>, after: &Self) -> bool {
        if self.storage_type == Some(Storage::R) {
            self.row_major_filled(data, after)
        } else {
            self.column_major_filled(data, after)
        }
    }

    fn as_row_major(&mut self, data: &[T]) {
        self.data = slice_to_vec(data);
        self.storage_type = Some(Storage::R);
    }

    fn as_column_major(&mut self, data: &[T]) {
        self.data = to_column_major(data, self.n_rows, self.n_cols);
        self.storage_type = Some(Storage::C);
    }

    fn with_data(&mut self, data: &[T]) {
        match self.storage_type {
            Some(Storage::R) => self.as_row_major(data),
            _ => self.as_column_major(data),
        }
    }
}

/// The first stored index of a band line: `max(0, line - before)`.
pub open spec fn band_lo(before: nat, line: nat) -> nat {
    if line > before {
        (line - before) as nat
    } else {
        0
    }
}

/// One past the last stored index of a band line: `min(m, line + after + 1)`.
pub open spec fn band_hi(m: nat, after: nat, line: nat) -> nat {
    if line + after + 1 < m {
        line + after + 1
    } else {
        m
    }
}

/// Where the dense row-major input of a matrix with `n` columns holds the
/// element of row `i` and column `j`.
pub open spec fn band_src(n: nat, i: nat, j: nat) -> int {
    (i * n + j) as int
}

/// The packed column-major place of the element of row `i` and column `j`.
pub open spec fn band_cm_dst(ku: nat, m: nat, i: nat, j: nat) -> int {
    (ku - j + i) + j * m
}

/// The packed row-major place of the element of row `i` and column `j`.
pub open spec fn band_rm_dst(ku: nat, n: nat, i: nat, j: nat) -> int {
    (ku - i + j) + i * n
}

/// Whether every stored element of every column has its source and its
/// packed place inside a buffer of `len` elements.
pub open spec fn band_cm_fits(len: nat, m: nat, n: nat, kl: nat, ku: nat) -> bool {
    forall|i: nat, j: nat|
        j < n && band_lo(ku, j) <= i < band_hi(m, kl, j) ==> 0 <= #[trigger] band_cm_dst(
            ku,
            m,
            i,
            j,
        ) < len && band_src(n, i, j) < len
}

/// Whether every stored element of every row has its source and its packed
/// place inside a buffer of `len` elements.
pub open spec fn band_rm_fits(len: nat, m: nat, n: nat, kl: nat, ku: nat) -> bool {
    forall|i: nat, j: nat|
        i < m && band_lo(kl, i) <= j < band_hi(m, ku, i) ==> 0 <= #[trigger] band_rm_dst(
            ku,
            n,
            i,
            j,
        ) < len && band_src(n, i, j) < len
}

/// The buffer after rows `lo` to `hi - 1` of column `j` were packed.
pub open spec fn pack_cm_col<T>(
    out: Seq<T>,
    data: Seq<T>,
    m: nat,
    n: nat,
    ku: nat,
    j: nat,
    lo: nat,
    hi: nat,
) -> Seq<T>
    decreases hi,
{
    if hi <= lo {
        out
    } else {
        let i = (hi - 1) as nat;
        pack_cm_col(out, data, m, n, ku, j, lo, i).update(
            band_cm_dst(ku, m, i, j),
            data[band_src(n, i, j)],
        )
    }
}

/// The buffer after the first `jn` columns were packed, column by column.
pub open spec fn pack_cm<T>(
    out: Seq<T>,
    data: Seq<T>,
    m: nat,
    n: nat,
    kl: nat,
    ku: nat,
    jn: nat,
) -> Seq<T>
    decreases jn,
{
    if jn == 0 {
        out
    } else {
        let j = (jn - 1) as nat;
        pack_cm_col(
            pack_cm(out, data, m, n, kl, ku, j),
            data,
            m,
            n,
            ku,
            j,
            band_lo(ku, j),
            band_hi(m, kl, j),
        )
    }
}

/// The buffer after columns `lo` to `hi - 1` of row `i` were packed.
pub open spec fn pack_rm_row<T>(
    out: Seq<T>,
    data: Seq<T>,
    m: nat,
    n: nat,
    ku: nat,
    i: nat,
    lo: nat,
    hi: nat,
) -> Seq<T>
    decreases hi,
{
    if hi <= lo {
        out
    } else {
        let j = (hi - 1) as nat;
        pack_rm_row(out, data, m, n, ku, i, lo, j).update(
            band_rm_dst(ku, n, i, j),
            data[band_src(n, i, j)],
        )
    }
}

/// The buffer after the first `im` rows were packed, row by row.
pub open spec fn pack_rm<T>(
    out: Seq<T>,
    data: Seq<T>,
    m: nat,
    n: nat,
    kl: nat,
    ku: nat,
    im: nat,
) -> Seq<T>
    decreases im,
{
    if im == 0 {
        out
    } else {
        let i = (im - 1) as nat;
        pack_rm_row(
            pack_rm(out, data, m, n, kl, ku, i),
            data,
            m,
            n,
            ku,
            i,
            band_lo(kl, i),
            band_hi(m, ku, i),
        )
    }
}

/// The first stored index of a band line.
fn band_start(before: usize, line: usize) -> (lo: usize)
    ensures
        lo == band_lo(before as nat, line as nat),
{
    if line > before {
        line - before
    } else {
        0
    }
}

/// One past the last stored index of a band line.
fn band_end(m: usize, after: usize, line: usize) -> (hi: usize)
    ensures
        hi == band_hi(m as nat, after as nat, line as nat),
{
    if line >= m || after >= m - line - 1 {
        m
    } else {
        line + after + 1
    }
}

/// Packs the band of dense `data` into a fresh buffer, column by column:
/// of column `j` the rows from `max(0, j - ku)` up to `min(m, j + kl + 1)`,
/// each read from the row-major input at `i * n + j` and put at
/// `(ku - j + i) + j * m`. Nothing else is read or written.
pub fn pack_column_major<T: Rank1>(data: &[T], m: usize, n: usize, kl: usize, ku: usize) -> (out:
    Vec<T>)
    requires
        band_cm_fits(data@.len(), m as nat, n as nat, kl as nat, ku as nat),
    ensures
        out@ == pack_cm(
            zeros_spec::<T>(data@.len()),
            data@,
            m as nat,
            n as nat,
            kl as nat,
            ku as nat,
            n as nat,
        ),
        out@.len() == data@.len(),
{
    let len: usize = data.len();
    let mut out: Vec<T> = zeros(len);
    let mut j: usize = 0;
    while j < n
        invariant
            j <= n,
            len == data@.len(),
            out@.len() == len,
            band_cm_fits(data@.len(), m as nat, n as nat, kl as nat, ku as nat),
            out@ == pack_cm(
                zeros_spec::<T>(len as nat),
                data@,
                m as nat,
                n as nat,
                kl as nat,
                ku as nat,
                j as nat,
            ),
        decreases n - j,
    {
        let ghost before = out@;
        let lo: usize = band_start(ku, j);
        let hi: usize = band_end(m, kl, j);
        let mut i: usize = lo;
        while i < hi
            invariant
                j < n,
                lo == band_lo(ku as nat, j as nat),
                hi == band_hi(m as nat, kl as nat, j as nat),
                lo <= i,
                i <= hi || i == lo,
                len == data@.len(),
                out@.len() == len,
                band_cm_fits(data@.len(), m as nat, n as nat, kl as nat, ku as nat),
                out@ == pack_cm_col(
                    before,
                    data@,
                    m as nat,
                    n as nat,
                    ku as nat,
                    j as nat,
                    lo as nat,
                    i as nat,
                ),
            decreases hi - i,
        {
            proof {
                assert(0 <= band_cm_dst(ku as nat, m as nat, i as nat, j as nat) < len);
                assert(band_src(n as nat, i as nat, j as nat) < len);
                assert(j * m >= 0 && i * n >= 0) by (nonlinear_arith)
                    requires
                        i >= 0,
                        j >= 0,
                        m >= 0,
                        n >= 0,
                ;
            }
            let base: usize = j * m;
            let dst: usize = if i >= j {
                ku + (i - j) + base
            } else {
                (ku - (j - i)) + base
            };
            out.set(dst, data[i * n + j]);
            i = i + 1;
        }
        j = j + 1;
    }
    out
}

/// Packs the band of dense `data` into a fresh buffer, row by row: of row
/// `i` the columns from `max(0, i - kl)` up to `min(m, i + ku + 1)`, each at
/// `(ku - i + j) + i * n`, read from the row-major input at `i * n + j`.
/// Nothing else is read or written.
pub fn pack_row_major<T: Rank1>(data: &[T], m: usize, n: usize, kl: usize, ku: usize) -> (out:
    Vec<T>)
    requires
        band_rm_fits(data@.len(), m as nat, n as nat, kl as nat, ku as nat),
    ensures
        out@ == pack_rm(
            zeros_spec::<T>(data@.len()),
            data@,
            m as nat,
            n as nat,
            kl as nat,
            ku as nat,
            m as nat,
        ),
        out@.len() == data@.len(),
{
    let len: usize = data.len();
    let mut out: Vec<T> = zeros(len);
    let mut i: usize = 0;
    while i < m
        invariant
            i <= m,
            len == data@.len(),
            out@.len() == len,
            band_rm_fits(data@.len(), m as nat, n as nat, kl as nat, ku as nat),
            out@ == pack_rm(
                zeros_spec::<T>(len as nat),
                data@,
                m as nat,
                n as nat,
                kl as nat,
                ku as nat,
                i as nat,
            ),
        decreases m - i,
    {
        let ghost before = out@;
        let lo: usize = band_start(kl, i);
        let hi: usize = band_end(m, ku, i);
        let mut j: usize = lo;
        while j < hi
            invariant
                i < m,
                lo == band_lo(kl as nat, i as nat),
                hi == band_hi(m as nat, ku as nat, i as nat),
                lo <= j,
                j <= hi || j == lo,
                len == data@.len(),
                out@.len() == len,
                band_rm_fits(data@.len(), m as nat, n as nat, kl as nat, ku as nat),
                out@ == pack_rm_row(
                    before,
                    data@,
                    m as nat,
                    n as nat,
                    ku as nat,
                    i as nat,
                    lo as nat,
                    j as nat,
                ),
            decreases hi - j,
        {
            proof {
                assert(0 <= band_rm_dst(ku as nat, n as nat, i as nat, j as nat) < len);
                assert(band_src(n as nat, i as nat, j as nat) < len);
                assert(n >= 1 ==> i * (n - 1) >= 0 && i * n == i * (n - 1) + i)
                    by (nonlinear_arith)
                    requires
                        i >= 0,
                ;
                assert(n == 0 ==> i * n == 0) by (nonlinear_arith);
            }
            let dst: usize = if n >= 1 {
                ku + j + i * (n - 1)
            } else if j >= i {
                ku + (j - i)
            } else {
                ku - (i - j)
            };
            out.set(dst, data[i * n + j]);
            j = j + 1;
        }
        i = i + 1;
    }
    out
}

/// The diagonal counts that are packed: the triangular selector masks out
/// the diagonals on its opposite side.
pub open spec fn uplo_diags_spec(kl: usize, ku: usize, uplo: Uplo) -> (usize, usize) {
    match uplo {
        Uplo::L => (kl, 0),
        Uplo::U => (0, ku),
    }
}

impl<T: Rank1> BandMatrix<T> {
    /// A banded matrix of `m` rows and `n` columns with `kl` sub- and `ku`
    /// super-diagonals that holds no data yet.
    pub fn new(
        m: usize,
        n: usize,
        storage: Option<Storage>,
        kl: usize,
        ku: usize,
        uplo: Uplo,
    ) -> (band: Self)
        ensures
            band.matrix.data@ == Seq::<T>::empty(),
            band.matrix.n_rows == m,
            band.matrix.n_cols == n,
            band.matrix.storage_type == storage,
            band.kl == kl,
            band.ku == ku,
            band.uplo == uplo,
    {
        let matrix = Matrix::new(m, n, storage);
        Self { matrix, ku, kl, uplo }
    }

    /// The sub- and super-diagonal counts left after the selector's mask.
    pub fn uplo_diags(kl: usize, ku: usize, uplo: Uplo) -> (diags: (usize, usize))
        ensures
            diags == uplo_diags_spec(kl, ku, uplo),
    {
        let kl = match uplo {
            Uplo::L => kl,
            Uplo::U => 0,
        };
        let ku = match uplo {
            Uplo::L => 0,
            Uplo::U => ku,
        };
        (kl, ku)
    }

    /// The masked diagonal counts of this matrix, as `(kl, ku)`.
    pub open spec fn diags(&self) -> (nat, nat) {
        (
            uplo_diags_spec(self.kl, self.ku, self.uplo).0 as nat,
            uplo_diags_spec(self.kl, self.ku, self.uplo).1 as nat,
        )
    }

    /// Whether `after` is this matrix with new data and a new storage tag.
    pub open spec fn refilled(&self, after: &Self, data: Seq<T>, storage: Storage) -> bool {
        &&& after.matrix.data@ == data
        &&& after.matrix.n_rows == self.matrix.n_rows
        &&& after.matrix.n_cols == self.matrix.n_cols
        &&& after.matrix.storage_type == Some(storage)
        &&& after.kl == self.kl
        &&& after.ku == self.ku
        &&& after.uplo == self.uplo
    }
}

impl<T: Rank1> FromRowVector<T> for BandMatrix<T> {
    open spec fn column_major_ready(&self, data: Seq<T>) -> bool {
        band_cm_fits(
            data.len(),
            self.matrix.n_rows as nat,
            self.matrix.n_cols as nat,
            self.diags().0,
            self.diags().1,
        )
    }

    open spec fn column_major_filled(&self, data: Seq<T>, after: &Self) -> bool {
        &&& after.matrix.data@.len() == data.len()
        &&& self.refilled(
            after,
            pack_cm(
                zeros_spec::<T>(data.len()),
                data,
                self.matrix.n_rows as nat,
                self.matrix.n_cols as nat,
                self.diags().0,
                self.diags().1,
                self.matrix.n_cols as nat,
            ),
            Storage::C,
        )
    }

    open spec fn row_major_ready(&self, data: Seq<T>) -> bool {
        band_rm_fits(
            data.len(),
            self.matrix.n_rows as nat,
            self.matrix.n_cols as nat,
            self.diags().0,
            self.diags().1,
        )
    }

    open spec fn row_major_filled(&self, data: Seq<T>, after: &Self) -> bool {
        &&& after.matrix.data@.len() == data.len()
        &&& self.refilled(
            after,
            pack_rm(
                zeros_spec::<T>(data.len()),
                data,
                self.matrix.n_rows as nat,
                self.matrix.n_cols as nat,
                self.diags().0,
                self.diags().1,
                self.matrix.n_rows as nat,
            ),
            Storage::R,
        )
    }

    /// A banded matrix is filled in the order it is tagged with,
    /// column-major where it carries no tag.
    open spec fn with_data_ready(&self, data: Seq<T>) -> bool {
        if self.matrix.storage_type == Some(Storage::R) {
            self.row_major_ready(data)
        } else {
            self.column_major_ready(data)
        }
    }

    open spec fn with_data_filled(&self, data: Seq<T>, after: &Self) -> bool {
        if self.matrix.storage_type == Some(Storage::R) {
            self.row_major_filled(data, after)
        } else {
            self.column_major_filled(data, after)
        }
    }

    fn as_column_major(&mut self, data: &[T]) {
        let (kl, ku) = Self::uplo_diags(self.kl, self.ku, self.uplo);
        self.matrix.data = pack_column_major(data, self.matrix.n_rows, self.matrix.n_cols, kl, ku);
        self.matrix.storage_type = Some(Storage::C);
    }

    fn as_row_major(&mut self, data: &[T]) {
        let (kl, ku) = Self::uplo_diags(self.kl, self.ku, self.uplo);
        self.matrix.data = pack_row_major(data, self.matrix.n_rows, self.matrix.n_cols, kl, ku);
        self.matrix.storage_type = Some(Storage::R);
    }

    fn with_data(&mut self, data: &[T]) {
        match self.matrix.storage_type {
            Some(Storage::R) => self.as_row_major(data),
            _ => self.as_column_major(data),
        }
    }
}

impl<T: Rank1> Vector<T> {
    /// The vector's invariant: its buffer spans its `n` strided elements.
    pub open spec fn wf(&self) -> bool {
        vector_fits(self.data@.len(), self.n as nat, self.incx as int)
    }

    /// A vector of `n` elements with stride `incx` over a buffer of zeros
    /// that spans exactly those elements.
    pub fn new(n: usize, incx: i32) -> (v: Self)
        requires
            strided_span(n as nat, incx as int) <= usize::MAX,
        ensures
            v.wf(),
            v.data@ == zeros_spec::<T>(strided_span(n as nat, incx as int)),
            v.n == n,
            v.incx == incx,
    {
        let size: usize = if n == 0 {
            0
        } else {
            let mag: u64 = stride_magnitude(incx as i64);
            let reach: u64 = ((n - 1) as u64) * mag;
            1 + reach as usize
        };
        Self { data: zeros(size), n, incx }
    }
}

/// A vector is neither row-major nor column-major: only `with_data` can be
/// called on it, and the two layout fills accept no input at all.
impl<T: Rank1> FromRowVector<T> for Vector<T> {
    open spec fn column_major_ready(&self, data: Seq<T>) -> bool {
        false
    }

    open spec fn column_major_filled(&self, data: Seq<T>, after: &Self) -> bool {
        false
    }

    open spec fn row_major_ready(&self, data: Seq<T>) -> bool {
        false
    }

    open spec fn row_major_filled(&self, data: Seq<T>, after: &Self) -> bool {
        false
    }

    open spec fn with_data_ready(&self, data: Seq<T>) -> bool {
        self.wf() && data.len() <= self.n
    }

    /// The elements of `data` stand at the first `data.len()` logical
    /// positions of the vector; the rest of the buffer is as it was.
    open spec fn with_data_filled(&self, data: Seq<T>, after: &Self) -> bool {
        &&& after.wf()
        &&& after.n == self.n
        &&& after.incx == self.incx
        &&& after.data@ == copy_spec(
            data,
            data.len(),
            1,
            self.data@,
            self.n as nat,
            self.incx as int,
            data.len(),
        )
    }

    fn as_column_major(&mut self, data: &[T]) {
    }

    fn as_row_major(&mut self, data: &[T]) {
    }

    fn with_data(&mut self, data: &[T])
    {
        let ghost buf0 = self.data@;
        let count: usize = data.len();
        let mut itr = offsets_in(self.n, self.incx as i64, self.data.len());
        let mut i: usize = 0;
        while i < count
            invariant
                i <= count,
                count == data@.len(),
                count <= self.n,
                itr.wf(),
                itr.count() == self.n,
                itr.stride() == self.incx,
                itr.position() == i,
                self.n == old(self).n,
                self.incx == old(self).incx,
                self.data@.len() == buf0.len(),
                vector_fits(buf0.len(), self.n as nat, self.incx as int),
                self.data@ == copy_spec(
                    data@,
                    count as nat,
                    1,
                    buf0,
                    self.n as nat,
                    self.incx as int,
                    i as nat,
                ),
            decreases count - i,
        {
            proof {
                lemma_offset_in_span(self.n as nat, self.incx as int, i as int);
            }
            match itr.next() {
                Some(idx) => {
                    self.data.set(idx, data[i]);
                },
                None => {},
            }
            i = i + 1;
        }
    }
}

/// What one row leaves behind, place by place: place `p` holds the row's
/// entry of column `p / n` where `p` is `i` more than a multiple of `n`
/// below `jn * n`, and what it held before everywhere else.
pub proof fn lemma_dense_row_places<T>(out: Seq<T>, data: Seq<T>, m: nat, n: nat, i: nat, jn: nat)
    requires
        i < n,
        jn <= n,
        i + (n - 1) * n < out.len(),
    ensures
        dense_row(out, data, m, n, i, jn).len() == out.len(),
        forall|p: int|
            0 <= p < out.len() ==> #[trigger] dense_row(out, data, m, n, i, jn)[p] == (if p % (
            n as int) == i && p / (n as int) < jn {
                data[p / (n as int) + i * m]
            } else {
                out[p]
            }),
    decreases jn,
{
    if jn > 0 {
        let j = (jn - 1) as nat;
        lemma_dense_row_places(out, data, m, n, i, j);
        let q = (i + j * n) as int;
        assert(j * n <= (n - 1) * n) by (nonlinear_arith)
            requires
                j <= n - 1,
        ;
        lemma_fundamental_div_mod_converse(q, n as int, j as int, i as int);
        assert forall|p: int| 0 <= p < out.len() implies #[trigger] dense_row(
            out,
            data,
            m,
            n,
            i,
            jn,
        )[p] == (if p % (n as int) == i && p / (n as int) < jn {
            data[p / (n as int) + i * m]
        } else {
            out[p]
        }) by {
            if p != q {
                lemma_fundamental_div_mod(p, n as int);
                assert((n as int) * (p / (n as int)) == (p / (n as int)) * n) by (nonlinear_arith);
            }
        }
    }
}

/// What the first `im` rows leave behind, place by place, in a matrix
/// that has no more rows than columns: place `p` holds the entry of row
/// `p % n` and column `p / n` where that row is below `im`, and what it
/// held before everywhere else.
pub proof fn lemma_dense_rows_places<T>(out: Seq<T>, data: Seq<T>, m: nat, n: nat, im: nat)
    requires
        im <= m <= n,
        n > 0,
        m == 0 || (m - 1) + (n - 1) * n < out.len(),
    ensures
        dense_rows(out, data, m, n, im).len() == out.len(),
        forall|p: int|
            0 <= p < out.len() ==> #[trigger] dense_rows(out, data, m, n, im)[p] == (if p % (
            n as int) < im && p / (n as int) < n {
                data[p / (n as int) + (p % (n as int)) * m]
            } else {
                out[p]
            }),
    decreases im,
{
    if im > 0 {
        let i = (im - 1) as nat;
        let prev = dense_rows(out, data, m, n, i);
        lemma_dense_rows_places(out, data, m, n, i);
        lemma_dense_row_places(prev, data, m, n, i, n);
        assert forall|p: int| 0 <= p < out.len() implies #[trigger] dense_rows(
            out,
            data,
            m,
            n,
            im,
        )[p] == (if p % (n as int) < im && p / (n as int) < n {
            data[p / (n as int) + (p % (n as int)) * m]
        } else {
            out[p]
        }) by {
            lemma_fundamental_div_mod(p, n as int);
            assert(dense_rows(out, data, m, n, im) == dense_row(prev, data, m, n, i, n));
        }
    }
}

/// In a matrix that has no more rows than columns no two entries share a
/// place, so the column-major buffer holds every entry where the layout
/// says: the entry of row `i` and column `j`, read at `j + i * m`, stands
/// at `i + j * n`.
pub proof fn lemma_column_major_entries<T: Rank1>(data: Seq<T>, m: nat, n: nat, i: nat, j: nat)
    requires
        m <= n,
        dense_fits(data.len(), m, n),
        i < m,
        j < n,
    ensures
        column_major_spec(data, m, n).len() == data.len(),
        column_major_spec(data, m, n)[(i + j * n) as int] == data[(j + i * m) as int],
{
    let zero = zeros_spec::<T>(data.len());
    lemma_dense_rows_places(zero, data, m, n, m);
    lemma_dense_index(m, n, i, j);
    let p = (i + j * n) as int;
    lemma_fundamental_div_mod_converse(p, n as int, j as int, i as int);
}

/// For a square matrix whose buffer holds exactly its entries, converting
/// to column-major order is its own inverse: converting the converted
/// buffer once more gives back the row-major buffer, entry for entry.
pub proof fn lemma_column_major_round_trip<T: Rank1>(data: Seq<T>, n: nat)
    requires
        data.len() == n * n,
    ensures
        dense_fits(data.len(), n, n),
        column_major_spec(column_major_spec(data, n, n), n, n) == data,
{
    if n == 0 {
        assert(n * n == 0) by (nonlinear_arith)
            requires
                n == 0,
        ;
        assert(column_major_spec(column_major_spec(data, n, n), n, n) =~= data);
    } else {
        assert((n - 1) + (n - 1) * n < n * n) by (nonlinear_arith)
            requires
                n > 0,
        ;
        let zero = zeros_spec::<T>(data.len());
        let once = column_major_spec(data, n, n);
        lemma_dense_rows_places(zero, data, n, n, n);
        lemma_dense_rows_places(zero, once, n, n, n);
        let twice = column_major_spec(once, n, n);
        assert forall|p: int| 0 <= p < data.len() implies twice[p] == data[p] by {
            let d = n as int;
            let r = p % d;
            let c = p / d;
            lemma_fundamental_div_mod(p, d);
            assert(0 <= c < d) by (nonlinear_arith)
                requires
                    0 <= p < d * d,
                    p == d * c + r,
                    0 <= r < d,
                    d > 0,
            ;
            let q = c + r * d;
            assert(0 <= q < d * d) by (nonlinear_arith)
                requires
                    0 <= c < d,
                    0 <= r < d,
                    q == c + r * d,
            ;
            lemma_fundamental_div_mod_converse(q, d, r, c);
            assert(twice[p] == once[q]);
            assert(once[q] == data[r + c * d]);
            assert(r + c * d == p) by (nonlinear_arith)
                requires
                    p == d * c + r,
            ;
        }
        assert(twice =~= data);
    }
}

/// The row whose element the column-major packing puts at place `p`, if it
/// puts any there.
pub open spec fn band_cm_row(p: int, m: nat, ku: nat) -> int {
    p % (m as int) + p / (m as int) - ku
}

/// Whether the column-major packing of the first `jn` columns puts an
/// element at place `p`.
pub open spec fn band_cm_stores(p: int, m: nat, kl: nat, ku: nat, jn: nat) -> bool {
    let j = p / (m as int);
    let i = band_cm_row(p, m, ku);
    0 <= j < jn && band_lo(ku, j as nat) <= i < band_hi(m, kl, j as nat)
}

/// Whether the element of row `i` of column `j` has a packed place of its
/// own inside a buffer of `len` elements.
pub open spec fn band_cm_slot(len: nat, m: nat, ku: nat, i: nat, j: nat) -> bool {
    0 <= ku - j + i < m && band_cm_dst(ku, m, i, j) < len
}

proof fn lemma_pack_cm_col_places<T>(
    out: Seq<T>,
    data: Seq<T>,
    m: nat,
    n: nat,
    ku: nat,
    j: nat,
    lo: nat,
    hi: nat,
)
    requires
        m > 0,
        forall|i: nat| lo <= i < hi ==> #[trigger] band_cm_slot(out.len(), m, ku, i, j),
    ensures
        pack_cm_col(out, data, m, n, ku, j, lo, hi).len() == out.len(),
        forall|p: int|
            0 <= p < out.len() ==> #[trigger] pack_cm_col(out, data, m, n, ku, j, lo, hi)[p] == (if p
                / (m as int) == j && lo <= band_cm_row(p, m, ku) < hi {
                data[band_cm_row(p, m, ku) * n + j]
            } else {
                out[p]
            }),
    decreases hi,
{
    if hi > lo {
        let i = (hi - 1) as nat;
        lemma_pack_cm_col_places(out, data, m, n, ku, j, lo, i);
        assert(band_cm_slot(out.len(), m, ku, i, j));
        let q = band_cm_dst(ku, m, i, j);
        lemma_fundamental_div_mod_converse(q, m as int, j as int, ku - j + i);
        assert forall|p: int| 0 <= p < out.len() implies #[trigger] pack_cm_col(
            out,
            data,
            m,
            n,
            ku,
            j,
            lo,
            hi,
        )[p] == (if p / (m as int) == j && lo <= band_cm_row(p, m, ku) < hi {
            data[band_cm_row(p, m, ku) * n + j]
        } else {
            out[p]
        }) by {
            if p != q {
                lemma_fundamental_div_mod(p, m as int);
                assert((m as int) * (p / (m as int)) == (p / (m as int)) * m) by (nonlinear_arith);
            }
        }
    }
}

/// Where the band is narrower than a column is long (`kl + ku < m`) no two
/// stored elements share a packed place, and the column-major packing is
/// known place by place: a place that the packing stores to holds the
/// element of its row and column, read from the dense input at
/// `i * n + j`; every other place holds what it held before.
pub proof fn lemma_pack_cm_places<T>(
    out: Seq<T>,
    data: Seq<T>,
    m: nat,
    n: nat,
    kl: nat,
    ku: nat,
    jn: nat,
)
    requires
        jn <= n,
        kl + ku < m,
        band_cm_fits(out.len(), m, n, kl, ku),
    ensures
        pack_cm(out, data, m, n, kl, ku, jn).len() == out.len(),
        forall|p: int|
            0 <= p < out.len() ==> #[trigger] pack_cm(out, data, m, n, kl, ku, jn)[p] == (
            if band_cm_stores(p, m, kl, ku, jn) {
                data[band_cm_row(p, m, ku) * n + p / (m as int)]
            } else {
                out[p]
            }),
    decreases jn,
{
    if jn > 0 {
        let j = (jn - 1) as nat;
        let prev = pack_cm(out, data, m, n, kl, ku, j);
        lemma_pack_cm_places(out, data, m, n, kl, ku, j);
        let lo = band_lo(ku, j);
        let hi = band_hi(m, kl, j);
        assert forall|i: nat| lo <= i < hi implies #[trigger] band_cm_slot(
            prev.len(),
            m,
            ku,
            i,
            j,
        ) by {
            assert(0 <= band_cm_dst(ku, m, i, j) < out.len());
        }
        lemma_pack_cm_col_places(prev, data, m, n, ku, j, lo, hi);
        assert(pack_cm(out, data, m, n, kl, ku, jn) == pack_cm_col(prev, data, m, n, ku, j, lo, hi));
    }
}

/// Under the same condition, every stored element of the band is found at
/// its packed place `(ku - j + i) + j * m`.
pub proof fn lemma_pack_cm_entry<T>(
    out: Seq<T>,
    data: Seq<T>,
    m: nat,
    n: nat,
    kl: nat,
    ku: nat,
    i: nat,
    j: nat,
)
    requires
        kl + ku < m,
        band_cm_fits(out.len(), m, n, kl, ku),
        j < n,
        band_lo(ku, j) <= i < band_hi(m, kl, j),
    ensures
        0 <= band_cm_dst(ku, m, i, j) < out.len(),
        pack_cm(out, data, m, n, kl, ku, n)[band_cm_dst(ku, m, i, j)] == data[band_src(n, i, j)],
{
    lemma_pack_cm_places(out, data, m, n, kl, ku, n);
    let q = band_cm_dst(ku, m, i, j);
    assert(0 <= q < out.len());
    lemma_fundamental_div_mod_converse(q, m as int, j as int, ku - j + i);
}

/// The column whose element the row-major packing puts at place `p`, if
/// it puts any there.
pub open spec fn band_rm_col(p: int, n: nat, kl: nat, ku: nat) -> int {
    (p + kl - ku) % (n as int) + (p + kl - ku) / (n as int) - kl
}

/// Whether the row-major packing of the first `im` rows puts an element at
/// place `p`.
pub open spec fn band_rm_stores(p: int, m: nat, n: nat, kl: nat, ku: nat, im: nat) -> bool {
    let i = (p + kl - ku) / (n as int);
    let j = band_rm_col(p, n, kl, ku);
    0 <= i < im && band_lo(kl, i as nat) <= j < band_hi(m, ku, i as nat)
}

/// Whether the element of column `j` of row `i` has a packed place of its
/// own inside a buffer of `len` elements.
pub open spec fn band_rm_slot(len: nat, n: nat, kl: nat, ku: nat, i: nat, j: nat) -> bool {
    0 <= j - i + kl < n && 0 <= band_rm_dst(ku, n, i, j) < len
}

proof fn lemma_pack_rm_row_places<T>(
    out: Seq<T>,
    data: Seq<T>,
    m: nat,
    n: nat,
    kl: nat,
    ku: nat,
    i: nat,
    lo: nat,
    hi: nat,
)
    requires
        n > 0,
        forall|j: nat| lo <= j < hi ==> #[trigger] band_rm_slot(out.len(), n, kl, ku, i, j),
    ensures
        pack_rm_row(out, data, m, n, ku, i, lo, hi).len() == out.len(),
        forall|p: int|
            0 <= p < out.len() ==> #[trigger] pack_rm_row(out, data, m, n, ku, i, lo, hi)[p] == (
            if (p + kl - ku) / (n as int) == i && lo <= band_rm_col(p, n, kl, ku) < hi {
                data[i * n + band_rm_col(p, n, kl, ku)]
            } else {
                out[p]
            }),
    decreases hi,
{
    if hi > lo {
        let j = (hi - 1) as nat;
        lemma_pack_rm_row_places(out, data, m, n, kl, ku, i, lo, j);
        assert(band_rm_slot(out.len(), n, kl, ku, i, j));
        let q = band_rm_dst(ku, n, i, j);
        lemma_fundamental_div_mod_converse(q + kl - ku, n as int, i as int, j - i + kl);
        assert forall|p: int| 0 <= p < out.len() implies #[trigger] pack_rm_row(
            out,
            data,
            m,
            n,
            ku,
            i,
            lo,
            hi,
        )[p] == (if (p + kl - ku) / (n as int) == i && lo <= band_rm_col(p, n, kl, ku) < hi {
            data[i * n + band_rm_col(p, n, kl, ku)]
        } else {
            out[p]
        }) by {
            if p != q {
                let sp = p + kl - ku;
                lemma_fundamental_div_mod(sp, n as int);
                assert((n as int) * (sp / (n as int)) == (sp / (n as int)) * n)
                    by (nonlinear_arith);
            }
        }
    }
}

/// Where the band is narrower than a row is long (`kl + ku < n`) no two
/// stored elements share a packed place, and the row-major packing is
/// known place by place: a place that the packing stores to holds the
/// element of its row and column, read from the dense input at
/// `i * n + j`; every other place holds what it held before.
pub proof fn lemma_pack_rm_places<T>(
    out: Seq<T>,
    data: Seq<T>,
    m: nat,
    n: nat,
    kl: nat,
    ku: nat,
    im: nat,
)
    requires
        im <= m,
        kl + ku < n,
        band_rm_fits(out.len(), m, n, kl, ku),
    ensures
        pack_rm(out, data, m, n, kl, ku, im).len() == out.len(),
        forall|p: int|
            0 <= p < out.len() ==> #[trigger] pack_rm(out, data, m, n, kl, ku, im)[p] == (
            if band_rm_stores(p, m, n, kl, ku, im) {
                data[((p + kl - ku) / (n as int)) * n + band_rm_col(p, n, kl, ku)]
            } else {
                out[p]
            }),
    decreases im,
{
    if im > 0 {
        let i = (im - 1) as nat;
        let prev = pack_rm(out, data, m, n, kl, ku, i);
        lemma_pack_rm_places(out, data, m, n, kl, ku, i);
        let lo = band_lo(kl, i);
        let hi = band_hi(m, ku, i);
        assert forall|j: nat| lo <= j < hi implies #[trigger] band_rm_slot(
            prev.len(),
            n,
            kl,
            ku,
            i,
            j,
        ) by {
            assert(0 <= band_rm_dst(ku, n, i, j) < out.len());
        }
        lemma_pack_rm_row_places(prev, data, m, n, kl, ku, i, lo, hi);
        assert(pack_rm(out, data, m, n, kl, ku, im) == pack_rm_row(
            prev,
            data,
            m,
            n,
            ku,
            i,
            lo,
            hi,
        ));
    }
}

/// Under the same condition, every stored element of the band is found at
/// its packed place `(ku - i + j) + i * n`.
pub proof fn lemma_pack_rm_entry<T>(
    out: Seq<T>,
    data: Seq<T>,
    m: nat,
    n: nat,
    kl: nat,
    ku: nat,
    i: nat,
    j: nat,
)
    requires
        kl + ku < n,
        band_rm_fits(out.len(), m, n, kl, ku),
        i < m,
        band_lo(kl, i) <= j < band_hi(m, ku, i),
    ensures
        0 <= band_rm_dst(ku, n, i, j) < out.len(),
        pack_rm(out, data, m, n, kl, ku, m)[band_rm_dst(ku, n, i, j)] == data[band_src(n, i, j)],
{
    lemma_pack_rm_places(out, data, m, n, kl, ku, m);
    let q = band_rm_dst(ku, n, i, j);
    assert(0 <= q < out.len());
    lemma_fundamental_div_mod_converse(q + kl - ku, n as int, i as int, j - i + kl);
}

/// A dense buffer of `m * n` elements has room for the column-major
/// packing of any band that is narrower than a column is long.
pub proof fn lemma_band_cm_fits(len: nat, m: nat, n: nat, kl: nat, ku: nat)
    requires
        kl + ku < m,
        m * n <= len,
    ensures
        band_cm_fits(len, m, n, kl, ku),
{
    assert forall|i: nat, j: nat|
        j < n && band_lo(ku, j) <= i < band_hi(m, kl, j) implies 0 <= #[trigger] band_cm_dst(
        ku,
        m,
        i,
        j,
    ) < len && band_src(n, i, j) < len by {
        assert(j * m + m <= m * n) by (nonlinear_arith)
            requires
                j + 1 <= n,
        ;
        assert(j * m >= 0) by (nonlinear_arith);
        assert(i * n + n <= m * n) by (nonlinear_arith)
            requires
                i + 1 <= m,
        ;
    }
}

/// A dense buffer of `n * n` elements has room for the row-major packing
/// of any band of a square matrix that is narrower than a row is long.
pub proof fn lemma_band_rm_fits_square(len: nat, n: nat, kl: nat, ku: nat)
    requires
        kl + ku < n,
        n * n <= len,
    ensures
        band_rm_fits(len, n, n, kl, ku),
{
    assert forall|i: nat, j: nat|
        i < n && band_lo(kl, i) <= j < band_hi(n, ku, i) implies 0 <= #[trigger] band_rm_dst(
        ku,
        n,
        i,
        j,
    ) < len && band_src(n, i, j) < len by {
        assert(i * n + n <= n * n) by (nonlinear_arith)
            requires
                i + 1 <= n,
        ;
        assert(j * n + n <= n * n) by (nonlinear_arith)
            requires
                j + 1 <= n,
        ;
        assert(i * n >= i) by (nonlinear_arith)
            requires
                n >= 1,
                i >= 0,
        ;
        if i + 1 < n {
            assert(i * n + n + n <= n * n) by (nonlinear_arith)
                requires
                    i + 2 <= n,
            ;
        }
    }
}

} // verus!

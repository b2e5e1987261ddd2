//! The working data model: a row-major matrix of numeric cells, each cell a
//! double-precision bit pattern. Every row has the same width, which the
//! contracts keep as an invariant.

use vstd::prelude::*;
use crate::error::GeneratorError;
use vstd::string::StringExecFns;

verus! {

/// A row-major rectangular matrix of cell values.
pub struct Matrix {
    rows: Vec<Vec<u64>>,
    cols: usize,
}

impl Matrix {
    /// The rows as a sequence of cell sequences.
    pub closed spec fn rep(self) -> Seq<Seq<u64>> {
        self.rows@.map_values(|r: Vec<u64>| r@)
    }

    /// The common width of the rows.
    pub closed spec fn spec_cols(self) -> nat {
        self.cols as nat
    }

    /// Every row has exactly the matrix's width.
    pub open spec fn wf(self) -> bool {
        forall|i: int|
            0 <= i < self.rep().len() ==> (#[trigger] self.rep()[i]).len() == self.spec_cols()
    }

    /// An empty matrix of the given width.
    pub fn new(cols: usize) -> (m: Matrix)
        ensures
            m.wf(),
            m.rep() == Seq::<Seq<u64>>::empty(),
            m.spec_cols() == cols,
    {
        let m = Matrix { rows: Vec::new(), cols };
        proof {
            assert(m.rep() =~= Seq::<Seq<u64>>::empty());
        }
        m
    }

    /// The number of rows.
    pub fn row_count(&self) -> (n: usize)
        ensures
            n == self.rep().len(),
    {
        self.rows.len()
    }

    /// The common width of the rows.
    pub fn col_count(&self) -> (n: usize)
        ensures
            n == self.spec_cols(),
    {
        self.cols
    }

    /// One row, read-only.
    pub fn row(&self, i: usize) -> (r: &Vec<u64>)
        requires
            i < self.rep().len(),
        ensures
            r@ == self.rep()[i as int],
    {
        &self.rows[i]
    }

    /// Appends one row of matching width.
    pub fn push_row(&mut self, row: Vec<u64>)
        requires
            old(self).wf(),
            row@.len() == old(self).spec_cols(),
        ensures
            final(self).wf(),
            final(self).spec_cols() == old(self).spec_cols(),
            final(self).rep() == old(self).rep().push(row@),
    {
        self.rows.push(row);
        proof {
            assert(self.rep() =~= old(self).rep().push(row@));
        }
    }

    /// Builds a matrix from rows that must all have width `cols`; a row of
    /// another width is a dimension mismatch.
    pub fn from_rows(rows: Vec<Vec<u64>>, cols: usize) -> (r: Result<Matrix, GeneratorError>)
        ensures
            r is Ok <==> (forall|i: int|
                0 <= i < rows@.len() ==> (#[trigger] rows@[i])@.len() == cols),
            r is Ok ==> {
                &&& r->Ok_0.wf()
                &&& r->Ok_0.spec_cols() == cols
                &&& r->Ok_0.rep() == rows@.map_values(|v: Vec<u64>| v@)
            },
            r is Err ==> r->Err_0 is ShapeError,
    {
        let mut i: usize = 0;
        while i < rows.len()
            invariant
                0 <= i <= rows@.len(),
                forall|j: int| 0 <= j < i ==> (#[trigger] rows@[j])@.len() == cols,
            decreases rows@.len() - i,
        {
            if rows[i].len() != cols {
                return Err(GeneratorError::ShapeError(String::from_str(
                    "a row does not have the expected number of columns",
                )));
            }
            i = i + 1;
        }
        Ok(Matrix { rows, cols })
    }
}

/// A fresh copy of a row of cells.
pub fn copy_row(row: &Vec<u64>) -> (r: Vec<u64>)
    ensures
        r@ == row@,
{
    let mut out: Vec<u64> = Vec::new();
    let mut i: usize = 0;
    while i < row.len()
        invariant
            0 <= i <= row@.len(),
            out@ == row@.take(i as int),
        decreases row@.len() - i,
    {
        out.push(row[i]);
        proof {
            assert(out@ =~= row@.take(i as int + 1));
        }
        i = i + 1;
    }
    proof {
        assert(row@.take(row@.len() as int) =~= row@);
    }
    out
}

/// Appends every cell of `src` to `dst`, in order.
pub fn append_row(dst: &mut Vec<u64>, src: &Vec<u64>)
    ensures
        final(dst)@ == old(dst)@ + src@,
{
    let mut i: usize = 0;
    while i < src.len()
        invariant
            0 <= i <= src@.len(),
            dst@ == old(dst)@ + src@.take(i as int),
        decreases src@.len() - i,
    {
        dst.push(src[i]);
        proof {
            assert(dst@ =~= old(dst)@ + src@.take(i as int + 1));
        }
        i = i + 1;
    }
    proof {
        assert(old(dst)@ + src@.take(src@.len() as int) =~= old(dst)@ + src@);
    }
}

/// The column projection of `rows` through the index list `fields`.
pub open spec fn spec_select(rows: Seq<Seq<u64>>, fields: Seq<i32>) -> Seq<Seq<u64>> {
    rows.map_values(|row: Seq<u64>| fields.map_values(|f: i32| row[f as int]))
}

/// Projects the configured subset of columns out of the working matrix,
/// keeping the row count and the row order. An index outside the matrix is
/// a dimension mismatch.
pub fn select(data: &Matrix, select_fields: &Vec<i32>) -> (r: Result<Matrix, GeneratorError>)
    requires
        data.wf(),
    ensures
        r is Ok <==> (forall|j: int|
            0 <= j < select_fields@.len() ==> 0 <= #[trigger] select_fields@[j]
                < data.spec_cols()),
        r is Ok ==> {
            &&& r->Ok_0.wf()
            &&& r->Ok_0.spec_cols() == select_fields@.len()
            &&& r->Ok_0.rep() == spec_select(data.rep(), select_fields@)
        },
        r is Err ==> r->Err_0 is ShapeError,
{
    let cols = data.col_count();
    let mut j: usize = 0;
    while j < select_fields.len()
        invariant
            0 <= j <= select_fields@.len(),
            cols == data.spec_cols(),
            forall|k: int| 0 <= k < j ==> 0 <= #[trigger] select_fields@[k] < cols,
        decreases select_fields@.len() - j,
    {
        let f = select_fields[j];
        if f < 0 || (f as usize) >= cols {
            return Err(GeneratorError::ShapeError(String::from_str(
                "a selected column index lies outside the matrix",
            )));
        }
        j = j + 1;
    }
    let mut out = Matrix::new(select_fields.len());
    let rows = data.row_count();
    let mut i: usize = 0;
    while i < rows
        invariant
            0 <= i <= rows,
            rows == data.rep().len(),
            data.wf(),
            cols == data.spec_cols(),
            forall|k: int| 0 <= k < select_fields@.len() ==> 0 <= #[trigger] select_fields@[k]
                < cols,
            out.wf(),
            out.spec_cols() == select_fields@.len(),
            out.rep() == spec_select(data.rep().take(i as int), select_fields@),
        decreases rows - i,
    {
        let src = data.row(i);
        let mut row: Vec<u64> = Vec::new();
        let mut j2: usize = 0;
        while j2 < select_fields.len()
            invariant
                0 <= j2 <= select_fields@.len(),
                src@.len() == cols,
                forall|k: int| 0 <= k < select_fields@.len() ==> 0
                    <= #[trigger] select_fields@[k] < cols,
                row@ == select_fields@.take(j2 as int).map_values(
                    |f: i32| src@[f as int],
                ),
            decreases select_fields@.len() - j2,
        {
            row.push(src[select_fields[j2] as usize]);
            proof {
                assert(row@ =~= select_fields@.take(j2 as int + 1).map_values(
                    |f: i32| src@[f as int],
                ));
            }
            j2 = j2 + 1;
        }
        proof {
            assert(select_fields@.take(select_fields@.len() as int) =~= select_fields@);
        }
        out.push_row(row);
        proof {
            assert(out.rep() =~= spec_select(data.rep().take(i as int + 1), select_fields@));
        }
        i = i + 1;
    }
    proof {
        assert(data.rep().take(rows as int) =~= data.rep());
    }
    Ok(out)
}

} // verus!

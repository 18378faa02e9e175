use vstd::prelude::*;

use crate::error::PipelineError;
use crate::table::{Cell, Table};

verus! {

/// A dense matrix stored row by row: the value at row `r`, column `c`
/// sits at `data[r * cols + c]`.
pub struct Matrix<T> {
    pub rows: usize,
    pub cols: usize,
    pub data: Vec<T>,
}

/// True when every cell of every row holds a number.
pub open spec fn all_numeric<T>(rows: Seq<Seq<Cell<T>>>) -> bool {
    forall|i: int, j: int| 0 <= i < rows.len() && 0 <= j < rows[i].len() ==> #[trigger] rows[i][j] is Num
}

/// The numbers of a numeric table, row by row.
pub open spec fn numeric_grid<T>(rows: Seq<Seq<Cell<T>>>) -> Seq<Seq<T>> {
    Seq::new(rows.len(), |r: int| Seq::new(rows[r].len(), |c: int| rows[r][c]->Num_0))
}

/// `m` holds the numbers of `rows` (each `width` cells long) in row-major order.
pub open spec fn flattens<T>(m: Matrix<T>, rows: Seq<Seq<Cell<T>>>, width: nat) -> bool {
    &&& m.rows == rows.len()
    &&& m.cols == width
    &&& m.data@.len() == rows.len() * width
    &&& forall|r: int, c: int|
        0 <= r < rows.len() && 0 <= c < width ==> m.data@[r * width + c] == (#[trigger] rows[r][c])->Num_0
}

/// Row `r`, column `c` of an `_ x w` row-major layout lies before row `n`.
proof fn lemma_index_bound(r: int, c: int, n: int, w: int)
    requires
        0 <= r < n,
        0 <= c < w,
    ensures
        0 <= r * w + c < n * w,
        r * w + c < r * w + w,
        (r + 1) * w == r * w + w,
{
    assert(0 <= r * w + c < n * w) by (nonlinear_arith)
        requires
            0 <= r < n,
            0 <= c < w,
    ;
    assert((r + 1) * w == r * w + w) by (nonlinear_arith);
}

impl<T> Matrix<T> {
    /// The buffer holds exactly `rows * cols` values.
    pub open spec fn wf(&self) -> bool {
        self.data@.len() == self.rows * self.cols
    }

    /// The matrix as a grid of rows.
    pub open spec fn grid(&self) -> Seq<Seq<T>> {
        Seq::new(
            self.rows as nat,
            |r: int| Seq::new(self.cols as nat, |c: int| self.data@[r * self.cols + c]),
        )
    }
}

impl<T: Copy> Matrix<T> {
    /// The value at row `r`, column `c`.
    pub fn get(&self, r: usize, c: usize) -> (v: T)
        requires
            self.wf(),
            r < self.rows,
            c < self.cols,
        ensures
            v == self.grid()[r as int][c as int],
    {
        // The buffer's length is a `usize`, which bounds the index below.
        let _len = self.data.len();
        proof {
            lemma_index_bound(r as int, c as int, self.rows as int, self.cols as int);
        }
        self.data[r * self.cols + c]
    }

    /// Reshapes the buffer back into `rows` rows of `cols` values.
    pub fn to_rows(&self) -> (g: Vec<Vec<T>>)
        requires
            self.wf(),
        ensures
            g@.map_values(|v: Vec<T>| v@) == self.grid(),
    {
        let n = self.data.len();
        let mut out: Vec<Vec<T>> = Vec::new();
        let mut k: usize = 0;
        let mut i: usize = 0;
        while i < self.rows
            invariant
                self.wf(),
                n == self.data@.len(),
                0 <= i <= self.rows,
                k == i * self.cols,
                out@.len() == i,
                forall|q: int| 0 <= q < i ==> (#[trigger] out@[q])@ == self.grid()[q],
            decreases self.rows - i,
        {
            let mut row: Vec<T> = Vec::new();
            let mut j: usize = 0;
            while j < self.cols
                invariant
                    self.wf(),
                    n == self.data@.len(),
                    0 <= i < self.rows,
                    0 <= j <= self.cols,
                    k == i * self.cols + j,
                    row@ == self.grid()[i as int].subrange(0, j as int),
                decreases self.cols - j,
            {
                proof {
                    lemma_index_bound(i as int, j as int, self.rows as int, self.cols as int);
                }
                row.push(self.data[k]);
                proof {
                    assert(row@ =~= self.grid()[i as int].subrange(0, j + 1));
                }
                k += 1;
                j += 1;
            }
            proof {
                assert(row@ =~= self.grid()[i as int]);
                assert((i + 1) * self.cols == i * self.cols + self.cols) by (nonlinear_arith);
            }
            out.push(row);
            i += 1;
        }
        proof {
            assert(out@.map_values(|v: Vec<T>| v@) =~= self.grid());
        }
        out
    }
}

/// Flattens a numeric table into a row-major matrix with one row per record
/// and one column per table column. Fails with `TypeMismatch` exactly when
/// some cell is not a number. A table without rows or without columns gives
/// an empty buffer.
pub fn flatten<T: Copy>(t: &Table<T>) -> (r: Result<Matrix<T>, PipelineError>)
    requires
        t.wf(),
    ensures
        r is Ok <==> all_numeric(t.rows_view()),
        r matches Ok(m) ==> flattens(m, t.rows_view(), t.names@.len()) && m.wf(),
        r matches Err(e) ==> e == PipelineError::TypeMismatch,
{
    let width = t.names.len();
    let ghost rows = t.rows_view();
    let mut data: Vec<T> = Vec::new();
    let mut i: usize = 0;
    while i < t.rows.len()
        invariant
            t.wf(),
            rows == t.rows_view(),
            width == t.names@.len(),
            0 <= i <= rows.len(),
            data@.len() == i * width,
            forall|r: int, c: int|
                0 <= r < i && 0 <= c < width ==> (#[trigger] rows[r][c]) is Num && data@[r * width + c]
                    == rows[r][c]->Num_0,
        decreases rows.len() - i,
    {
        let row = &t.rows[i];
        assert(row@ == rows[i as int]);
        let mut j: usize = 0;
        while j < width
            invariant
                t.wf(),
                rows == t.rows_view(),
                width == t.names@.len(),
                0 <= i < rows.len(),
                row@ == rows[i as int],
                row@.len() == width,
                0 <= j <= width,
                data@.len() == i * width + j,
                forall|r: int, c: int|
                    0 <= r < i && 0 <= c < width ==> (#[trigger] rows[r][c]) is Num && data@[r * width
                        + c] == rows[r][c]->Num_0,
                forall|c: int| 0 <= c < j ==> (#[trigger] row@[c]) is Num && data@[i * width + c] == row@[c]->Num_0,
            decreases width - j,
        {
            match &row[j] {
                Cell::Num(v) => {
                    let ghost before = data@;
                    data.push(*v);
                    proof {
                        assert forall|r: int, c: int| 0 <= r < i && 0 <= c < width implies (
                        #[trigger] rows[r][c]) is Num && data@[r * width + c] == rows[r][c]->Num_0 by {
                            lemma_index_bound(r, c, i as int, width as int);
                            assert(data@[r * width + c] == before[r * width + c]);
                        }
                    }
                },
                _ => {
                    assert(!(rows[i as int][j as int] is Num));
                    return Err(PipelineError::TypeMismatch);
                },
            }
            j += 1;
        }
        proof {
            assert forall|r: int, c: int| 0 <= r < i + 1 && 0 <= c < width implies (
            #[trigger] rows[r][c]) is Num && data@[r * width + c] == rows[r][c]->Num_0 by {
                if r == i {
                    assert(row@[c] == rows[r][c]);
                }
            }
            assert((i + 1) * width == i * width + width) by (nonlinear_arith);
        }
        i += 1;
    }
    proof {
        assert forall|r: int, c: int| 0 <= r < rows.len() && 0 <= c < rows[r].len() implies #[trigger] rows[r][c] is Num by {
            assert(t.rows@[r]@.len() == width);
        }
    }
    Ok(Matrix { rows: t.rows.len(), cols: width, data })
}

/// Reshaping a flattened table back into a grid gives, at every row and
/// column, the number the table held there.
pub proof fn lemma_flatten_round_trip<T>(m: Matrix<T>, rows: Seq<Seq<Cell<T>>>, width: nat)
    requires
        forall|i: int| 0 <= i < rows.len() ==> (#[trigger] rows[i]).len() == width,
        flattens(m, rows, width),
    ensures
        m.wf(),
        m.grid() == numeric_grid(rows),
{
    assert forall|r: int| 0 <= r < rows.len() implies #[trigger] m.grid()[r] == numeric_grid(rows)[r] by {
        assert forall|c: int| 0 <= c < width implies #[trigger] m.grid()[r][c] == numeric_grid(rows)[r][c] by {
            assert(m.data@[r * width + c] == rows[r][c]->Num_0);
        }
        assert(m.grid()[r] =~= numeric_grid(rows)[r]);
    }
    assert(m.grid() =~= numeric_grid(rows));
}

/// A table without rows or without columns is numeric, and flattens to an
/// empty buffer.
pub proof fn lemma_flatten_empty<T>(t: Table<T>, m: Matrix<T>)
    requires
        t.wf(),
        t.rows@.len() == 0 || t.names@.len() == 0,
    ensures
        all_numeric(t.rows_view()),
        flattens(m, t.rows_view(), t.names@.len()) ==> m.data@.len() == 0,
{
    assert forall|i: int, j: int|
        0 <= i < t.rows_view().len() && 0 <= j < t.rows_view()[i].len() implies #[trigger] t.rows_view()[i][j] is Num by {
        assert(t.rows@[i]@.len() == t.names@.len());
    }
    assert(t.rows@.len() * t.names@.len() == 0) by (nonlinear_arith)
        requires
            t.rows@.len() == 0 || t.names@.len() == 0,
    ;
}

} // verus!

use vstd::prelude::*;

use crate::error::PipelineError;

verus! {

/// One value of a record: missing, text, or a number of type `T`.
#[derive(Debug, PartialEq)]
pub enum Cell<T> {
    Null,
    Text(String),
    Num(T),
}

impl<T: Copy> Cell<T> {
    /// An equal copy of this cell.
    pub fn duplicate(&self) -> (r: Self)
        ensures
            r == *self,
    {
        match self {
            Cell::Null => Cell::Null,
            Cell::Text(s) => Cell::Text(s.clone()),
            Cell::Num(v) => Cell::Num(*v),
        }
    }

    pub fn is_null(&self) -> (r: bool)
        ensures
            r == (*self is Null),
    {
        match self {
            Cell::Null => true,
            _ => false,
        }
    }
}

/// A record table: named columns, in order, and rows of cells, in order.
/// A well-formed table has exactly one cell per column in every row.
pub struct Table<T> {
    pub names: Vec<String>,
    pub rows: Vec<Vec<Cell<T>>>,
}

/// True when no cell of the row is missing.
pub open spec fn row_complete<T>(row: Seq<Cell<T>>) -> bool {
    forall|j: int| 0 <= j < row.len() ==> !(#[trigger] row[j] is Null)
}

/// The rows that have no missing cell, in the order they had.
pub open spec fn complete_rows<T>(rows: Seq<Seq<Cell<T>>>) -> Seq<Seq<Cell<T>>> {
    rows.filter(|r: Seq<Cell<T>>| row_complete(r))
}

/// Index of the first column called `n`, or -1 when there is none.
pub open spec fn first_position(names: Seq<Seq<char>>, n: Seq<char>) -> int
    decreases names.len(),
{
    if names.len() == 0 {
        -1
    } else {
        let p = first_position(names.drop_last(), n);
        if p >= 0 {
            p
        } else if names.last() == n {
            names.len() - 1
        } else {
            -1
        }
    }
}

/// Every wanted name is a column name.
pub open spec fn all_present(names: Seq<Seq<char>>, wanted: Seq<Seq<char>>) -> bool {
    forall|j: int| 0 <= j < wanted.len() ==> names.contains(#[trigger] wanted[j])
}

/// The rows restricted to the wanted columns, in the wanted order; a name
/// that occurs twice among the columns stands for its first occurrence.
pub open spec fn projected_rows<T>(
    names: Seq<Seq<char>>,
    rows: Seq<Seq<Cell<T>>>,
    wanted: Seq<Seq<char>>,
) -> Seq<Seq<Cell<T>>> {
    Seq::new(
        rows.len(),
        |i: int| Seq::new(wanted.len(), |j: int| rows[i][first_position(names, wanted[j])]),
    )
}

pub open spec fn names_of(v: Seq<String>) -> Seq<Seq<char>> {
    v.map_values(|s: String| s@)
}

impl<T> Table<T> {
    pub open spec fn names_view(&self) -> Seq<Seq<char>> {
        names_of(self.names@)
    }

    pub open spec fn rows_view(&self) -> Seq<Seq<Cell<T>>> {
        self.rows@.map_values(|r: Vec<Cell<T>>| r@)
    }

    pub open spec fn height_spec(&self) -> nat {
        self.rows@.len()
    }

    pub open spec fn width_spec(&self) -> nat {
        self.names@.len()
    }

    /// Every row has one cell per column.
    pub open spec fn wf(&self) -> bool {
        forall|i: int| 0 <= i < self.rows@.len() ==> (#[trigger] self.rows@[i])@.len() == self.names@.len()
    }

    /// Builds a table, refusing rows whose length differs from the number of columns.
    pub fn new(names: Vec<String>, rows: Vec<Vec<Cell<T>>>) -> (r: Result<Self, PipelineError>)
        ensures
            r is Ok <==> (forall|i: int| 0 <= i < rows@.len() ==> (#[trigger] rows@[i])@.len() == names@.len()),
            r matches Ok(t) ==> t.names == names && t.rows == rows && t.wf(),
            r matches Err(e) ==> e == PipelineError::DimensionMismatch,
    {
        let mut i: usize = 0;
        while i < rows.len()
            invariant
                0 <= i <= rows@.len(),
                forall|k: int| 0 <= k < i ==> (#[trigger] rows@[k])@.len() == names@.len(),
            decreases rows@.len() - i,
        {
            if rows[i].len() != names.len() {
                return Err(PipelineError::DimensionMismatch);
            }
            i += 1;
        }
        Ok(Table { names, rows })
    }

    /// Number of rows.
    pub fn height(&self) -> (r: usize)
        ensures
            r == self.height_spec(),
    {
        self.rows.len()
    }

    /// Number of columns.
    pub fn width(&self) -> (r: usize)
        ensures
            r == self.width_spec(),
    {
        self.names.len()
    }

    /// Index of the first column called `name`, if any.
    pub fn column_position(&self, name: &String) -> (r: Option<usize>)
        ensures
            r matches Some(p) ==> p == first_position(self.names_view(), name@),
            r is None <==> first_position(self.names_view(), name@) == -1,
    {
        let mut i: usize = 0;
        while i < self.names.len()
            invariant
                0 <= i <= self.names@.len(),
                first_position(self.names_view().subrange(0, i as int), name@) == -1,
            decreases self.names@.len() - i,
        {
            proof {
                assert(self.names_view().subrange(0, i + 1).drop_last() =~= self.names_view().subrange(0, i as int));
            }
            if self.names[i] == *name {
                proof {
                    assert(first_position(self.names_view().subrange(0, i + 1), name@) == i);
                    lemma_first_position_prefix(self.names_view(), name@, i + 1);
                }
                return Some(i);
            }
            i += 1;
        }
        proof {
            assert(self.names_view().subrange(0, i as int) =~= self.names_view());
        }
        None
    }
}

/// A column found among the first `k` names is the first of the whole list.
proof fn lemma_first_position_prefix(names: Seq<Seq<char>>, n: Seq<char>, k: int)
    requires
        0 <= k <= names.len(),
        first_position(names.subrange(0, k), n) >= 0,
    ensures
        first_position(names, n) == first_position(names.subrange(0, k), n),
    decreases names.len() - k,
{
    if k < names.len() {
        assert(names.subrange(0, k + 1).drop_last() =~= names.subrange(0, k));
        lemma_first_position_prefix(names, n, k + 1);
    } else {
        assert(names.subrange(0, k) =~= names);
    }
}

/// `first_position` finds a column of that name exactly when one exists.
pub proof fn lemma_first_position(names: Seq<Seq<char>>, n: Seq<char>)
    ensures
        -1 <= first_position(names, n) < names.len(),
        first_position(names, n) >= 0 <==> names.contains(n),
        first_position(names, n) >= 0 ==> names[first_position(names, n)] == n,
    decreases names.len(),
{
    if names.len() > 0 {
        lemma_first_position(names.drop_last(), n);
        if names.drop_last().contains(n) {
            let k = choose|k: int| 0 <= k < names.drop_last().len() && names.drop_last()[k] == n;
            assert(names[k] == n);
        }
        if names.contains(n) && !names.drop_last().contains(n) {
            let k = choose|k: int| 0 <= k < names.len() && names[k] == n;
            if k < names.len() - 1 {
                assert(names.drop_last()[k] == n);
            }
        }
    }
}

/// True when no cell of the row is missing.
fn row_has_no_null<T: Copy>(row: &Vec<Cell<T>>) -> (r: bool)
    ensures
        r == row_complete(row@),
{
    let mut j: usize = 0;
    while j < row.len()
        invariant
            0 <= j <= row@.len(),
            forall|k: int| 0 <= k < j ==> !(#[trigger] row@[k] is Null),
        decreases row@.len() - j,
    {
        if row[j].is_null() {
            return false;
        }
        j += 1;
    }
    true
}

/// An equal copy of a row.
fn copy_row<T: Copy>(row: &Vec<Cell<T>>) -> (r: Vec<Cell<T>>)
    ensures
        r@ == row@,
{
    let mut out: Vec<Cell<T>> = Vec::new();
    let mut j: usize = 0;
    while j < row.len()
        invariant
            0 <= j <= row@.len(),
            out@ == row@.subrange(0, j as int),
        decreases row@.len() - j,
    {
        out.push(row[j].duplicate());
        proof {
            assert(out@ =~= row@.subrange(0, j + 1));
        }
        j += 1;
    }
    proof {
        assert(row@.subrange(0, j as int) =~= row@);
    }
    out
}

/// An equal copy of a list of names.
fn copy_names(names: &Vec<String>) -> (r: Vec<String>)
    ensures
        r@ == names@,
{
    let mut out: Vec<String> = Vec::new();
    let mut j: usize = 0;
    while j < names.len()
        invariant
            0 <= j <= names@.len(),
            out@ == names@.subrange(0, j as int),
        decreases names@.len() - j,
    {
        out.push(names[j].clone());
        proof {
            assert(out@ =~= names@.subrange(0, j + 1));
        }
        j += 1;
    }
    proof {
        assert(names@.subrange(0, j as int) =~= names@);
    }
    out
}

/// The table without the rows that hold a missing cell: same columns, the
/// remaining rows in the order they had. An empty result is no error.
pub fn drop_nulls<T: Copy>(t: &Table<T>) -> (r: Table<T>)
    ensures
        r.names@ == t.names@,
        r.rows_view() == complete_rows(t.rows_view()),
        t.wf() ==> r.wf(),
{
    let mut out: Vec<Vec<Cell<T>>> = Vec::new();
    let mut i: usize = 0;
    while i < t.rows.len()
        invariant
            0 <= i <= t.rows@.len(),
            out@.map_values(|r: Vec<Cell<T>>| r@) == complete_rows(t.rows_view().subrange(0, i as int)),
            t.wf() ==> forall|k: int| 0 <= k < out@.len() ==> (#[trigger] out@[k])@.len() == t.names@.len(),
        decreases t.rows@.len() - i,
    {
        let ghost before = out@;
        let ghost seen = t.rows_view().subrange(0, i + 1);
        proof {
            assert(seen.drop_last() =~= t.rows_view().subrange(0, i as int));
            assert(seen.last() == t.rows@[i as int]@);
            lemma_complete_rows_step(seen);
        }
        if row_has_no_null(&t.rows[i]) {
            let row = copy_row(&t.rows[i]);
            out.push(row);
            proof {
                assert(out@.map_values(|r: Vec<Cell<T>>| r@) =~= before.map_values(|r: Vec<Cell<T>>| r@).push(t.rows@[i as int]@));
            }
        }
        i += 1;
    }
    proof {
        assert(t.rows_view().subrange(0, i as int) =~= t.rows_view());
    }
    Table { names: copy_names(&t.names), rows: out }
}

/// One step of the cleaner: the last row is kept exactly when it is complete.
proof fn lemma_complete_rows_step<T>(rows: Seq<Seq<Cell<T>>>)
    requires
        rows.len() > 0,
    ensures
        complete_rows(rows) == if row_complete(rows.last()) {
            complete_rows(rows.drop_last()).push(rows.last())
        } else {
            complete_rows(rows.drop_last())
        },
{
    reveal(Seq::filter);
}

/// A sequence whose rows are all complete is left as it is.
proof fn lemma_complete_rows_fixed<T>(rows: Seq<Seq<Cell<T>>>)
    requires
        forall|i: int| 0 <= i < rows.len() ==> row_complete(#[trigger] rows[i]),
    ensures
        complete_rows(rows) == rows,
    decreases rows.len(),
{
    if rows.len() > 0 {
        assert forall|i: int| 0 <= i < rows.drop_last().len() implies row_complete(
            #[trigger] rows.drop_last()[i],
        ) by {
            assert(rows.drop_last()[i] == rows[i]);
        }
        lemma_complete_rows_fixed(rows.drop_last());
        assert(row_complete(rows.last()));
        lemma_complete_rows_step(rows);
        assert(rows.drop_last().push(rows.last()) =~= rows);
    }
}

/// Every row that survives the cleaner is complete and is a row of the input.
pub proof fn lemma_drop_nulls_complete_and_subset<T>(rows: Seq<Seq<Cell<T>>>)
    ensures
        forall|i: int|
            0 <= i < complete_rows(rows).len() ==> row_complete(#[trigger] complete_rows(rows)[i])
                && rows.contains(complete_rows(rows)[i]),
    decreases rows.len(),
{
    if rows.len() > 0 {
        let rest = rows.drop_last();
        lemma_drop_nulls_complete_and_subset(rest);
        let out = complete_rows(rows);
        lemma_complete_rows_step(rows);
        assert forall|i: int| 0 <= i < out.len() implies row_complete(#[trigger] out[i])
            && rows.contains(out[i]) by {
            if i < complete_rows(rest).len() {
                assert(out[i] == complete_rows(rest)[i]);
                assert(rest.contains(out[i]));
                let k = choose|k: int| 0 <= k < rest.len() && rest[k] == out[i];
                assert(rows[k] == out[i]);
            } else {
                assert(out[i] == rows[rows.len() - 1]);
            }
        }
    }
}

/// Cleaning a table twice gives the same rows as cleaning it once.
pub proof fn lemma_drop_nulls_idempotent<T>(rows: Seq<Seq<Cell<T>>>)
    ensures
        complete_rows(complete_rows(rows)) == complete_rows(rows),
{
    lemma_drop_nulls_complete_and_subset(rows);
    lemma_complete_rows_fixed(complete_rows(rows));
}

/// The position of each wanted column, or `None` when one is missing.
fn wanted_positions<T>(t: &Table<T>, wanted: &Vec<String>) -> (r: Option<Vec<usize>>)
    ensures
        r is Some <==> all_present(t.names_view(), names_of(wanted@)),
        r matches Some(p) ==> p@.len() == wanted@.len() && forall|j: int|
            0 <= j < wanted@.len() ==> #[trigger] p@[j] == first_position(t.names_view(), wanted@[j]@)
                && 0 <= p@[j] < t.names@.len(),
{
    let mut out: Vec<usize> = Vec::new();
    let mut j: usize = 0;
    while j < wanted.len()
        invariant
            0 <= j <= wanted@.len(),
            out@.len() == j,
            forall|k: int| 0 <= k < j ==> #[trigger] out@[k] == first_position(t.names_view(), wanted@[k]@)
                && 0 <= out@[k] < t.names@.len(),
            forall|k: int| 0 <= k < j ==> t.names_view().contains(#[trigger] names_of(wanted@)[k]),
        decreases wanted@.len() - j,
    {
        proof {
            lemma_first_position(t.names_view(), wanted@[j as int]@);
        }
        match t.column_position(&wanted[j]) {
            Some(p) => {
                out.push(p);
            },
            None => {
                assert(!t.names_view().contains(names_of(wanted@)[j as int]));
                return None;
            },
        }
        j += 1;
    }
    Some(out)
}

/// The table restricted to the named columns, in the order asked for, with
/// the same rows in the same order. Fails with `ColumnNotFound` exactly when
/// a name is not a column of the table.
pub fn select_columns<T: Copy>(t: &Table<T>, wanted: &Vec<String>) -> (r: Result<Table<T>, PipelineError>)
    requires
        t.wf(),
    ensures
        r is Ok <==> all_present(t.names_view(), names_of(wanted@)),
        r matches Ok(s) ==> s.names@ == wanted@ && s.wf()
            && s.rows_view() == projected_rows(t.names_view(), t.rows_view(), names_of(wanted@)),
        r matches Err(e) ==> e == PipelineError::ColumnNotFound,
{
    let pos = match wanted_positions(t, wanted) {
        Some(p) => p,
        None => {
            return Err(PipelineError::ColumnNotFound);
        },
    };
    let ghost want = projected_rows(t.names_view(), t.rows_view(), names_of(wanted@));
    let mut rows: Vec<Vec<Cell<T>>> = Vec::new();
    let mut i: usize = 0;
    while i < t.rows.len()
        invariant
            0 <= i <= t.rows@.len(),
            t.wf(),
            want == projected_rows(t.names_view(), t.rows_view(), names_of(wanted@)),
            pos@.len() == wanted@.len(),
            forall|j: int| 0 <= j < wanted@.len() ==> #[trigger] pos@[j] == first_position(t.names_view(), wanted@[j]@)
                && 0 <= pos@[j] < t.names@.len(),
            rows@.len() == i,
            forall|k: int| 0 <= k < i ==> (#[trigger] rows@[k])@ == want[k],
        decreases t.rows@.len() - i,
    {
        let src = &t.rows[i];
        assert(src@.len() == t.names@.len());
        let mut row: Vec<Cell<T>> = Vec::new();
        let mut j: usize = 0;
        while j < pos.len()
            invariant
                0 <= j <= pos@.len(),
                0 <= i < t.rows@.len(),
                src == t.rows@[i as int],
                src@.len() == t.names@.len(),
                want == projected_rows(t.names_view(), t.rows_view(), names_of(wanted@)),
                pos@.len() == wanted@.len(),
                forall|j: int| 0 <= j < wanted@.len() ==> #[trigger] pos@[j] == first_position(t.names_view(), wanted@[j]@)
                    && 0 <= pos@[j] < t.names@.len(),
                row@ == want[i as int].subrange(0, j as int),
            decreases pos@.len() - j,
        {
            row.push(src[pos[j]].duplicate());
            proof {
                assert(row@ =~= want[i as int].subrange(0, j + 1));
            }
            j += 1;
        }
        proof {
            assert(row@ =~= want[i as int]);
        }
        rows.push(row);
        i += 1;
    }
    let out = Table { names: copy_names(wanted), rows };
    proof {
        assert(out.rows_view() =~= want);
        assert forall|k: int| 0 <= k < out.rows@.len() implies (#[trigger] out.rows@[k])@.len() == out.names@.len() by {
            assert(out.rows_view()[k] == out.rows@[k]@);
        }
    }
    Ok(out)
}

/// Splits a table into a feature table and a label table by column names.
/// Succeeds exactly when every name of both lists is a column; the two lists
/// are not required to be disjoint.
pub fn split_feature_label<T: Copy>(
    t: &Table<T>,
    feature_names: &Vec<String>,
    label_names: &Vec<String>,
) -> (r: Result<(Table<T>, Table<T>), PipelineError>)
    requires
        t.wf(),
    ensures
        r is Ok <==> all_present(t.names_view(), names_of(feature_names@))
            && all_present(t.names_view(), names_of(label_names@)),
        r matches Ok((f, l)) ==> f.names@ == feature_names@ && f.wf()
            && f.rows_view() == projected_rows(t.names_view(), t.rows_view(), names_of(feature_names@))
            && l.names@ == label_names@ && l.wf()
            && l.rows_view() == projected_rows(t.names_view(), t.rows_view(), names_of(label_names@)),
        r matches Err(e) ==> e == PipelineError::ColumnNotFound,
{
    let features = select_columns(t, feature_names)?;
    let labels = select_columns(t, label_names)?;
    Ok((features, labels))
}

/// The split keeps every row and gives each side exactly the requested
/// columns, in the requested order, taken from the source table.
pub proof fn lemma_split_shape<T>(
    t: Table<T>,
    feature_names: Seq<Seq<char>>,
    label_names: Seq<Seq<char>>,
)
    requires
        t.wf(),
        all_present(t.names_view(), feature_names),
        all_present(t.names_view(), label_names),
        forall|a: int, b: int|
            0 <= a < feature_names.len() && 0 <= b < label_names.len() ==> feature_names[a] != label_names[b],
    ensures
        ({
            let f = projected_rows(t.names_view(), t.rows_view(), feature_names);
            let l = projected_rows(t.names_view(), t.rows_view(), label_names);
            &&& f.len() == t.rows@.len() && l.len() == t.rows@.len()
            &&& forall|i: int, j: int|
                0 <= i < f.len() && 0 <= j < feature_names.len() ==> f[i].len() == feature_names.len()
                    && t.names_view()[first_position(t.names_view(), feature_names[j])] == feature_names[j]
                    && #[trigger] f[i][j] == t.rows_view()[i][first_position(t.names_view(), feature_names[j])]
            &&& forall|i: int, j: int|
                0 <= i < l.len() && 0 <= j < label_names.len() ==> l[i].len() == label_names.len()
                    && t.names_view()[first_position(t.names_view(), label_names[j])] == label_names[j]
                    && #[trigger] l[i][j] == t.rows_view()[i][first_position(t.names_view(), label_names[j])]
        }),
{
    assert forall|j: int| 0 <= j < feature_names.len() implies #[trigger] t.names_view()[first_position(
        t.names_view(),
        feature_names[j],
    )] == feature_names[j] by {
        lemma_first_position(t.names_view(), feature_names[j]);
    }
    assert forall|j: int| 0 <= j < label_names.len() implies #[trigger] t.names_view()[first_position(
        t.names_view(),
        label_names[j],
    )] == label_names[j] by {
        lemma_first_position(t.names_view(), label_names[j]);
    }
}

} // verus!

use vstd::prelude::*;

use crate::error::PipelineError;
use crate::matrix::Matrix;
use crate::table::{Cell, Table};

verus! {

/// The class code of a species name: "Adelie" is 1, "Chinstrap" is 2,
/// "Gentoo" is 3; any other name has none.
pub open spec fn category_code(name: Seq<char>) -> Option<u32> {
    if name == "Adelie"@ {
        Some(1)
    } else if name == "Chinstrap"@ {
        Some(2)
    } else if name == "Gentoo"@ {
        Some(3)
    } else {
        None
    }
}

/// A label that is present and names a known species.
pub open spec fn known_label(label: Option<String>) -> bool {
    label matches Some(s) && category_code(s@) is Some
}

/// What encoding one cell of a label column gives: the class code of its
/// text, `UnknownCategory` for a missing or unknown label, `TypeMismatch`
/// for a number.
pub open spec fn cell_code<T>(cell: Cell<T>) -> Result<u32, PipelineError> {
    match cell {
        Cell::Text(s) => match category_code(s@) {
            Some(k) => Ok(k),
            None => Err(PipelineError::UnknownCategory),
        },
        Cell::Null => Err(PipelineError::UnknownCategory),
        Cell::Num(_) => Err(PipelineError::TypeMismatch),
    }
}

/// The class code of one species name, or `UnknownCategory`.
pub fn encode_label(name: &String) -> (r: Result<u32, PipelineError>)
    ensures
        category_code(name@) matches Some(k) ==> r == Ok::<u32, PipelineError>(k),
        category_code(name@) is None ==> r == Err::<u32, PipelineError>(PipelineError::UnknownCategory),
{
    proof {
        reveal_strlit("Adelie");
        reveal_strlit("Chinstrap");
        reveal_strlit("Gentoo");
    }
    if *name == "Adelie".to_owned() {
        Ok(1)
    } else if *name == "Chinstrap".to_owned() {
        Ok(2)
    } else if *name == "Gentoo".to_owned() {
        Ok(3)
    } else {
        Err(PipelineError::UnknownCategory)
    }
}

/// The class codes of a sequence of labels, in order. Fails with
/// `UnknownCategory` exactly when some label is missing or names no known
/// species.
pub fn encode_labels(labels: &Vec<Option<String>>) -> (r: Result<Vec<u32>, PipelineError>)
    ensures
        r is Ok <==> forall|i: int| 0 <= i < labels@.len() ==> known_label(#[trigger] labels@[i]),
        r matches Ok(v) ==> v@ == Seq::new(
            labels@.len(),
            |i: int| category_code(labels@[i]->Some_0@)->Some_0,
        ),
        r matches Err(e) ==> e == PipelineError::UnknownCategory,
{
    let mut out: Vec<u32> = Vec::new();
    let mut i: usize = 0;
    while i < labels.len()
        invariant
            0 <= i <= labels@.len(),
            forall|k: int| 0 <= k < i ==> known_label(#[trigger] labels@[k]),
            out@ =~= Seq::new(i as nat, |k: int| category_code(labels@[k]->Some_0@)->Some_0),
        decreases labels@.len() - i,
    {
        match &labels[i] {
            Some(name) => match encode_label(name) {
                Ok(k) => {
                    out.push(k);
                },
                Err(e) => {
                    assert(!known_label(labels@[i as int]));
                    return Err(e);
                },
            },
            None => {
                assert(!known_label(labels@[i as int]));
                return Err(PipelineError::UnknownCategory);
            },
        }
        i += 1;
    }
    Ok(out)
}

/// The class codes of one column of a table, in row order. On failure the
/// error is the one of the first row whose cell cannot be encoded.
pub fn label_codes<T: Copy>(t: &Table<T>, column: usize) -> (r: Result<Vec<u32>, PipelineError>)
    requires
        t.wf(),
        column < t.names@.len(),
    ensures
        r is Ok <==> forall|i: int| 0 <= i < t.rows@.len() ==> (#[trigger] cell_code(t.rows_view()[i][column as int])) is Ok,
        r matches Ok(v) ==> v@ == Seq::new(
            t.rows@.len(),
            |i: int| cell_code(t.rows_view()[i][column as int])->Ok_0,
        ),
        r matches Err(e) ==> exists|i: int|
            0 <= i < t.rows@.len() && cell_code(t.rows_view()[i][column as int]) == Err::<u32, PipelineError>(e)
                && forall|k: int| 0 <= k < i ==> (#[trigger] cell_code(t.rows_view()[k][column as int])) is Ok,
{
    let ghost rows = t.rows_view();
    let mut out: Vec<u32> = Vec::new();
    let mut i: usize = 0;
    while i < t.rows.len()
        invariant
            t.wf(),
            rows == t.rows_view(),
            column < t.names@.len(),
            0 <= i <= rows.len(),
            forall|k: int| 0 <= k < i ==> (#[trigger] cell_code(rows[k][column as int])) is Ok,
            out@ =~= Seq::new(i as nat, |k: int| cell_code(rows[k][column as int])->Ok_0),
        decreases rows.len() - i,
    {
        assert(t.rows@[i as int]@.len() == t.names@.len());
        assert(t.rows@[i as int]@ == rows[i as int]);
        match &t.rows[i][column] {
            Cell::Text(name) => match encode_label(name) {
                Ok(k) => {
                    out.push(k);
                },
                Err(e) => {
                    assert(cell_code(rows[i as int][column as int]) == Err::<u32, PipelineError>(e));
                    return Err(e);
                },
            },
            Cell::Null => {
                return Err(PipelineError::UnknownCategory);
            },
            Cell::Num(_) => {
                return Err(PipelineError::TypeMismatch);
            },
        }
        i += 1;
    }
    Ok(out)
}

/// Checks that a feature matrix has one row per label; fails with
/// `DimensionMismatch` otherwise.
pub fn check_dimensions<T>(m: &Matrix<T>, labels: &Vec<u32>) -> (r: Result<(), PipelineError>)
    ensures
        r is Ok <==> m.rows == labels@.len(),
        r matches Err(e) ==> e == PipelineError::DimensionMismatch,
{
    if m.rows == labels.len() {
        Ok(())
    } else {
        Err(PipelineError::DimensionMismatch)
    }
}

} // verus!

use vstd::prelude::*;

use crate::error::PipelineError;
use crate::labels::{cell_code, check_dimensions, label_codes};
use crate::matrix::{all_numeric, flatten, flattens, Matrix};
use crate::table::{
    all_present, complete_rows, drop_nulls, first_position, lemma_first_position, names_of, projected_rows, select_columns,
    Table,
};

verus! {

/// Turns a raw table into training data: drops the incomplete rows, takes
/// the feature columns as a row-major matrix and the label column as class
/// codes, one per remaining row.
///
/// Fails with `ColumnNotFound` when a feature name or the label name is not
/// a column; otherwise with `TypeMismatch` when a feature cell of a complete
/// row is not a number; otherwise with the error of the first complete row
/// whose label cannot be encoded.
pub fn prepare_dataset<T: Copy>(
    t: &Table<T>,
    feature_names: &Vec<String>,
    label_name: &String,
) -> (r: Result<(Matrix<T>, Vec<u32>), PipelineError>)
    requires
        t.wf(),
    ensures
        ({
            let clean = complete_rows(t.rows_view());
            let features = projected_rows(t.names_view(), clean, names_of(feature_names@));
            let lcol = first_position(t.names_view(), label_name@);
            let present = all_present(t.names_view(), names_of(feature_names@))
                && t.names_view().contains(label_name@);
            &&& (r == Err::<(Matrix<T>, Vec<u32>), PipelineError>(PipelineError::ColumnNotFound)) <==> !present
            &&& r is Ok <==> present && all_numeric(features) && forall|i: int|
                0 <= i < clean.len() ==> (#[trigger] cell_code(clean[i][lcol])) is Ok
            &&& (present && !all_numeric(features)) ==> r == Err::<(Matrix<T>, Vec<u32>), PipelineError>(
                PipelineError::TypeMismatch,
            )
            &&& (present && all_numeric(features) && r is Err) ==> exists|i: int|
                0 <= i < clean.len() && Err::<u32, PipelineError>(r->Err_0) == cell_code(clean[i][lcol])
                    && forall|k: int| 0 <= k < i ==> (#[trigger] cell_code(clean[k][lcol])) is Ok
            &&& r matches Ok((m, y)) ==> flattens(m, features, feature_names@.len()) && m.wf()
                && y@ == Seq::new(clean.len(), |i: int| cell_code(clean[i][lcol])->Ok_0)
        }),
{
    let clean = drop_nulls(t);
    let ghost rows = clean.rows_view();
    proof {
        assert(clean.names_view() =~= t.names_view());
        lemma_first_position(t.names_view(), label_name@);
    }
    let features = select_columns(&clean, feature_names)?;
    let lcol = match clean.column_position(label_name) {
        Some(p) => p,
        None => {
            return Err(PipelineError::ColumnNotFound);
        },
    };
    let x = flatten(&features)?;
    let y = label_codes(&clean, lcol)?;
    match check_dimensions(&x, &y) {
        Ok(()) => {},
        Err(e) => {
            return Err(e);
        },
    }
    Ok((x, y))
}

} // verus!

//! Verified data-preparation steps for a tabular classification pipeline:
//! dropping incomplete records, projecting columns by name, flattening a
//! numeric table into a row-major matrix and encoding species labels.

mod error;
mod labels;
mod matrix;
mod pipeline;
mod table;

pub use error::PipelineError;
pub use labels::{category_code, cell_code, check_dimensions, encode_label, encode_labels, known_label, label_codes};
pub use matrix::{
    all_numeric, flatten, flattens, lemma_flatten_empty, lemma_flatten_round_trip, numeric_grid, Matrix,
};
pub use pipeline::prepare_dataset;
pub use table::{
    all_present, complete_rows, drop_nulls, first_position, lemma_drop_nulls_complete_and_subset,
    lemma_drop_nulls_idempotent, lemma_first_position, lemma_split_shape, names_of, projected_rows,
    row_complete, select_columns, split_feature_label, Cell, Table,
};

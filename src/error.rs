use vstd::prelude::*;

verus! {

/// The ways a step of the pipeline can fail.
#[derive(Debug, Clone, Copy, PartialEq, Eq, Structural)]
pub enum PipelineError {
    /// A requested column name is not in the table's schema.
    ColumnNotFound,
    /// A value that is not numeric stands where a number is needed,
    /// or a value that is not text stands where a label is needed.
    TypeMismatch,
    /// A label is missing, or is not one of the known categories.
    UnknownCategory,
    /// Two parts that must line up have different sizes.
    DimensionMismatch,
}

} // verus!

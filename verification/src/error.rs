//! Error kinds reported by the fingerprint pipeline.

use vstd::prelude::*;

verus! {

/// Everything that can go wrong while computing a fingerprint.
///
/// All errors are structural input problems: the computation is deterministic
/// and side-effect free, so none of them is transient.
#[derive(Clone, Copy, Debug, PartialEq, Eq, Structural)]
pub enum UnfError {
    /// A column's declared type has no canonicalization rule.
    UnsupportedColumnType,
    /// A batch's column types or order disagree with the schema the
    /// pipeline was built with.
    SchemaMismatch,
    /// The configuration is unusable: zero significant digits, zero
    /// maximum characters, or a truncation that is not a whole number of
    /// bytes or exceeds the digest length.
    InvalidConfiguration,
    /// The dataset has no columns or no rows.
    EmptyDataset,
}

impl UnfError {
    /// A short diagnostic name for the error.
    pub fn describe(&self) -> (r: &'static str)
        ensures
            r@ == match *self {
                UnfError::UnsupportedColumnType => "unsupported column type"@,
                UnfError::SchemaMismatch => "schema mismatch"@,
                UnfError::InvalidConfiguration => "invalid configuration"@,
                UnfError::EmptyDataset => "empty dataset"@,
            },
    {
        match *self {
            UnfError::UnsupportedColumnType => "unsupported column type",
            UnfError::SchemaMismatch => "schema mismatch",
            UnfError::InvalidConfiguration => "invalid configuration",
            UnfError::EmptyDataset => "empty dataset",
        }
    }
}

} // verus!

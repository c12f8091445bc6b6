use vstd::prelude::*;

verus! {

/// Every failure a caller of this library can observe.
///
/// Each variant is a distinct condition with its own user-facing message:
/// nothing is folded into a catch-all, so callers can react to each kind.
#[derive(Debug, Clone, Copy, PartialEq, Eq, Structural)]
pub enum StoreError {
    /// A required path or credential is missing from the configuration.
    ConfigurationError,
    /// The persisted store file is missing or unreadable.
    StoreUnavailable,
    /// A data row of the store file does not parse against the schema.
    /// `row` is the 1-based index of the offending data row; 0 names the
    /// header line.
    MalformedRecord { row: usize },
    /// The record set is empty or every record's weight is non-positive.
    NoSelectableRecord,
    /// The atomic-replace save failed partway; the original file is intact.
    PersistenceFailure,
}

impl StoreError {
    /// A human-readable description, one distinct message per variant.
    pub fn message(&self) -> (m: String)
        ensures
            self is ConfigurationError ==> m@ == "required configuration is missing"@,
            self is StoreUnavailable ==> m@ == "reading list store is missing or unreadable"@,
            self is MalformedRecord ==> m@ == "a row of the reading list store does not match the schema"@,
            self is NoSelectableRecord ==> m@ == "no record is selectable: the store is empty or all weights are used up"@,
            self is PersistenceFailure ==> m@ == "saving the reading list store failed; the previous contents are intact"@,
    {
        match self {
            StoreError::ConfigurationError => "required configuration is missing".to_owned(),
            StoreError::StoreUnavailable => "reading list store is missing or unreadable".to_owned(),
            StoreError::MalformedRecord { .. } => "a row of the reading list store does not match the schema".to_owned(),
            StoreError::NoSelectableRecord => "no record is selectable: the store is empty or all weights are used up".to_owned(),
            StoreError::PersistenceFailure => "saving the reading list store failed; the previous contents are intact".to_owned(),
        }
    }
}

} // verus!

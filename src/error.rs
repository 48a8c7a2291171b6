use vstd::prelude::*;

verus! {

/// Why a record could not be stored.
#[derive(Debug, PartialEq, Eq)]
pub enum AddItemError {
    /// The table service refused or failed the write; the text is its cause.
    AwsAddItemError(String),
    /// The embedded database failed the write; the text is its cause.
    SqlAddItemError(String),
    /// The in-memory map's lock was left poisoned by an earlier failure.
    InMemoryDbAddItemError(),
    /// The backend expires records by a time-to-live and none was given.
    MissingTtl(),
}

/// Why the records could not be listed.
#[derive(Debug, PartialEq, Eq)]
pub enum ScanTableError {
    AwsScanError(String),
    SqlScanError(String),
    InMemoryDbScanError(),
    /// The freshness window reaches before the earliest representable time.
    CutoffOutOfRange(),
}

/// Why a lookup by id or by address failed.
#[derive(Debug, PartialEq, Eq)]
pub enum QueryItemError {
    AwsQueryItemError(String),
    SqlQueryItemError(String),
    InMemoryDbQueryItemError(),
}

/// Why old records could not be deleted.
#[derive(Debug, PartialEq, Eq)]
pub enum DeleteItemError {
    SqlDeleteItemError(String),
    /// The age asked for reaches before the earliest representable time.
    CutoffOutOfRange(),
}

} // verus!

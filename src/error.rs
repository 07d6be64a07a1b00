use vstd::prelude::*;

verus! {

/// The failures that an operation of the data-access layer reports.
#[derive(Clone, Copy, Debug, PartialEq, Eq, Structural)]
pub enum DbError {
    /// The row that the operation needs does not exist.
    NotFound,
    /// A referential or uniqueness rule of the store was broken.
    ConstraintViolation,
    /// The store could not be reached, or its address is invalid.
    ConnectionError,
    /// No pooled connection became free within the wait policy.
    PoolExhausted,
    /// A malformed statement or another failure on the store's side.
    QueryError,
}

/// A failure as the store's driver reports it.
#[derive(Clone, Copy, Debug, PartialEq, Eq, Structural)]
pub enum StoreFailure {
    /// A statement that must return a row returned none.
    RowMissing,
    /// A unique index refused a row.
    UniqueViolation,
    /// A foreign key refused a row.
    ForeignKeyViolation,
    /// The connection was refused or closed.
    ConnectionLost,
    /// No pooled connection came free in time.
    CheckoutTimeout,
    /// A statement the store could not run, or any other failure.
    Other,
}

/// The kind of error that a driver failure is reported as.
pub open spec fn classified(f: StoreFailure) -> DbError {
    match f {
        StoreFailure::RowMissing => DbError::NotFound,
        StoreFailure::UniqueViolation => DbError::ConstraintViolation,
        StoreFailure::ForeignKeyViolation => DbError::ConstraintViolation,
        StoreFailure::ConnectionLost => DbError::ConnectionError,
        StoreFailure::CheckoutTimeout => DbError::PoolExhausted,
        StoreFailure::Other => DbError::QueryError,
    }
}

/// Classifies a driver failure into the error taxonomy.
pub fn classify(f: StoreFailure) -> (r: DbError)
    ensures
        r == classified(f),
{
    match f {
        StoreFailure::RowMissing => DbError::NotFound,
        StoreFailure::UniqueViolation | StoreFailure::ForeignKeyViolation => {
            DbError::ConstraintViolation
        },
        StoreFailure::ConnectionLost => DbError::ConnectionError,
        StoreFailure::CheckoutTimeout => DbError::PoolExhausted,
        StoreFailure::Other => DbError::QueryError,
    }
}

} // verus!

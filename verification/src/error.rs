//! Error taxonomy of the core.
//!
//! Validation failures are caught before any state is touched; all other
//! failures of a sale transaction leave the store exactly as it was.

use vstd::prelude::*;

verus! {

/// Every failure a core operation can report.
#[derive(Debug, Clone)]
pub enum AppError {
    /// Malformed or out-of-range input, rejected before any state change.
    ValidationError(String),
    /// A requested quantity exceeds the available stock.
    InsufficientStock { product_name: String, requested: i32, available: i32 },
    /// An unknown product, sale or user identifier.
    NotFound(String),
    /// The caller may not see or change the addressed record.
    Unauthorized(String),
    /// A uniqueness constraint was violated, e.g. a duplicate identifier.
    Conflict(String),
    /// A name/password pair that does not identify a user.
    Authentication(String),
    /// An infrastructure failure, safe to retry.
    Database(String),
}

pub type AppResult<T> = Result<T, AppError>;

impl AppError {
    /// A short label naming the kind of error, for callers that
    /// translate errors into user-facing text.
    pub fn kind_label(&self) -> (r: &'static str)
        ensures
            r@ == match self {
                AppError::ValidationError(_) => "validation"@,
                AppError::InsufficientStock { .. } => "insufficient_stock"@,
                AppError::NotFound(_) => "not_found"@,
                AppError::Unauthorized(_) => "unauthorized"@,
                AppError::Conflict(_) => "conflict"@,
                AppError::Authentication(_) => "authentication"@,
                AppError::Database(_) => "database"@,
            },
    {
        match self {
            AppError::ValidationError(_) => "validation",
            AppError::InsufficientStock { .. } => "insufficient_stock",
            AppError::NotFound(_) => "not_found",
            AppError::Unauthorized(_) => "unauthorized",
            AppError::Conflict(_) => "conflict",
            AppError::Authentication(_) => "authentication",
            AppError::Database(_) => "database",
        }
    }
}

} // verus!

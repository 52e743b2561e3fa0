//! Point-of-sale / inventory core: a catalog of products with per-unit
//! stock counts and exact decimal prices, an append-only ledger of sales,
//! a sale transaction coordinator that keeps stock and totals consistent,
//! and a generic filter/sort/pagination query engine.

pub mod cart;
pub mod catalog;
pub mod dashboard;
pub mod dates;
pub mod error;
pub mod laws;
pub mod money;
pub mod printer;
pub mod query;
pub mod reporting;
pub mod sales;
pub mod store;
pub mod text;
pub mod textenc;
pub mod trusted;
pub mod users;

pub use error::{AppError, AppResult};
pub use money::Money;

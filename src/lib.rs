//! Building blocks of an invertible constant-Q style time-frequency transform:
//! the filter-bank layout of an analyzer and the sparse coefficient store that
//! analysis fills and synthesis reads, with its windowed traversal, forgetting
//! and coefficient exchange.
pub mod analyzer;
pub mod coef;
pub mod laws;
pub mod store;

pub use analyzer::{BankLayout, Gaborator, LayoutError};
pub use coef::{Coef, CoefMeta};
pub use store::Coefs;

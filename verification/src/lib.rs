//! Monetary amounts held as exact counts of minor units, read from decimal
//! text and written back as text with a currency symbol.

pub mod currency;
pub mod decimal;
pub mod error;
pub mod money;
pub mod strings;

pub use currency::iso::{from_enum, iso_currencies, Iso};
pub use currency::Currency;
pub use error::Error;
pub use money::rendering::FillOptions;
pub use money::Money;

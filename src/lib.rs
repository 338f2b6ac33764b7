//! Market-cap snapshot pipeline: exact decimals, payload validation, row
//! classification, fixed-width formatting and ordering of table rows.

pub mod decimal;
pub mod text;
pub mod style;
pub mod json;
pub mod snapshot;
pub mod table;

//! One editable line of text whose positions are counted in grapheme
//! clusters (user-perceived characters) rather than bytes or scalar values.
pub mod graphemes;
pub mod row;

pub use row::Row;

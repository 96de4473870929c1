//! Card rendering values and the template function library.
//!
//! Card data is converted into a uniform dynamic value, and a fixed set of
//! pure template functions (arithmetic, selection, flattening, joining,
//! escaping and SVG attribute builders) operates on such values.

pub mod value;
pub mod error;
pub mod context;
pub mod numeric;
pub mod select;
pub mod collection;
pub mod text;
pub mod svg;
pub mod wrap;

pub mod laws;

//! A reader for a small, human-readable data-interchange notation.
//!
//! The library turns a text string into a recursive, strongly typed value
//! tree ([`Edn`]).  The grammar covers the absence literal `nil`, booleans,
//! unsigned decimal integer literals, character literals with escape
//! decoding, ordered containers (lists and vectors) and unordered,
//! duplicate-preserving containers (maps and sets).  Equality on the two
//! unordered kinds ignores element order but keeps multiplicity: two equal
//! elements inserted twice remain two elements.

pub mod eq;
pub mod grammar;
pub mod laws;
pub mod reader;
pub mod value;

pub use value::BasicElement;
pub use value::BasicSet;
pub use value::Edn;
pub use value::TaggedElement;
pub use reader::read_edn;

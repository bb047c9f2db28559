//! Rewrites a flat, header-derived foreign-function description into the
//! stricter shape expected by a typed C++ bridge: types are classified as
//! trivial or opaque, raw pointers become references, methods are
//! recovered from class-prefixed function names and constructors become
//! factories returning a uniquely owned handle.
pub mod ast;
pub mod types;
pub mod triviality;
pub mod conversion;
pub mod converter;
pub mod bridge;

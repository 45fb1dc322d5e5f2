//! Located diagnostics for source-transforming tools, and a builder that
//! gathers many of them into one.
//!
//! A pass over the source pushes each problem it finds onto an
//! [`ErrorBuilder`] and goes on. At its end `ErrorBuilder::ok_or_build` tells
//! whether anything was found, and hands out all of it as one [`Error`], in
//! the order in which it was found.

pub mod builder;
pub mod error;
pub mod laws;
pub mod report;
pub mod tokens;

pub use crate::builder::ErrorBuilder;
pub use crate::error::Error;

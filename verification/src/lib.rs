//! The CIC primitive engine: strict reading of a YAML composition into an
//! order-preserving value tree, with every refusal carried as an [`Error`]
//! that names its code, rule, stage and path.

pub mod code;
pub mod error;
pub mod rule;
pub mod reader;
pub mod scan;
pub mod text;
pub mod value;
pub mod yaml;

pub use error::{Error, Result, Stage};

//! Checks markdown documents for links whose local destination does not exist.

pub mod config;
pub mod error;
pub mod laws;
pub mod link;
pub mod scan;
pub mod text;

pub use error::MdckError;

//! Peels escaped text blocks out of configuration documents.

pub mod cli;
pub mod document;
pub mod error;
pub mod laws;
pub mod peeler;
pub mod render;
pub mod text;
pub mod yaml;

pub use cli::Cli;
pub use error::RspError;
pub use peeler::Peeler;

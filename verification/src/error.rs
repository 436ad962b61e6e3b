//! The ways in which peeling a document can fail.

use vstd::prelude::*;

verus! {

/// `std::io::Error`, carried as an opaque value.
#[verifier::external_type_specification]
#[verifier::external_body]
pub struct ExIoError(std::io::Error);

/// Why a run did not produce its output.
#[derive(Debug)]
pub enum RspError {
    /// Reading the input or writing the output failed.
    Io(std::io::Error),
    /// The input text is not YAML, or a value could not be written as YAML.
    Yaml(serde_yaml::Error),
    /// The document does not have the shape that peeling needs.
    InvalidFormat(String),
    /// The named input file could not be read.
    FileNotFound(String),
    /// Any other failure while running.
    Processing(String),
}

} // verus!

//! Host metrics for Linux, read from the text that the kernel exposes.
//!
//! The library turns the contents of the CPU accounting file into counter
//! records ([`cpu::CpuTimes`]) and the names found in the process directory
//! into process identifiers ([`process::pids`]). It works on bytes that the
//! caller has already read; opening files and listing directories is left to
//! the caller.

use vstd::prelude::*;

pub mod cpu;
pub mod lines;
pub mod number;
pub mod process;
pub mod text;

use number::IntErrorKind;

verus! {

/// `std::io::Error`, carried through unopened: the library never looks inside.
#[verifier::external_type_specification]
#[verifier::external_body]
pub struct ExIoError(std::io::Error);

/// The result of reading metrics.
pub type Result<T> = core::result::Result<T, Error>;

/// What can go wrong while metrics are read.
#[derive(Debug)]
pub enum Error {
    /// The source does not have the expected shape: a line is missing or is
    /// not text.
    RuntimeError(String),
    /// The source could not be opened or read.
    IoError(std::io::Error),
    /// A field that should be a number is not one.
    ParseError(IntErrorKind),
}

/// An [`Error`] as contracts see it: the message of a runtime error, the kind
/// of a parse error, and of an I/O error only that it is one.
pub enum Failure {
    Runtime(Seq<char>),
    Io,
    Parse(IntErrorKind),
}

impl View for Error {
    type V = Failure;

    open spec fn view(&self) -> Failure {
        match self {
            Error::RuntimeError(message) => Failure::Runtime(message@),
            Error::IoError(_) => Failure::Io,
            Error::ParseError(kind) => Failure::Parse(*kind),
        }
    }
}

} // verus!

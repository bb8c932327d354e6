//! Print the IP address to stdout.

use std::io::Write;
use vstd::prelude::*;

use crate::reporter::Data;
use crate::reporter::Reporter;

verus! {

/// A `Reporter` that prints the data to stdout.
pub struct Stdout;

/// The error when the line could not be written to stdout.
#[derive(Debug)]
pub struct StdoutError;

/// Relies on `std::io::stdout` and the `Write` impl of the returned handle:
/// writes the text and a newline, or fails with the I/O error.
#[verifier::external_body]
fn write_line(s: &String) -> (r: Result<(), StdoutError>) {
    match writeln!(std::io::stdout(), "{}", s) {
        Ok(()) => Ok(()),
        Err(_) => Err(StdoutError),
    }
}

impl Reporter for Stdout {
    type Error = StdoutError;

    fn report(&self, data: &Data) -> Result<(), StdoutError> {
        write_line(&data.ip)
    }
}

} // verus!

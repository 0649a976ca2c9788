//! Errors of the device protocol and of talking to a device.
use vstd::prelude::*;
use vstd::string::StringExecFns;

verus! {

/// A response body that does not follow the device's grammar.
#[derive(Clone, Copy, Debug, PartialEq, Eq)]
pub enum ProtocolError {
    /// No line reading exactly `ok` follows the echo line.
    Unterminated,
    /// An expected key is missing, or a value is not the number it should be.
    Malformed,
}

} // verus!

verus! {

/// Why a request to a printer did not give a response.
#[derive(Clone, Debug)]
pub enum PrinterError {
    /// The connection could not be made, or a write or read on it failed.
    Connection(String),
    /// A write or read took longer than its time limit.
    Timeout,
    /// The response did not decode.
    Protocol(ProtocolError),
    /// A status refresh failed: the printer is taken to be offline.
    Offline,
}

/// The human-readable message of an error.
pub open spec fn error_message(e: PrinterError) -> Seq<char> {
    match e {
        PrinterError::Connection(m) => m@,
        PrinterError::Timeout => "timed out"@,
        PrinterError::Protocol(ProtocolError::Unterminated) => "response not terminated by ok"@,
        PrinterError::Protocol(ProtocolError::Malformed) => "malformed response"@,
        PrinterError::Offline => "Printer unreachable or offline"@,
    }
}

impl PrinterError {
    pub fn message(&self) -> (r: String)
        ensures
            r@ == error_message(*self),
    {
        match self {
            PrinterError::Connection(m) => m.clone(),
            PrinterError::Timeout => String::from_str("timed out"),
            PrinterError::Protocol(ProtocolError::Unterminated) => String::from_str(
                "response not terminated by ok",
            ),
            PrinterError::Protocol(ProtocolError::Malformed) => String::from_str(
                "malformed response",
            ),
            PrinterError::Offline => String::from_str("Printer unreachable or offline"),
        }
    }
}

} // verus!

//! Error type of the transport-level API.

use serialport::Error as SerialPortError;
use std::io::Error as IoError;
use vstd::prelude::*;

verus! {

/// The error type of the `serialport` crate, carried through unchanged.
#[verifier::external_type_specification]
#[verifier::external_body]
pub struct ExSerialPortError(SerialPortError);

/// `std::io::Error`, carried through unchanged.
#[verifier::external_type_specification]
#[verifier::external_body]
pub struct ExIoError(IoError);

/// Errors of the channel-based device API and of the command builders.
#[derive(Debug)]
pub enum MakcuError {
    NotConnected,
    Port(serialport::Error),
    Io(std::io::Error),
    Timeout,
    NotFound,
    Disconnected,
    Protocol(String),
    /// A numeric argument outside the range the firmware accepts.
    OutOfRange { value: i64, min: i64, max: i64 },
}

} // verus!

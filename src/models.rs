//! The records that the device's responses decode to, and the error record
//! handed to callers.
use vstd::prelude::*;
use crate::numbers::Decimal;
use crate::table::Table;

verus! {

/// An error as callers see it: a machine-readable code and a message.
#[derive(Clone, Debug)]
pub struct GenericError {
    pub error: String,
    pub message: Option<String>,
}

#[derive(Clone, Copy, Debug, PartialEq, Eq)]
pub struct Position {
    pub x: i32,
    pub y: i32,
    pub z: i32,
}

#[derive(Clone, Copy, Debug, PartialEq, Eq)]
pub struct EndStopPosition {
    pub x_max: i32,
    pub y_max: i32,
    pub z_min: i32,
}

/// One temperature reading: what it is now and what it is heading for.
#[derive(Clone, Copy, Debug, PartialEq, Eq)]
pub struct TemperatureMeasurement {
    pub target: Decimal,
    pub current: Decimal,
}

/// The identity of a printer.
#[derive(Clone, Debug)]
pub struct PrinterInfo {
    pub name: String,
    pub firmware_version: String,
    pub sn: String,
    pub tool_count: u8,
    pub model_name: String,
    pub mac_addr: String,
    pub position: Position,
}

/// What is known of a printer without asking it.
#[derive(Clone, Debug)]
pub struct CachedPrinterInfo {
    pub name: String,
    pub is_online: bool,
    pub current_file: Option<String>,
    pub firmware_version: Option<String>,
}

#[derive(Clone, Copy, Debug, PartialEq, Eq)]
pub struct PrinterHeadPosition {
    pub x: Decimal,
    pub y: Decimal,
    pub z: Decimal,
    pub a: Decimal,
    pub b: u32,
}

/// The temperature readings, by sensor name.
#[derive(Debug)]
pub struct PrinterTemperature(pub Table<TemperatureMeasurement>);

/// Progress of a print: (done, total) in bytes and in layers.
#[derive(Clone, Copy, Debug, PartialEq, Eq)]
pub struct PrinterProgress {
    pub layer: (u32, u32),
    pub byte: (u32, u32),
}

#[derive(Clone, Debug)]
pub struct PrinterStatus {
    pub end_stop: EndStopPosition,
    pub machine_status: String,
    pub move_mode: String,
    pub led: bool,
    pub current_file: Option<String>,
}

/// The acknowledgement of a control command.
#[derive(Clone, Copy, Debug, PartialEq, Eq)]
pub struct ControlSuccess {
    pub success: bool,
}

} // verus!

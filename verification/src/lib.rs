//! A gateway between a serial telemetry device and UDP clients.
//!
//! The device sends log records in frames over a serial line; the gateway shows
//! them, and sends the numbers in them to a plotter. Clients send text commands in
//! datagrams; the gateway writes them to the device as packets.
//!
//! - [`commands`]: text commands, and the packets that carry them to the device.
//! - [`frames`]: the serial line as a stream of frames, and what a frame holds.
//! - [`telemetry`] and [`plots`]: plot data from log records.
//! - [`gateway`]: what the gateway does with each event, and what it remembers.
//! - [`setup`]: addresses, and what is reported while the gateway is set up.
//! - [`laws`]: what the operations are for, over what goes in and what comes out.
//! - [`text`] and [`bytes`]: text and numbers, as the rest needs them.

pub mod bytes;
pub mod commands;
pub mod frames;
pub mod gateway;
pub mod laws;
pub mod plots;
pub mod setup;
pub mod telemetry;
pub mod text;

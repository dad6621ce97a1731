//! Addresses, and what is reported while the gateway is set up.

use vstd::prelude::*;
use vstd::string::*;

use crate::text::decimal_text;

verus! {

/// A step of setting the gateway up that can fail.
#[derive(Debug)]
pub enum SetupStep {
    /// Opening the serial port of this name.
    OpenPort(String),
    /// Binding the telemetry socket.
    BindTelemetry,
    /// Connecting the telemetry socket to this port.
    ConnectTelemetry(u16),
    /// Binding the command socket to this port.
    BindCommands(u16),
    /// Making the command socket non-blocking.
    UnblockCommands,
    /// Creating the poll.
    CreatePoll,
    /// Registering the serial port with the poll.
    RegisterSerial,
    /// Registering the command socket with the poll.
    RegisterCommands,
}

impl SetupStep {
    /// What is reported where the step fails for the reason `e`.
    pub open spec fn report(self, e: Seq<char>) -> Seq<char> {
        match self {
            SetupStep::OpenPort(name) => "Failed to open port '"@ + name@ + "': "@ + e,
            SetupStep::BindTelemetry => "Failed to bind telemetry UDP: "@ + e,
            SetupStep::ConnectTelemetry(port) => "Failed to connect telemetry UDP to "@ + address(
                "127.0.0.1"@,
                port,
            ) + ": "@ + e,
            SetupStep::BindCommands(port) => "Failed to bind command UDP port "@
                + crate::text::decimal(port as nat) + ": "@ + e,
            SetupStep::UnblockCommands => "Failed to set command UDP to non-blocking: "@ + e,
            SetupStep::CreatePoll => "Failed to create Poll: "@ + e,
            SetupStep::RegisterSerial => "Failed to register serial port with poll: "@ + e,
            SetupStep::RegisterCommands => "Failed to register command UDP socket with poll: "@
                + e,
        }
    }

    /// What is reported where the step fails for the reason `e`.
    pub fn failure(&self, e: &str) -> (r: String)
        ensures
            r@ == self.report(e@),
    {
        let mut r = match self {
            SetupStep::OpenPort(name) => {
                let mut r = "Failed to open port '".to_owned();
                r.append(name.as_str());
                r.append("': ");
                r
            },
            SetupStep::BindTelemetry => "Failed to bind telemetry UDP: ".to_owned(),
            SetupStep::ConnectTelemetry(port) => {
                let mut r = "Failed to connect telemetry UDP to ".to_owned();
                r.append(telemetry_address(*port).as_str());
                r.append(": ");
                r
            },
            SetupStep::BindCommands(port) => {
                let mut r = "Failed to bind command UDP port ".to_owned();
                r.append(decimal_text(*port as u64).as_str());
                r.append(": ");
                r
            },
            SetupStep::UnblockCommands => "Failed to set command UDP to non-blocking: ".to_owned(),
            SetupStep::CreatePoll => "Failed to create Poll: ".to_owned(),
            SetupStep::RegisterSerial => "Failed to register serial port with poll: ".to_owned(),
            SetupStep::RegisterCommands => {
                "Failed to register command UDP socket with poll: ".to_owned()
            },
        };
        r.append(e);
        r
    }
}

/// The address of a port on a host.
pub open spec fn address(host: Seq<char>, port: u16) -> Seq<char> {
    host + ":"@ + crate::text::decimal(port as nat)
}

fn address_of(host: &str, port: u16) -> (r: String)
    ensures
        r@ == address(host@, port),
{
    let mut r = host.to_owned();
    r.append(":");
    r.append(decimal_text(port as u64).as_str());
    r
}

/// Where plot data is sent: the given port of this machine.
pub fn telemetry_address(port: u16) -> (r: String)
    ensures
        r@ == address("127.0.0.1"@, port),
{
    address_of("127.0.0.1", port)
}

/// Where commands are received: the given port, from anywhere.
pub fn command_address(port: u16) -> (r: String)
    ensures
        r@ == address("0.0.0.0"@, port),
{
    address_of("0.0.0.0", port)
}

/// What is shown once the log statements of the device's ELF file were looked up.
pub fn precache_notice(count: usize) -> (r: String)
    ensures
        r@ == "Precached "@ + crate::text::decimal(count as nat) + " logs"@,
{
    let mut r = "Precached ".to_owned();
    r.append(decimal_text(count as u64).as_str());
    r.append(" logs");
    r
}

/// What is shown once plot data can be sent.
pub fn telemetry_notice(port: u16) -> (r: String)
    ensures
        r@ == "Telemetry UDP socket configured to send to "@ + address("127.0.0.1"@, port)
            + " for plot data."@,
{
    let mut r = "Telemetry UDP socket configured to send to ".to_owned();
    r.append(telemetry_address(port).as_str());
    r.append(" for plot data.");
    r
}

/// What is shown once commands can be received.
pub fn command_notice(port: u16) -> (r: String)
    ensures
        r@ == "Command UDP server listening on port "@ + crate::text::decimal(port as nat)
            + " for serial commands."@,
{
    let mut r = "Command UDP server listening on port ".to_owned();
    r.append(decimal_text(port as u64).as_str());
    r.append(" for serial commands.");
    r
}

} // verus!

use vstd::prelude::*;

verus! {

/// Errors reported by the client.
#[derive(Debug, PartialEq, Eq)]
pub enum Error {
    /// No Bluetooth adapter is available.
    NoAdapters,
    /// A scan is already running.
    ScanAlreadyRunning,
    /// Connecting needs at least one discovered device.
    NoDevicesDiscovered,
    /// The device is already connected.
    AlreadyConnected,
    /// No timed scan is running.
    NoScanRunning,
    /// No discovered peripheral has the given address.
    UnknownPeripheral(String),
    /// The device did not report a connection after connecting.
    ConnectionFailed,
    /// No connected device has the given address.
    NoDeviceConnected,
    /// The device still reports a connection after disconnecting.
    DisconnectFailed,
    /// The connected device has no characteristic with the given UUID.
    CharacNotAvailable(String),
    /// The named command did not finish in time.
    Timeout(String),
    /// The Bluetooth stack reported an error, with its message.
    Btleplug(String),
    /// A text could not be parsed as a UUID, with the parser's message.
    UuidParse(String),
    /// The scan task ended without a result.
    ScanFailed,
}

} // verus!

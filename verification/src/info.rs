//! The transfer model that the library reports to its users: device kinds,
//! transfer states, and the metadata of a transfer.

use vstd::prelude::*;

verus! {

/// Kind of a remote (or this) device, as Quick Share advertises it.
#[derive(Debug, Clone, Copy, PartialEq, Eq, Structural)]
pub enum DeviceType {
    Unknown,
    Phone,
    Tablet,
    Laptop,
}

/// Progress of a transfer through the Quick Share handshake.
#[derive(Debug, Clone, Copy, PartialEq, Eq, Structural)]
pub enum TransferState {
    Initial,
    ReceivedConnectionRequest,
    SentUkeyServerInit,
    SentUkeyClientInit,
    SentUkeyClientFinish,
    SentPairedKeyEncryption,
    ReceivedUkeyClientFinish,
    SentConnectionResponse,
    SentPairedKeyResult,
    SentIntroduction,
    ReceivedPairedKeyResult,
    WaitingForUserConsent,
    ReceivingFiles,
    SendingFiles,
    Disconnected,
    Rejected,
    Cancelled,
    Finished,
}

/// A remote device: its name and kind.
#[derive(Debug, Clone)]
pub struct RemoteDeviceInfo {
    pub name: String,
    pub device_type: DeviceType,
}

/// What a transfer carries.
#[derive(Debug, Clone)]
pub enum TransferPayload {
    /// Files, by path.
    Files(Vec<String>),
    /// A text snippet.
    Text(String),
    /// A URL.
    Url(String),
    /// Wi-Fi credentials, shown by network name.
    Wifi { ssid: String },
}

/// What the library knows of a transfer.
#[derive(Debug, Clone)]
pub struct TransferMetadata {
    pub source: Option<RemoteDeviceInfo>,
    pub pin_code: Option<String>,
    pub payload: Option<TransferPayload>,
    pub payload_preview: Option<String>,
    pub ack_bytes: u64,
    pub total_bytes: u64,
}

/// What an outbound transfer sends.
#[derive(Debug, Clone)]
pub enum OutboundPayload {
    /// Files, by path.
    Files(Vec<String>),
}

} // verus!

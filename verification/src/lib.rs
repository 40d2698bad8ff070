//! Verified core of a Quick Share receiver/sender: the BLE advertisement
//! layout, the weave GATT socket framing, and the decisions that the
//! transfer services and the desktop front end make.

pub mod wire;
pub mod advert;
pub mod weave;
pub mod info;
pub mod channel;
pub mod dto;

pub use info::{DeviceType, OutboundPayload, TransferState};
pub mod text;
pub mod paste;
pub mod manager;
pub mod cmds;

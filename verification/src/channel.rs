//! Messages between the library and its front end.

use vstd::prelude::*;
use crate::info::{TransferMetadata, TransferState};

verus! {

/// Direction of a transfer.
#[derive(Debug, Clone, Copy, PartialEq, Eq, Structural)]
pub enum TransferKind {
    Inbound,
    Outbound,
}

/// What the front end asks of a transfer.
#[derive(Debug, Clone, Copy, PartialEq, Eq, Structural)]
pub enum TransferAction {
    ConsentAccept,
    ConsentDecline,
    TransferCancel,
}

/// A report about one transfer.
#[derive(Debug, Clone)]
pub struct MessageClient {
    pub kind: TransferKind,
    pub state: Option<TransferState>,
    pub metadata: Option<TransferMetadata>,
}

/// A channel message body: a report from the library, or a front-end action.
#[derive(Debug, Clone)]
pub enum Message {
    Client(MessageClient),
    Lib { action: TransferAction },
}

/// A message about the transfer `id`.
#[derive(Debug, Clone)]
pub struct ChannelMessage {
    pub id: String,
    pub msg: Message,
}

impl ChannelMessage {
    /// The report that a transfer ended without finishing: state
    /// `Disconnected` and no metadata.
    pub fn disconnected(id: String, kind: TransferKind) -> (m: ChannelMessage)
        ensures
            m.id == id,
            m.msg matches Message::Client(c) && c.kind == kind && c.state == Some(
                TransferState::Disconnected,
            ) && c.metadata is None,
    {
        ChannelMessage {
            id,
            msg: Message::Client(
                MessageClient { kind, state: Some(TransferState::Disconnected), metadata: None },
            ),
        }
    }
}

} // verus!

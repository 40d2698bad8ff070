//! Boundary types between the desktop front end and the library.
//!
//! The library's channel message is nested (`{ id, msg: Lib | Client }`),
//! while the front end speaks the flat shape
//! `{ id, direction, action, rtype, state, meta }`. These types hold that
//! flat shape, and the functions here convert between the two.

use vstd::prelude::*;
use crate::channel::{ChannelMessage, Message, TransferAction, TransferKind};
use crate::info::{DeviceType, TransferMetadata, TransferPayload, TransferState};
use crate::text::literal;

verus! {

#[derive(Debug, Clone, Copy, PartialEq, Eq, Structural)]
pub enum ChannelDirection {
    FrontToLib,
    LibToFront,
}

impl Default for ChannelDirection {
    fn default() -> (d: Self)
        ensures
            d == ChannelDirection::FrontToLib,
    {
        ChannelDirection::FrontToLib
    }
}

#[derive(Debug, Clone, Copy, PartialEq, Eq, Structural)]
pub enum ChannelAction {
    AcceptTransfer,
    RejectTransfer,
    CancelTransfer,
}

#[derive(Debug, Clone, Copy, PartialEq, Eq, Structural)]
pub enum TransferType {
    Inbound,
    Outbound,
}

#[derive(Debug, Clone)]
pub struct FrontRemoteDeviceInfo {
    pub name: String,
    pub device_type: DeviceType,
}

#[derive(Debug, Clone)]
pub struct FrontMeta {
    pub source: Option<FrontRemoteDeviceInfo>,
    pub pin_code: Option<String>,
    pub files: Option<Vec<String>>,
    pub text_description: Option<String>,
    pub text_payload: Option<String>,
    pub text_type: Option<String>,
    pub ack_bytes: u64,
    pub total_bytes: u64,
}

impl Default for FrontMeta {
    fn default() -> (m: Self)
        ensures
            m.source is None,
            m.pin_code is None,
            m.files is None,
            m.text_description is None,
            m.text_payload is None,
            m.text_type is None,
            m.ack_bytes == 0,
            m.total_bytes == 0,
    {
        FrontMeta {
            source: None,
            pin_code: None,
            files: None,
            text_description: None,
            text_payload: None,
            text_type: None,
            ack_bytes: 0,
            total_bytes: 0,
        }
    }
}

#[derive(Debug, Clone)]
pub struct FrontChannelMessage {
    pub id: String,
    pub direction: ChannelDirection,
    pub action: Option<ChannelAction>,
    pub rtype: Option<TransferType>,
    pub state: Option<TransferState>,
    pub meta: Option<FrontMeta>,
}

impl Default for FrontChannelMessage {
    fn default() -> (m: Self)
        ensures
            m.id@ == Seq::<char>::empty(),
            m.direction == ChannelDirection::FrontToLib,
            m.action is None,
            m.rtype is None,
            m.state is None,
            m.meta is None,
    {
        FrontChannelMessage {
            id: String::new(),
            direction: ChannelDirection::FrontToLib,
            action: None,
            rtype: None,
            state: None,
            meta: None,
        }
    }
}

/// `s` is present and reads `text`.
pub open spec fn reads(s: Option<String>, text: Seq<char>) -> bool {
    s matches Some(v) && v@ == text
}

/// The front end's view of the payload: file list, description, text and
/// text kind.
pub open spec fn front_payload_of(f: FrontMeta, md: TransferMetadata) -> bool {
    match md.payload {
        Some(TransferPayload::Files(v)) => {
            &&& f.files == Some(v)
            &&& f.text_description is None
            &&& f.text_payload is None
            &&& f.text_type is None
        },
        Some(TransferPayload::Text(t)) => {
            &&& f.files is None
            &&& f.text_description == md.payload_preview
            &&& f.text_payload == Some(t)
            &&& reads(f.text_type, "Text"@)
        },
        Some(TransferPayload::Url(u)) => {
            &&& f.files is None
            &&& f.text_description == md.payload_preview
            &&& f.text_payload == Some(u)
            &&& reads(f.text_type, "Url"@)
        },
        Some(TransferPayload::Wifi { ssid }) => {
            &&& f.files is None
            &&& f.text_description == Some(ssid)
            &&& f.text_payload is None
            &&& reads(f.text_type, "Wifi"@)
        },
        None => {
            &&& f.files is None
            &&& f.text_description == md.payload_preview
            &&& f.text_payload is None
            &&& f.text_type is None
        },
    }
}

/// `f` is the front end's flat view of the metadata `md`.
pub open spec fn is_front_meta_of(f: FrontMeta, md: TransferMetadata) -> bool {
    &&& f.source == (match md.source {
        Some(s) => Some(FrontRemoteDeviceInfo { name: s.name, device_type: s.device_type }),
        None => None,
    })
    &&& f.pin_code == md.pin_code
    &&& front_payload_of(f, md)
    &&& f.ack_bytes == md.ack_bytes
    &&& f.total_bytes == md.total_bytes
}

/// The front end's name for a transfer direction.
pub open spec fn transfer_type_of(kind: TransferKind) -> TransferType {
    match kind {
        TransferKind::Inbound => TransferType::Inbound,
        TransferKind::Outbound => TransferType::Outbound,
    }
}

/// Messages that go out to the front end: the reports about transfers.
pub open spec fn is_outward(m: ChannelMessage) -> bool {
    m.msg is Client
}

/// The state a library message reports, if any.
pub open spec fn spec_lib_state(m: ChannelMessage) -> Option<TransferState> {
    match m.msg {
        Message::Client(c) => c.state,
        Message::Lib { .. } => None,
    }
}

/// The library action for a front-end command; no action means cancel.
pub open spec fn lib_action_of(action: Option<ChannelAction>) -> TransferAction {
    match action {
        Some(ChannelAction::AcceptTransfer) => TransferAction::ConsentAccept,
        Some(ChannelAction::RejectTransfer) => TransferAction::ConsentDecline,
        Some(ChannelAction::CancelTransfer) => TransferAction::TransferCancel,
        None => TransferAction::TransferCancel,
    }
}

/// The library message for a front-end command.
pub open spec fn spec_to_lib_message(fm: FrontChannelMessage) -> ChannelMessage {
    ChannelMessage { id: fm.id, msg: Message::Lib { action: lib_action_of(fm.action) } }
}

impl FrontMeta {
    /// The front end's flat view of a transfer's metadata.
    pub fn from_lib(md: TransferMetadata) -> (f: Self)
        ensures
            is_front_meta_of(f, md),
    {
        let TransferMetadata { source, pin_code, payload, payload_preview, ack_bytes, total_bytes } =
            md;
        let (files, text_description, text_payload, text_type) = match payload {
            Some(TransferPayload::Files(v)) => (Some(v), None, None, None),
            Some(TransferPayload::Text(t)) => (
                None,
                payload_preview,
                Some(t),
                Some(literal("Text")),
            ),
            Some(TransferPayload::Url(u)) => (None, payload_preview, Some(u), Some(literal("Url"))),
            Some(TransferPayload::Wifi { ssid }) => (
                None,
                Some(ssid),
                None,
                Some(literal("Wifi")),
            ),
            None => (None, payload_preview, None, None),
        };
        let source = match source {
            Some(s) => Some(FrontRemoteDeviceInfo { name: s.name, device_type: s.device_type }),
            None => None,
        };
        FrontMeta {
            source,
            pin_code,
            files,
            text_description,
            text_payload,
            text_type,
            ack_bytes,
            total_bytes,
        }
    }
}

impl FrontChannelMessage {
    /// A library → frontend message (returns `None` for the frontend-directed
    /// `Lib` action variant, which is never emitted outward).
    pub fn from_lib(m: ChannelMessage) -> (r: Option<Self>)
        ensures
            r is Some <==> is_outward(m),
            r matches Some(f) ==> {
                &&& f.id == m.id
                &&& f.direction == ChannelDirection::LibToFront
                &&& f.action is None
                &&& f.state == spec_lib_state(m)
                &&& m.msg matches Message::Client(c) && {
                    &&& f.rtype == Some(transfer_type_of(c.kind))
                    &&& f.state == c.state
                    &&& (f.meta is Some <==> c.metadata is Some)
                    &&& (f.meta matches Some(fm) ==> is_front_meta_of(fm, c.metadata->0))
                }
            },
    {
        let ChannelMessage { id, msg } = m;
        let client = match msg {
            Message::Client(c) => c,
            Message::Lib { .. } => return None,
        };
        let rtype = match client.kind {
            TransferKind::Inbound => TransferType::Inbound,
            TransferKind::Outbound => TransferType::Outbound,
        };
        let meta = match client.metadata {
            Some(md) => Some(FrontMeta::from_lib(md)),
            None => None,
        };
        Some(
            FrontChannelMessage {
                id,
                direction: ChannelDirection::LibToFront,
                action: None,
                rtype: Some(rtype),
                state: client.state,
                meta,
            },
        )
    }

    /// This message's state, if any (for the consent-notification check).
    pub fn lib_state(m: &ChannelMessage) -> (r: Option<TransferState>)
        ensures
            r == spec_lib_state(*m),
            m.msg matches Message::Client(c) ==> r == c.state,
            m.msg is Lib ==> r is None,
    {
        match &m.msg {
            Message::Client(c) => c.state,
            Message::Lib { .. } => None,
        }
    }

    /// The source device name of a library message, if any.
    pub fn lib_source_name(m: &ChannelMessage) -> (r: Option<String>)
        ensures
            r == (match m.msg {
                Message::Client(c) => match c.metadata {
                    Some(md) => match md.source {
                        Some(s) => Some(s.name),
                        None => None,
                    },
                    None => None,
                },
                Message::Lib { .. } => None,
            }),
    {
        match &m.msg {
            Message::Client(c) => match &c.metadata {
                Some(md) => match &md.source {
                    Some(s) => Some(s.name.clone()),
                    None => None,
                },
                None => None,
            },
            Message::Lib { .. } => None,
        }
    }
}

/// Convert a frontend command into the library's internal message.
pub fn to_lib_message(fm: FrontChannelMessage) -> (m: ChannelMessage)
    ensures
        m == spec_to_lib_message(fm),
{
    let action = match fm.action {
        Some(ChannelAction::AcceptTransfer) => TransferAction::ConsentAccept,
        Some(ChannelAction::RejectTransfer) => TransferAction::ConsentDecline,
        Some(ChannelAction::CancelTransfer) => TransferAction::TransferCancel,
        None => TransferAction::TransferCancel,
    };
    ChannelMessage { id: fm.id, msg: Message::Lib { action } }
}

/// The state of a library message is that of its report, whether or not the
/// report carries metadata; a front-end action carries none.
pub proof fn lemma_lib_state(m: ChannelMessage)
    ensures
        m.msg matches Message::Client(c) ==> spec_lib_state(m) == c.state,
        m.msg is Lib ==> spec_lib_state(m) is None,
{
}

/// A front-end command, once turned into a library message, is never sent
/// back out to the front end, and the state it reports is none.
pub proof fn lemma_commands_stay_inward(fm: FrontChannelMessage)
    ensures
        !is_outward(spec_to_lib_message(fm)),
        spec_lib_state(spec_to_lib_message(fm)) is None,
        spec_to_lib_message(fm).id == fm.id,
{
}

} // verus!

use rqs_lib::channel::{ChannelMessage, Message, MessageClient, TransferAction, TransferKind};
use rqs_lib::dto::{
    to_lib_message, ChannelAction, ChannelDirection, FrontChannelMessage, FrontMeta, TransferType,
};
use rqs_lib::info::{DeviceType, RemoteDeviceInfo, TransferMetadata, TransferPayload};
use rqs_lib::TransferState;

fn metadata(payload: Option<TransferPayload>) -> TransferMetadata {
    TransferMetadata {
        source: Some(RemoteDeviceInfo { name: "Pixel".to_string(), device_type: DeviceType::Phone }),
        pin_code: Some("1234".to_string()),
        payload,
        payload_preview: Some("preview".to_string()),
        ack_bytes: 5,
        total_bytes: 10,
    }
}

#[test]
fn meta_files() {
    let f = FrontMeta::from_lib(metadata(Some(TransferPayload::Files(vec!["a.txt".to_string()]))));
    assert_eq!(f.files, Some(vec!["a.txt".to_string()]));
    assert_eq!(f.text_description, None);
    assert_eq!(f.text_payload, None);
    assert_eq!(f.text_type, None);
    assert_eq!(f.pin_code.as_deref(), Some("1234"));
    let s = f.source.unwrap();
    assert_eq!(s.name, "Pixel");
    assert_eq!(s.device_type, DeviceType::Phone);
    assert_eq!((f.ack_bytes, f.total_bytes), (5, 10));
}

#[test]
fn meta_text_url_wifi_none() {
    let f = FrontMeta::from_lib(metadata(Some(TransferPayload::Text("hello".to_string()))));
    assert_eq!(f.files, None);
    assert_eq!(f.text_description.as_deref(), Some("preview"));
    assert_eq!(f.text_payload.as_deref(), Some("hello"));
    assert_eq!(f.text_type.as_deref(), Some("Text"));

    let f = FrontMeta::from_lib(metadata(Some(TransferPayload::Url("https://x".to_string()))));
    assert_eq!(f.text_description.as_deref(), Some("preview"));
    assert_eq!(f.text_payload.as_deref(), Some("https://x"));
    assert_eq!(f.text_type.as_deref(), Some("Url"));

    let f = FrontMeta::from_lib(metadata(Some(TransferPayload::Wifi { ssid: "home".to_string() })));
    assert_eq!(f.files, None);
    assert_eq!(f.text_description.as_deref(), Some("home"));
    assert_eq!(f.text_payload, None);
    assert_eq!(f.text_type.as_deref(), Some("Wifi"));

    let f = FrontMeta::from_lib(metadata(None));
    assert_eq!(f.files, None);
    assert_eq!(f.text_description.as_deref(), Some("preview"));
    assert_eq!(f.text_payload, None);
    assert_eq!(f.text_type, None);
}

#[test]
fn message_from_lib_client_and_lib() {
    let m = ChannelMessage {
        id: "t1".to_string(),
        msg: Message::Client(MessageClient {
            kind: TransferKind::Outbound,
            state: Some(TransferState::SendingFiles),
            metadata: Some(metadata(None)),
        }),
    };
    assert_eq!(FrontChannelMessage::lib_state(&m), Some(TransferState::SendingFiles));
    assert_eq!(FrontChannelMessage::lib_source_name(&m).as_deref(), Some("Pixel"));
    let f = FrontChannelMessage::from_lib(m).unwrap();
    assert_eq!(f.id, "t1");
    assert_eq!(f.direction, ChannelDirection::LibToFront);
    assert!(f.action.is_none());
    assert_eq!(f.rtype, Some(TransferType::Outbound));
    assert_eq!(f.state, Some(TransferState::SendingFiles));
    assert_eq!(f.meta.unwrap().text_description.as_deref(), Some("preview"));

    let lib = ChannelMessage { id: "t2".to_string(), msg: Message::Lib { action: TransferAction::ConsentAccept } };
    assert_eq!(FrontChannelMessage::lib_state(&lib), None);
    assert_eq!(FrontChannelMessage::lib_source_name(&lib), None);
    assert!(FrontChannelMessage::from_lib(lib).is_none());
}

#[test]
fn message_without_metadata() {
    let m = ChannelMessage {
        id: "t3".to_string(),
        msg: Message::Client(MessageClient { kind: TransferKind::Inbound, state: None, metadata: None }),
    };
    assert_eq!(FrontChannelMessage::lib_source_name(&m), None);
    let f = FrontChannelMessage::from_lib(m).unwrap();
    assert_eq!(f.rtype, Some(TransferType::Inbound));
    assert!(f.state.is_none());
    assert!(f.meta.is_none());
}

#[test]
fn to_lib_message_maps_actions() {
    let cases = [
        (Some(ChannelAction::AcceptTransfer), TransferAction::ConsentAccept),
        (Some(ChannelAction::RejectTransfer), TransferAction::ConsentDecline),
        (Some(ChannelAction::CancelTransfer), TransferAction::TransferCancel),
        (None, TransferAction::TransferCancel),
    ];
    for (action, expected) in cases {
        let mut fm = FrontChannelMessage::default();
        fm.id = "x".to_string();
        fm.action = action;
        let m = to_lib_message(fm);
        assert_eq!(m.id, "x");
        match m.msg {
            Message::Lib { action } => assert_eq!(action, expected),
            _ => panic!("expected a Lib message"),
        }
    }
}

#[test]
fn command_never_goes_back_out() {
    let mut fm = FrontChannelMessage::default();
    fm.action = Some(ChannelAction::AcceptTransfer);
    let m = to_lib_message(fm);
    assert_eq!(FrontChannelMessage::lib_state(&m), None);
    assert!(FrontChannelMessage::from_lib(m).is_none());
}

#[test]
fn defaults() {
    let fm = FrontChannelMessage::default();
    assert_eq!(fm.id, "");
    assert_eq!(fm.direction, ChannelDirection::FrontToLib);
    assert!(fm.action.is_none() && fm.rtype.is_none() && fm.state.is_none() && fm.meta.is_none());
    assert_eq!(ChannelDirection::default(), ChannelDirection::FrontToLib);
    let m = FrontMeta::default();
    assert!(m.source.is_none() && m.files.is_none() && m.text_type.is_none());
    assert_eq!((m.ack_bytes, m.total_bytes), (0, 0));
}

#[test]
fn disconnected_report() {
    let m = ChannelMessage::disconnected("peer".to_string(), TransferKind::Inbound);
    assert_eq!(m.id, "peer");
    match m.msg {
        Message::Client(c) => {
            assert_eq!(c.kind, TransferKind::Inbound);
            assert_eq!(c.state, Some(TransferState::Disconnected));
            assert!(c.metadata.is_none());
        }
        _ => panic!("expected a Client message"),
    }
}

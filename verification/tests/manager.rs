use rqs_lib::channel::TransferKind;
use rqs_lib::manager::{
    ble_send_mediums, payload_total_bytes, pick_dial_target, reports_disconnect, BleDialPlan,
    BleDialStep, SendInfo, SMALL_SEND_BYTES,
};
use rqs_lib::{OutboundPayload, TransferState};

#[test]
fn mediums_by_payload_size() {
    assert_eq!(ble_send_mediums(0), vec![10]);
    assert_eq!(ble_send_mediums(SMALL_SEND_BYTES), vec![10]);
    assert_eq!(ble_send_mediums(SMALL_SEND_BYTES + 1), vec![5, 8, 3, 10]);
}

#[test]
fn total_bytes_skips_unknown_sizes() {
    assert_eq!(payload_total_bytes(&vec![]), 0);
    assert_eq!(payload_total_bytes(&vec![Some(3), None, Some(4)]), 7);
}

#[test]
fn fresh_targets_first() {
    assert_eq!(pick_dial_target(&vec![], &vec![1]), None);
    assert_eq!(pick_dial_target(&vec![1, 2, 3], &vec![1, 2]), Some(2));
    assert_eq!(pick_dial_target(&vec![1, 2, 3], &vec![]), Some(0));
    assert_eq!(pick_dial_target(&vec![2, 1], &vec![1, 2]), Some(0));
}

#[test]
fn dial_plan_gives_up_after_three_rounds() {
    let (mut plan, step) = BleDialPlan::new();
    assert_eq!(step, BleDialStep::Scan { pause_first: false });
    assert_eq!(plan.on_scan_failed(), BleDialStep::Scan { pause_first: true });
    assert_eq!(plan.on_scan_results(&vec![7, 8]), BleDialStep::Dial(0));
    assert_eq!(plan.on_dial_failed(7), BleDialStep::Scan { pause_first: true });
    assert_eq!(plan.on_scan_results(&vec![7, 8]), BleDialStep::Dial(1));
    assert_eq!(plan.on_dial_failed(8), BleDialStep::GiveUp);
}

#[test]
fn dial_plan_no_target_ends_round() {
    let (mut plan, _) = BleDialPlan::new();
    assert_eq!(plan.on_scan_results(&vec![]), BleDialStep::Scan { pause_first: true });
    assert_eq!(plan.on_dial_failed(5), BleDialStep::Scan { pause_first: true });
    // Every target failed before: the failed one is tried again.
    assert_eq!(plan.on_scan_results(&vec![5]), BleDialStep::Dial(0));
    assert_eq!(plan.on_scan_failed(), BleDialStep::GiveUp);
}

#[test]
fn disconnect_reports() {
    assert!(!reports_disconnect(TransferKind::Inbound, true, TransferState::ReceivingFiles));
    assert!(!reports_disconnect(TransferKind::Inbound, false, TransferState::Initial));
    assert!(!reports_disconnect(TransferKind::Inbound, false, TransferState::Finished));
    assert!(reports_disconnect(TransferKind::Inbound, false, TransferState::Cancelled));
    assert!(reports_disconnect(TransferKind::Inbound, false, TransferState::ReceivingFiles));
    assert!(!reports_disconnect(TransferKind::Outbound, false, TransferState::Cancelled));
    assert!(!reports_disconnect(TransferKind::Outbound, false, TransferState::Finished));
    assert!(reports_disconnect(TransferKind::Outbound, false, TransferState::SendingFiles));
    assert!(!reports_disconnect(TransferKind::Outbound, true, TransferState::SendingFiles));
}

#[test]
fn send_info_fields() {
    let si = SendInfo {
        id: "ble://Pixel".to_string(),
        name: "Pixel".to_string(),
        addr: String::new(),
        ob: OutboundPayload::Files(vec!["/tmp/a".to_string()]),
        ble: true,
    };
    let c = si.clone();
    assert!(c.ble);
    let OutboundPayload::Files(f) = c.ob;
    assert_eq!(f, vec!["/tmp/a".to_string()]);
}

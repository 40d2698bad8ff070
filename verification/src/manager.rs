//! Decisions of the transfer service: how a BLE send picks and retries its
//! target, which mediums it offers, and when a failed transfer is reported
//! to the front end as disconnected.

use vstd::prelude::*;
use crate::channel::TransferKind;
use crate::info::{OutboundPayload, TransferState};

verus! {

/// A request from the front end to send a payload.
#[derive(Debug, Clone)]
pub struct SendInfo {
    pub id: String,
    pub name: String,
    pub addr: String,
    pub ob: OutboundPayload,
    /// When set, send over BLE instead of Wi-Fi/TCP: the recipient is a phone
    /// discovered over BLE, found again by `name` (its LE address and PSM
    /// rotate). `addr`/`id` may be a placeholder in this case.
    pub ble: bool,
}

/// Payloads at or below this many bytes ride BLE without a Wi-Fi upgrade.
pub const SMALL_SEND_BYTES: u64 = 1024 * 1024;

/// Medium numbers of the Nearby Connections protocol.
pub const MEDIUM_WIFI_HOTSPOT: u8 = 3;
pub const MEDIUM_WIFI_LAN: u8 = 5;
pub const MEDIUM_WIFI_DIRECT: u8 = 8;
pub const MEDIUM_BLE_L2CAP: u8 = 10;

/// How many scan-and-dial rounds a BLE send tries.
pub const BLE_CONNECT_ROUNDS: u8 = 3;

/// The mediums a BLE send offers: a small payload stays on BLE (L2CAP
/// only); a larger one offers Wi-Fi LAN, Wi-Fi Direct, Wi-Fi hotspot and
/// BLE, so that the phone can move it to Wi-Fi.
pub open spec fn spec_ble_send_mediums(total_bytes: u64) -> Seq<u8> {
    if total_bytes <= SMALL_SEND_BYTES {
        seq![MEDIUM_BLE_L2CAP]
    } else {
        seq![MEDIUM_WIFI_LAN, MEDIUM_WIFI_DIRECT, MEDIUM_WIFI_HOTSPOT, MEDIUM_BLE_L2CAP]
    }
}

/// The mediums a BLE send of `total_bytes` offers.
pub fn ble_send_mediums(total_bytes: u64) -> (m: Vec<u8>)
    ensures
        m@ == spec_ble_send_mediums(total_bytes),
{
    let mut m: Vec<u8> = Vec::new();
    if total_bytes <= SMALL_SEND_BYTES {
        m.push(MEDIUM_BLE_L2CAP);
    } else {
        m.push(MEDIUM_WIFI_LAN);
        m.push(MEDIUM_WIFI_DIRECT);
        m.push(MEDIUM_WIFI_HOTSPOT);
        m.push(MEDIUM_BLE_L2CAP);
    }
    assert(m@ =~= spec_ble_send_mediums(total_bytes));
    m
}

/// The sum of the known file sizes; unknown sizes count for nothing.
pub open spec fn known_total(sizes: Seq<Option<u64>>) -> int
    decreases sizes.len(),
{
    if sizes.len() == 0 {
        0
    } else {
        known_total(sizes.drop_last()) + match sizes.last() {
            Some(n) => n as int,
            None => 0int,
        }
    }
}

proof fn lemma_known_total_monotonic(sizes: Seq<Option<u64>>, i: int)
    requires
        0 <= i <= sizes.len(),
    ensures
        0 <= known_total(sizes.take(i)) <= known_total(sizes),
    decreases sizes.len(),
{
    if i < sizes.len() {
        assert(sizes.drop_last().take(i) =~= sizes.take(i));
        lemma_known_total_monotonic(sizes.drop_last(), i);
    } else {
        assert(sizes.take(i) =~= sizes);
        lemma_known_total_nonneg(sizes);
    }
}

proof fn lemma_known_total_nonneg(sizes: Seq<Option<u64>>)
    ensures
        known_total(sizes) >= 0,
    decreases sizes.len(),
{
    if sizes.len() > 0 {
        lemma_known_total_nonneg(sizes.drop_last());
    }
}

/// The payload size of a BLE send: the sum of the sizes of the files that
/// could be read (`None` for one whose size is unknown).
pub fn payload_total_bytes(sizes: &Vec<Option<u64>>) -> (total: u64)
    requires
        known_total(sizes@) <= u64::MAX,
    ensures
        total == known_total(sizes@),
{
    let mut total: u64 = 0;
    let mut i: usize = 0;
    while i < sizes.len()
        invariant
            i <= sizes@.len(),
            total == known_total(sizes@.take(i as int)),
            known_total(sizes@) <= u64::MAX,
        decreases sizes@.len() - i,
    {
        proof {
            lemma_known_total_monotonic(sizes@, i + 1);
            assert(sizes@.take(i + 1).drop_last() =~= sizes@.take(i as int));
        }
        match sizes[i] {
            Some(n) => {
                total = total + n;
            },
            None => {},
        }
        i = i + 1;
    }
    assert(sizes@.take(sizes@.len() as int) =~= sizes@);
    total
}

/// The target to dial among the addresses a scan found: the first that has
/// not failed before, else the first of those that failed; none when the
/// scan found nothing. Addresses that failed are put last, not banned: a
/// failed dial is usually transient.
pub open spec fn spec_pick_dial_target(targets: Seq<u64>, tried: Seq<u64>) -> Option<int> {
    if exists|i: int| 0 <= i < targets.len() && !tried.contains(#[trigger] targets[i]) {
        Some(
            choose|i: int|
                0 <= i < targets.len() && !tried.contains(#[trigger] targets[i]) && forall|k: int|
                    0 <= k < i ==> tried.contains(#[trigger] targets[k]),
        )
    } else if targets.len() > 0 {
        Some(0)
    } else {
        None
    }
}

fn contains_addr(v: &Vec<u64>, a: u64) -> (b: bool)
    ensures
        b == v@.contains(a),
{
    let mut i: usize = 0;
    while i < v.len()
        invariant
            i <= v@.len(),
            forall|k: int| 0 <= k < i ==> v@[k] != a,
        decreases v@.len() - i,
    {
        if v[i] == a {
            return true;
        }
        i = i + 1;
    }
    false
}

/// The index of the target to dial, as `spec_pick_dial_target` says.
pub fn pick_dial_target(targets: &Vec<u64>, tried: &Vec<u64>) -> (r: Option<usize>)
    ensures
        r matches Some(i) ==> i < targets@.len(),
        (match r {
            Some(i) => Some(i as int),
            None => None,
        }) == spec_pick_dial_target(targets@, tried@),
{
    let mut i: usize = 0;
    while i < targets.len()
        invariant
            i <= targets@.len(),
            forall|k: int| 0 <= k < i ==> tried@.contains(#[trigger] targets@[k]),
        decreases targets@.len() - i,
    {
        if !contains_addr(tried, targets[i]) {
            proof {
                let j = choose|j: int|
                    0 <= j < targets@.len() && !tried@.contains(#[trigger] targets@[j]) && forall|
                        k: int,
                    | 0 <= k < j ==> tried@.contains(#[trigger] targets@[k]);
                assert(0 <= i && !tried@.contains(targets@[i as int]));
                if j < i {
                    assert(tried@.contains(targets@[j]));
                } else if j > i {
                    assert(tried@.contains(targets@[i as int]));
                }
            }
            return Some(i);
        }
        i = i + 1;
    }
    if targets.len() > 0 {
        Some(0)
    } else {
        None
    }
}

/// What a BLE send does next.
#[derive(Debug, Clone, Copy, PartialEq, Eq, Structural)]
pub enum BleDialStep {
    /// Scan for the phone; after a failed round, pause first so that BlueZ
    /// can wind the previous discovery or dial down.
    Scan { pause_first: bool },
    /// Dial the target at this index of the scan results.
    Dial(usize),
    /// All rounds failed: give up with the last error.
    GiveUp,
}

/// The rounds of a BLE send: scan for the phone by name, dial the chosen
/// target, and on failure start a new round, up to three.
pub struct BleDialPlan {
    round: u8,
    tried: Vec<u64>,
}

/// The model of a dial plan: the round under way (1 to 3) and the
/// addresses whose dial failed.
pub struct BleDialPlanView {
    pub round: nat,
    pub tried: Seq<u64>,
}

impl View for BleDialPlan {
    type V = BleDialPlanView;

    closed spec fn view(&self) -> BleDialPlanView {
        BleDialPlanView { round: self.round as nat, tried: self.tried@ }
    }
}

/// The step after a failed round.
pub open spec fn after_failed_round(round: nat) -> (nat, BleDialStep) {
    if round < BLE_CONNECT_ROUNDS {
        (round + 1, BleDialStep::Scan { pause_first: true })
    } else {
        (round, BleDialStep::GiveUp)
    }
}

impl BleDialPlan {
    /// A plan's round is between 1 and 3.
    pub open spec fn wf(&self) -> bool {
        1 <= self@.round <= BLE_CONNECT_ROUNDS
    }

    /// A new plan, in its first round; the first step is a scan without pause.
    pub fn new() -> (r: (Self, BleDialStep))
        ensures
            r.0.wf(),
            r.0@.round == 1,
            r.0@.tried == Seq::<u64>::empty(),
            r.1 == (BleDialStep::Scan { pause_first: false }),
    {
        (BleDialPlan { round: 1, tried: Vec::new() }, BleDialStep::Scan { pause_first: false })
    }

    fn next_round(&mut self) -> (step: BleDialStep)
        requires
            old(self).wf(),
        ensures
            final(self).wf(),
            (final(self)@.round, step) == after_failed_round(old(self)@.round),
            final(self)@.tried == old(self)@.tried,
    {
        if self.round < BLE_CONNECT_ROUNDS {
            self.round = self.round + 1;
            BleDialStep::Scan { pause_first: true }
        } else {
            BleDialStep::GiveUp
        }
    }

    /// The scan of this round failed.
    pub fn on_scan_failed(&mut self) -> (step: BleDialStep)
        requires
            old(self).wf(),
        ensures
            final(self).wf(),
            (final(self)@.round, step) == after_failed_round(old(self)@.round),
            final(self)@.tried == old(self)@.tried,
    {
        self.next_round()
    }

    /// The scan of this round found these target addresses: dial the one
    /// that `pick_dial_target` picks, or, when the phone no longer
    /// advertises, end the round.
    pub fn on_scan_results(&mut self, targets: &Vec<u64>) -> (step: BleDialStep)
        requires
            old(self).wf(),
        ensures
            final(self).wf(),
            final(self)@.tried == old(self)@.tried,
            match spec_pick_dial_target(targets@, old(self)@.tried) {
                Some(i) => step == BleDialStep::Dial(i as usize) && final(self)@.round == old(
                    self,
                )@.round,
                None => (final(self)@.round, step) == after_failed_round(old(self)@.round),
            },
    {
        match pick_dial_target(targets, &self.tried) {
            Some(i) => BleDialStep::Dial(i),
            None => self.next_round(),
        }
    }

    /// The dial of `addr` failed: remember it and end the round.
    pub fn on_dial_failed(&mut self, addr: u64) -> (step: BleDialStep)
        requires
            old(self).wf(),
        ensures
            final(self).wf(),
            final(self)@.tried == old(self)@.tried.push(addr),
            (final(self)@.round, step) == after_failed_round(old(self)@.round),
    {
        self.tried.push(addr);
        self.next_round()
    }
}

/// Whether a transfer that ended with an error is reported to the front end
/// as disconnected: not for the quiet end of a transfer, not before it got
/// under way, and not once it finished (nor, for a send, once it was
/// cancelled).
pub open spec fn spec_reports_disconnect(
    kind: TransferKind,
    quiet_end: bool,
    state: TransferState,
) -> bool {
    &&& !quiet_end
    &&& state != TransferState::Initial
    &&& state != TransferState::Finished
    &&& (kind == TransferKind::Outbound ==> state != TransferState::Cancelled)
}

/// Whether a transfer that ended with an error in `state` is reported as
/// disconnected; `quiet_end` is set for the error that only marks the end
/// of a transfer.
pub fn reports_disconnect(kind: TransferKind, quiet_end: bool, state: TransferState) -> (b: bool)
    ensures
        b == spec_reports_disconnect(kind, quiet_end, state),
        quiet_end ==> !b,
        (kind == TransferKind::Inbound && !quiet_end) ==> (b == (state != TransferState::Initial
            && state != TransferState::Finished)),
        (kind == TransferKind::Outbound && !quiet_end) ==> (b == (state != TransferState::Initial
            && state != TransferState::Finished && state != TransferState::Cancelled)),
{
    if quiet_end {
        return false;
    }
    if state == TransferState::Initial {
        return false;
    }
    match kind {
        TransferKind::Inbound => state != TransferState::Finished,
        TransferKind::Outbound => state != TransferState::Finished && state
            != TransferState::Cancelled,
    }
}

/// An inbound transfer that ends with a real error is reported exactly when
/// it got under way and did not finish, in every other state (waiting for
/// consent, receiving, cancelled, ...); an outbound one likewise, except
/// once cancelled; the quiet end of a transfer is never reported.
pub proof fn lemma_disconnect_reports(quiet_end: bool, state: TransferState)
    ensures
        spec_reports_disconnect(TransferKind::Inbound, false, state) <==> (state
            != TransferState::Initial && state != TransferState::Finished),
        spec_reports_disconnect(TransferKind::Outbound, false, state) <==> (state
            != TransferState::Initial && state != TransferState::Finished && state
            != TransferState::Cancelled),
        !spec_reports_disconnect(TransferKind::Inbound, true, state),
        !spec_reports_disconnect(TransferKind::Outbound, true, state),
{
}

/// A BLE send makes at most three scans: from any plan, the steps that
/// follow failures either start the next round or give up once the third
/// round failed, and a failed address is never forgotten.
pub proof fn lemma_dial_rounds_bounded(round: nat)
    requires
        1 <= round <= BLE_CONNECT_ROUNDS,
    ensures
        after_failed_round(round).1 is Scan ==> after_failed_round(round).0 == round + 1
            && after_failed_round(round).0 <= BLE_CONNECT_ROUNDS,
        after_failed_round(round).1 is GiveUp <==> round == BLE_CONNECT_ROUNDS,
{
}

/// A target whose dial failed is dialed again only when every target the
/// scan found has failed before.
pub proof fn lemma_failed_targets_last(targets: Seq<u64>, tried: Seq<u64>)
    ensures
        spec_pick_dial_target(targets, tried) matches Some(i) ==> 0 <= i < targets.len(),
        spec_pick_dial_target(targets, tried) matches Some(i) && tried.contains(targets[i])
            ==> forall|k: int| 0 <= k < targets.len() ==> tried.contains(#[trigger] targets[k]),
        spec_pick_dial_target(targets, tried) is None <==> targets.len() == 0,
{
    if exists|i: int| 0 <= i < targets.len() && !tried.contains(#[trigger] targets[i]) {
        let i0 = choose|i: int| 0 <= i < targets.len() && !tried.contains(#[trigger] targets[i]);
        let j = lemma_first_fresh(targets, tried, 0, i0);
    }
}

proof fn lemma_first_fresh(targets: Seq<u64>, tried: Seq<u64>, from: int, i0: int) -> (j: int)
    requires
        0 <= from <= i0 < targets.len(),
        !tried.contains(targets[i0]),
        forall|k: int| 0 <= k < from ==> tried.contains(#[trigger] targets[k]),
    ensures
        0 <= j < targets.len(),
        !tried.contains(targets[j]),
        forall|k: int| 0 <= k < j ==> tried.contains(#[trigger] targets[k]),
    decreases i0 - from,
{
    if !tried.contains(targets[from]) {
        from
    } else {
        lemma_first_fresh(targets, tried, from + 1, i0)
    }
}

} // verus!

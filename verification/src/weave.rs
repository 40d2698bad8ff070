//! The BLE "weave" GATT socket: the connection handshake, reassembly of the
//! phone's fragmented messages, and framing and fragmentation of what the
//! inbound handshake writes back.
//!
//! A weave packet starts with a header byte. Control packets have the top bit
//! set and carry a command in the low nibble; data packets carry a 3-bit
//! counter in bits 4..=6 and the first/last flags in bits 3 and 2. A message
//! is the concatenation of the payloads of data packets up to the one with
//! the last flag; it starts with the 3-byte service id hash, and a hash of
//! three zero bytes marks a socket control frame.

use vstd::prelude::*;
use crate::wire::{append_bytes, be_u32_value, QS_SVC_HASH};

verus! {

pub const WEAVE_CONTROL: u8 = 0x80;
pub const WEAVE_CMD_MASK: u8 = 0x0f;
pub const WEAVE_FIRST_BIT: u8 = 0x08;
pub const WEAVE_LAST_BIT: u8 = 0x04;
pub const WEAVE_COUNTER_MASK: u8 = 0x70;
pub const WEAVE_CMD_CONN_REQUEST: u8 = 0;
pub const WEAVE_CMD_CONN_CONFIRM: u8 = 1;
pub const WEAVE_CMD_ERROR: u8 = 2;
pub const WEAVE_PROTOCOL_VERSION: u16 = 1;

/// Packet size assumed when the connection request does not carry one.
pub const DEFAULT_PACKET_SIZE: u16 = 100;
/// Largest packet size this side accepts.
pub const MAX_PACKET_SIZE: u16 = 509;
/// Smallest packet size this side accepts.
pub const MIN_PACKET_SIZE: u16 = 20;

/// Socket control frame types.
pub const SOCKET_CTRL_INTRODUCTION: u8 = 1;
pub const SOCKET_CTRL_DISCONNECTION: u8 = 2;


// ---------------------------------------------------------------------------
// Handshake

/// A connection request: a control packet whose command is 0.
pub open spec fn is_conn_request(pkt: Seq<u8>) -> bool {
    pkt.len() > 0 && pkt[0] & WEAVE_CONTROL != 0 && pkt[0] & WEAVE_CMD_MASK
        == WEAVE_CMD_CONN_REQUEST
}

/// The packet size that a connection request asks for: the big-endian
/// 16-bit value at bytes 5 and 6, or 100 when the packet is shorter.
pub open spec fn requested_packet_size(pkt: Seq<u8>) -> int {
    if pkt.len() >= 7 {
        (pkt[5] as int) * 256 + (pkt[6] as int)
    } else {
        DEFAULT_PACKET_SIZE as int
    }
}

/// A packet size brought into [20, 509].
pub open spec fn clamp_packet_size(x: int) -> u16 {
    if x > MAX_PACKET_SIZE as int {
        MAX_PACKET_SIZE
    } else if x < MIN_PACKET_SIZE as int {
        MIN_PACKET_SIZE
    } else {
        x as u16
    }
}

/// Packet size selected for a connection request, or `None` when `pkt` is
/// no connection request (the session ignores it and waits for the next).
pub fn conn_request_packet_size(pkt: &[u8]) -> (r: Option<u16>)
    ensures
        r == (if is_conn_request(pkt@) {
            Some(clamp_packet_size(requested_packet_size(pkt@)))
        } else {
            None::<u16>
        }),
{
    if pkt.len() == 0 {
        return None;
    }
    let hdr = pkt[0];
    if hdr & WEAVE_CONTROL == 0 || hdr & WEAVE_CMD_MASK != WEAVE_CMD_CONN_REQUEST {
        return None;
    }
    let max: u16 = if pkt.len() >= 7 {
        (pkt[5] as u16) * 256 + (pkt[6] as u16)
    } else {
        DEFAULT_PACKET_SIZE
    };
    let capped = if max > MAX_PACKET_SIZE {
        MAX_PACKET_SIZE
    } else {
        max
    };
    let selected = if capped < MIN_PACKET_SIZE {
        MIN_PACKET_SIZE
    } else {
        capped
    };
    Some(selected)
}

/// The connection-confirm packet: control command 1, protocol version 1 and
/// the selected packet size, both big-endian.
pub open spec fn spec_conn_confirm(selected: u16) -> Seq<u8> {
    seq![
        WEAVE_CONTROL | WEAVE_CMD_CONN_CONFIRM,
        (WEAVE_PROTOCOL_VERSION / 256) as u8,
        (WEAVE_PROTOCOL_VERSION % 256) as u8,
        (selected / 256) as u8,
        (selected % 256) as u8,
    ]
}

/// Builds the connection-confirm packet for the selected packet size.
pub fn conn_confirm(selected: u16) -> (pkt: Vec<u8>)
    ensures
        pkt@ == spec_conn_confirm(selected),
{
    let hi = (selected >> 8) as u8;
    let lo = (selected & 0xff) as u8;
    assert(hi == selected / 256 && lo == selected % 256) by (bit_vector)
        requires
            hi == (selected >> 8) as u8,
            lo == (selected & 0xff) as u8,
    ;
    let mut pkt: Vec<u8> = Vec::new();
    pkt.push(WEAVE_CONTROL | WEAVE_CMD_CONN_CONFIRM);
    pkt.push((WEAVE_PROTOCOL_VERSION / 256) as u8);
    pkt.push((WEAVE_PROTOCOL_VERSION % 256) as u8);
    pkt.push(hi);
    pkt.push(lo);
    assert(pkt@ =~= spec_conn_confirm(selected));
    pkt
}

/// Largest payload of one outgoing data packet: the packet size less the
/// header byte, and at least 19.
pub open spec fn spec_max_payload(selected: u16) -> nat {
    if selected as int - 1 > 19 {
        (selected - 1) as nat
    } else {
        19
    }
}

/// Largest payload of one outgoing data packet for the selected packet size.
pub fn max_payload(selected: u16) -> (n: usize)
    ensures
        n == spec_max_payload(selected),
{
    let s = (selected as usize).saturating_sub(1);
    if s > 19 {
        s
    } else {
        19
    }
}

// ---------------------------------------------------------------------------
// Receiving from the phone

/// What the session does with a packet from the phone.
pub enum PeerEvent {
    /// Nothing to pass on.
    Ignore,
    /// The phone ended the socket: close the session.
    Close,
    /// A complete data message: these bytes (the message without its
    /// service hash) go to the inbound handshake.
    Forward(Seq<u8>),
}

/// What the session does with a packet from the phone.
pub enum PeerPacketAction {
    /// Nothing to pass on.
    Ignore,
    /// The phone ended the socket: close the session.
    Close,
    /// A complete data message: these bytes (the message without its
    /// service hash) go to the inbound handshake.
    Forward(Vec<u8>),
}

impl PeerPacketAction {
    pub open spec fn event(&self) -> PeerEvent {
        match self {
            PeerPacketAction::Ignore => PeerEvent::Ignore,
            PeerPacketAction::Close => PeerEvent::Close,
            PeerPacketAction::Forward(v) => PeerEvent::Forward(v@),
        }
    }
}

/// The type of a socket control frame `00 00 00 08 <type> ...`, or 0.
pub open spec fn control_frame_type(msg: Seq<u8>) -> u8 {
    if msg.len() >= 5 && msg[3] == 0x08 {
        msg[4]
    } else {
        0
    }
}

/// What a complete reassembled message means.
pub open spec fn message_event(msg: Seq<u8>) -> PeerEvent {
    if msg.len() < 3 {
        PeerEvent::Ignore
    } else if msg[0] == 0 && msg[1] == 0 && msg[2] == 0 {
        if control_frame_type(msg) == SOCKET_CTRL_DISCONNECTION {
            PeerEvent::Close
        } else {
            PeerEvent::Ignore
        }
    } else {
        PeerEvent::Forward(msg.skip(3))
    }
}

/// One packet from the phone: the new reassembly buffer and the event.
pub open spec fn peer_step(reasm: Seq<u8>, pkt: Seq<u8>) -> (Seq<u8>, PeerEvent) {
    if pkt.len() == 0 {
        (reasm, PeerEvent::Ignore)
    } else if pkt[0] & WEAVE_CONTROL != 0 {
        if pkt[0] & WEAVE_CMD_MASK == WEAVE_CMD_ERROR {
            (reasm, PeerEvent::Close)
        } else {
            (reasm, PeerEvent::Ignore)
        }
    } else if pkt[0] & WEAVE_LAST_BIT == 0 {
        (reasm + pkt.skip(1), PeerEvent::Ignore)
    } else {
        (Seq::empty(), message_event(reasm + pkt.skip(1)))
    }
}

/// A run of packets from the phone: the final reassembly buffer and the events.
pub open spec fn peer_steps(reasm: Seq<u8>, pkts: Seq<Seq<u8>>) -> (Seq<u8>, Seq<PeerEvent>)
    decreases pkts.len(),
{
    if pkts.len() == 0 {
        (reasm, Seq::empty())
    } else {
        let (r1, e) = peer_step(reasm, pkts[0]);
        let (r2, es) = peer_steps(r1, pkts.drop_first());
        (r2, seq![e] + es)
    }
}

// ---------------------------------------------------------------------------
// Sending to the phone

/// Header of an outgoing data packet.
pub open spec fn data_header(counter: u8, first: bool, last: bool) -> u8 {
    ((counter & 0x07) << 4) | (if first {
        WEAVE_FIRST_BIT
    } else {
        0u8
    }) | (if last {
        WEAVE_LAST_BIT
    } else {
        0u8
    })
}

/// The data packets that carry `msg` from offset `off` on, each with at most
/// `maxp` payload bytes, and the packet counter after them.
pub open spec fn fragments(msg: Seq<u8>, off: int, maxp: int, counter: u8) -> (Seq<Seq<u8>>, u8)
    decreases msg.len() - off,
{
    if maxp <= 0 || off < 0 || off >= msg.len() {
        (Seq::empty(), counter)
    } else {
        let end = if off + maxp < msg.len() {
            off + maxp
        } else {
            msg.len() as int
        };
        let pkt = seq![data_header(counter, off == 0, end == msg.len())] + msg.subrange(off, end);
        let (rest, c) = fragments(msg, end, maxp, counter.wrapping_add(1));
        (seq![pkt] + rest, c)
    }
}

/// Splits off the complete `[len(4)][frame]` entries at the front of `buf`;
/// returns them (with their length prefix) and what is left.
pub open spec fn split_frames(buf: Seq<u8>) -> (Seq<Seq<u8>>, Seq<u8>)
    decreases buf.len(),
{
    if buf.len() < 4 || buf.len() < 4 + be_u32_value(buf) {
        (Seq::empty(), buf)
    } else {
        let n = 4 + be_u32_value(buf);
        let (fs, rest) = split_frames(buf.skip(n as int));
        (seq![buf.take(n as int)] + fs, rest)
    }
}

/// The message that carries an entry to the phone: the service hash, then the entry.
pub open spec fn entry_message(entry: Seq<u8>) -> Seq<u8> {
    QS_SVC_HASH@ + entry
}

/// The data packets for a run of entries, and the packet counter after them.
pub open spec fn entries_packets(entries: Seq<Seq<u8>>, maxp: int, counter: u8) -> (
    Seq<Seq<u8>>,
    u8,
)
    decreases entries.len(),
{
    if entries.len() == 0 {
        (Seq::empty(), counter)
    } else {
        let (p1, c1) = fragments(entry_message(entries[0]), 0, maxp, counter);
        let (p2, c2) = entries_packets(entries.drop_first(), maxp, c1);
        (p1 + p2, c2)
    }
}

/// The byte contents of a run of packets.
pub open spec fn packet_bytes(v: Seq<Vec<u8>>) -> Seq<Seq<u8>> {
    v.map_values(|p: Vec<u8>| p@)
}

// ---------------------------------------------------------------------------
// The session

/// State of one weave socket once the connection is confirmed.
pub struct WeaveSession {
    reasm: Vec<u8>,
    out_buf: Vec<u8>,
    send_counter: u8,
    max_payload: usize,
}

/// The model of a session.
pub struct WeaveSessionView {
    /// Data received from the phone since the last complete message.
    pub reasm: Seq<u8>,
    /// Bytes from the inbound handshake not yet sent as a complete entry.
    pub out_buf: Seq<u8>,
    /// Counter of the next outgoing data packet.
    pub send_counter: u8,
    /// Largest payload of an outgoing data packet.
    pub max_payload: nat,
}

impl View for WeaveSession {
    type V = WeaveSessionView;

    closed spec fn view(&self) -> WeaveSessionView {
        WeaveSessionView {
            reasm: self.reasm@,
            out_buf: self.out_buf@,
            send_counter: self.send_counter,
            max_payload: self.max_payload as nat,
        }
    }
}

impl WeaveSession {
    /// A session has a positive payload size.
    pub open spec fn wf(&self) -> bool {
        self@.max_payload > 0
    }

    /// The session after the connection confirm (which used counter 0).
    pub fn new(selected: u16) -> (s: Self)
        ensures
            s.wf(),
            s@.reasm == Seq::<u8>::empty(),
            s@.out_buf == Seq::<u8>::empty(),
            s@.send_counter == 1,
            s@.max_payload == spec_max_payload(selected),
    {
        WeaveSession {
            reasm: Vec::new(),
            out_buf: Vec::new(),
            send_counter: 1,
            max_payload: max_payload(selected),
        }
    }

    /// Handles one packet written by the phone.
    pub fn on_peer_packet(&mut self, pkt: &[u8]) -> (act: PeerPacketAction)
        requires
            old(self).wf(),
        ensures
            final(self).wf(),
            (final(self)@.reasm, act.event()) == peer_step(old(self)@.reasm, pkt@),
            final(self)@.out_buf == old(self)@.out_buf,
            final(self)@.send_counter == old(self)@.send_counter,
            final(self)@.max_payload == old(self)@.max_payload,
    {
        if pkt.len() == 0 {
            return PeerPacketAction::Ignore;
        }
        let hdr = pkt[0];
        if hdr & WEAVE_CONTROL != 0 {
            if hdr & WEAVE_CMD_MASK == WEAVE_CMD_ERROR {
                return PeerPacketAction::Close;
            }
            return PeerPacketAction::Ignore;
        }
        let mut i: usize = 1;
        let ghost r0 = self.reasm@;
        while i < pkt.len()
            invariant
                1 <= i <= pkt@.len(),
                self.reasm@ == r0 + pkt@.subrange(1, i as int),
                self.max_payload == old(self).max_payload,
                self.out_buf == old(self).out_buf,
                self.send_counter == old(self).send_counter,
            decreases pkt@.len() - i,
        {
            self.reasm.push(pkt[i]);
            i = i + 1;
            assert(pkt@.subrange(1, i as int) == pkt@.subrange(1, (i - 1) as int).push(
                pkt@[i - 1],
            ));
        }
        assert(pkt@.subrange(1, pkt@.len() as int) == pkt@.skip(1));
        if hdr & WEAVE_LAST_BIT == 0 {
            return PeerPacketAction::Ignore;
        }
        let mut msg: Vec<u8> = Vec::new();
        std::mem::swap(&mut msg, &mut self.reasm);
        assert(self.reasm@ == Seq::<u8>::empty());
        if msg.len() < 3 {
            return PeerPacketAction::Ignore;
        }
        if msg[0] == 0 && msg[1] == 0 && msg[2] == 0 {
            let ctrl_type = if msg.len() >= 5 && msg[3] == 0x08 {
                msg[4]
            } else {
                0
            };
            if ctrl_type == SOCKET_CTRL_DISCONNECTION {
                return PeerPacketAction::Close;
            }
            return PeerPacketAction::Ignore;
        }
        let mut inner: Vec<u8> = Vec::new();
        let mut j: usize = 3;
        while j < msg.len()
            invariant
                3 <= j <= msg@.len(),
                inner@ == msg@.subrange(3, j as int),
            decreases msg@.len() - j,
        {
            inner.push(msg[j]);
            j = j + 1;
            assert(msg@.subrange(3, j as int) == msg@.subrange(3, (j - 1) as int).push(
                msg@[j - 1],
            ));
        }
        assert(msg@.subrange(3, msg@.len() as int) == msg@.skip(3));
        PeerPacketAction::Forward(inner)
    }

    /// Handles bytes that the inbound handshake wrote: every complete
    /// `[len(4)][frame]` entry is sent, prefixed with the service hash, as a
    /// run of data packets; incomplete bytes wait for more.
    pub fn on_inbound_bytes(&mut self, bytes: &[u8]) -> (pkts: Vec<Vec<u8>>)
        requires
            old(self).wf(),
        ensures
            final(self).wf(),
            final(self)@.reasm == old(self)@.reasm,
            final(self)@.max_payload == old(self)@.max_payload,
            final(self)@.out_buf == split_frames(old(self)@.out_buf + bytes@).1,
            (packet_bytes(pkts@), final(self)@.send_counter) == entries_packets(
                split_frames(old(self)@.out_buf + bytes@).0,
                old(self)@.max_payload as int,
                old(self)@.send_counter,
            ),
            final(self)@.send_counter == ((old(self)@.send_counter as int + pkts@.len()) % 256) as u8,
            forall|i: int|
                0 <= i < pkts@.len() ==> (#[trigger] pkts@[i]@).len() >= 2 && pkts@[i]@[0]
                    & WEAVE_COUNTER_MASK == ((((old(self)@.send_counter as int + i) % 256) as u8)
                    & 0x07) << 4,
            peer_steps(Seq::empty(), packet_bytes(pkts@)).0 == Seq::<u8>::empty(),
            no_close(peer_steps(Seq::empty(), packet_bytes(pkts@)).1),
            forwarded(peer_steps(Seq::empty(), packet_bytes(pkts@)).1) + final(self)@.out_buf
                == old(self)@.out_buf + bytes@,
    {
        proof {
            lemma_write_delivers_in_order(
                split_frames(old(self)@.out_buf + bytes@).0,
                old(self)@.max_payload as int,
                old(self)@.send_counter,
            );
            lemma_split_frames(old(self)@.out_buf + bytes@);
            lemma_entries_counters(
                split_frames(old(self)@.out_buf + bytes@).0,
                old(self)@.max_payload as int,
                old(self)@.send_counter,
            );
        }
        append_bytes(&mut self.out_buf, bytes);
        let ghost buf = self.out_buf@;
        let ghost c0 = self.send_counter;
        let ghost maxp = self.max_payload as int;
        let mut pkts: Vec<Vec<u8>> = Vec::new();
        let mut pos: usize = 0;
        assert(buf.skip(0) == buf);
        loop
            invariant
                pos <= buf.len(),
                self.out_buf@ == buf,
                self.max_payload as int == maxp,
                maxp > 0,
                self@.reasm == old(self)@.reasm,
                split_frames(buf).1 == split_frames(buf.skip(pos as int)).1,
                entries_packets(split_frames(buf).0, maxp, c0) == (
                    packet_bytes(pkts@) + entries_packets(
                        split_frames(buf.skip(pos as int)).0,
                        maxp,
                        self.send_counter,
                    ).0,
                    entries_packets(split_frames(buf.skip(pos as int)).0, maxp, self.send_counter).1,
                ),
            ensures
                pos <= buf.len(),
                self.out_buf@ == buf,
                self.max_payload as int == maxp,
                self@.reasm == old(self)@.reasm,
                split_frames(buf.skip(pos as int)).0 == Seq::<Seq<u8>>::empty(),
                split_frames(buf.skip(pos as int)).1 == buf.skip(pos as int),
                split_frames(buf).1 == buf.skip(pos as int),
                entries_packets(split_frames(buf).0, maxp, c0) == (
                    packet_bytes(pkts@),
                    self.send_counter,
                ),
            decreases buf.len() - pos,
        {
            let ghost rem = buf.skip(pos as int);
            let avail = self.out_buf.len() - pos;
            if avail < 4 {
                break;
            }
            let len: u64 = (self.out_buf[pos] as u64) * 0x100_0000 + (self.out_buf[pos + 1] as u64)
                * 0x1_0000 + (self.out_buf[pos + 2] as u64) * 0x100 + (self.out_buf[pos + 3] as u64);
            assert(len == be_u32_value(rem));
            if ((avail - 4) as u64) < len {
                break;
            }
            let n: usize = 4 + len as usize;
            let end_pos: usize = pos + n;
            let ghost entry = rem.take(n as int);
            let ghost c_start = self.send_counter;
            let ghost pk_start = packet_bytes(pkts@);
            assert(buf.skip(end_pos as int) =~= rem.skip(n as int));
            let ghost sf_rest = split_frames(rem.skip(n as int));
            assert(split_frames(rem) == (seq![entry] + sf_rest.0, sf_rest.1));
            assert((seq![entry] + sf_rest.0).drop_first() =~= sf_rest.0);
            assert((seq![entry] + sf_rest.0)[0] == entry);
            let mut message: Vec<u8> = Vec::new();
            append_bytes(&mut message, QS_SVC_HASH.as_slice());
            let mut k: usize = pos;
            while k < end_pos
                invariant
                    pos <= k <= end_pos,
                    end_pos == pos + n,
                    end_pos <= buf.len(),
                    self.out_buf@ == buf,
                    message@ == QS_SVC_HASH@ + buf.subrange(pos as int, k as int),
                decreases end_pos - k,
            {
                message.push(self.out_buf[k]);
                k = k + 1;
                assert(buf.subrange(pos as int, k as int) == buf.subrange(pos as int, k - 1).push(
                    buf[k - 1],
                ));
            }
            assert(buf.subrange(pos as int, (pos + n) as int) == entry);
            assert(message@ == entry_message(entry));
            self.send_fragments(&message, &mut pkts);
            proof {
                let fr = fragments(entry_message(entry), 0, maxp, c_start);
                let ep = entries_packets(sf_rest.0, maxp, fr.1);
                assert(entries_packets(seq![entry] + sf_rest.0, maxp, c_start) == (fr.0 + ep.0, ep.1));
                assert(pk_start + (fr.0 + ep.0) =~= (pk_start + fr.0) + ep.0);
            }
            pos = end_pos;
        }
        let mut rest: Vec<u8> = Vec::new();
        let mut k: usize = pos;
        while k < self.out_buf.len()
            invariant
                pos <= k <= buf.len(),
                self.out_buf@ == buf,
                rest@ == buf.subrange(pos as int, k as int),
            decreases buf.len() - k,
        {
            rest.push(self.out_buf[k]);
            k = k + 1;
            assert(buf.subrange(pos as int, k as int) == buf.subrange(pos as int, k - 1).push(
                buf[k - 1],
            ));
        }
        assert(rest@ == buf.skip(pos as int));
        self.out_buf = rest;
        assert forall|i: int| 0 <= i < pkts@.len() implies #[trigger] pkts@[i]@ == packet_bytes(
            pkts@,
        )[i] by {}
        pkts
    }

    /// Cuts `message` into data packets with consecutive counters and
    /// appends them to `pkts`.
    fn send_fragments(&mut self, message: &Vec<u8>, pkts: &mut Vec<Vec<u8>>)
        requires
            old(self).wf(),
        ensures
            final(self).wf(),
            final(self)@.reasm == old(self)@.reasm,
            final(self)@.out_buf == old(self)@.out_buf,
            final(self)@.max_payload == old(self)@.max_payload,
            (packet_bytes(final(pkts)@), final(self)@.send_counter) == (
                packet_bytes(old(pkts)@) + fragments(
                    message@,
                    0,
                    old(self)@.max_payload as int,
                    old(self)@.send_counter,
                ).0,
                fragments(message@, 0, old(self)@.max_payload as int, old(self)@.send_counter).1,
            ),
    {
        let ghost msg = message@;
        let ghost maxp = self.max_payload as int;
        let ghost c0 = self.send_counter;
        let ghost p0 = packet_bytes(pkts@);
        let total = message.len();
        let mut off: usize = 0;
        while off < total
            invariant
                off <= total == msg.len(),
                message@ == msg,
                self.max_payload as int == maxp,
                maxp > 0,
                self@.reasm == old(self)@.reasm,
                self@.out_buf == old(self)@.out_buf,
                (packet_bytes(pkts@) + fragments(msg, off as int, maxp, self.send_counter).0,
                fragments(msg, off as int, maxp, self.send_counter).1) == (
                    p0 + fragments(msg, 0, maxp, c0).0,
                    fragments(msg, 0, maxp, c0).1,
                ),
            decreases total - off,
        {
            let end = if total - off > self.max_payload {
                off + self.max_payload
            } else {
                total
            };
            let first = off == 0;
            let last = end == total;
            let c = self.send_counter;
            let h: u8 = ((c & 0x07) << 4) | (if first {
                WEAVE_FIRST_BIT
            } else {
                0u8
            }) | (if last {
                WEAVE_LAST_BIT
            } else {
                0u8
            });
            let mut wp: Vec<u8> = Vec::new();
            wp.push(h);
            let mut k: usize = off;
            while k < end
                invariant
                    off <= k <= end <= total == msg.len(),
                    message@ == msg,
                    wp@ == seq![h] + msg.subrange(off as int, k as int),
                decreases end - k,
            {
                wp.push(message[k]);
                k = k + 1;
                assert(msg.subrange(off as int, k as int) == msg.subrange(off as int, k - 1).push(
                    msg[k - 1],
                ));
            }
            let ghost pb = packet_bytes(pkts@);
            let ghost wpv = wp@;
            let ghost rest = fragments(msg, end as int, maxp, c.wrapping_add(1));
            assert(fragments(msg, off as int, maxp, c) == (seq![wpv] + rest.0, rest.1));
            pkts.push(wp);
            assert(packet_bytes(pkts@) =~= pb.push(wpv));
            assert(pb + (seq![wpv] + rest.0) =~= pb.push(wpv) + rest.0);
            self.send_counter = c.wrapping_add(1);
            off = end;
        }
    }
}


// ---------------------------------------------------------------------------
// Laws

proof fn lemma_data_header_bits(c: u8, first: bool, last: bool)
    ensures
        data_header(c, first, last) & WEAVE_CONTROL == 0,
        (data_header(c, first, last) & WEAVE_LAST_BIT != 0) == last,
        (data_header(c, first, last) & WEAVE_FIRST_BIT != 0) == first,
        (data_header(c, first, last) & WEAVE_COUNTER_MASK) == (c & 0x07) << 4,
{
    if first && last {
        assert(((((c & 0x07) << 4) | 8u8 | 4u8) & 0x80 == 0) && ((((c & 0x07) << 4) | 8u8 | 4u8)
            & 0x04 != 0) && ((((c & 0x07) << 4) | 8u8 | 4u8) & 0x08 != 0) && ((((c & 0x07) << 4)
            | 8u8 | 4u8) & 0x70 == (c & 0x07) << 4)) by (bit_vector);
    } else if first {
        assert(((((c & 0x07) << 4) | 8u8 | 0u8) & 0x80 == 0) && ((((c & 0x07) << 4) | 8u8 | 0u8)
            & 0x04 == 0) && ((((c & 0x07) << 4) | 8u8 | 0u8) & 0x08 != 0) && ((((c & 0x07) << 4)
            | 8u8 | 0u8) & 0x70 == (c & 0x07) << 4)) by (bit_vector);
    } else if last {
        assert(((((c & 0x07) << 4) | 0u8 | 4u8) & 0x80 == 0) && ((((c & 0x07) << 4) | 0u8 | 4u8)
            & 0x04 != 0) && ((((c & 0x07) << 4) | 0u8 | 4u8) & 0x08 == 0) && ((((c & 0x07) << 4)
            | 0u8 | 4u8) & 0x70 == (c & 0x07) << 4)) by (bit_vector);
    } else {
        assert(((((c & 0x07) << 4) | 0u8 | 0u8) & 0x80 == 0) && ((((c & 0x07) << 4) | 0u8 | 0u8)
            & 0x04 == 0) && ((((c & 0x07) << 4) | 0u8 | 0u8) & 0x08 == 0) && ((((c & 0x07) << 4)
            | 0u8 | 0u8) & 0x70 == (c & 0x07) << 4)) by (bit_vector);
    }
}

/// The events of `n` packets that are passed over, then one last event.
pub open spec fn ignored_then(n: nat, last: PeerEvent) -> Seq<PeerEvent> {
    Seq::new(n, |i: int| PeerEvent::Ignore).push(last)
}

proof fn lemma_fragments_reassemble(msg: Seq<u8>, off: int, maxp: int, counter: u8, reasm: Seq<u8>)
    requires
        maxp > 0,
        0 <= off < msg.len(),
    ensures
        fragments(msg, off, maxp, counter).0.len() >= 1,
        peer_steps(reasm, fragments(msg, off, maxp, counter).0) == (
            Seq::<u8>::empty(),
            ignored_then(
                (fragments(msg, off, maxp, counter).0.len() - 1) as nat,
                message_event(reasm + msg.skip(off)),
            ),
        ),
    decreases msg.len() - off,
{
    let end = if off + maxp < msg.len() {
        off + maxp
    } else {
        msg.len() as int
    };
    let last = end == msg.len();
    let h = data_header(counter, off == 0, last);
    let pkt = seq![h] + msg.subrange(off, end);
    let rest = fragments(msg, end, maxp, counter.wrapping_add(1));
    let pk = fragments(msg, off, maxp, counter).0;
    assert(pk == seq![pkt] + rest.0);
    lemma_data_header_bits(counter, off == 0, last);
    assert(pkt[0] == h);
    assert(pkt.skip(1) =~= msg.subrange(off, end));
    assert(pk[0] == pkt);
    assert(pk.drop_first() =~= rest.0);
    let (r1, e) = peer_step(reasm, pkt);
    assert(peer_steps(reasm, pk) == (peer_steps(r1, rest.0).0, seq![e] + peer_steps(r1, rest.0).1));
    if last {
        assert(rest.0 == Seq::<Seq<u8>>::empty());
        assert(msg.skip(off) =~= msg.subrange(off, end));
        assert(peer_step(reasm, pkt) == (Seq::<u8>::empty(), message_event(reasm + msg.skip(off))));
        assert(peer_steps(r1, rest.0) == (Seq::<u8>::empty(), Seq::<PeerEvent>::empty()));
        assert(ignored_then(0, message_event(reasm + msg.skip(off))) =~= seq![
            message_event(reasm + msg.skip(off)),
        ] + Seq::<PeerEvent>::empty());
    } else {
        assert(r1 == reasm + msg.subrange(off, end));
        assert(e == PeerEvent::Ignore);
        lemma_fragments_reassemble(msg, end, maxp, counter.wrapping_add(1), r1);
        assert(r1 + msg.skip(end) =~= reasm + msg.skip(off));
        let ev = message_event(reasm + msg.skip(off));
        assert(seq![PeerEvent::Ignore] + ignored_then((rest.0.len() - 1) as nat, ev) =~= ignored_then(
            (pk.len() - 1) as nat,
            ev,
        ));
    }
}

/// What the phone reassembles from the data packets sent for an entry is
/// that entry: each packet but the last is passed over, and the last hands
/// on the whole entry, the message without its service hash, to the peer's
/// inbound side. It holds for every payload size and starting counter.
pub proof fn lemma_entry_roundtrip(entry: Seq<u8>, maxp: int, counter: u8)
    requires
        maxp > 0,
    ensures
        peer_steps(Seq::empty(), fragments(entry_message(entry), 0, maxp, counter).0) == (
            Seq::<u8>::empty(),
            ignored_then(
                (fragments(entry_message(entry), 0, maxp, counter).0.len() - 1) as nat,
                PeerEvent::Forward(entry),
            ),
        ),
{
    let msg = entry_message(entry);
    lemma_fragments_reassemble(msg, 0, maxp, counter, Seq::empty());
    assert(Seq::<u8>::empty() + msg.skip(0) =~= msg);
    assert(msg[0] == 0xfc);
    assert(msg.skip(3) =~= entry);
}

/// Every data packet sent for a message is a data packet (control bit
/// clear) that carries between one and `maxp` payload bytes, so it fits the
/// packet size `maxp + 1`; only the first has the first flag, only the last
/// the last flag, and the counters are consecutive modulo 8.
pub proof fn lemma_fragment_shape(msg: Seq<u8>, off: int, maxp: int, counter: u8)
    requires
        maxp > 0,
        0 <= off,
    ensures
        forall|i: int|
            0 <= i < fragments(msg, off, maxp, counter).0.len() ==> {
                let p = #[trigger] fragments(msg, off, maxp, counter).0[i];
                &&& 2 <= p.len() <= maxp + 1
                &&& p[0] & WEAVE_CONTROL == 0
                &&& (p[0] & WEAVE_FIRST_BIT != 0) == (i == 0 && off == 0)
                &&& (p[0] & WEAVE_LAST_BIT != 0) == (i == fragments(msg, off, maxp, counter).0.len()
                    - 1)
                &&& p[0] & WEAVE_COUNTER_MASK == ((((counter as int + i) % 256) as u8) & 0x07) << 4
            },
    decreases msg.len() - off,
{
    if off < msg.len() {
        let end = if off + maxp < msg.len() {
            off + maxp
        } else {
            msg.len() as int
        };
        let c1 = counter.wrapping_add(1);
        let pk = fragments(msg, off, maxp, counter).0;
        let rest = fragments(msg, end, maxp, c1).0;
        lemma_fragment_shape(msg, end, maxp, c1);
        lemma_data_header_bits(counter, off == 0, end == msg.len());
        if end < msg.len() {
            lemma_fragments_reassemble(msg, end, maxp, c1, Seq::empty());
        }
        assert forall|i: int| 0 <= i < pk.len() implies {
            let p = #[trigger] pk[i];
            &&& 2 <= p.len() <= maxp + 1
            &&& p[0] & WEAVE_CONTROL == 0
            &&& (p[0] & WEAVE_FIRST_BIT != 0) == (i == 0 && off == 0)
            &&& (p[0] & WEAVE_LAST_BIT != 0) == (i == pk.len() - 1)
            &&& p[0] & WEAVE_COUNTER_MASK == ((((counter as int + i) % 256) as u8) & 0x07) << 4
        } by {
            if i > 0 {
                assert(pk[i] == rest[i - 1]);
                assert((c1 as int + (i - 1)) % 256 == (counter as int + i) % 256);
            } else {
                assert((counter as int + 0) % 256 == counter as int);
            }
        }
    }
}

/// Splitting the outgoing buffer loses no byte: the complete entries, in
/// order, followed by the rest give back the buffer; each entry is a 4-byte
/// big-endian length and that many bytes; and the rest holds no complete entry.
pub proof fn lemma_split_frames(buf: Seq<u8>)
    ensures
        split_frames(buf).0.flatten() + split_frames(buf).1 == buf,
        forall|i: int|
            0 <= i < split_frames(buf).0.len() ==> {
                let e = #[trigger] split_frames(buf).0[i];
                e.len() >= 4 && e.len() == 4 + be_u32_value(e)
            },
        split_frames(buf).1.len() < 4 || split_frames(buf).1.len() < 4 + be_u32_value(
            split_frames(buf).1,
        ),
    decreases buf.len(),
{
    if buf.len() < 4 || buf.len() < 4 + be_u32_value(buf) {
        assert(split_frames(buf).0 == Seq::<Seq<u8>>::empty());
        assert(Seq::<u8>::empty() + buf =~= buf);
    } else {
        let n = 4 + be_u32_value(buf);
        let tail = buf.skip(n as int);
        lemma_split_frames(tail);
        let (fs, rest) = split_frames(tail);
        let all = seq![buf.take(n as int)] + fs;
        assert(split_frames(buf).0 == all);
        assert(all.drop_first() =~= fs);
        assert(all.first() == buf.take(n as int));
        assert(all.flatten() == buf.take(n as int) + fs.flatten());
        assert(fs.flatten() + rest == tail);
        assert(buf.take(n as int) + tail =~= buf);
        assert(buf.take(n as int) + fs.flatten() + rest =~= buf.take(n as int) + (fs.flatten()
            + rest));
        assert forall|i: int| 0 <= i < all.len() implies {
            let e = #[trigger] all[i];
            e.len() >= 4 && e.len() == 4 + be_u32_value(e)
        } by {
            if i > 0 {
                assert(all[i] == fs[i - 1]);
            }
        }
    }
}

/// The handshake settles on a packet size in [20, 509]; the confirm is a
/// control packet with command 1 that carries that size big-endian in bytes
/// 3 and 4; and the data packets sent afterwards are never longer than it.
pub proof fn lemma_handshake(pkt: Seq<u8>, msg: Seq<u8>, counter: u8)
    requires
        is_conn_request(pkt),
    ensures
        MIN_PACKET_SIZE <= clamp_packet_size(requested_packet_size(pkt)) <= MAX_PACKET_SIZE,
        spec_conn_confirm(clamp_packet_size(requested_packet_size(pkt)))[0] & WEAVE_CONTROL != 0,
        spec_conn_confirm(clamp_packet_size(requested_packet_size(pkt)))[0] & WEAVE_CMD_MASK
            == WEAVE_CMD_CONN_CONFIRM,
        spec_conn_confirm(clamp_packet_size(requested_packet_size(pkt)))[3] as int * 256
            + spec_conn_confirm(clamp_packet_size(requested_packet_size(pkt)))[4] as int
            == clamp_packet_size(requested_packet_size(pkt)) as int,
        forall|i: int|
            0 <= i < fragments(
                msg,
                0,
                spec_max_payload(clamp_packet_size(requested_packet_size(pkt))) as int,
                counter,
            ).0.len() ==> (#[trigger] fragments(
                msg,
                0,
                spec_max_payload(clamp_packet_size(requested_packet_size(pkt))) as int,
                counter,
            ).0[i]).len() <= clamp_packet_size(requested_packet_size(pkt)),
{
    let sel = clamp_packet_size(requested_packet_size(pkt));
    assert((0x80u8 | 0x01u8) & 0x80 != 0 && (0x80u8 | 0x01u8) & 0x0f == 1) by (bit_vector);
    lemma_fragment_shape(msg, 0, spec_max_payload(sel) as int, counter);
}

/// The header counter field of the data packet sent `i` packets after
/// counter `c`.
pub open spec fn counter_bits(c: u8, i: int) -> u8 {
    ((((c as int + i) % 256) as u8) & 0x07) << 4
}

proof fn lemma_counter_step(c: u8, n: int, j: int)
    requires
        n >= 0,
        j >= 0,
    ensures
        ((((c as int + n) % 256) as u8) as int + j) % 256 == (c as int + n + j) % 256,
{
    vstd::arithmetic::div_mod::lemma_add_mod_noop(c as int + n, j, 256);
    vstd::arithmetic::div_mod::lemma_mod_twice(j, 256);
    vstd::arithmetic::div_mod::lemma_add_mod_noop(((c as int + n) % 256), j, 256);
    vstd::arithmetic::div_mod::lemma_mod_twice(c as int + n, 256);
}

/// The counter after the packets of a message is the counter before,
/// advanced by the number of packets, modulo 256.
pub proof fn lemma_fragments_counter(msg: Seq<u8>, off: int, maxp: int, counter: u8)
    requires
        maxp > 0,
        0 <= off,
    ensures
        fragments(msg, off, maxp, counter).1 == ((counter as int + fragments(
            msg,
            off,
            maxp,
            counter,
        ).0.len()) % 256) as u8,
    decreases msg.len() - off,
{
    if off < msg.len() {
        let end = if off + maxp < msg.len() {
            off + maxp
        } else {
            msg.len() as int
        };
        let c1 = counter.wrapping_add(1);
        lemma_fragments_counter(msg, end, maxp, c1);
        let n = fragments(msg, end, maxp, c1).0.len() as int;
        assert(c1 == ((counter as int + 1) % 256) as u8);
        lemma_counter_step(counter, 1, n);
    } else {
        assert((counter as int + 0) % 256 == counter as int);
    }
}

/// Across the entries of one write, and so across a whole session, the
/// counters of the data packets run on: the packet `i` places after counter
/// `c` carries `(c + i) mod 8`, and the counter afterwards is `c` advanced by
/// the number of packets. With the data counters starting at 1 (the confirm
/// used 0), the k-th data packet of a session carries `k mod 8`.
pub proof fn lemma_entries_counters(entries: Seq<Seq<u8>>, maxp: int, counter: u8)
    requires
        maxp > 0,
    ensures
        entries_packets(entries, maxp, counter).1 == ((counter as int + entries_packets(
            entries,
            maxp,
            counter,
        ).0.len()) % 256) as u8,
        forall|i: int|
            0 <= i < entries_packets(entries, maxp, counter).0.len() ==> {
                let p = #[trigger] entries_packets(entries, maxp, counter).0[i];
                p.len() >= 2 && p[0] & WEAVE_COUNTER_MASK == counter_bits(counter, i)
            },
    decreases entries.len(),
{
    if entries.len() == 0 {
        assert((counter as int + 0) % 256 == counter as int);
    } else {
        let msg = entry_message(entries[0]);
        let (f, c1) = fragments(msg, 0, maxp, counter);
        let (p2, c2) = entries_packets(entries.drop_first(), maxp, c1);
        lemma_fragments_counter(msg, 0, maxp, counter);
        lemma_fragment_shape(msg, 0, maxp, counter);
        lemma_entries_counters(entries.drop_first(), maxp, c1);
        let all = entries_packets(entries, maxp, counter).0;
        assert(all == f + p2);
        lemma_counter_step(counter, f.len() as int, p2.len() as int);
        assert forall|i: int| 0 <= i < all.len() implies {
            let p = #[trigger] all[i];
            p.len() >= 2 && p[0] & WEAVE_COUNTER_MASK == counter_bits(counter, i)
        } by {
            if i < f.len() {
                assert(all[i] == f[i]);
            } else {
                assert(all[i] == p2[i - f.len()]);
                lemma_counter_step(counter, f.len() as int, i - f.len());
            }
        }
    }
}

/// The payload bytes (each packet without its header) of a run of packets.
pub open spec fn payloads(pkts: Seq<Seq<u8>>) -> Seq<u8> {
    pkts.map_values(|p: Seq<u8>| p.skip(1)).flatten()
}

/// The packets for a message carry exactly the message, in order, in
/// `ceil(len / maxp)` packets.
pub proof fn lemma_fragments_cover(msg: Seq<u8>, off: int, maxp: int, counter: u8)
    requires
        maxp > 0,
        0 <= off <= msg.len(),
    ensures
        payloads(fragments(msg, off, maxp, counter).0) == msg.skip(off),
        (fragments(msg, off, maxp, counter).0.len() - 1) * maxp < msg.len() - off <= fragments(
            msg,
            off,
            maxp,
            counter,
        ).0.len() * maxp,
    decreases msg.len() - off,
{
    let pk = fragments(msg, off, maxp, counter).0;
    if off == msg.len() {
        assert(pk.map_values(|p: Seq<u8>| p.skip(1)) =~= Seq::<Seq<u8>>::empty());
        assert(msg.skip(off) =~= Seq::<u8>::empty());
        assert((0 - 1) * maxp < 0) by (nonlinear_arith)
            requires
                maxp > 0,
        ;
    } else {
        let end = if off + maxp < msg.len() {
            off + maxp
        } else {
            msg.len() as int
        };
        let c1 = counter.wrapping_add(1);
        let rest = fragments(msg, end, maxp, c1).0;
        lemma_fragments_cover(msg, end, maxp, c1);
        let h = data_header(counter, off == 0, end == msg.len());
        let pkt = seq![h] + msg.subrange(off, end);
        assert(pk == seq![pkt] + rest);
        let ps = pk.map_values(|p: Seq<u8>| p.skip(1));
        assert(ps.first() =~= msg.subrange(off, end));
        assert(ps.drop_first() =~= rest.map_values(|p: Seq<u8>| p.skip(1)));
        assert(ps.flatten() == ps.first() + ps.drop_first().flatten());
        assert(msg.subrange(off, end) + msg.skip(end) =~= msg.skip(off));
        let m = rest.len() as int;
        if end == msg.len() {
            assert(rest.len() == 0);
        } else {
            assert(end == off + maxp);
        }
        assert((m + 1 - 1) * maxp == m * maxp);
        assert((m + 1) * maxp == m * maxp + maxp) by (nonlinear_arith);
        assert(m >= 0);
        if end < msg.len() {
            assert(m >= 1);
            assert((m - 1) * maxp == m * maxp - maxp) by (nonlinear_arith);
        } else {
            assert(m == 0);
        }
    }
}

/// A complete record written by the inbound side reaches the phone as the
/// service hash followed by the record, cut into `ceil((len + 3) / maxp)`
/// data packets with the first flag on the first only and the last flag on
/// the last only.
pub proof fn lemma_entry_packets(entry: Seq<u8>, maxp: int, counter: u8)
    requires
        maxp > 0,
    ensures
        payloads(fragments(entry_message(entry), 0, maxp, counter).0) == QS_SVC_HASH@ + entry,
        ({
            let m = fragments(entry_message(entry), 0, maxp, counter).0.len() as int;
            (m - 1) * maxp < entry.len() + 3 <= m * maxp
        }),
        forall|i: int|
            0 <= i < fragments(entry_message(entry), 0, maxp, counter).0.len() ==> {
                let p = #[trigger] fragments(entry_message(entry), 0, maxp, counter).0[i];
                &&& (p[0] & WEAVE_FIRST_BIT != 0) == (i == 0)
                &&& (p[0] & WEAVE_LAST_BIT != 0) == (i == fragments(
                    entry_message(entry),
                    0,
                    maxp,
                    counter,
                ).0.len() - 1)
            },
{
    let msg = entry_message(entry);
    lemma_fragments_cover(msg, 0, maxp, counter);
    lemma_fragment_shape(msg, 0, maxp, counter);
    assert(msg.skip(0) =~= msg);
}

/// Nothing is sent for a record before all its `4 + len` bytes are written:
/// while the buffer holds less than its first complete record, a write
/// yields no packet.
pub proof fn lemma_incomplete_record_sends_nothing(buf: Seq<u8>, maxp: int, counter: u8)
    requires
        buf.len() < 4 || buf.len() < 4 + be_u32_value(buf),
    ensures
        split_frames(buf).0.len() == 0,
        split_frames(buf).1 == buf,
        entries_packets(split_frames(buf).0, maxp, counter) == (Seq::<Seq<u8>>::empty(), counter),
{
}

/// The packet size that a run of packets from the phone settles on: that
/// of its first connection request; none while there is none.
pub open spec fn awaited_packet_size(pkts: Seq<Seq<u8>>) -> Option<u16>
    decreases pkts.len(),
{
    if pkts.len() == 0 {
        None
    } else if is_conn_request(pkts[0]) {
        Some(clamp_packet_size(requested_packet_size(pkts[0])))
    } else {
        awaited_packet_size(pkts.drop_first())
    }
}

/// The handshake ignores every packet before the first connection request,
/// whatever they are, and settles on the size that request asks for; the
/// confirm it sends is `spec_conn_confirm` of that size.
pub proof fn lemma_handshake_waits(qs: Seq<Seq<u8>>, r: Seq<u8>)
    requires
        forall|i: int| 0 <= i < qs.len() ==> !is_conn_request(#[trigger] qs[i]),
        is_conn_request(r),
    ensures
        awaited_packet_size(qs) is None,
        awaited_packet_size(qs.push(r)) == Some(clamp_packet_size(requested_packet_size(r))),
    decreases qs.len(),
{
    if qs.len() > 0 {
        let t = qs.drop_first();
        assert forall|i: int| 0 <= i < t.len() implies !is_conn_request(#[trigger] t[i]) by {
            assert(t[i] == qs[i + 1]);
        }
        lemma_handshake_waits(t, r);
        assert(qs.push(r).drop_first() =~= t.push(r));
        assert(!is_conn_request(qs[0]));
        assert(qs.push(r)[0] == qs[0]);
    } else {
        assert(qs.push(r)[0] == r);
    }
}

/// The data packets of a session after the handshake, for a run of writes
/// by the inbound side, starting from the out-buffer `out` and `counter`:
/// what the successive calls of `on_inbound_bytes` return, in order.
pub open spec fn session_packets(out: Seq<u8>, counter: u8, writes: Seq<Seq<u8>>, maxp: int) -> Seq<
    Seq<u8>,
>
    decreases writes.len(),
{
    if writes.len() == 0 {
        Seq::empty()
    } else {
        let (es, rest) = split_frames(out + writes[0]);
        let (p, c) = entries_packets(es, maxp, counter);
        p + session_packets(rest, c, writes.drop_first(), maxp)
    }
}

proof fn lemma_session_counters(out: Seq<u8>, counter: u8, writes: Seq<Seq<u8>>, maxp: int)
    requires
        maxp > 0,
    ensures
        forall|i: int|
            0 <= i < session_packets(out, counter, writes, maxp).len() ==> {
                let p = #[trigger] session_packets(out, counter, writes, maxp)[i];
                p.len() >= 2 && p[0] & WEAVE_COUNTER_MASK == counter_bits(counter, i)
            },
    decreases writes.len(),
{
    if writes.len() > 0 {
        let (es, rest) = split_frames(out + writes[0]);
        let (p, c) = entries_packets(es, maxp, counter);
        lemma_entries_counters(es, maxp, counter);
        lemma_session_counters(rest, c, writes.drop_first(), maxp);
        let tail = session_packets(rest, c, writes.drop_first(), maxp);
        let all = session_packets(out, counter, writes, maxp);
        assert(all == p + tail);
        assert forall|i: int| 0 <= i < all.len() implies {
            let q = #[trigger] all[i];
            q.len() >= 2 && q[0] & WEAVE_COUNTER_MASK == counter_bits(counter, i)
        } by {
            if i < p.len() {
                assert(all[i] == p[i]);
            } else {
                assert(all[i] == tail[i - p.len()]);
                lemma_counter_step(counter, p.len() as int, i - p.len());
            }
        }
    }
}

/// Over a whole session, whatever the inbound side writes and however it
/// splits its writes, the k-th data packet sent (k from 1; the confirm used
/// counter 0) carries the counter `k mod 8`.
pub proof fn lemma_session_kth_packet(writes: Seq<Seq<u8>>, maxp: int)
    requires
        maxp > 0,
    ensures
        forall|k: int|
            1 <= k <= session_packets(Seq::empty(), 1, writes, maxp).len() ==> (#[trigger] session_packets(
                Seq::empty(),
                1,
                writes,
                maxp,
            )[k - 1])[0] & WEAVE_COUNTER_MASK == ((k % 8) as u8) << 4,
{
    let sp = session_packets(Seq::empty(), 1, writes, maxp);
    lemma_session_counters(Seq::empty(), 1, writes, maxp);
    assert forall|k: int| 1 <= k <= sp.len() implies (#[trigger] sp[k - 1])[0] & WEAVE_COUNTER_MASK
        == ((k % 8) as u8) << 4 by {
        assert(sp[k - 1][0] & WEAVE_COUNTER_MASK == counter_bits(1, k - 1));
        let x = ((1 + (k - 1)) % 256) as u8;
        assert(x & 0x07 == x % 8) by (bit_vector);
        vstd::arithmetic::div_mod::lemma_mod_mod(k, 8, 32);
        assert(x as int == k % 256);
        assert((x % 8) as int == k % 8);
    }
}

/// A write of exactly one complete record into an empty out-buffer sends
/// that record's packets (see `lemma_entry_packets`) and leaves nothing
/// waiting.
pub proof fn lemma_single_record(entry: Seq<u8>, maxp: int, counter: u8)
    requires
        entry.len() >= 4,
        entry.len() == 4 + be_u32_value(entry),
    ensures
        split_frames(Seq::<u8>::empty() + entry) == (seq![entry], Seq::<u8>::empty()),
        entries_packets(seq![entry], maxp, counter) == fragments(entry_message(entry), 0, maxp, counter),
{
    assert(Seq::<u8>::empty() + entry =~= entry);
    let n = 4 + be_u32_value(entry);
    assert(entry.take(n as int) =~= entry);
    assert(entry.skip(n as int) =~= Seq::<u8>::empty());
    assert(split_frames(entry.skip(n as int)) == (Seq::<Seq<u8>>::empty(), Seq::<u8>::empty()));
    assert(seq![entry] + Seq::<Seq<u8>>::empty() =~= seq![entry]);
    let (f, c) = fragments(entry_message(entry), 0, maxp, counter);
    assert(seq![entry].drop_first() =~= Seq::<Seq<u8>>::empty());
    assert(entries_packets(Seq::<Seq<u8>>::empty(), maxp, c) == (Seq::<Seq<u8>>::empty(), c));
    assert(f + Seq::<Seq<u8>>::empty() =~= f);
}

/// The bytes the peer hands on to its inbound side, in order, for a run of
/// events.
pub open spec fn forwarded(events: Seq<PeerEvent>) -> Seq<u8>
    decreases events.len(),
{
    if events.len() == 0 {
        Seq::empty()
    } else {
        (match events[0] {
            PeerEvent::Forward(d) => d,
            _ => Seq::empty(),
        }) + forwarded(events.drop_first())
    }
}

/// No event of the run closes the socket.
pub open spec fn no_close(events: Seq<PeerEvent>) -> bool {
    forall|i: int| 0 <= i < events.len() ==> !(#[trigger] events[i] is Close)
}

proof fn lemma_forwarded_concat(a: Seq<PeerEvent>, b: Seq<PeerEvent>)
    ensures
        forwarded(a + b) == forwarded(a) + forwarded(b),
    decreases a.len(),
{
    if a.len() == 0 {
        assert(a + b =~= b);
        assert(Seq::<u8>::empty() + forwarded(b) =~= forwarded(b));
    } else {
        lemma_forwarded_concat(a.drop_first(), b);
        assert((a + b).drop_first() =~= a.drop_first() + b);
        assert((a + b)[0] == a[0]);
        let h = match a[0] {
            PeerEvent::Forward(d) => d,
            _ => Seq::<u8>::empty(),
        };
        assert(h + (forwarded(a.drop_first()) + forwarded(b)) =~= (h + forwarded(a.drop_first()))
            + forwarded(b));
    }
}

proof fn lemma_forwarded_ignored_then(n: nat, d: Seq<u8>)
    ensures
        forwarded(ignored_then(n, PeerEvent::Forward(d))) == d,
        no_close(ignored_then(n, PeerEvent::Forward(d))),
    decreases n,
{
    let e = ignored_then(n, PeerEvent::Forward(d));
    if n == 0 {
        assert(e.len() == 1);
        assert(e[0] == PeerEvent::Forward(d));
        assert(e.drop_first() =~= Seq::<PeerEvent>::empty());
        assert(forwarded(e.drop_first()) == Seq::<u8>::empty());
        assert(d + Seq::<u8>::empty() =~= d);
    } else {
        lemma_forwarded_ignored_then((n - 1) as nat, d);
        assert(e.drop_first() =~= ignored_then((n - 1) as nat, PeerEvent::Forward(d)));
        assert(e[0] == PeerEvent::Ignore);
        assert(Seq::<u8>::empty() + d =~= d);
        assert forall|i: int| 0 <= i < e.len() implies !(#[trigger] e[i] is Close) by {
            if i > 0 {
                assert(e[i] == e.drop_first()[i - 1]);
            }
        }
    }
}

proof fn lemma_peer_steps_concat(r: Seq<u8>, a: Seq<Seq<u8>>, b: Seq<Seq<u8>>)
    ensures
        peer_steps(r, a + b) == (
            peer_steps(peer_steps(r, a).0, b).0,
            peer_steps(r, a).1 + peer_steps(peer_steps(r, a).0, b).1,
        ),
    decreases a.len(),
{
    if a.len() == 0 {
        assert(a + b =~= b);
        assert(Seq::<PeerEvent>::empty() + peer_steps(r, b).1 =~= peer_steps(r, b).1);
    } else {
        let (r1, e) = peer_step(r, a[0]);
        lemma_peer_steps_concat(r1, a.drop_first(), b);
        assert((a + b).drop_first() =~= a.drop_first() + b);
        assert((a + b)[0] == a[0]);
        let x = peer_steps(r1, a.drop_first());
        let y = peer_steps(x.0, b);
        assert(seq![e] + (x.1 + y.1) =~= (seq![e] + x.1) + y.1);
    }
}

/// What one write sends reaches the phone in the order it was written: the
/// phone, starting from an empty reassembly buffer, forwards the complete
/// entries of the write one after another (their bytes, concatenated, are
/// the entries concatenated), never closes on them, and ends with an empty
/// buffer.
pub proof fn lemma_write_delivers_in_order(es: Seq<Seq<u8>>, maxp: int, counter: u8)
    requires
        maxp > 0,
    ensures
        peer_steps(Seq::empty(), entries_packets(es, maxp, counter).0).0 == Seq::<u8>::empty(),
        forwarded(peer_steps(Seq::empty(), entries_packets(es, maxp, counter).0).1) == es.flatten(),
        no_close(peer_steps(Seq::empty(), entries_packets(es, maxp, counter).0).1),
    decreases es.len(),
{
    if es.len() == 0 {
        assert(forwarded(Seq::<PeerEvent>::empty()) == Seq::<u8>::empty());
    } else {
        let msg = entry_message(es[0]);
        let (f, c1) = fragments(msg, 0, maxp, counter);
        let p2 = entries_packets(es.drop_first(), maxp, c1).0;
        assert(entries_packets(es, maxp, counter).0 == f + p2);
        lemma_entry_roundtrip(es[0], maxp, counter);
        lemma_write_delivers_in_order(es.drop_first(), maxp, c1);
        lemma_peer_steps_concat(Seq::empty(), f, p2);
        let e1 = ignored_then((f.len() - 1) as nat, PeerEvent::Forward(es[0]));
        let e2 = peer_steps(Seq::empty(), p2).1;
        lemma_forwarded_concat(e1, e2);
        lemma_forwarded_ignored_then((f.len() - 1) as nat, es[0]);
        assert(es.flatten() == es.first() + es.drop_first().flatten());
        assert forall|i: int| 0 <= i < (e1 + e2).len() implies !(#[trigger] (e1 + e2)[i] is Close) by {
            if i < e1.len() {
                assert((e1 + e2)[i] == e1[i]);
            } else {
                assert((e1 + e2)[i] == e2[i - e1.len()]);
            }
        }
    }
}

/// A socket control frame of type DISCONNECTION (`00 00 00 08 02 ...`)
/// closes the session whatever bytes follow its type; its type depends only
/// on bytes 3 and 4, so two control messages that agree there mean the same.
pub proof fn lemma_disconnection_closes(m: Seq<u8>, other: Seq<u8>)
    requires
        m.len() >= 5,
        m[0] == 0 && m[1] == 0 && m[2] == 0,
        m[3] == 0x08,
        m[4] == SOCKET_CTRL_DISCONNECTION,
        other.len() >= 5,
        other[0] == 0 && other[1] == 0 && other[2] == 0,
        other[3] == m[3] && other[4] == m[4],
    ensures
        message_event(m) == PeerEvent::Close,
        message_event(other) == message_event(m),
        peer_step(Seq::empty(), seq![WEAVE_LAST_BIT] + m) == (Seq::<u8>::empty(), PeerEvent::Close),
{
    let pkt = seq![WEAVE_LAST_BIT] + m;
    assert(pkt[0] == WEAVE_LAST_BIT);
    assert(WEAVE_LAST_BIT & WEAVE_CONTROL == 0 && WEAVE_LAST_BIT & WEAVE_LAST_BIT != 0) by (bit_vector);
    assert(Seq::<u8>::empty() + pkt.skip(1) =~= m);
}

/// Control packets from the phone never touch the reassembly buffer: an
/// ERROR command closes the session and any other command is passed over;
/// a data packet without the last flag only appends its payload; an empty
/// packet changes nothing.
pub proof fn lemma_peer_packet_kinds(reasm: Seq<u8>, pkt: Seq<u8>)
    ensures
        pkt.len() == 0 ==> peer_step(reasm, pkt) == (reasm, PeerEvent::Ignore),
        (pkt.len() > 0 && pkt[0] & WEAVE_CONTROL != 0) ==> peer_step(reasm, pkt).0 == reasm,
        (pkt.len() > 0 && pkt[0] & WEAVE_CONTROL != 0 && pkt[0] & WEAVE_CMD_MASK == WEAVE_CMD_ERROR)
            ==> peer_step(reasm, pkt).1 == PeerEvent::Close,
        (pkt.len() > 0 && pkt[0] & WEAVE_CONTROL != 0 && pkt[0] & WEAVE_CMD_MASK != WEAVE_CMD_ERROR)
            ==> peer_step(reasm, pkt).1 == PeerEvent::Ignore,
        (pkt.len() > 0 && pkt[0] & WEAVE_CONTROL == 0 && pkt[0] & WEAVE_LAST_BIT == 0) ==> peer_step(
            reasm,
            pkt,
        ) == (reasm + pkt.skip(1), PeerEvent::Ignore),
        (pkt.len() > 0 && pkt[0] & WEAVE_CONTROL == 0 && pkt[0] & WEAVE_LAST_BIT != 0) ==> peer_step(
            reasm,
            pkt,
        ).0 == Seq::<u8>::empty(),
{
}

/// A complete data message that starts with the service hash hands on
/// everything after the hash, whatever it holds; a message of fewer than
/// three bytes is dropped.
pub proof fn lemma_data_message_forwarded(msg: Seq<u8>)
    ensures
        (msg.len() >= 3 && msg.take(3) == QS_SVC_HASH@) ==> message_event(msg) == PeerEvent::Forward(
            msg.skip(3),
        ),
        msg.len() < 3 ==> message_event(msg) == PeerEvent::Ignore,
        (msg.len() >= 3 && !(msg[0] == 0 && msg[1] == 0 && msg[2] == 0)) ==> message_event(msg)
            == PeerEvent::Forward(msg.skip(3)),
{
    if msg.len() >= 3 && msg.take(3) == QS_SVC_HASH@ {
        assert(msg.take(3)[0] == msg[0]);
        assert(msg[0] == 0xfc);
    }
}

} // verus!

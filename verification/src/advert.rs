//! The 0xFEF3 service data that advertises this device as a Quick Share
//! receiver endpoint over BLE.

use vstd::prelude::*;
use vstd::utf8::{encode_scalar, encode_utf8, valid_utf8};
use crate::wire::{append_bytes, be_u32_bytes, u32_to_be, QS_SVC_HASH};

verus! {

/// Version 1 / PCP byte of the Nearby Connections offline BLE advertisement.
pub const CONNECTIONS_ADV_HEADER: u8 = 0x23;

/// Version 2 / socket version 2 byte of the Mediums BLE advertisement.
pub const MEDIUMS_ADV_HEADER: u8 = 0x48;


/// endpoint_info identity bytes (2-byte salt + 14-byte metadata-key hash).
pub const QS_EINFO_IDENTITY: [u8; 16] = [
    0x4a, 0x22, 0x71, 0x16, 0x9c, 0x15, 0x99, 0xa2, 0x44, 0xaf, 0x44, 0xb0, 0x17, 0x9c, 0x0f, 0x23,
];

/// Connections advertisement trailer after endpoint_info: bluetooth MAC(6) + extra(2).
pub const QS_CONN_MAC_EXTRA: [u8; 8] = [0xfc, 0x41, 0x16, 0xb6, 0x17, 0x20, 0x00, 0x00];

/// Mediums advertisement trailer: device_token(2) + extra(1) + appended presence data elements.
pub const QS_MEDIUMS_TRAILING: [u8; 69] = [
    0x62, 0xf1, 0x03, 0x00, 0x82, 0x3f, 0xa0, 0x17, 0xfd, 0xf1, 0x70, 0x59, 0x6e, 0x1e, 0xd3, 0x4d,
    0xe0, 0x92, 0x56, 0x4d, 0x66, 0xd4, 0x29, 0x0f, 0x0f, 0x8f, 0x15, 0x05, 0x34, 0x7b, 0x13, 0x23,
    0x01, 0xea, 0x7f, 0x92, 0xa8, 0xd8, 0xd4, 0x61, 0x84, 0x15, 0x05, 0x3f, 0x00, 0x00, 0x84, 0x15,
    0x06, 0x2d, 0x00, 0x00, 0x84, 0x15, 0x04, 0x7f, 0x1f, 0x00, 0x84, 0x15, 0x07, 0x2d, 0x1f, 0x00,
    0x83, 0x15, 0x01, 0x15, 0x7c,
];

/// The longest device name, in UTF-8 bytes, that the advertisement carries.
pub const MAX_NAME_BYTES: usize = 255;

/// The number of UTF-8 bytes of a character.
pub open spec fn char_width(c: char) -> nat {
    encode_scalar(c as u32).len()
}

/// The longest run of leading characters of `s` whose UTF-8 encoding fits
/// in `budget` bytes.
pub open spec fn fitting_prefix(s: Seq<char>, budget: int) -> Seq<char>
    decreases s.len(),
{
    if s.len() == 0 || char_width(s[0]) > budget {
        Seq::empty()
    } else {
        seq![s[0]] + fitting_prefix(s.drop_first(), budget - char_width(s[0]))
    }
}

/// The UTF-8 bytes of the device name, cut at the last character boundary
/// at or below 255 bytes, so that the field stays valid UTF-8.
pub open spec fn advertised_name(device_name: Seq<char>) -> Seq<u8> {
    encode_utf8(fitting_prefix(device_name, MAX_NAME_BYTES as int))
}

proof fn lemma_encode_utf8_concat(a: Seq<char>, b: Seq<char>)
    ensures
        encode_utf8(a + b) == encode_utf8(a) + encode_utf8(b),
    decreases a.len(),
{
    if a.len() == 0 {
        assert(a + b =~= b);
        assert(encode_utf8(a) + encode_utf8(b) =~= encode_utf8(b));
    } else {
        lemma_encode_utf8_concat(a.drop_first(), b);
        assert((a + b).drop_first() =~= a.drop_first() + b);
        assert((a + b)[0] == a[0]);
        assert(encode_scalar(a[0] as u32) + (encode_utf8(a.drop_first()) + encode_utf8(b))
            =~= (encode_scalar(a[0] as u32) + encode_utf8(a.drop_first())) + encode_utf8(b));
    }
}

proof fn lemma_encode_utf8_one(c: char)
    ensures
        encode_utf8(seq![c]) == encode_scalar(c as u32),
{
    let s = seq![c];
    assert(s.drop_first() =~= Seq::<char>::empty());
    assert(encode_utf8(s.drop_first()) == Seq::<u8>::empty());
    assert(s[0] == c);
    assert(encode_scalar(c as u32) + Seq::<u8>::empty() =~= encode_scalar(c as u32));
}

proof fn lemma_fitting_prefix(s: Seq<char>, budget: int)
    requires
        budget >= 0,
    ensures
        encode_utf8(fitting_prefix(s, budget)).len() <= budget,
        fitting_prefix(s, budget).len() <= s.len(),
        fitting_prefix(s, budget) == s.take(fitting_prefix(s, budget).len() as int),
        fitting_prefix(s, budget).len() < s.len() ==> encode_utf8(fitting_prefix(s, budget)).len()
            + char_width(s[fitting_prefix(s, budget).len() as int]) > budget,
    decreases s.len(),
{
    let p = fitting_prefix(s, budget);
    if s.len() == 0 || char_width(s[0]) > budget {
        assert(s.take(0) =~= Seq::<char>::empty());
    } else {
        let w = char_width(s[0]);
        let t = s.drop_first();
        lemma_fitting_prefix(t, budget - w);
        let q = fitting_prefix(t, budget - w);
        assert(p == seq![s[0]] + q);
        lemma_encode_utf8_concat(seq![s[0]], q);
        lemma_encode_utf8_one(s[0]);
        assert(p =~= s.take(p.len() as int));
        if p.len() < s.len() {
            assert(s[p.len() as int] == t[q.len() as int]);
        }
    }
}

/// The advertised name is valid UTF-8, at most 255 bytes long, a prefix of
/// the UTF-8 bytes of the device name, and as long as it can be: either the
/// whole name, or one more character would not fit.
pub proof fn lemma_advertised_name(device_name: Seq<char>)
    ensures
        valid_utf8(advertised_name(device_name)),
        advertised_name(device_name).len() <= MAX_NAME_BYTES,
        advertised_name(device_name) == encode_utf8(device_name).take(
            advertised_name(device_name).len() as int,
        ),
        fitting_prefix(device_name, MAX_NAME_BYTES as int) == device_name || advertised_name(
            device_name,
        ).len() + char_width(
            device_name[fitting_prefix(device_name, MAX_NAME_BYTES as int).len() as int],
        ) > MAX_NAME_BYTES,
{
    let p = fitting_prefix(device_name, MAX_NAME_BYTES as int);
    lemma_fitting_prefix(device_name, MAX_NAME_BYTES as int);
    vstd::utf8::encode_utf8_valid_utf8(p);
    let rest = device_name.skip(p.len() as int);
    assert(p + rest =~= device_name);
    lemma_encode_utf8_concat(p, rest);
    assert((encode_utf8(p) + encode_utf8(rest)).take(encode_utf8(p).len() as int) =~= encode_utf8(p));
    if p.len() == device_name.len() {
        assert(p =~= device_name);
    }
}

/// Header byte of the Nearby Share application advertisement:
/// version 1 in the top three bits, visible, the device type in bits 1..=3.
pub open spec fn einfo_header(device_type: u8) -> u8 {
    (32 + (device_type % 8) * 2) as u8
}

/// Inner Nearby Share application advertisement (the mDNS "n" TXT record):
/// header, identity, name length and the plaintext name.
pub open spec fn endpoint_info(device_type: u8, name: Seq<u8>) -> Seq<u8> {
    seq![einfo_header(device_type)] + QS_EINFO_IDENTITY@ + seq![name.len() as u8] + name
}

/// Nearby Connections offline BLE advertisement carrying the endpoint id and info.
/// The length byte of the endpoint info keeps only the low eight bits of its length.
pub open spec fn connections_advertisement(endpoint_id: Seq<u8>, einfo: Seq<u8>) -> Seq<u8> {
    seq![CONNECTIONS_ADV_HEADER] + QS_SVC_HASH@ + endpoint_id + seq![(einfo.len() % 256) as u8]
        + einfo + QS_CONN_MAC_EXTRA@
}

/// Mediums BLE advertisement wrapper: header, service hash, the 32-bit big-endian
/// length of the inner advertisement, the inner advertisement, and the trailer.
pub open spec fn mediums_advertisement(data: Seq<u8>) -> Seq<u8> {
    seq![MEDIUMS_ADV_HEADER] + QS_SVC_HASH@ + be_u32_bytes(data.len() as u32) + data
        + QS_MEDIUMS_TRAILING@
}

/// The whole 0xFEF3 service data.
pub open spec fn spec_receiver_service_data(
    endpoint_id: Seq<u8>,
    device_type: u8,
    device_name: Seq<char>,
) -> Seq<u8> {
    mediums_advertisement(
        connections_advertisement(
            endpoint_id,
            endpoint_info(device_type, advertised_name(device_name)),
        ),
    )
}

/// Build the 0xFEF3 service data advertising this device as a QuickShare
/// receiver endpoint. `endpoint_id` must be the same 4 bytes used by the mDNS server.
pub fn receiver_service_data(endpoint_id: [u8; 4], device_type: u8, device_name: &str) -> (sd: Vec<u8>)
    ensures
        sd@ == spec_receiver_service_data(endpoint_id@, device_type, device_name@),
{
    // Inner Nearby Share application advertisement.
    let mut einfo: Vec<u8> = Vec::new();
    let header: u8 = (1u8 << 5) | ((device_type & 0x7) << 1);
    assert(header == 32 + (device_type % 8) * 2) by (bit_vector)
        requires
            header == (1u8 << 5) | ((device_type & 0x7) << 1),
    ;
    einfo.push(header);
    append_bytes(&mut einfo, QS_EINFO_IDENTITY.as_slice());
    let mut name: Vec<u8> = name_bytes(device_name);
    let keep = fitting_name_len(device_name);
    proof {
        lemma_advertised_name(device_name@);
    }
    name.truncate(keep);
    einfo.push(name.len() as u8);
    append_bytes(&mut einfo, name.as_slice());
    assert(einfo@ =~= endpoint_info(device_type, advertised_name(device_name@)));

    // Nearby Connections offline BLE advertisement.
    let mut data: Vec<u8> = Vec::new();
    data.push(CONNECTIONS_ADV_HEADER);
    append_bytes(&mut data, QS_SVC_HASH.as_slice());
    append_bytes(&mut data, endpoint_id.as_slice());
    data.push((einfo.len() % 256) as u8);
    append_bytes(&mut data, einfo.as_slice());
    append_bytes(&mut data, QS_CONN_MAC_EXTRA.as_slice());
    assert(data@ =~= connections_advertisement(endpoint_id@, einfo@));

    // Mediums BLE advertisement wrapper.
    let mut sd: Vec<u8> = Vec::new();
    sd.push(MEDIUMS_ADV_HEADER);
    append_bytes(&mut sd, QS_SVC_HASH.as_slice());
    let len_bytes = u32_to_be(data.len() as u32);
    append_bytes(&mut sd, len_bytes.as_slice());
    append_bytes(&mut sd, data.as_slice());
    append_bytes(&mut sd, QS_MEDIUMS_TRAILING.as_slice());
    assert(sd@ =~= mediums_advertisement(data@));
    sd
}

/// The number of UTF-8 bytes of a character (`char::len_utf8`).
fn char_len_utf8(c: char) -> (n: usize)
    ensures
        n == char_width(c),
{
    proof {
        vstd::utf8::char_is_scalar(c);
    }
    let u = c as u32;
    if u <= 0x7f {
        1
    } else if u <= 0x7ff {
        2
    } else if u <= 0xffff {
        3
    } else {
        4
    }
}

/// The length in bytes of the advertised name: the UTF-8 bytes of the
/// longest run of leading characters that fits in 255 bytes.
fn fitting_name_len(s: &str) -> (n: usize)
    ensures
        n == advertised_name(s@).len(),
        n <= encode_utf8(s@).len(),
        encode_utf8(s@).take(n as int) == advertised_name(s@),
{
    let cs = crate::text::chars_of(s);
    let ghost v = cs@;
    let mut used: usize = 0;
    let mut i: usize = 0;
    assert(v.take(0) =~= Seq::<char>::empty());
    assert(v.skip(0) =~= v);
    assert(Seq::<char>::empty() + v =~= v);
    while i < cs.len()
        invariant
            i <= v.len(),
            cs@ == v,
            v == s@,
            used <= MAX_NAME_BYTES,
            used == encode_utf8(v.take(i as int)).len(),
            fitting_prefix(v, MAX_NAME_BYTES as int) == v.take(i as int) + fitting_prefix(
                v.skip(i as int),
                MAX_NAME_BYTES - used,
            ),
        ensures
            i <= v.len(),
            used == encode_utf8(v.take(i as int)).len(),
            fitting_prefix(v, MAX_NAME_BYTES as int) == v.take(i as int) + fitting_prefix(
                v.skip(i as int),
                MAX_NAME_BYTES - used,
            ),
            fitting_prefix(v.skip(i as int), MAX_NAME_BYTES - used) == Seq::<char>::empty(),
        decreases v.len() - i,
    {
        let w = char_len_utf8(cs[i]);
        let ghost t = v.skip(i as int);
        assert(t[0] == v[i as int]);
        if w > MAX_NAME_BYTES - used {
            assert(fitting_prefix(t, MAX_NAME_BYTES - used) =~= Seq::<char>::empty());
            break;
        }
        proof {
            assert(t.drop_first() =~= v.skip(i + 1));
            assert(v.take(i + 1) =~= v.take(i as int) + seq![v[i as int]]);
            lemma_encode_utf8_concat(v.take(i as int), seq![v[i as int]]);
            lemma_encode_utf8_one(v[i as int]);
            assert(v.take(i as int) + (seq![v[i as int]] + fitting_prefix(
                v.skip(i + 1),
                MAX_NAME_BYTES - used - w,
            )) =~= v.take(i + 1) + fitting_prefix(v.skip(i + 1), MAX_NAME_BYTES - used - w));
        }
        used = used + w;
        i = i + 1;
    }
    proof {
        assert(v.take(i as int) + Seq::<char>::empty() =~= v.take(i as int));
        let rest = v.skip(i as int);
        assert(v.take(i as int) + rest =~= v);
        lemma_encode_utf8_concat(v.take(i as int), rest);
        assert((encode_utf8(v.take(i as int)) + encode_utf8(rest)).take(used as int) =~= encode_utf8(
            v.take(i as int),
        ));
    }
    used
}

/// The UTF-8 bytes of a string, as `str::as_bytes` gives them.
fn name_bytes(s: &str) -> (b: Vec<u8>)
    ensures
        b@ == vstd::utf8::encode_utf8(s@),
{
    let bytes: &[u8] = s.as_bytes();
    let mut v: Vec<u8> = Vec::new();
    append_bytes(&mut v, bytes);
    v
}

/// Where the fields sit in the service data: it is 112 bytes plus the
/// advertised name; bytes 4..8 hold the big-endian length of the inner
/// advertisement (35 bytes plus the name); bytes 12..16 are the endpoint id,
/// which is how the phone matches the BLE endpoint with the mDNS one; byte 17
/// is the header with the device type; byte 34 is the name length and the
/// name follows. The endpoint-info length at byte 16 is exact while the name
/// has at most 237 bytes.
pub proof fn lemma_service_data_layout(endpoint_id: Seq<u8>, device_type: u8, device_name: Seq<char>)
    requires
        endpoint_id.len() == 4,
    ensures
        ({
            let sd = spec_receiver_service_data(endpoint_id, device_type, device_name);
            let name = advertised_name(device_name);
            &&& name.len() <= MAX_NAME_BYTES
            &&& sd.len() == 112 + name.len()
            &&& sd[0] == MEDIUMS_ADV_HEADER
            &&& sd.subrange(1, 4) == QS_SVC_HASH@
            &&& sd.subrange(4, 8) == be_u32_bytes((35 + name.len()) as u32)
            &&& sd[8] == CONNECTIONS_ADV_HEADER
            &&& sd.subrange(12, 16) == endpoint_id
            &&& (name.len() <= 237 ==> sd[16] as int == 18 + name.len())
            &&& sd[17] == einfo_header(device_type)
            &&& sd.subrange(18, 34) == QS_EINFO_IDENTITY@
            &&& sd[34] as int == name.len()
            &&& sd.subrange(35, 35 + name.len() as int) == name
            &&& sd.subrange(35 + name.len() as int, 43 + name.len() as int) == QS_CONN_MAC_EXTRA@
            &&& sd.skip(43 + name.len() as int) == QS_MEDIUMS_TRAILING@
        }),
{
    let name = advertised_name(device_name);
    lemma_advertised_name(device_name);
    let einfo = endpoint_info(device_type, name);
    let data = connections_advertisement(endpoint_id, einfo);
    let sd = spec_receiver_service_data(endpoint_id, device_type, device_name);
    assert(einfo.len() == 18 + name.len());
    assert(data.len() == 35 + name.len());
    assert(sd.subrange(1, 4) =~= QS_SVC_HASH@);
    assert(sd.subrange(4, 8) =~= be_u32_bytes((35 + name.len()) as u32));
    assert(sd.subrange(12, 16) =~= endpoint_id);
    assert(sd.subrange(18, 34) =~= QS_EINFO_IDENTITY@);
    assert(sd.subrange(35, 35 + name.len() as int) =~= name);
    assert(sd.subrange(35 + name.len() as int, 43 + name.len() as int) =~= QS_CONN_MAC_EXTRA@);
    assert(sd.skip(43 + name.len() as int) =~= QS_MEDIUMS_TRAILING@);
}

} // verus!

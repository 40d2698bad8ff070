use rqs_lib::advert::{
    receiver_service_data, QS_CONN_MAC_EXTRA, QS_EINFO_IDENTITY, QS_MEDIUMS_TRAILING,
};

fn expected(endpoint: [u8; 4], header: u8, name: &[u8], einfo_len_byte: u8) -> Vec<u8> {
    let mut data = vec![0x23, 0xfc, 0x9f, 0x5e];
    data.extend_from_slice(&endpoint);
    data.push(einfo_len_byte);
    data.push(header);
    data.extend_from_slice(&QS_EINFO_IDENTITY);
    data.push(name.len() as u8);
    data.extend_from_slice(name);
    data.extend_from_slice(&QS_CONN_MAC_EXTRA);
    let mut sd = vec![0x48, 0xfc, 0x9f, 0x5e];
    sd.extend_from_slice(&(data.len() as u32).to_be_bytes());
    sd.extend_from_slice(&data);
    sd.extend_from_slice(&QS_MEDIUMS_TRAILING);
    sd
}

#[test]
fn service_data_short_name_exact_bytes() {
    let sd = receiver_service_data(*b"ABCD", 3, "Pc");
    assert_eq!(sd.len(), 114);
    assert_eq!(&sd[0..8], &[0x48, 0xfc, 0x9f, 0x5e, 0, 0, 0, 37]);
    assert_eq!(&sd[8..17], &[0x23, 0xfc, 0x9f, 0x5e, b'A', b'B', b'C', b'D', 20]);
    assert_eq!(sd[17], 0x26);
    assert_eq!(&sd[18..34], &QS_EINFO_IDENTITY);
    assert_eq!(&sd[34..37], &[2, b'P', b'c']);
    assert_eq!(&sd[37..45], &QS_CONN_MAC_EXTRA);
    assert_eq!(&sd[45..], &QS_MEDIUMS_TRAILING);
    assert_eq!(sd, expected(*b"ABCD", 0x26, b"Pc", 20));
}

#[test]
fn service_data_endpoint_id_at_fixed_offset() {
    let sd = receiver_service_data([9, 8, 7, 6], 1, "Living room");
    assert_eq!(&sd[12..16], &[9, 8, 7, 6]);
}

#[test]
fn service_data_device_type_keeps_three_bits() {
    let sd = receiver_service_data(*b"WXYZ", 9, "x");
    assert_eq!(sd[17], 0x22);
    let sd = receiver_service_data(*b"WXYZ", 0, "x");
    assert_eq!(sd[17], 0x20);
}

#[test]
fn service_data_utf8_name() {
    let sd = receiver_service_data(*b"ABCD", 1, "é");
    assert_eq!(&sd[34..37], &[2, 0xc3, 0xa9]);
    assert_eq!(sd, expected(*b"ABCD", 0x22, &[0xc3, 0xa9], 20));
}

#[test]
fn service_data_empty_name() {
    let sd = receiver_service_data(*b"ABCD", 2, "");
    assert_eq!(sd.len(), 112);
    assert_eq!(sd[16], 18);
    assert_eq!(sd[34], 0);
}

#[test]
fn service_data_long_name_truncated_and_length_byte_wraps() {
    let name = "a".repeat(300);
    let sd = receiver_service_data(*b"ABCD", 1, &name);
    assert_eq!(sd.len(), 112 + 255);
    // 18 + 255 = 273 does not fit the length byte: only its low 8 bits remain.
    assert_eq!(sd[16], 17);
    assert_eq!(sd[34], 255);
    assert_eq!(&sd[4..8], &(35u32 + 255).to_be_bytes());
    assert_eq!(sd, expected(*b"ABCD", 0x22, &[b'a'; 255], 17));
}

#[test]
fn service_data_name_cut_at_char_boundary() {
    // 254 + 2 bytes would be 256: the 'é' is left out whole.
    let name = format!("{}é", "a".repeat(254));
    let sd = receiver_service_data(*b"ABCD", 1, &name);
    assert_eq!(sd[34], 254);
    assert_eq!(sd.len(), 112 + 254);
    assert_eq!(sd[35 + 253], b'a');
    assert_eq!(&sd[35 + 254..35 + 262], &QS_CONN_MAC_EXTRA);
    assert!(std::str::from_utf8(&sd[35..35 + 254]).is_ok());

    let name = "é".repeat(128);
    let sd = receiver_service_data(*b"ABCD", 1, &name);
    assert_eq!(sd[34], 254);
    assert_eq!(std::str::from_utf8(&sd[35..35 + 254]).unwrap(), "é".repeat(127));

    let name = format!("{}€", "a".repeat(253));
    let sd = receiver_service_data(*b"ABCD", 1, &name);
    assert_eq!(sd[34], 253);

    // A character that ends exactly at byte 255 stays.
    let name = format!("{}é", "a".repeat(253));
    let sd = receiver_service_data(*b"ABCD", 1, &name);
    assert_eq!(sd[34], 255);
    assert_eq!(&sd[35 + 253..35 + 255], &[0xc3, 0xa9]);
}

#[test]
fn service_data_name_at_length_byte_limit() {
    let name = "b".repeat(237);
    let sd = receiver_service_data(*b"ABCD", 1, &name);
    assert_eq!(sd[16], 255);
    let name = "b".repeat(238);
    let sd = receiver_service_data(*b"ABCD", 1, &name);
    assert_eq!(sd[16], 0);
}

use gamemaps::{decode_header, encode_header, read, DecodeError};

fn header_bytes(len: usize) -> Vec<u8> {
    (0..len).map(|i| (i % 251) as u8).collect()
}

#[test]
fn header_shorter_than_fixed_region_is_too_short() {
    for len in 0..38 {
        let bytes = header_bytes(len);
        assert_eq!(decode_header(&bytes), Err(DecodeError::TooShort));
    }
}

#[test]
fn header_of_exact_length_has_no_blob() {
    let bytes = header_bytes(38);
    let table = decode_header(&bytes).unwrap();
    assert_eq!(table.trailing_blob, None);
}

#[test]
fn header_blob_is_the_suffix() {
    for k in 1..10 {
        let bytes = header_bytes(38 + k);
        let table = decode_header(&bytes).unwrap();
        let blob = table.trailing_blob.unwrap();
        assert_eq!(blob.len(), k);
        assert_eq!(&blob[..], &bytes[38..]);
    }
}

#[test]
fn header_fields_are_little_endian() {
    let mut bytes = vec![0u8; 38];
    bytes[0] = 0x34;
    bytes[1] = 0x12;
    bytes[2..6].copy_from_slice(&[0x78, 0x56, 0x34, 0x12]);
    bytes[6..10].copy_from_slice(&[0xff, 0xff, 0xff, 0xff]);
    bytes[10..14].copy_from_slice(&[0x00, 0x00, 0x00, 0x80]);
    bytes[34..38].copy_from_slice(&[0x01, 0x02, 0x00, 0x00]);
    let table = decode_header(&bytes).unwrap();
    assert_eq!(table.magic, 0x1234);
    assert_eq!(table.level_offsets[0], 0x1234_5678);
    assert_eq!(table.level_offsets[1], -1);
    assert_eq!(table.level_offsets[2], i32::MIN);
    assert_eq!(table.level_offsets[8], 0x0201);
}

#[test]
fn header_slots_past_the_buffer_are_unused() {
    let mut bytes = vec![7u8; 40];
    bytes[38] = 1;
    bytes[39] = 2;
    let table = decode_header(&bytes).unwrap();
    assert_eq!(table.level_offsets[8], 0x0707_0707);
    for k in 9..100 {
        assert_eq!(table.level_offsets[k], 0);
    }
    assert_eq!(table.trailing_blob, Some(vec![1, 2]));
}

#[test]
fn header_round_trip() {
    let mut offsets = [0i32; 100];
    for (k, slot) in offsets.iter_mut().enumerate() {
        *slot = (k as i32 - 50) * 1_000_003;
    }
    let bytes = encode_header(0xa5c3, &offsets);
    assert_eq!(bytes.len(), 402);
    assert_eq!(&bytes[0..2], &[0xc3, 0xa5]);
    let table = decode_header(&bytes).unwrap();
    assert_eq!(table.magic, 0xa5c3);
    assert_eq!(table.level_offsets, offsets);
    assert_eq!(table.trailing_blob, Some(bytes[38..].to_vec()));
}

#[test]
fn read_keeps_header_and_data() {
    let mut offsets = [0i32; 100];
    offsets[0] = 5;
    let mut bytes = encode_header(0xabcd, &offsets);
    bytes.truncate(40);
    let game = read(&bytes, vec![9, 8, 7]).unwrap();
    assert_eq!(game.magic(), 0xabcd);
    assert_eq!(game.level_offsets()[0], 5);
    assert_eq!(game.level_offsets()[9], 0);
    assert_eq!(game.tileinfo(), Some(&bytes[38..40]));
    assert_eq!(game.maps_data(), &[9, 8, 7]);
}

#[test]
fn read_rejects_short_header() {
    assert_eq!(read(&[0u8; 10], vec![1, 2]).unwrap_err(), DecodeError::TooShort);
}

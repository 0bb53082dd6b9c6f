use runtime_host::{encode_compact_u64, decode_compact_u64, append_to_storage_value};

#[test]
fn encode_single_byte_mode() {
    assert_eq!(encode_compact_u64(0), vec![0x00]);
    assert_eq!(encode_compact_u64(1), vec![0x04]);
    assert_eq!(encode_compact_u64(42), vec![0xA8]);
    assert_eq!(encode_compact_u64(63), vec![0xFC]);
}

#[test]
fn encode_two_byte_mode() {
    assert_eq!(encode_compact_u64(64), vec![0x01, 0x01]);
    assert_eq!(encode_compact_u64(16383), vec![0xFD, 0xFF]);
}

#[test]
fn encode_four_byte_mode() {
    assert_eq!(encode_compact_u64(16384), vec![0x02, 0x00, 0x01, 0x00]);
    assert_eq!(encode_compact_u64(0x3FFF_FFFF), vec![0xFE, 0xFF, 0xFF, 0xFF]);
}

#[test]
fn encode_big_integer_mode() {
    assert_eq!(encode_compact_u64(0x4000_0000), vec![0x03, 0x00, 0x00, 0x00, 0x40]);
    assert_eq!(
        encode_compact_u64(0x1_0000_0000),
        vec![0x07, 0x00, 0x00, 0x00, 0x00, 0x01]
    );
    assert_eq!(
        encode_compact_u64(u64::MAX),
        vec![0x13, 0xFF, 0xFF, 0xFF, 0xFF, 0xFF, 0xFF, 0xFF, 0xFF]
    );
}

#[test]
fn decode_round_trips() {
    for n in [
        0u64,
        1,
        63,
        64,
        16383,
        16384,
        0x3FFF_FFFF,
        0x4000_0000,
        0xFFFF_FFFF,
        0x1_0000_0000,
        u64::MAX,
    ] {
        let mut enc = encode_compact_u64(n);
        let width = enc.len();
        enc.push(0xAA);
        let decoded = decode_compact_u64(&enc);
        assert_eq!(decoded, Some((n, width)));
    }
}

#[test]
fn decode_rejects_empty_and_short() {
    assert_eq!(decode_compact_u64(&vec![]), None);
    assert_eq!(decode_compact_u64(&vec![0x01]), None);
    assert_eq!(decode_compact_u64(&vec![0x02, 0x00]), None);
    assert_eq!(decode_compact_u64(&vec![0x03, 0x00, 0x00]), None);
}

#[test]
fn decode_rejects_non_canonical() {
    // 0 encoded in the two-byte mode.
    assert_eq!(decode_compact_u64(&vec![0x01, 0x00]), None);
    // 64 encoded in the four-byte mode.
    assert_eq!(decode_compact_u64(&vec![0x02, 0x01, 0x00, 0x00]), None);
    // A big-integer payload below the mode's minimum.
    assert_eq!(decode_compact_u64(&vec![0x03, 0x01, 0x00, 0x00, 0x00]), None);
    // A nine-byte payload cannot be canonical for a 64-bit value.
    assert_eq!(
        decode_compact_u64(&vec![0x17, 1, 2, 3, 4, 5, 6, 7, 8, 9]),
        None
    );
}

#[test]
fn append_extends_count_and_payload() {
    // One element; appending makes it two.
    let mut v = vec![0x04, 0x11];
    append_to_storage_value(&mut v, &vec![0x22]);
    assert_eq!(v, vec![0x08, 0x11, 0x22]);
}

#[test]
fn append_across_width_boundary() {
    // 63 one-byte elements: the count 63 is the single byte 0xFC; the count
    // 64 takes two bytes, so the payload shifts right by one.
    let mut v = vec![0xFC];
    v.extend(std::iter::repeat(0x11).take(63));
    let before_payload = v[1..].to_vec();
    append_to_storage_value(&mut v, &vec![0x22]);
    assert_eq!(v.len(), 2 + 63 + 1);
    assert_eq!(&v[0..2], &[0x01, 0x01]);
    assert_eq!(&v[2..65], &before_payload[..]);
    assert_eq!(v[65], 0x22);
}

#[test]
fn append_from_malformed_resets() {
    // A truncated big-integer prefix does not decode: the value resets to a
    // one-element sequence.
    let mut v = vec![0x03];
    append_to_storage_value(&mut v, &vec![0x22]);
    assert_eq!(v, vec![0x04, 0x22]);

    // A non-canonical prefix resets too.
    let mut v = vec![0x01, 0x00, 0x50];
    append_to_storage_value(&mut v, &vec![0x22]);
    assert_eq!(v, vec![0x04, 0x22]);
}

#[test]
fn append_from_empty_makes_one_element() {
    let mut v = Vec::new();
    append_to_storage_value(&mut v, &vec![0x01]);
    assert_eq!(v, vec![0x04, 0x01]);
}

#[test]
fn append_at_largest_count_resets() {
    // A count of u64::MAX cannot grow: the value resets.
    let mut v = encode_compact_u64(u64::MAX);
    v.push(0x11);
    append_to_storage_value(&mut v, &vec![0x22]);
    assert_eq!(v, vec![0x04, 0x22]);
}

#[test]
fn nibble_round_trip() {
    let bytes = vec![0xAB, 0x01, 0xF0];
    let nibbles = runtime_host::bytes_to_nibbles(&bytes);
    assert_eq!(nibbles, vec![0x0A, 0x0B, 0x00, 0x01, 0x0F, 0x00]);
    assert_eq!(runtime_host::nibbles_to_bytes(&nibbles), bytes);
}

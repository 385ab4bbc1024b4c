use bridgerpay_connector::wire::{decode_record, encode_record, encode_varint, read_varint};
use bridgerpay_connector::CheckoutPayloadModel;

fn varint_bytes(n: u64) -> Vec<u8> {
    let mut v = Vec::new();
    encode_varint(n, &mut v);
    v
}

#[test]
fn varint_encoding_exact_values() {
    assert_eq!(varint_bytes(0), vec![0x00]);
    assert_eq!(varint_bytes(1), vec![0x01]);
    assert_eq!(varint_bytes(127), vec![0x7F]);
    assert_eq!(varint_bytes(128), vec![0x80, 0x01]);
    assert_eq!(varint_bytes(300), vec![0xAC, 0x02]);
    assert_eq!(
        varint_bytes(u64::MAX),
        vec![0xFF, 0xFF, 0xFF, 0xFF, 0xFF, 0xFF, 0xFF, 0xFF, 0xFF, 0x01]
    );
}

#[test]
fn varint_read_round_trip() {
    for n in [0u64, 1, 127, 128, 300, 16384, u64::MAX / 2, u64::MAX] {
        let v = varint_bytes(n);
        let (value, next) = read_varint(&v, 0).unwrap();
        assert_eq!(value, n);
        assert_eq!(next, v.len());
    }
}

#[test]
fn varint_read_accepts_redundant_zero_groups() {
    // The reader is lenient about non-minimal forms; the record decoder
    // rejects them through its re-encoding check.
    assert_eq!(read_varint(&[0x80, 0x00], 0), Some((0, 2)));
}

#[test]
fn varint_read_rejects_truncated_and_oversized() {
    assert_eq!(read_varint(&[0x80], 0), None);
    assert_eq!(read_varint(&[], 0), None);
    // Eleven continuation bytes never fit a 64-bit value.
    assert_eq!(read_varint(&[0x80; 11], 0), None);
    // 2^64 itself is one too many.
    assert_eq!(
        read_varint(&[0x80, 0x80, 0x80, 0x80, 0x80, 0x80, 0x80, 0x80, 0x80, 0x02], 0),
        None
    );
}

#[test]
fn record_wire_exact_bytes() {
    let record = CheckoutPayloadModel {
        timestamp: 1,
        client_id: "A".to_string(),
        sign: String::new(),
        metadata: vec![("k".to_string(), "v".to_string())],
    };
    let wire = encode_record(&record);
    assert_eq!(
        wire,
        vec![
            0x08, 0x01, // timestamp 1
            0x12, 0x01, 0x41, // client_id "A"
            0x22, 0x06, 0x0A, 0x01, 0x6B, 0x12, 0x01, 0x76, // {"k": "v"}
        ]
    );
    assert_eq!(decode_record(&wire), Some(record));
}

#[test]
fn record_wire_negative_timestamp() {
    let record = CheckoutPayloadModel {
        timestamp: -1,
        client_id: String::new(),
        sign: String::new(),
        metadata: vec![],
    };
    let wire = encode_record(&record);
    // -1 as a 64-bit two's-complement varint: ten bytes.
    assert_eq!(
        wire,
        vec![0x08, 0xFF, 0xFF, 0xFF, 0xFF, 0xFF, 0xFF, 0xFF, 0xFF, 0xFF, 0x01]
    );
    assert_eq!(decode_record(&wire), Some(record));
}

#[test]
fn record_wire_omits_defaults() {
    let record = CheckoutPayloadModel {
        timestamp: 0,
        client_id: String::new(),
        sign: String::new(),
        metadata: vec![],
    };
    let wire = encode_record(&record);
    assert_eq!(wire, Vec::<u8>::new());
    assert_eq!(decode_record(&wire), Some(record));
}

#[test]
fn record_wire_keeps_metadata_order_and_duplicates() {
    let record = CheckoutPayloadModel {
        timestamp: 5,
        client_id: "c".to_string(),
        sign: "s".to_string(),
        metadata: vec![
            ("b".to_string(), "2".to_string()),
            ("a".to_string(), "1".to_string()),
            ("b".to_string(), "3".to_string()),
            (String::new(), String::new()),
        ],
    };
    let wire = encode_record(&record);
    assert_eq!(decode_record(&wire), Some(record));
}

#[test]
fn decode_rejects_non_canonical_forms() {
    // An explicitly encoded default timestamp must have been omitted.
    assert_eq!(decode_record(&[0x08, 0x00]), None);
    // A non-minimal varint re-encodes shorter.
    assert_eq!(decode_record(&[0x08, 0x81, 0x00]), None);
    // An explicitly encoded empty client_id must have been omitted.
    assert_eq!(decode_record(&[0x12, 0x00]), None);
}

#[test]
fn decode_rejects_malformed_input() {
    // Unknown field tag.
    assert_eq!(decode_record(&[0xFF]), None);
    // Truncated length-delimited field.
    assert_eq!(decode_record(&[0x12, 0x05, 0x41]), None);
    // Fields out of tag order.
    assert_eq!(decode_record(&[0x1A, 0x01, 0x41, 0x12, 0x01, 0x41]), None);
    // Trailing garbage after a valid entry.
    assert_eq!(decode_record(&[0x22, 0x00, 0x00]), None);
    // Entry body with an unknown inner tag.
    assert_eq!(decode_record(&[0x22, 0x01, 0x7F]), None);
}

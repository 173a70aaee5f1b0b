use h3cell::{decode, decode_hex, encode, encode_hex, get_field, set_field, CellError, H3Cell};

#[test]
fn encode_zero_word_is_eight_zero_bytes() {
    let c = H3Cell::new_unchecked(0);
    let bytes = encode(&c);
    assert_eq!(bytes, vec![0u8, 0, 0, 0, 0, 0, 0, 0]);
    assert_eq!(decode(&bytes).unwrap().as_u64(), 0);
}

#[test]
fn encode_is_big_endian() {
    let c = H3Cell::new_unchecked(0x0102_0304_0506_0708);
    assert_eq!(encode(&c), vec![1u8, 2, 3, 4, 5, 6, 7, 8]);
}

#[test]
fn decode_of_encode_roundtrips() {
    let c = H3Cell::generate_random(11).unwrap();
    assert_eq!(decode(&encode(&c)).unwrap(), c);
    let known = H3Cell::new_unchecked(0x8a2a1072b59ffff);
    assert_eq!(decode(&encode(&known)).unwrap(), known);
}

#[test]
fn decode_of_seven_bytes_fails() {
    let bytes: Vec<u8> = vec![0u8, 0, 0, 0, 0, 0, 0];
    assert_eq!(decode(&bytes).unwrap_err(), CellError::TypeMismatch);
}

#[test]
fn decode_of_nine_bytes_fails() {
    let bytes: Vec<u8> = vec![0u8, 0, 0, 0, 0, 0, 0, 0, 0];
    assert_eq!(decode(&bytes).unwrap_err(), CellError::TypeMismatch);
}

#[test]
fn hex_form_of_reset_word() {
    let mut c = H3Cell::new_unchecked(0);
    c.reset();
    assert_eq!(encode_hex(&c), "08001fffffffffff");
    assert_eq!(decode_hex("08001fffffffffff").unwrap(), c);
    assert_eq!(decode_hex("08001FFFFFFFFFFF").unwrap(), c);
}

#[test]
fn hex_roundtrip_of_random_cell() {
    let c = H3Cell::generate_random(15).unwrap();
    assert_eq!(decode_hex(&encode_hex(&c)).unwrap(), c);
}

#[test]
fn hex_decode_rejects_malformed_text() {
    assert_eq!(decode_hex("").unwrap_err(), CellError::TypeMismatch);
    assert_eq!(decode_hex("0800").unwrap_err(), CellError::TypeMismatch);
    assert_eq!(decode_hex("08001ffffffffff").unwrap_err(), CellError::TypeMismatch);
    assert_eq!(
        decode_hex("08001ffffffffffff").unwrap_err(),
        CellError::TypeMismatch
    );
    assert_eq!(
        decode_hex("0g001fffffffffff").unwrap_err(),
        CellError::TypeMismatch
    );
}

#[test]
fn field_codec_reads_and_writes_ranges() {
    let w = set_field(0, 8, 4, 10).unwrap();
    assert_eq!(w, 10u64 << 52);
    assert_eq!(get_field(w, 8, 4), 10);
    assert_eq!(get_field(w, 12, 7), 0);
    let w2 = set_field(w, 12, 7, 21).unwrap();
    assert_eq!(get_field(w2, 12, 7), 21);
    assert_eq!(get_field(w2, 8, 4), 10);
    assert_eq!(set_field(0, 8, 4, 16).unwrap_err(), CellError::FieldOverflow);
}

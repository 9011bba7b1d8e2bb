use simpledb::row::deserialize_row;
use simpledb::row::deserialize_string;
use simpledb::row::serialize_row;
use simpledb::row::Row;

fn round_trip(row: &Row) -> Row {
    let mut buffer: Vec<u8> = vec![0xaa; 291];
    serialize_row(row, &mut buffer, 0);
    deserialize_row(&buffer, 0)
}

#[test]
fn encoded_row_has_the_documented_layout() {
    let row = Row::new(0x01020304, "jdoe", "jdoe@example.com");
    let mut buffer: Vec<u8> = vec![0xff; 300];
    serialize_row(&row, &mut buffer, 5);
    assert_eq!(&buffer[0..5], &[0xffu8; 5]);
    assert_eq!(&buffer[5..9], &[1u8, 2, 3, 4]);
    assert_eq!(&buffer[9..13], b"jdoe");
    assert!(buffer[13..41].iter().all(|b| *b == 0));
    assert_eq!(&buffer[41..57], b"jdoe@example.com");
    assert!(buffer[57..296].iter().all(|b| *b == 0));
    assert_eq!(&buffer[296..300], &[0xffu8; 4]);
}

#[test]
fn identifier_is_big_endian() {
    let mut buffer: Vec<u8> = vec![0; 291];
    serialize_row(&Row::new(1, "", ""), &mut buffer, 0);
    assert_eq!(&buffer[0..4], &[0u8, 0, 0, 1]);
    serialize_row(&Row::new(4294967295, "", ""), &mut buffer, 0);
    assert_eq!(&buffer[0..4], &[255u8, 255, 255, 255]);
    serialize_row(&Row::new(256, "", ""), &mut buffer, 0);
    assert_eq!(&buffer[0..4], &[0u8, 0, 1, 0]);
    let mut source: Vec<u8> = vec![0; 291];
    source[0] = 0x12;
    source[1] = 0x34;
    source[2] = 0x56;
    source[3] = 0x78;
    assert_eq!(deserialize_row(&source, 0).id, 0x12345678);
}

#[test]
fn row_round_trips() {
    let row = Row::new(1, "jdoe", "jdoe@example.com");
    assert_eq!(round_trip(&row), row);
    let empty = Row::new(0, "", "");
    assert_eq!(round_trip(&empty), empty);
    let largest = Row::new(u32::MAX, "u", "e");
    assert_eq!(round_trip(&largest), largest);
}

#[test]
fn text_that_fills_its_slot_round_trips() {
    let username = "u".repeat(32);
    let email = "e".repeat(255);
    let row = Row::new(3, &username, &email);
    assert!(row.fits());
    let mut buffer: Vec<u8> = vec![0; 291];
    serialize_row(&row, &mut buffer, 0);
    assert!(buffer[4..].iter().all(|b| *b != 0));
    let back = deserialize_row(&buffer, 0);
    assert_eq!(back, row);
    assert_eq!(back.username.len(), 32);
    assert_eq!(back.email.len(), 255);
}

#[test]
fn text_reads_back_up_to_its_first_zero_byte() {
    let row = Row { id: 9, username: b"ab\0cd".to_vec(), email: b"\0x".to_vec() };
    let back = round_trip(&row);
    assert_eq!(back, Row { id: 9, username: b"ab".to_vec(), email: Vec::new() });
}

#[test]
fn bytes_that_are_not_text_pass_through() {
    let row = Row { id: 9, username: vec![0xff, 0xfe, 0x80], email: vec![0xc3] };
    assert_eq!(round_trip(&row), row);
}

#[test]
fn fits_tells_whether_the_texts_fit() {
    assert!(Row::new(1, &"u".repeat(32), &"e".repeat(255)).fits());
    assert!(!Row::new(1, &"u".repeat(33), "e").fits());
    assert!(!Row::new(1, "u", &"e".repeat(256)).fits());
}

#[test]
fn new_row_holds_the_bytes_of_its_texts() {
    let row = Row::new(7, "bob", "bob@y");
    assert_eq!(row.id, 7);
    assert_eq!(row.username, vec![0x62u8, 0x6f, 0x62]);
    assert_eq!(row.email, vec![0x62u8, 0x6f, 0x62, 0x40, 0x79]);
    let accented = Row::new(1, "é", "");
    assert_eq!(accented.username, vec![0xc3u8, 0xa9]);
}

#[test]
fn slot_text_ends_at_the_first_zero_byte_or_the_slot_end() {
    let source: Vec<u8> = vec![1, 2, 3, 0, 5, 6, 0, 8];
    assert_eq!(deserialize_string(&source, 0, 8), &[1u8, 2, 3]);
    assert_eq!(deserialize_string(&source, 0, 3), &[1u8, 2, 3]);
    assert_eq!(deserialize_string(&source, 0, 2), &[1u8, 2]);
    assert_eq!(deserialize_string(&source, 3, 4), &[] as &[u8]);
    assert_eq!(deserialize_string(&source, 4, 4), &[5u8, 6]);
    assert_eq!(deserialize_string(&source, 7, 1), &[8u8]);
    assert_eq!(deserialize_string(&source, 8, 0), &[] as &[u8]);
}

#[test]
fn rows_are_decoded_at_their_offset() {
    let mut buffer: Vec<u8> = vec![0; 4096];
    serialize_row(&Row::new(1, "a", "a@x"), &mut buffer, 0);
    serialize_row(&Row::new(2, "b", "b@x"), &mut buffer, 291);
    serialize_row(&Row::new(14, "n", "n@x"), &mut buffer, 13 * 291);
    assert_eq!(deserialize_row(&buffer, 0), Row::new(1, "a", "a@x"));
    assert_eq!(deserialize_row(&buffer, 291), Row::new(2, "b", "b@x"));
    assert_eq!(deserialize_row(&buffer, 3783), Row::new(14, "n", "n@x"));
    assert!(buffer[4074..].iter().all(|b| *b == 0));
}

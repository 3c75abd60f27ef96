use tree_inspect::decimal::parse_usize;
use tree_inspect::edit::{edit_buffer, edit_buffer_in_order, parse_edit_flag, Edit, EditError};
use tree_inspect::position::{offset_for_position, position_for_offset, Point};

fn pt(row: usize, column: usize) -> Point {
    Point { row, column }
}

#[test]
fn position_counts_rows_and_columns() {
    let buf = b"ab\ncd\n\nx".to_vec();
    assert_eq!(position_for_offset(&buf, 0), pt(0, 0));
    assert_eq!(position_for_offset(&buf, 2), pt(0, 2));
    assert_eq!(position_for_offset(&buf, 3), pt(1, 0));
    assert_eq!(position_for_offset(&buf, 5), pt(1, 2));
    assert_eq!(position_for_offset(&buf, 7), pt(3, 0));
    assert_eq!(position_for_offset(&buf, 8), pt(3, 1));
}

#[test]
fn offset_for_position_finds_first_byte_past_target() {
    let buf = b"ab\ncd\n\nx".to_vec();
    assert_eq!(offset_for_position(&buf, pt(0, 0)), 0);
    assert_eq!(offset_for_position(&buf, pt(1, 1)), 4);
    // A column past the end of its row lands on the row's newline.
    assert_eq!(offset_for_position(&buf, pt(0, 9)), 2);
    // A position past the end of the buffer gives its length.
    assert_eq!(offset_for_position(&buf, pt(9, 0)), buf.len());
    assert_eq!(offset_for_position(&Vec::new(), pt(0, 0)), 0);
}

#[test]
fn offset_position_round_trip_on_every_offset() {
    let buf = b"fn main() {\n  let x = 1;\n\n}\n".to_vec();
    for o in 0..=buf.len() {
        let p = position_for_offset(&buf, o);
        assert_eq!(offset_for_position(&buf, p), o);
    }
}

#[test]
fn decimal_fields_follow_usize_parsing() {
    let s = "12 +7 + 007 1a 18446744073709551615 18446744073709551616 -1";
    assert_eq!(parse_usize(s, 0, 2), Some(12));
    assert_eq!(parse_usize(s, 3, 5), Some(7));
    assert_eq!(parse_usize(s, 6, 7), None);
    assert_eq!(parse_usize(s, 8, 11), Some(7));
    assert_eq!(parse_usize(s, 12, 14), None);
    assert_eq!(parse_usize(s, 15, 35), Some(usize::MAX));
    assert_eq!(parse_usize(s, 36, 56), None);
    assert_eq!(parse_usize(s, 57, 59), None);
    assert_eq!(parse_usize(s, 0, 0), None);
}

#[test]
fn append_at_end_of_buffer() {
    let mut buf = b"a = 1".to_vec();
    buf.truncate(4);
    assert_eq!(buf.len(), 4);
    let edit = parse_edit_flag(&buf, "$ 0 ;").unwrap();
    assert_eq!(edit.position, 4);
    assert_eq!(edit.deleted_length, 0);
    assert_eq!(edit.inserted_text, b";".to_vec());
    let d = edit_buffer(&mut buf, &edit);
    assert_eq!(buf.len(), 5);
    assert_eq!(buf, b"a = ;".to_vec());
    assert_eq!(d.new_end_byte, 5);
    assert_eq!(d.new_end_position.row, d.old_end_position.row);
    assert_eq!(d.new_end_position, pt(0, 5));
}

#[test]
fn missing_fields_are_malformed() {
    let buf = b"abcd".to_vec();
    match parse_edit_flag(&buf, "abc") {
        Err(e) => {
            assert!(matches!(&e, EditError::MalformedEditSpec(s) if s == "abc"));
            assert_eq!(
                e.message(),
                "Invalid edit string 'abc'. Edit strings must match the pattern '<START_BYTE_OR_POSITION> <REMOVED_LENGTH> <NEW_TEXT>'"
            );
        },
        Ok(e) => panic!("accepted {:?}", e),
    }
}

#[test]
fn each_malformed_field_is_reported() {
    let buf = b"abcd".to_vec();
    for flag in ["1", "x 1 a", "1 y a", "1,a 0 x", "1, 0 x", ",1 0 x", "", " 0 x", "1 -1 x"] {
        match parse_edit_flag(&buf, flag) {
            Err(EditError::MalformedEditSpec(s)) => assert_eq!(s, flag),
            Ok(e) => panic!("accepted {:?} from {:?}", e, flag),
        }
    }
}

#[test]
fn edit_text_keeps_spaces_after_second_field() {
    let buf = b"one\ntwo\nthree".to_vec();
    let e = parse_edit_flag(&buf, "1,1 2 a  b c").unwrap();
    assert_eq!(e.position, 5);
    assert_eq!(e.deleted_length, 2);
    assert_eq!(e.inserted_text, b"a  b c".to_vec());
    let e = parse_edit_flag(&buf, "3 0").unwrap();
    assert_eq!(e.position, 3);
    assert_eq!(e.inserted_text, Vec::<u8>::new());
    let e = parse_edit_flag(&buf, "2,1,9 1 é").unwrap();
    assert_eq!(e.position, 9);
    assert_eq!(e.inserted_text, "é".as_bytes().to_vec());
    let e = parse_edit_flag(&buf, "+2 0 x").unwrap();
    assert_eq!(e.position, 2);
}

#[test]
fn edit_splices_and_measures_before_and_after() {
    let mut buf = b"abc\ndef".to_vec();
    let edit = Edit { position: 2, deleted_length: 3, inserted_text: b"X\nY\nZ".to_vec() };
    let d = edit_buffer(&mut buf, &edit);
    assert_eq!(buf, b"abX\nY\nZef".to_vec());
    assert_eq!((d.start_byte, d.old_end_byte, d.new_end_byte), (2, 5, 7));
    assert_eq!(d.start_position, pt(0, 2));
    assert_eq!(d.old_end_position, pt(1, 1));
    assert_eq!(d.new_end_position, pt(2, 1));
    assert_eq!(d.new_end_position, position_for_offset(&buf, d.new_end_byte));
}

#[test]
fn edits_in_order_measure_on_the_changed_buffer() {
    let mut buf = b"abc".to_vec();
    let edits = vec![
        Edit { position: 0, deleted_length: 0, inserted_text: b"\n\n".to_vec() },
        Edit { position: 3, deleted_length: 1, inserted_text: b"Q".to_vec() },
    ];
    let ds = edit_buffer_in_order(&mut buf, &edits);
    assert_eq!(buf, b"\n\naQc".to_vec());
    assert_eq!(ds.len(), 2);
    assert_eq!(ds[1].start_position, pt(2, 1));
    assert_eq!(ds[1].old_end_position, pt(2, 2));
    let mut once = b"abc".to_vec();
    edit_buffer(&mut once, &edits[0]);
    let second = edit_buffer(&mut once, &edits[1]);
    assert_eq!(ds[1], second);
    assert_eq!(once, buf);
}

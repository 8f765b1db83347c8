use assembunny::discs::Disc;
use assembunny::keypad::decode;
use assembunny::keypad::ComplexKeypad;
use assembunny::keypad::Keypad;
use assembunny::keypad::SimpleKeypad;
use assembunny::rooms::sum_valid_ids;
use assembunny::rooms::ParsedName;
use assembunny::tiles::Floor;

#[test]
fn three_line_example() {
    let mut floor = Floor::new("..^^.").unwrap();
    floor.gen_rows(2);
    assert_eq!(floor.as_string(), "..^^.\n.^^^^\n^^..^");
}

#[test]
fn ten_line_example() {
    let mut floor = Floor::new(".^^.^.^^^^").unwrap();
    floor.gen_rows(9);
    assert_eq!(
        floor.as_string(),
        ".^^.^.^^^^\n^^^...^..^\n^.^^.^.^^.\n..^^...^^^\n.^^^^.^^.^\n^^..^.^^..\n\
^^^^..^^^.\n^..^^^^.^^\n.^^^..^.^^\n^^.^^^..^^"
    );
    assert_eq!(floor.num_safe_tiles(), 38);
}

#[test]
fn a_floor_row_rejects_other_characters() {
    assert!(Floor::new("..^x.").is_none());
    assert!(Floor::new("").is_some());
}

#[test]
fn safe_count_covers_every_generated_row() {
    let mut floor = Floor::new("..^^.").unwrap();
    floor.gen_rows(2);
    // 6 safe tiles in the three rows beyond the 9 traps
    assert_eq!(floor.num_safe_tiles(), 6);
}

#[test]
fn sum_of_valid_ids_from_test_input_is_1514() {
    let test_input = "aaaaa-bbb-z-y-x-123[abxyz]\na-b-c-d-e-f-g-h-987[abcde]\n\
not-a-real-room-404[oarel]\ntotally-real-room-200[decoy]";

    assert_eq!(sum_valid_ids(test_input), 1514);
}

#[test]
fn room_checksums_decide_validity() {
    assert!(ParsedName::new("aaaaa-bbb-z-y-x-123[abxyz]").unwrap().is_valid());
    assert!(ParsedName::new("a-b-c-d-e-f-g-h-987[abcde]").unwrap().is_valid());
    assert!(ParsedName::new("not-a-real-room-404[oarel]").unwrap().is_valid());
    assert!(!ParsedName::new("totally-real-room-200[decoy]").unwrap().is_valid());
}

#[test]
fn room_names_parse_into_parts_id_and_checksum() {
    let p = ParsedName::new("aaaaa-bbb-z-y-x-123[abxyz]").unwrap();
    assert_eq!(p.letter_parts, vec!["aaaaa", "bbb", "z", "y", "x"]);
    assert_eq!(p.id, 123);
    assert_eq!(p.checksum, "abxyz");
}

#[test]
fn malformed_room_names_are_rejected() {
    for bad in [
        "abc",
        "abc-",
        "abc-123",
        "abc-[xyz]",
        "abc-123[xyz",
        "abc--123[xyz]",
        "aB3-123[xyz]",
        "abc-4294967296[xyz]",
    ] {
        assert!(ParsedName::new(bad).is_none(), "{:?} should be rejected", bad);
    }
}

#[test]
fn decrypting_shifts_letters_by_the_sector_id() {
    let p = ParsedName::new("qzmt-zixmtkozy-ivhz-343[zimth]").unwrap();
    assert_eq!(p.decrypt(), "very encrypted name");
}

#[test]
fn simple_keypad_walks_the_example_code() {
    // the finger returns to 5 after every key press
    let code = "ULL\nRRDDD\nLURDL\nUUUUD\n";
    let mut keypad = SimpleKeypad::new();
    assert_eq!(decode(code, &mut keypad), "1945");
}

#[test]
fn complex_keypad_walks_the_example_code() {
    // the finger returns to the 5 key after every key press
    let code = "ULL\nRRDDD\nLURDL\nUUUUD\n";
    let mut keypad = ComplexKeypad::new();
    assert_eq!(decode(code, &mut keypad), "5DA5");
}

#[test]
fn keypad_moves_stop_at_the_edges() {
    let mut keypad = SimpleKeypad::new();
    // from 5, moving left twice stays on 4's row edge
    keypad.left();
    keypad.left();
    assert_eq!(keypad.get_key(), '4');
    let mut diamond = ComplexKeypad::new();
    // from 5, up and left are both off the diamond
    diamond.up();
    diamond.left();
    assert_eq!(diamond.get_key(), '5');
}

#[test]
fn discs_rotate_and_combine() {
    let first = Disc::new(13, 1, 1);
    assert_eq!(first.pos_at_time(0), 2);
    assert_eq!(first.pos_at_time(11), 0);
    let second = Disc::new(19, 10, 2);
    let combined = first.combine_with(second);
    assert_eq!(combined.positions, 13 * 19);
    assert_eq!(combined.delayed_start_pos, 0);
}

#[test]
fn summing_no_rooms_gives_zero() {
    assert_eq!(sum_valid_ids(""), 0);
}

use stringsext::finding::Precision;
use stringsext::finding_collection::FindingCollection;
use stringsext::mission::{
    Mission, Utf8Filter, AF_ALL, AF_CTRL, AF_WHITESPACE, UBF_ACCENTS, UBF_ALL, UBF_INVALID,
    UBF_LATIN, UBF_NONE,
};
use stringsext::scanner::ScannerState;

fn mission_all_utf8() -> Mission {
    Mission {
        mission_id: 0,
        counter_offset: 10_000,
        print_encoding_as_ascii: false,
        encoding: encoding_rs::Encoding::for_label("utf-8".as_bytes()).unwrap(),
        chars_min_nb: 3,
        require_same_unicode_block: false,
        // this is a pass-all filter
        filter: Utf8Filter { af: AF_ALL, ubf: UBF_ALL & !UBF_INVALID, grep_char: None },
        output_line_char_nb_max: 10,
    }
}

fn mission_latin_utf8() -> Mission {
    Mission {
        mission_id: 0,
        counter_offset: 10_000,
        print_encoding_as_ascii: false,
        encoding: encoding_rs::Encoding::for_label("utf-8".as_bytes()).unwrap(),
        chars_min_nb: 3,
        require_same_unicode_block: false,
        filter: Utf8Filter {
            af: AF_ALL & !AF_CTRL | AF_WHITESPACE,
            ubf: UBF_LATIN | UBF_ACCENTS,
            grep_char: None,
        },
        output_line_char_nb_max: 10,
    }
}

fn mission_latin_utf8_grep42() -> Mission {
    Mission {
        mission_id: 0,
        counter_offset: 10_000,
        print_encoding_as_ascii: false,
        encoding: encoding_rs::Encoding::for_label("utf-8".as_bytes()).unwrap(),
        chars_min_nb: 3,
        require_same_unicode_block: false,
        filter: Utf8Filter {
            af: AF_ALL & !AF_CTRL | AF_WHITESPACE,
            ubf: UBF_LATIN,
            grep_char: Some(42),
        },
        output_line_char_nb_max: 10,
    }
}

fn mission_all_x_user_defined() -> Mission {
    Mission {
        mission_id: 0,
        counter_offset: 10_000,
        print_encoding_as_ascii: false,
        encoding: encoding_rs::Encoding::for_label("x-user-defined".as_bytes()).unwrap(),
        chars_min_nb: 3,
        require_same_unicode_block: false,
        filter: Utf8Filter { af: AF_ALL, ubf: UBF_ALL & !UBF_INVALID, grep_char: None },
        output_line_char_nb_max: 10,
    }
}

fn mission_ascii() -> Mission {
    Mission {
        mission_id: 0,
        counter_offset: 10_000,
        print_encoding_as_ascii: false,
        encoding: encoding_rs::Encoding::for_label("x-user-defined".as_bytes()).unwrap(),
        chars_min_nb: 3,
        require_same_unicode_block: false,
        filter: Utf8Filter {
            af: AF_ALL & !AF_CTRL | AF_WHITESPACE,
            ubf: UBF_NONE,
            grep_char: None,
        },
        output_line_char_nb_max: 10,
    }
}

fn mission_real_data_scan() -> Mission {
    Mission {
        mission_id: 0,
        counter_offset: 10_000,
        print_encoding_as_ascii: false,
        encoding: encoding_rs::Encoding::for_label("utf-8".as_bytes()).unwrap(),
        chars_min_nb: 4,
        require_same_unicode_block: false,
        filter: Utf8Filter {
            af: AF_ALL & !AF_CTRL | AF_WHITESPACE,
            ubf: UBF_LATIN | UBF_ACCENTS,
            grep_char: None,
        },
        output_line_char_nb_max: 60,
    }
}

#[test]
fn test_scan_input_buffer_chunks() {
    let m = mission_all_utf8();

    let mut ss = ScannerState::new(&m);

    let input = b"a234567890b234567890c234";
    let fc = FindingCollection::from(&mut ss, Some(0), input, true);

    assert_eq!(fc.v[0].position, 10000);
    assert_eq!(fc.v[0].position_precision, Precision::Exact);
    assert_eq!(fc.v[0].s.as_slice(), b"a234567890");

    assert_eq!(fc.v[1].position, 10000);
    assert_eq!(fc.v[1].position_precision, Precision::After);
    assert_eq!(fc.v[1].s.as_slice(), b"b234567890");

    assert_eq!(fc.v[2].position, 10020);
    assert_eq!(fc.v[2].position_precision, Precision::Exact);
    assert_eq!(fc.v[2].s.as_slice(), b"c234");
    assert!(!ss.last_run_str_was_printed_and_is_maybe_cut_str);

    assert_eq!(fc.first_byte_position, 10000);
    assert!(!fc.str_buf_overflow);
    assert_eq!(ss.consumed_bytes, 10000 + 24);
}

#[test]
fn test_scan_store_in_scanner_state() {
    let m = mission_all_utf8();

    let mut ss = ScannerState::new(&m);

    let input = b"a234567890b234567890c2";
    // True because this is the only and last input.
    let fc = FindingCollection::from(&mut ss, Some(0), input, true);

    assert_eq!(fc.v.len(), 3);
    assert_eq!(fc.first_byte_position, 10000);
    assert!(!fc.str_buf_overflow);

    assert_eq!(fc.v[0].position, 10000);
    assert_eq!(fc.v[0].position_precision, Precision::Exact);
    assert_eq!(fc.v[0].s.as_slice(), b"a234567890");

    assert_eq!(fc.v[1].position, 10000);
    assert_eq!(fc.v[1].position_precision, Precision::After);
    assert_eq!(fc.v[1].s.as_slice(), b"b234567890");

    assert_eq!(fc.v[2].position, 10020);
    assert_eq!(fc.v[2].position_precision, Precision::Exact);
    assert_eq!(fc.v[2].s.as_slice(), b"c2");

    assert!(!ss.last_run_str_was_printed_and_is_maybe_cut_str);
    assert_eq!(ss.consumed_bytes, 10000 + 22);
}

#[test]
fn test_split_str_iterator_and_store_in_scanner_state() {
    let m = mission_all_utf8();

    let mut ss = ScannerState::new(&m);

    let input = b"You\xC0\x82\xC0co";
    // `false` because this is not the last input.
    let fc = FindingCollection::from(&mut ss, Some(0), input, false);

    assert_eq!(fc.v[0].position, 10000);
    assert_eq!(fc.v[0].position_precision, Precision::Exact);
    assert_eq!(fc.v[0].s.as_slice(), b"You");

    // "co" is not printed, because we do not know if
    // it can be completed by the next run.
    // It will be forwarded to the next run.
    assert_eq!(fc.v.len(), 1);
    assert_eq!(ss.last_scan_run_leftover.as_slice(), b"co");

    assert_eq!(fc.first_byte_position, 10000);
    assert!(!fc.str_buf_overflow);
    assert_eq!(ss.consumed_bytes, 10000 + 8);

    let input = b"me\xC0\x82\xC0home.";
    // True, because last input.
    let fc = FindingCollection::from(&mut ss, Some(0), input, true);

    assert_eq!(fc.v.len(), 2);
    assert_eq!(fc.v[0].position, 10008);
    assert_eq!(fc.v[0].position_precision, Precision::Before);
    // Note the "co"!
    assert_eq!(fc.v[0].s.as_slice(), b"come");

    assert_eq!(fc.v[1].position, 10013);
    assert_eq!(fc.v[1].position_precision, Precision::Exact);
    assert_eq!(fc.v[1].s.as_slice(), b"home.");

    assert_eq!(ss.last_scan_run_leftover.as_slice(), b"");

    assert_eq!(fc.first_byte_position, 10008);
    assert!(!fc.str_buf_overflow);
    assert_eq!(ss.consumed_bytes, 10008 + 10);
}

#[test]
fn test_grep_in_scan() {
    let m = mission_latin_utf8_grep42();

    let mut ss = ScannerState::new(&m);

    let input = b"You\xC0\x82\xC0co";
    // `false` because this is not the last input.
    let fc = FindingCollection::from(&mut ss, Some(0), input, false);

    assert_eq!(fc.v.len(), 0);

    // "co" is not printed, because we do not know if
    // it can be completed by the next run.
    // It will be forwarded to the next run.
    assert_eq!(ss.last_scan_run_leftover.as_slice(), b"co");

    assert_eq!(fc.first_byte_position, 10000);
    assert!(!fc.str_buf_overflow);
    assert_eq!(ss.consumed_bytes, 10000 + 8);

    let input = b"me*\xC0\x82\xC0ho*me.\x82";
    // True, because last input.
    let fc = FindingCollection::from(&mut ss, Some(0), input, true);

    assert_eq!(fc.v.len(), 2);
    assert_eq!(fc.v[0].position, 10008);
    assert_eq!(fc.v[0].position_precision, Precision::Before);
    // Note the "co"!
    assert_eq!(fc.v[0].s.as_slice(), b"come*");

    assert_eq!(fc.v[1].position, 10014);
    assert_eq!(fc.v[1].position_precision, Precision::Exact);
    assert_eq!(fc.v[1].s.as_slice(), b"ho*me.");

    assert_eq!(ss.last_scan_run_leftover.as_slice(), b"");

    assert_eq!(fc.first_byte_position, 10008);
    assert!(!fc.str_buf_overflow);
    assert_eq!(ss.consumed_bytes, 10008 + 13);
}

#[test]
/// What happens when a multi-byte UTF-8 is split at the
/// end of the input buffer between two scan runs?
fn test_scan_buffer_split_multibyte() {
    let m = mission_all_utf8();

    let mut ss = ScannerState::new(&m);

    // The last bytes are the beginning of a multi-byte
    // character, that is cut between two runs.
    let input = b"word\xe2\x82";

    // This `FindingCollection` is empty.
    let _fc = FindingCollection::from(&mut ss, Some(0), input, false);

    // Second run.
    // The first byte is the remaining € sign from the
    // last run.
    let input = b"\xacoh\xC0no no";

    let fc = FindingCollection::from(&mut ss, Some(0), input, false);

    assert_eq!(fc.v[0].position, 10006);
    assert_eq!(fc.v[0].position_precision, Precision::Before);
    assert_eq!(fc.v[0].s.as_slice(), "word€oh".as_bytes());

    assert_eq!(fc.first_byte_position, 10006);
    assert!(!fc.str_buf_overflow);
    assert_eq!(ss.consumed_bytes, 10006 + 9);

    // Third run.
    // There are no remaining bytes stored in the decoder. The first byte is
    // the beginning of the € sign.
    let input = b"\xe2\x82\xacStream end.";

    let fc = FindingCollection::from(&mut ss, Some(0), input, true);

    assert_eq!(fc.v.len(), 2);

    assert_eq!(fc.v[0].position, 10015);
    assert_eq!(fc.v[0].position_precision, Precision::Before);
    assert_eq!(fc.v[0].s.as_slice(), "no no€Stre".as_bytes());
    // Here the line is full.

    assert_eq!(fc.v[1].position, 10015);
    assert_eq!(fc.v[1].position_precision, Precision::After);
    assert_eq!(fc.v[1].s.as_slice(), b"am end.");

    assert_eq!(fc.first_byte_position, 10015);
    assert!(!fc.str_buf_overflow);
    assert_eq!(ss.consumed_bytes, 10015 + 14);
}

#[test]
fn test_to_short1() {
    // As `chars_min_nb` is 3, we expect strings with
    // length 1 to be omitted.
    let m = mission_all_utf8();

    let mut ss = ScannerState::new(&m);

    let input = b"ii\xC0abc\xC0\xC1de\xC0fgh\xC0ijk";

    let fc = FindingCollection::from(&mut ss, Some(0), input, false);

    assert_eq!(fc.first_byte_position, 10000);
    assert!(!fc.str_buf_overflow);
    assert_eq!(fc.v.len(), 2);

    assert_eq!(fc.v[0].s.as_slice(), b"abc");
    assert_eq!(fc.v[0].position, 10003);
    assert_eq!(fc.v[0].position_precision, Precision::Exact);

    // Note that "de" is missing, too short.
    assert_eq!(fc.v[1].s.as_slice(), b"fgh");
    assert_eq!(fc.v[1].position, 10011);
    assert_eq!(fc.v[1].position_precision, Precision::Exact);

    assert_eq!(ss.consumed_bytes, 10000 + 18);
    assert!(!ss.last_run_str_was_printed_and_is_maybe_cut_str);
    assert_eq!(ss.last_scan_run_leftover.as_slice(), b"ijk");

    // Second run
    // Only "def" is long enough.
    let input = b"b\xC0\x82c\xC0def";

    let fc = FindingCollection::from(&mut ss, Some(0), input, true);

    assert_eq!(fc.first_byte_position, 10018);
    assert!(!fc.str_buf_overflow);
    assert_eq!(fc.v.len(), 2);

    assert_eq!(fc.v[0].position, 10018);
    assert_eq!(fc.v[0].position_precision, Precision::Before);
    assert_eq!(fc.v[0].s.as_slice(), b"ijkb");

    assert_eq!(fc.v[1].position, 10023);
    assert_eq!(fc.v[1].position_precision, Precision::Exact);
    assert_eq!(fc.v[1].s.as_slice(), b"def");

    assert_eq!(ss.consumed_bytes, 10018 + 8);
    assert!(!ss.last_run_str_was_printed_and_is_maybe_cut_str);
    assert_eq!(ss.last_scan_run_leftover.as_slice(), b"");
}

#[test]
fn test_to_short2() {
    // As `chars_min_nb` is 3, we expect strings with
    // length 1 to be omitted.
    let m = mission_latin_utf8();

    let mut ss = ScannerState::new(&m);

    let input = "ii€ääà€€de€fgh€ijk".as_bytes();

    let fc = FindingCollection::from(&mut ss, Some(0), input, false);

    assert_eq!(fc.first_byte_position, 10000);
    assert!(!fc.str_buf_overflow);
    assert_eq!(fc.v.len(), 2);

    assert_eq!(fc.v[0].s.as_slice(), "ääà".as_bytes());
    assert_eq!(fc.v[0].position, 10000);
    // This was cut at the edge of the decoder window.
    assert_eq!(fc.v[0].position_precision, Precision::Exact);

    // Note that "de" is missing, too short.
    assert_eq!(fc.v[1].s.as_slice(), b"fgh");
    assert_eq!(fc.v[1].position, 10020);
    // This was cut at the edge of the decoder window.
    assert_eq!(fc.v[1].position_precision, Precision::Before);

    assert_eq!(ss.consumed_bytes, 10000 + 31);
    assert!(!ss.last_run_str_was_printed_and_is_maybe_cut_str);
    assert_eq!(ss.last_scan_run_leftover.as_slice(), b"ijk");

    // Second run
    // Only "def" is long enough.
    let input = b"b\xC0\x82c\xC0def";

    let fc = FindingCollection::from(&mut ss, Some(0), input, true);

    assert_eq!(fc.first_byte_position, 10031);
    assert!(!fc.str_buf_overflow);
    assert_eq!(fc.v.len(), 2);

    assert_eq!(fc.v[0].position, 10031);
    assert_eq!(fc.v[0].position_precision, Precision::Before);
    assert_eq!(fc.v[0].s.as_slice(), b"ijkb");

    assert_eq!(fc.v[1].position, 10036);
    assert_eq!(fc.v[1].position_precision, Precision::Exact);
    assert_eq!(fc.v[1].s.as_slice(), b"def");

    assert_eq!(ss.consumed_bytes, 10031 + 8);
    assert!(!ss.last_run_str_was_printed_and_is_maybe_cut_str);
    assert_eq!(ss.last_scan_run_leftover.as_slice(), b"");
}

#[test]
fn test_field_with_zeros() {
    let m = mission_real_data_scan();
    let mut ss = ScannerState::new(&m);

    let input = b"\x00\x00\x00\x00\x40\x00\x38\x00\x0c\x00\x40\x00\x2c\x00\x2b\x00";
    let fc = FindingCollection::from(&mut ss, Some(0), input, false);
    // A single spurious finding would be a bug.
    assert_ne!(fc.v.len(), 1);
}

#[test]
fn test_ascii_emulation() {
    let m = mission_all_x_user_defined();

    let mut ss = ScannerState::new(&m);

    let input = b"abcdefg\x58\x59\x80\x82h\x83ijk\x89\x90";

    let fc = FindingCollection::from(&mut ss, Some(0), input, true);

    assert_eq!(fc.first_byte_position, 10_000);
    assert_eq!(fc.str_buf_overflow, false);
    assert_eq!(fc.v.len(), 2);

    assert_eq!(fc.v[0].position, 10_000);
    assert_eq!(fc.v[0].position_precision, Precision::Exact);
    assert_eq!(fc.v[0].s.as_slice(), "abcdefgXY\u{f780}".as_bytes());
    // Next output line.

    assert_eq!(fc.v[1].position, 10_000);
    assert_eq!(fc.v[1].position_precision, Precision::After);
    assert_eq!(fc.v[1].s.as_slice(), "\u{f782}h\u{f783}ijk\u{f789}\u{f790}".as_bytes());

    assert_eq!(
        // We only compare the first 35 bytes, the others are 0 anyway.
        &fc.output_buffer_bytes[..35],
        "abcdefg\u{58}\u{59}\u{f780}\u{f782}h\u{f783}ijk\u{f789}\u{f790}\
         \u{0}\u{0}\u{0}\u{0}\u{0}\u{0}\u{0}"
            .as_bytes()
    );

    assert_eq!(ss.consumed_bytes, 10000 + 18);
    // false, because we told the scan this is the last run.
    assert_eq!(ss.last_run_str_was_printed_and_is_maybe_cut_str, false);
    assert_eq!(ss.last_scan_run_leftover.as_slice(), b"");

    // Second run.

    let m = mission_ascii();

    let mut ss = ScannerState::new(&m);

    let input = b"abcdefg\x58\x59\x80\x82h\x83ijk\x89\x90";

    let fc = FindingCollection::from(&mut ss, Some(0), input, false);

    assert_eq!(fc.v.len(), 2);
    assert_eq!(fc.first_byte_position, 10000);
    assert_eq!(fc.str_buf_overflow, false);

    assert_eq!(fc.v[0].position, 10_000);
    assert_eq!(fc.v[0].position_precision, Precision::Exact);
    assert_eq!(fc.v[0].s.as_slice(), b"abcdefgXY");
    // Next output line.

    assert_eq!(fc.v[1].position, 10_000);
    assert_eq!(fc.v[1].position_precision, Precision::After);
    // Note that `h` is gone.
    assert_eq!(fc.v[1].s.as_slice(), b"ijk");

    assert_eq!(
        // We only compare the first 35 bytes, the others are 0 anyway.
        &fc.output_buffer_bytes[..35],
        "abcdefg\u{58}\u{59}\u{f780}\u{f782}h\u{f783}ijk\u{f789}\u{f790}\u{0}\u{0}\u{0}\u{0}\u{0}\u{0}\u{0}"
            .as_bytes()
    );

    assert_eq!(ss.consumed_bytes, 10000 + 18);
    assert_eq!(ss.last_run_str_was_printed_and_is_maybe_cut_str, false);
    assert_eq!(ss.last_scan_run_leftover.as_slice(), b"");
}

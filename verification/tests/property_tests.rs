use stringsext::finding::{u64_to_radix, Finding, Precision};
use stringsext::finding_collection::FindingCollection;
use stringsext::merge::merge_collections;
use stringsext::mission::{MissionError, Missions};
use stringsext::options::Radix;
use stringsext::scanner::ScannerState;

fn single_mission(spec: &[u8]) -> Missions {
    Missions::new(&None, &vec![spec.to_vec()], &None, false, &None, &None, &None, &None).unwrap()
}

/// Two ASCII words separated by invalid byte sequences: both are found, the
/// second one after the first, with the high bytes dropped.
#[test]
fn test_two_words_around_invalid_bytes() {
    let missions = single_mission(b"ascii,5");
    let mut ss = ScannerState::new(&missions.v[0]);
    let input = b"\x48\x65\x6C\x6C\x6F\xC3\xBC\xC3\xBC\xC3\xBC\x77\x6F\x72\x6C\x64\x21";
    let fc = FindingCollection::from(&mut ss, None, input, true);
    assert_eq!(fc.v.len(), 2);
    assert_eq!(fc.v[0].s.as_slice(), b"Hello");
    assert_eq!(fc.v[0].position, 0);
    assert_eq!(fc.v[0].position_precision, Precision::Exact);
    assert_eq!(fc.v[1].s.as_slice(), b"world!");
    assert_eq!(fc.v[1].position, 0);
    assert_eq!(fc.v[1].position_precision, Precision::After);
}

/// Grep-char enforcement: only the fragment containing `*` survives.
#[test]
fn test_grep_char_enforcement() {
    let missions = single_mission(b"utf-8,3,,,42");
    let mut ss = ScannerState::new(&missions.v[0]);
    let input = b"ab\x00cdefg*hij\x00klmnop\x00";
    let fc = FindingCollection::from(&mut ss, None, input, true);
    assert_eq!(fc.v.len(), 1);
    assert_eq!(fc.v[0].s.as_slice(), b"cdefg*hij");
}

/// Minimum length with continuation exception: a one-character rest is
/// emitted because it completes a maybe-cut finding.
#[test]
fn test_min_length_continuation_exception() {
    let missions = Missions::new(
        &None,
        &vec![b"utf-8,4".to_vec()],
        &None,
        false,
        &None,
        &None,
        &None,
        &Some(b"10".to_vec()),
    )
    .unwrap();
    let mut ss = ScannerState::new(&missions.v[0]);
    let window1 = b"ab\x00verylongst";
    let fc1 = FindingCollection::from(&mut ss, None, window1, false);
    assert_eq!(fc1.v.len(), 1);
    assert_eq!(fc1.v[0].s.as_slice(), b"verylongst");
    assert!(ss.last_run_str_was_printed_and_is_maybe_cut_str);

    let window2 = b"X\x00";
    let fc2 = FindingCollection::from(&mut ss, None, window2, true);
    assert_eq!(fc2.v.len(), 1);
    assert_eq!(fc2.v[0].s.as_slice(), b"X");
    assert!(fc2.v[0].s_completes_previous_s);
}

/// ASCII-emulation labelling: high-bit bytes are not emitted and the record
/// is labelled `ascii`.
#[test]
fn test_ascii_emulation_labelling() {
    let missions = Missions::new(
        &None,
        &vec![b"ascii,5".to_vec(), b"utf-8,5".to_vec()],
        &None,
        false,
        &None,
        &None,
        &None,
        &None,
    )
    .unwrap();
    assert!(missions.v[0].print_encoding_as_ascii);
    assert!(!missions.v[1].print_encoding_as_ascii);

    let mut ss = ScannerState::new(&missions.v[0]);
    let input = b"\x48\x65\x6C\x6C\x6F\x80\x81\x9F\x77\x6F\x72\x6C\x64\x21";
    let fc = FindingCollection::from(&mut ss, None, input, true);
    assert_eq!(fc.v.len(), 2);
    assert_eq!(fc.v[0].s.as_slice(), b"Hello");
    assert_eq!(fc.v[1].s.as_slice(), b"world!");

    let rec = fc.v[0].format_record(false, true, Some(Radix::X), false, b"x-user-defined");
    assert_eq!(rec.as_slice(), b"\n 0 \t(a ascii)\tHello");
}

/// Idempotence over framing: the concatenated texts do not depend on where
/// the input stream was cut into windows, for window sizes at least twice
/// the output line length.
#[test]
fn test_framing_idempotence() {
    let missions = Missions::new(
        &None,
        &vec![b"utf-8,3".to_vec()],
        &None,
        false,
        &None,
        &None,
        &None,
        &Some(b"6".to_vec()),
    )
    .unwrap();
    let input = b"abcdefghijklmnopqrstuvwx";

    let mut ss_whole = ScannerState::new(&missions.v[0]);
    let fc = FindingCollection::from(&mut ss_whole, None, input, true);
    let mut whole: Vec<u8> = Vec::new();
    for f in &fc.v {
        whole.extend_from_slice(f.s.as_slice());
    }

    let mut ss_split = ScannerState::new(&missions.v[0]);
    let fc1 = FindingCollection::from(&mut ss_split, None, &input[..12], false);
    let fc2 = FindingCollection::from(&mut ss_split, None, &input[12..], true);
    let mut split: Vec<u8> = Vec::new();
    for f in fc1.v.iter().chain(fc2.v.iter()) {
        split.extend_from_slice(f.s.as_slice());
    }

    assert_eq!(whole, split);
    assert_eq!(whole.as_slice(), &input[..]);
}

/// The decoder really decodes: UTF-16LE input comes out as UTF-8 text.
#[test]
fn test_utf16le_decoding() {
    let missions = single_mission(b"utf-16le");
    let mut ss = ScannerState::new(&missions.v[0]);
    let input = b"\x48\x00\x65\x00\x6C\x00\x6C\x00\x6F\x00";
    let fc = FindingCollection::from(&mut ss, None, input, true);
    assert_eq!(fc.v.len(), 1);
    assert_eq!(fc.v[0].s.as_slice(), b"Hello");
    assert_eq!(ss.consumed_bytes, 10);
}

/// The merger reorders findings of different collections by position.
#[test]
fn test_merge_order() {
    let missions = Missions::new(
        &None,
        &vec![b"utf-8".to_vec(), b"utf-8".to_vec()],
        &None,
        false,
        &None,
        &None,
        &None,
        &None,
    )
    .unwrap();
    let mk = |mission_idx: usize, position: u64, text: &[u8]| Finding {
        input_file_id: None,
        mission: missions.v[mission_idx],
        position,
        position_precision: Precision::Exact,
        s: text.to_vec(),
        s_completes_previous_s: false,
    };
    let c0 = FindingCollection {
        v: vec![mk(0, 100, b"late")],
        first_byte_position: 0,
        output_buffer_bytes: Vec::new(),
        str_buf_overflow: false,
    };
    let c1 = FindingCollection {
        v: vec![mk(1, 50, b"early"), mk(1, 200, b"last")],
        first_byte_position: 0,
        output_buffer_bytes: Vec::new(),
        str_buf_overflow: false,
    };
    let merged = merge_collections(&vec![c0, c1]);
    assert_eq!(merged.len(), 3);
    assert_eq!(merged[0].s.as_slice(), b"early");
    assert_eq!(merged[1].s.as_slice(), b"late");
    assert_eq!(merged[2].s.as_slice(), b"last");
}

/// Each configuration error comes from the input that provokes it.
#[test]
fn test_configuration_errors() {
    assert_eq!(
        Missions::new(&None, &vec![], &Some(b"abc".to_vec()), false, &None, &None, &None, &None)
            .unwrap_err(),
        MissionError::UnparsableNumber
    );
    assert_eq!(
        Missions::new(&None, &vec![], &None, false, &None, &None, &Some(b"200".to_vec()), &None)
            .unwrap_err(),
        MissionError::GrepCharTooLarge
    );
    assert_eq!(
        Missions::new(&None, &vec![], &None, false, &None, &None, &None, &Some(b"3".to_vec()))
            .unwrap_err(),
        MissionError::OutputLineLenOutOfRange
    );
    assert_eq!(
        Missions::new(&None, &vec![b"foobar-enc".to_vec()], &None, false, &None, &None, &None, &None)
            .unwrap_err(),
        MissionError::UnknownEncoding
    );
    assert_eq!(
        Missions::parse_enc_opt(b"ascii,10,zzz").unwrap_err(),
        MissionError::UnknownFilterName
    );
    assert_eq!(
        Missions::parse_enc_opt(b"a,1,2,3,4,5").unwrap_err(),
        MissionError::UnknownFilterName
    );
    assert_eq!(
        Missions::parse_enc_opt(b"a,1,,,4,5").unwrap_err(),
        MissionError::TooManyFields
    );
}

/// Defaults of the mission builder: one UTF-8 mission with the documented
/// default parameters.
#[test]
fn test_mission_defaults() {
    let missions = Missions::new(&None, &vec![], &None, false, &None, &None, &None, &None)
        .unwrap();
    assert_eq!(missions.len(), 1);
    let m = &missions.v[0];
    assert_eq!(m.mission_id, 0);
    assert_eq!(m.counter_offset, 0);
    assert_eq!(m.chars_min_nb, 4);
    assert_eq!(m.output_line_char_nb_max, 64);
    assert!(!m.print_encoding_as_ascii);
    assert_eq!(m.filter.grep_char, None);
}

/// An empty window advances nothing and yields nothing; scanning goes on
/// afterwards.
#[test]
fn test_empty_window() {
    let missions = single_mission(b"utf-8");
    let mut ss = ScannerState::new(&missions.v[0]);
    let fc = FindingCollection::from(&mut ss, None, &[], false);
    assert_eq!(fc.v.len(), 0);
    assert_eq!(ss.consumed_bytes, 0);
    let fc = FindingCollection::from(&mut ss, None, b"hello", true);
    assert_eq!(fc.v.len(), 1);
    assert_eq!(fc.v[0].s.as_slice(), b"hello");
    assert_eq!(ss.consumed_bytes, 5);
}

/// The input-source letter appears in the record when several inputs exist.
#[test]
fn test_format_source_letter() {
    let missions = single_mission(b"utf-8");
    let mut ss = ScannerState::new(&missions.v[0]);
    let fc = FindingCollection::from(&mut ss, Some(2), b"hello", true);
    assert_eq!(fc.v.len(), 1);
    let rec = fc.v[0].format_record(true, false, Some(Radix::D), false, b"UTF-8");
    assert_eq!(rec.as_slice(), b"\nB  0 \thello");
}

/// The radix letters parse case-insensitively; other letters are refused.
#[test]
fn test_radix_from_byte() {
    assert_eq!(Radix::from_byte(b'o'), Ok(Radix::O));
    assert_eq!(Radix::from_byte(b'O'), Ok(Radix::O));
    assert_eq!(Radix::from_byte(b'x'), Ok(Radix::X));
    assert_eq!(Radix::from_byte(b'X'), Ok(Radix::X));
    assert_eq!(Radix::from_byte(b'd'), Ok(Radix::D));
    assert_eq!(Radix::from_byte(b'D'), Ok(Radix::D));
    assert_eq!(Radix::from_byte(b'q'), Err(()));
}

/// Exact digit strings in the three radixes.
#[test]
fn test_radix_rendering() {
    assert_eq!(u64_to_radix(255, 16).as_slice(), b"ff");
    assert_eq!(u64_to_radix(255, 10).as_slice(), b"255");
    assert_eq!(u64_to_radix(255, 8).as_slice(), b"377");
    assert_eq!(u64_to_radix(0, 16).as_slice(), b"0");
    assert_eq!(u64_to_radix(4096, 16).as_slice(), b"1000");
}

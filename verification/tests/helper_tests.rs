use stringsext::helper::{char_count, starts_with_multibyte_char, SplitStr};
use stringsext::mission::{Utf8Filter, AF_ALL, UBF_LATIN, UBF_NONE};

#[test]
fn test_as_str_unchecked_no_borrow_check() {
    let s_in = "abc€déf";
    let b = s_in.as_bytes();
    let s_out = std::str::from_utf8(b).unwrap();
    assert_eq!(s_in, s_out);
}

#[test]
fn test_split_s() {
    // We filter Latin + ASCII.
    let utf8f = Utf8Filter { af: AF_ALL, ubf: UBF_LATIN, grep_char: None };

    let b = "€abc€defg€hijk€lm€opq";

    let mut iter = SplitStr::new(b.as_bytes(), 3, false, false, utf8f, b.len());
    let r = iter.next().unwrap();
    assert_eq!(r.s.as_slice(), "abc".as_bytes());
    assert_eq!(r.s_completes_previous_s, false);
    let r = iter.next().unwrap();
    assert_eq!(r.s.as_slice(), "defg".as_bytes());
    let r = iter.next().unwrap();
    assert_eq!(r.s.as_slice(), "hijk".as_bytes());
    let r = iter.next().unwrap();
    assert_eq!(r.s.as_slice(), "opq".as_bytes());
    assert_eq!(iter.next(), None);

    let b = "ab€€defg€hijk€lm€opq";

    let mut iter = SplitStr::new(b.as_bytes(), 3, true, false, utf8f, b.len());
    // Corner case: input=true + first string too short, but touches left boundary
    // -> Printed although too short, because it completes string from last run.
    let r = iter.next().unwrap();
    assert_eq!(r.s.as_slice(), "ab".as_bytes());
    assert_eq!(r.s_completes_previous_s, true);
    assert_eq!(r.s_satisfies_min_char_rule, false);
    assert_eq!(r.s_is_to_be_filtered_again, false);
    let r = iter.next().unwrap();
    assert_eq!(r.s.as_slice(), "defg".as_bytes());
    let r = iter.next().unwrap();
    assert_eq!(r.s.as_slice(), "hijk".as_bytes());
    let r = iter.next().unwrap();
    assert_eq!(r.s.as_slice(), "opq".as_bytes());
    assert_eq!(r.s_is_maybe_cut, true);
    assert_eq!(r.s_satisfies_min_char_rule, true);
    assert_eq!(r.s_is_to_be_filtered_again, true);
    assert_eq!(iter.next(), None);

    let b = "ab€€defg€hijk€lm€op";

    let mut iter = SplitStr::new(b.as_bytes(), 3, false, false, utf8f, b.len());
    let r = iter.next().unwrap();
    assert_eq!(r.s.as_slice(), "defg".as_bytes());
    assert_eq!(r.s_completes_previous_s, false);
    let r = iter.next().unwrap();
    assert_eq!(r.s.as_slice(), "hijk".as_bytes());
    let r = iter.next().unwrap();
    assert_eq!(r.s.as_slice(), "op".as_bytes());
    assert_eq!(r.s_is_maybe_cut, true);
    assert_eq!(r.s_satisfies_min_char_rule, false);
    assert_eq!(r.s_is_to_be_filtered_again, true);
    assert_eq!(iter.next(), None);

    let b = "€abc€defg€hijk€lm";

    let mut iter = SplitStr::new(b.as_bytes(), 4, false, false, utf8f, b.len());
    let r = iter.next().unwrap();
    assert_eq!(r.s.as_slice(), "defg".as_bytes());
    let r = iter.next().unwrap();
    assert_eq!(r.s.as_slice(), "hijk".as_bytes());
    assert_eq!(r.s_is_maybe_cut, false);
    let r = iter.next().unwrap();
    assert_eq!(r.s.as_slice(), "lm".as_bytes());
    assert_eq!(r.s_is_maybe_cut, true);
    assert_eq!(r.s_satisfies_min_char_rule, false);
    assert_eq!(r.s_is_to_be_filtered_again, true);
    assert_eq!(iter.next(), None);

    let b = "€abc€defg€hijk€lmno€";

    let mut iter = SplitStr::new(b.as_bytes(), 4, false, false, utf8f, b.len());
    let r = iter.next().unwrap();
    assert_eq!(r.s.as_slice(), "defg".as_bytes());
    let r = iter.next().unwrap();
    assert_eq!(r.s.as_slice(), "hijk".as_bytes());
    let r = iter.next().unwrap();
    assert_eq!(r.s.as_slice(), "lmno".as_bytes());
    assert_eq!(r.s_is_maybe_cut, false);
    assert_eq!(r.s_satisfies_min_char_rule, true);
    assert_eq!(r.s_is_to_be_filtered_again, false);
    assert_eq!(iter.next(), None);

    // This tests the iterator's capability to cut substrings
    // > 7 bytes
    let b = "abc€defghiÜjklmnpqrs€";

    let mut iter = SplitStr::new(b.as_bytes(), 4, false, false, utf8f, 7);
    let r = iter.next().unwrap();
    // Note, this is longer than 7 bytes.
    assert_eq!(r.s.as_slice(), "defghiÜ".as_bytes());
    assert_eq!(r.s_completes_previous_s, false);
    assert_eq!(r.s_is_maybe_cut, true);
    assert_eq!(r.s_is_to_be_filtered_again, false);
    assert_eq!(r.s_satisfies_min_char_rule, true);

    let r = iter.next().unwrap();
    assert_eq!(r.s.as_slice(), "jklmnpq".as_bytes());
    assert_eq!(r.s_completes_previous_s, true);
    assert_eq!(r.s_is_maybe_cut, true);
    assert_eq!(r.s_is_to_be_filtered_again, false);
    assert_eq!(r.s_satisfies_min_char_rule, true);

    let r = iter.next().unwrap();
    assert_eq!(r.s.as_slice(), "rs".as_bytes());
    assert_eq!(r.s_completes_previous_s, true);
    assert_eq!(r.s_is_maybe_cut, false);
    assert_eq!(r.s_is_to_be_filtered_again, false);
    assert_eq!(r.s_satisfies_min_char_rule, false);

    assert_eq!(iter.next(), None);

    let b = "abcdefghijklm";

    let mut iter = SplitStr::new(b.as_bytes(), 4, false, false, utf8f, b.len());
    let r = iter.next().unwrap();
    assert_eq!(r.s.as_slice(), "abcdefghijklm".as_bytes());
    assert_eq!(r.s_completes_previous_s, false);
    assert_eq!(r.s_is_maybe_cut, true);
    assert_eq!(r.s_is_to_be_filtered_again, false);
    assert_eq!(r.s_satisfies_min_char_rule, true);
    assert_eq!(iter.next(), None);

    let b = "abcdefghijklm€";

    let mut iter = SplitStr::new(b.as_bytes(), 4, false, false, utf8f, b.len());
    let r = iter.next().unwrap();
    assert_eq!(r.s.as_slice(), "abcdefghijklm".as_bytes());
    assert_eq!(r.s_completes_previous_s, false);
    assert_eq!(r.s_is_maybe_cut, false);
    assert_eq!(r.s_is_to_be_filtered_again, false);
    assert_eq!(r.s_satisfies_min_char_rule, true);
    assert_eq!(iter.next(), None);

    let b = "öö€€ääää€üü€éééé€";

    let mut iter = SplitStr::new(b.as_bytes(), 4, true, false, utf8f, b.len());
    let r = iter.next().unwrap();
    assert_eq!(r.s.as_slice(), "öö".as_bytes());
    let r = iter.next().unwrap();
    assert_eq!(r.s.as_slice(), "ääää".as_bytes());
    let r = iter.next().unwrap();
    assert_eq!(r.s.as_slice(), "éééé".as_bytes());
    assert_eq!(iter.next(), None);

    // New test:
    // We filter ASCII only.

    let utf8f_ascii = Utf8Filter { af: AF_ALL, ubf: UBF_NONE, grep_char: None };

    let b = "öö€€ääää€üü€éééé€";

    let mut iter = SplitStr::new(b.as_bytes(), 4, true, false, utf8f_ascii, b.len());
    assert_eq!(iter.next(), None);
}

#[test]
fn test_split_s_grep_char() {
    // We filter Latin + ASCII.
    let utf8f = Utf8Filter { af: AF_ALL, ubf: UBF_LATIN, grep_char: None };

    let b = "ac€€xefg€xijk€xm€xp";

    let mut iter = SplitStr::new(b.as_bytes(), 3, true, false, utf8f, b.len());
    // Corner case: input=true + first string too short, but touches left boundary
    // -> Printed although too short, because it completes string from last run.
    let r = iter.next().unwrap();
    assert_eq!(r.s.as_slice(), "ac".as_bytes());
    assert_eq!(r.s_completes_previous_s, true);
    assert_eq!(r.s_is_to_be_filtered_again, false);
    assert_eq!(r.s_is_maybe_cut, false);
    let r = iter.next().unwrap();
    assert_eq!(r.s.as_slice(), "xefg".as_bytes());
    let r = iter.next().unwrap();
    assert_eq!(r.s.as_slice(), "xijk".as_bytes());
    let r = iter.next().unwrap();
    assert_eq!(r.s.as_slice(), "xp".as_bytes());
    assert_eq!(r.s_completes_previous_s, false);
    assert_eq!(r.s_is_to_be_filtered_again, true);
    assert_eq!(r.s_is_maybe_cut, true);
    assert_eq!(iter.next(), None);

    // Next test, same input.
    let b = "ac€€xefg€xijk€xm€xp";

    let my_utf8f = Utf8Filter { af: AF_ALL, ubf: UBF_LATIN, grep_char: Some(b'b') };

    let mut iter = SplitStr::new(b.as_bytes(), 2, true, false, my_utf8f, 3);
    // Corner case: input=true + first string too short, but touches left boundary
    // -> Printed although too short, because it completes string from last run.
    // Only this lacks the compulsory "b".
    let r = iter.next().unwrap();
    assert_eq!(r.s.as_slice(), "ac".as_bytes());
    assert_eq!(r.s_completes_previous_s, true);
    assert_eq!(r.s_is_to_be_filtered_again, false);
    assert_eq!(r.s_is_maybe_cut, false);
    assert_eq!(iter.next(), None);

    // Next test, same input.
    let b = "ac€€xefg€xijk€xm€xp";

    let my_utf8f = Utf8Filter { af: AF_ALL, ubf: UBF_LATIN, grep_char: Some(b'x') };

    let mut iter = SplitStr::new(b.as_bytes(), 2, true, false, my_utf8f, 3);
    let r = iter.next().unwrap();
    assert_eq!(r.s.as_slice(), "ac".as_bytes());
    assert_eq!(r.s_completes_previous_s, true);
    assert_eq!(r.s_is_to_be_filtered_again, false);
    assert_eq!(r.s_is_maybe_cut, false);
    assert_eq!(r.s_satisfies_grep_char_rule, false);
    let r = iter.next().unwrap();
    assert_eq!(r.s.as_slice(), "xef".as_bytes());
    assert_eq!(r.s_completes_previous_s, false);
    assert_eq!(r.s_is_to_be_filtered_again, false);
    assert_eq!(r.s_is_maybe_cut, true);
    assert_eq!(r.s_satisfies_grep_char_rule, true);
    let r = iter.next().unwrap();
    assert_eq!(r.s.as_slice(), "g".as_bytes());
    assert_eq!(r.s_completes_previous_s, true);
    assert_eq!(r.s_is_to_be_filtered_again, false);
    assert_eq!(r.s_is_maybe_cut, false);
    assert_eq!(r.s_satisfies_grep_char_rule, false);
    let r = iter.next().unwrap();
    assert_eq!(r.s.as_slice(), "xij".as_bytes());
    assert_eq!(r.s_completes_previous_s, false);
    assert_eq!(r.s_is_to_be_filtered_again, false);
    assert_eq!(r.s_is_maybe_cut, true);
    assert_eq!(r.s_satisfies_grep_char_rule, true);
    let r = iter.next().unwrap();
    assert_eq!(r.s.as_slice(), "k".as_bytes());
    assert_eq!(r.s_completes_previous_s, true);
    assert_eq!(r.s_is_to_be_filtered_again, false);
    assert_eq!(r.s_is_maybe_cut, false);
    assert_eq!(r.s_satisfies_grep_char_rule, false);
    let r = iter.next().unwrap();
    assert_eq!(r.s.as_slice(), "xm".as_bytes());
    assert_eq!(r.s_completes_previous_s, false);
    assert_eq!(r.s_is_to_be_filtered_again, false);
    assert_eq!(r.s_is_maybe_cut, false);
    assert_eq!(r.s_satisfies_grep_char_rule, true);
    let r = iter.next().unwrap();
    assert_eq!(r.s.as_slice(), "xp".as_bytes());
    assert_eq!(r.s_completes_previous_s, false);
    assert_eq!(r.s_is_to_be_filtered_again, true);
    assert_eq!(r.s_is_maybe_cut, true);
    assert_eq!(r.s_satisfies_grep_char_rule, true);
    assert_eq!(iter.next(), None);

    // Next test.

    let b = "öä€€äüöä€äüöö€üö€üü";

    let my_utf8f = Utf8Filter { af: AF_ALL, ubf: UBF_LATIN, grep_char: Some(b'y') };

    let mut iter = SplitStr::new(b.as_bytes(), 3, false, false, my_utf8f, b.len());
    // Corner case: input=false + first string too short, but touches left boundary
    // -> Not printed, because it does not complete the string from last run.
    // No others have the compulsory "y", so they are not printed, except the last,
    // it might be completed.
    let r = iter.next().unwrap();
    assert_eq!(r.s.as_slice(), "üü".as_bytes());
    assert_eq!(r.s_completes_previous_s, false);
    assert_eq!(r.s_is_to_be_filtered_again, true);
    assert_eq!(r.s_is_maybe_cut, true);
    assert_eq!(iter.next(), None);
}

#[test]
fn test_char_count() {
    assert_eq!("hello".len(), 5);
    assert_eq!(char_count("hello".as_bytes()), 5);

    assert_eq!("abcö".len(), 5);
    assert_eq!(char_count("abcö".as_bytes()), 4);

    assert_eq!("abc€".len(), 6);
    assert_eq!(char_count("abcö".as_bytes()), 4);

    assert_eq!("abc\u{10FFFF}def".len(), 10);
    assert_eq!(char_count("abc\u{10FFFF}def".as_bytes()), 7);
}

#[test]
fn test_starts_with_multibyte_char() {
    assert_eq!(starts_with_multibyte_char("abcdef".as_bytes()), false);
    assert_eq!(starts_with_multibyte_char("aücdef".as_bytes()), false);
    assert_eq!(starts_with_multibyte_char("übcdef".as_bytes()), true);
}

use stringsext::mission::{
    Missions, Utf8Filter, AF_ALL, AF_DEFAULT, UBF_ACCENTS, UBF_LATIN,
};

#[test]
fn test_pass_filter() {
    // We filter Latin 1
    let utf8f = Utf8Filter { af: AF_ALL, ubf: UBF_LATIN, grep_char: None };

    // Check lower bits
    assert!(utf8f.pass_af_filter("A".as_bytes()[0]));
    assert!(!utf8f.pass_ubf_filter("€".as_bytes()[0]));
    // Check upper bits
    // first byte of © in UTF-8 is 0xC2.       0xC2 & 0x80 = bit 0x42
    assert!(utf8f.pass_ubf_filter("©".as_bytes()[0]));
    // first byte of € in UTF-8 is 0xE2.       0xE2 & 0x80 = bit 0x62
    assert!(!utf8f.pass_ubf_filter("€".as_bytes()[0]));
}

#[test]
fn test_enc_opt_parser() {
    assert_eq!(
        Missions::parse_enc_opt("ascii".as_bytes()).unwrap(),
        (Some(b"ascii".to_vec()), None, None, None, None)
    );

    assert_eq!(
        Missions::parse_enc_opt("utf-8,10,0x89AB,0xCDEF,0x2f".as_bytes()).unwrap(),
        (Some(b"utf-8".to_vec()), Some(10), Some(0x89AB), Some(0xCDEF), Some(0x2f))
    );

    assert_eq!(
        Missions::parse_enc_opt("utf-8,10,0x89AB,0xCDEF,211".as_bytes()).unwrap(),
        (Some(b"utf-8".to_vec()), Some(10), Some(0x89AB), Some(0xCDEF), Some(211))
    );

    assert_eq!(
        Missions::parse_enc_opt(",,,,,".as_bytes()).unwrap(),
        (None, None, None, None, None)
    );

    assert_eq!(
        Missions::parse_enc_opt("ascii,10,0x89AB".as_bytes()).unwrap(),
        (Some(b"ascii".to_vec()), Some(10), Some(0x89AB), None, None)
    );

    assert!(Missions::parse_enc_opt("ascii, 10n".as_bytes()).is_err());

    assert!(Missions::parse_enc_opt("ascii,10,0x89,0x?B".as_bytes()).is_err());

    assert!(Missions::parse_enc_opt("ascii,10,0x?9,0xAB".as_bytes()).is_err());

    assert!(Missions::parse_enc_opt("ascii,1000000000000000000000,0x1,0x2".as_bytes()).is_err());

    assert!(Missions::parse_enc_opt("ascii,10,0x1,0x2,0x3,0x4".as_bytes()).is_err());

    assert!(Missions::parse_enc_opt("ascii,10,123".as_bytes()).is_err());

    assert!(Missions::parse_enc_opt("ascii,10,,123".as_bytes()).is_err());

    assert_eq!(
        Missions::parse_enc_opt("ascii,10,Default".as_bytes()).unwrap(),
        (Some(b"ascii".to_vec()), Some(10), Some(AF_DEFAULT), None, None)
    );

    assert_eq!(
        Missions::parse_enc_opt("ascii,10,,Latin".as_bytes()).unwrap(),
        (Some(b"ascii".to_vec()), Some(10), None, Some(UBF_LATIN | UBF_ACCENTS), None)
    );

    assert!(Missions::parse_enc_opt("ascii,10,my-no-encoding".as_bytes()).is_err());

    assert!(Missions::parse_enc_opt("ascii,10,,my-no-encoding".as_bytes()).is_err());

    assert_eq!(
        Missions::parse_enc_opt("ascii,10,0x89AB".as_bytes()).unwrap(),
        (Some(b"ascii".to_vec()), Some(10), Some(0x89AB), None, None)
    );
}

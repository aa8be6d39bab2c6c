use stringsext::codec::{AsciiGraphicDecoder, AsciiGraphicEncoder, AsciiGraphicEncoding};

#[test]
fn test_encoder() {
    let mut encoder = AsciiGraphicEncoder::new();
    let input = "abc\u{1}def".as_bytes();
    let (out, offset, err) = encoder.raw_feed(input);
    assert_eq!(out.as_slice(), b"abc");
    assert_eq!(offset, 3);
    assert_eq!(err.unwrap(), 4);

    let (out, offset, err) = encoder.raw_feed(b"graphic only");
    assert_eq!(out.as_slice(), b"graphic only");
    assert_eq!(offset, 12);
    assert_eq!(err, None);

    // A multibyte offender is skipped as a whole.
    let (out, offset, err) = encoder.raw_feed("ab\u{e9}c".as_bytes());
    assert_eq!(out.as_slice(), b"ab");
    assert_eq!(offset, 2);
    assert_eq!(err.unwrap(), 4);

    assert_eq!(AsciiGraphicEncoding.name().as_slice(), b"ascii");
}

#[test]
fn test_decoder() {
    let mut decoder = AsciiGraphicDecoder::new();
    let input = "abc\u{3}\u{3}\u{3}\u{0}def\nghijk".as_bytes();
    let (ret, offset, err) = decoder.raw_feed(&input[..]);
    assert_eq!(ret.as_slice(), b"abc");
    assert_eq!(offset, 3);
    assert_eq!(err.unwrap(), 4);
}

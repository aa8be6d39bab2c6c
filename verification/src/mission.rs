//! Mission configuration: the per-scanner filter and its parameters.

use crate::options::{
    CHARS_MIN_DEFAULT, COUNTER_OFFSET_DEFAULT, OUTPUT_LINE_CHAR_NB_MAX_DEFAULT,
    OUTPUT_LINE_CHAR_NB_MAX_LIMIT, OUTPUT_LINE_CHAR_NB_MIN,
};
use crate::ByteCounter;
use vstd::prelude::*;

verus! {

/// ASCII filter: let all ASCII pass except Null (0x00), which is the
/// "end of string" marker.
pub const AF_ALL: u128 = 0xffff_ffff_ffff_ffff_ffff_ffff_ffff_fffe;

/// ASCII filter: nothing passes.
pub const AF_NONE: u128 = 0x0000_0000_0000_0000_0000_0000_0000_0000;

/// ASCII filter: control characters (0x00..0x20, 0x7F), space excluded.
pub const AF_CTRL: u128 = 0x8000_0000_0000_0000_0000_0000_ffff_ffff;

/// ASCII filter: white-space (0x09..=0x0c, 0x20).
pub const AF_WHITESPACE: u128 = 0x0000_0000_0000_0000_0000_0001_0000_1e00;

/// ASCII filter: defaults close to those of the traditional `strings` tool.
pub const AF_DEFAULT: u128 = AF_ALL & !AF_CTRL;

/// Unicode-block-filter: all leading bytes pass.
pub const UBF_ALL: u64 = 0xffff_ffff_ffff_ffff;

/// Unicode-block-filter: no leading byte above 0x7F passes; this makes an
/// ASCII-only filter.
pub const UBF_NONE: u64 = 0x0000_0000_0000_0000;

/// Unicode-block-filter: leading bytes that are always invalid in UTF-8.
pub const UBF_INVALID: u64 = 0xffe0_0000_0000_0003;

/// Unicode-block-filter: Latin (U+80..U+240).
pub const UBF_LATIN: u64 = 0x0000_0000_0000_01fc;

/// Unicode-block-filter: accents (U+300..U+380).
pub const UBF_ACCENTS: u64 = 0x0000_0000_0000_3000;

/// Unicode-block-filter: Greek (U+380..U+400).
pub const UBF_GREEK: u64 = 0x0000_0000_0000_c000;

/// Unicode-block-filter: IPA (U+240..U+300).
pub const UBF_IPA: u64 = 0x0000_0000_0000_0700;

/// Unicode-block-filter: Cyrillic (U+400..U+540).
pub const UBF_CYRILLIC: u64 = 0x0000_0000_001f_0000;

/// Unicode-block-filter: Armenian (U+540..U+580).
pub const UBF_ARMENIAN: u64 = 0x0000_0000_0020_0000;

/// Unicode-block-filter: Hebrew (U+580..U+600).
pub const UBF_HEBREW: u64 = 0x0000_0000_00c0_0000;

/// Unicode-block-filter: Arabic (U+600..U+700, U+740..U+780).
pub const UBF_ARABIC: u64 = 0x0000_0000_2f00_0000;

/// Unicode-block-filter: Syriac (U+700..U+740).
pub const UBF_SYRIAC: u64 = 0x0000_0000_1000_0000;

/// Unicode-block-filter: Armenian, Hebrew, Arabic, Syriac, Thaana, N'Ko
/// (U+540..U+800).
pub const UBF_AFRICAN: u64 = 0x0000_0000_ffe0_0000;

/// Unicode-block-filter: all 2-byte UTF-8 (U+80..U+800).
pub const UBF_COMMON: u64 = 0x0000_0000_ffff_fffc;

/// Unicode-block-filter: Kana (U+3000..U+4000).
pub const UBF_KANA: u64 = 0x0000_0008_0000_0000;

/// Unicode-block-filter: CJK (U+3000..U+A000).
pub const UBF_CJK: u64 = 0x0000_03f0_0000_0000;

/// Unicode-block-filter: Hangul (U+B000..U+E000).
pub const UBF_HANGUL: u64 = 0x0000_3800_0000_0000;

/// Unicode-block-filter: Kana, CJK, Asian, Hangul (U+3000..U+E000).
pub const UBF_ASIAN: u64 = 0x0000_3ffc_0000_0000;

/// Unicode-block-filter: private use areas.
pub const UBF_PUA: u64 = 0x0010_4000_0000_0000;

/// Unicode-block-filter: Misc, Symbol, Forms.
pub const UBF_MISC: u64 = 0x0000_8006_0000_0000;

/// Unicode-block-filter: besides PUA, more very uncommon planes.
pub const UBF_UNCOMMON: u64 = 0x000f_0000_0000_0000;

/// After decoding, the leading byte of every UTF-8 character must pass this
/// filter before the character is kept: bit `i` of `af` accepts the ASCII
/// code `i`, bit `k` of `ubf` accepts the multibyte leading byte `0xC0 + k`,
/// and `grep_char`, when set, requires a finding to contain that ASCII code.
#[derive(Debug, Clone, Copy, PartialEq, Eq)]
pub struct Utf8Filter {
    /// Bit `0..=127` accepts the ASCII code at the same position.
    pub af: u128,

    /// Bit `0..=63` accepts the UTF-8 leading byte `0xC0..=0xFF` at the same
    /// offset.
    pub ubf: u64,

    /// If `Some`, a finding must contain at least one byte equal to this
    /// ASCII code.
    pub grep_char: Option<u8>,
}

/// True of the single-byte character `b` (`b < 0x80`) that the ASCII half of
/// the filter accepts.
pub open spec fn af_passes(af: u128, b: u8) -> bool
    recommends
        b < 0x80,
{
    af & (1u128 << b) != 0
}

/// True of the leading byte `b` (`b >= 0x80`) that the multibyte half of the
/// filter accepts.
pub open spec fn ubf_passes(ubf: u64, b: u8) -> bool
    recommends
        b >= 0x80,
{
    ubf & (1u64 << ((b & 0x3f) as u64)) != 0
}

/// True of the UTF-8 leading byte `b` that the filter accepts: the ASCII half
/// decides for single-byte characters, the unicode-block half for leading
/// bytes of multibyte characters.
pub open spec fn filter_passes(f: Utf8Filter, b: u8) -> bool {
    if b < 0x80 {
        af_passes(f.af, b)
    } else {
        ubf_passes(f.ubf, b)
    }
}

/// A filter is well formed when its grep code, if present, is ASCII.
pub open spec fn filter_wf(f: Utf8Filter) -> bool {
    f.grep_char matches Some(g) ==> g < 128
}

impl Utf8Filter {
    /// Applies the ASCII half `af` of the filter to the leading byte `b`.
    pub fn pass_af_filter(&self, b: u8) -> (r: bool)
        requires
            b < 0x80,
        ensures
            r == af_passes(self.af, b),
    {
        self.af & (1u128 << b) != 0
    }

    /// Applies the unicode-block half `ubf` of the filter to the leading byte
    /// `b`.
    pub fn pass_ubf_filter(&self, b: u8) -> (r: bool)
        requires
            b >= 0x80,
        ensures
            r == ubf_passes(self.ubf, b),
    {
        assert(b & 0x3f < 64) by (bit_vector);
        self.ubf & (1u64 << ((b & 0x3f) as u64)) != 0
    }

    /// Applies the filter to the UTF-8 leading byte `b`: the ASCII half for
    /// single-byte characters, the unicode-block half for multibyte leading
    /// bytes.
    pub fn pass_filter(&self, b: u8) -> (r: bool)
        ensures
            r == filter_passes(*self, b),
    {
        if b < 0x80 {
            self.pass_af_filter(b)
        } else {
            self.pass_ubf_filter(b)
        }
    }
}

/// The configuration errors mission construction can report.
#[derive(Debug, Clone, Copy, PartialEq, Eq, Structural)]
pub enum MissionError {
    /// A numeric option could not be parsed, or does not fit its range.
    UnparsableNumber,
    /// A filter was neither a hexadecimal mask nor a known alias name.
    UnknownFilterName,
    /// The grep character must be an ASCII code below 128.
    GrepCharTooLarge,
    /// The output line length lies outside the hard bounds.
    OutputLineLenOutOfRange,
    /// An encoding specification holds more comma-separated fields than
    /// exist.
    TooManyFields,
    /// The encoding label is not known to the decoder library.
    UnknownEncoding,
}

/// ASCII white space, as trimmed from the numeric and filter options.
pub open spec fn is_ascii_ws(b: u8) -> bool {
    b == 0x20 || (0x09 <= b <= 0x0d)
}

/// `s` without its leading white space.
pub open spec fn trim_left_of(s: Seq<u8>) -> Seq<u8>
    decreases s.len(),
{
    if s.len() > 0 && is_ascii_ws(s[0]) {
        trim_left_of(s.skip(1))
    } else {
        s
    }
}

/// `s` without its trailing white space.
pub open spec fn trim_right_of(s: Seq<u8>) -> Seq<u8>
    decreases s.len(),
{
    if s.len() > 0 && is_ascii_ws(s.last()) {
        trim_right_of(s.take(s.len() - 1))
    } else {
        s
    }
}

/// `s` without leading and trailing white space.
pub open spec fn trim_of(s: Seq<u8>) -> Seq<u8> {
    trim_right_of(trim_left_of(s))
}

/// Executable form of [`is_ascii_ws`].
pub fn is_ws_byte(b: u8) -> (r: bool)
    ensures
        r == is_ascii_ws(b),
{
    b == 0x20 || (0x09 <= b && b <= 0x0d)
}

/// Returns the bounds of `s` without leading and trailing white space.
pub fn trim_bounds(s: &[u8]) -> (r: (usize, usize))
    ensures
        r.0 <= r.1 <= s@.len(),
        s@.subrange(r.0 as int, r.1 as int) == trim_of(s@),
{
    let mut i: usize = 0;
    proof {
        assert(s@.skip(0) =~= s@);
    }
    while i < s.len() && is_ws_byte(s[i])
        invariant
            i <= s@.len(),
            trim_left_of(s@) == trim_left_of(s@.skip(i as int)),
        decreases s@.len() - i,
    {
        proof {
            assert(s@.skip(i as int).skip(1) =~= s@.skip(i + 1));
        }
        i = i + 1;
    }
    let ghost t = s@.skip(i as int);
    proof {
        assert(trim_left_of(t) == t);
    }
    let mut e: usize = s.len();
    proof {
        assert(t.take(t.len() as int) =~= t);
    }
    while e > i && is_ws_byte(s[e - 1])
        invariant
            i <= e <= s@.len(),
            t == s@.skip(i as int),
            i + t.len() == s@.len(),
            trim_right_of(t) == trim_right_of(t.take(e - i)),
        decreases e,
    {
        proof {
            assert(t.take(e - i).take(e - i - 1) =~= t.take(e - i - 1));
            assert(t.take(e - i).last() == s@[e - 1]);
        }
        e = e - 1;
    }
    proof {
        if e > i {
            assert(t.take(e - i).last() == s@[e - 1]);
        }
        assert(trim_right_of(t.take(e - i)) == t.take(e - i));
        assert(s@.subrange(i as int, e as int) =~= t.take(e - i));
    }
    (i, e)
}

/// A decimal digit.
pub open spec fn is_dec_digit(b: u8) -> bool {
    0x30 <= b <= 0x39
}

/// A hexadecimal digit.
pub open spec fn is_hex_digit(b: u8) -> bool {
    is_dec_digit(b) || (0x61 <= b <= 0x66) || (0x41 <= b <= 0x46)
}

/// Numeric value of a decimal digit.
pub open spec fn dec_digit_val(b: u8) -> int {
    b - 0x30
}

/// Numeric value of a hexadecimal digit.
pub open spec fn hex_digit_val(b: u8) -> int {
    if is_dec_digit(b) {
        b - 0x30
    } else if 0x61 <= b <= 0x66 {
        b - 0x61 + 10
    } else {
        b - 0x41 + 10
    }
}

/// Every byte of `s` is a decimal digit.
pub open spec fn all_dec_digits(s: Seq<u8>) -> bool {
    forall|i: int| 0 <= i < s.len() ==> is_dec_digit(#[trigger] s[i])
}

/// Every byte of `s` is a hexadecimal digit.
pub open spec fn all_hex_digits(s: Seq<u8>) -> bool {
    forall|i: int| 0 <= i < s.len() ==> is_hex_digit(#[trigger] s[i])
}

/// The number the decimal digit string `s` denotes.
pub open spec fn dec_val(s: Seq<u8>) -> int
    decreases s.len(),
{
    if s.len() == 0 {
        0
    } else {
        dec_val(s.drop_last()) * 10 + dec_digit_val(s.last())
    }
}

/// The number the hexadecimal digit string `s` denotes.
pub open spec fn hex_val(s: Seq<u8>) -> int
    decreases s.len(),
{
    if s.len() == 0 {
        0
    } else {
        hex_val(s.drop_last()) * 16 + hex_digit_val(s.last())
    }
}

/// A digit string denotes a nonnegative number, and a prefix of it denotes
/// at most the number of the whole string.
proof fn lemma_dec_val_prefix(s: Seq<u8>, i: int)
    requires
        all_dec_digits(s),
        0 <= i <= s.len(),
    ensures
        dec_val(s) >= 0,
        dec_val(s.subrange(0, i)) >= 0,
        dec_val(s.subrange(0, i)) <= dec_val(s),
    decreases s.len() - i,
{
    if i == s.len() {
        assert(s.subrange(0, i) =~= s);
        lemma_dec_val_nonneg(s);
    } else {
        lemma_dec_val_prefix(s, i + 1);
        lemma_dec_val_nonneg(s.subrange(0, i));
        assert(s.subrange(0, i + 1).drop_last() =~= s.subrange(0, i));
        assert(s.subrange(0, i + 1).last() == s[i]);
    }
}

/// A digit string denotes a nonnegative number.
proof fn lemma_dec_val_nonneg(s: Seq<u8>)
    requires
        all_dec_digits(s),
    ensures
        dec_val(s) >= 0,
    decreases s.len(),
{
    if s.len() > 0 {
        assert(all_dec_digits(s.drop_last())) by {
            assert(forall|i: int| 0 <= i < s.len() - 1 ==> s.drop_last()[i] == #[trigger] s[i]);
        }
        lemma_dec_val_nonneg(s.drop_last());
    }
}

/// As [`lemma_dec_val_prefix`], for hexadecimal digit strings.
proof fn lemma_hex_val_prefix(s: Seq<u8>, i: int)
    requires
        all_hex_digits(s),
        0 <= i <= s.len(),
    ensures
        hex_val(s) >= 0,
        hex_val(s.subrange(0, i)) >= 0,
        hex_val(s.subrange(0, i)) <= hex_val(s),
    decreases s.len() - i,
{
    if i == s.len() {
        assert(s.subrange(0, i) =~= s);
        lemma_hex_val_nonneg(s);
    } else {
        lemma_hex_val_prefix(s, i + 1);
        lemma_hex_val_nonneg(s.subrange(0, i));
        assert(s.subrange(0, i + 1).drop_last() =~= s.subrange(0, i));
        assert(s.subrange(0, i + 1).last() == s[i]);
    }
}

/// As [`lemma_dec_val_nonneg`], for hexadecimal digit strings.
proof fn lemma_hex_val_nonneg(s: Seq<u8>)
    requires
        all_hex_digits(s),
    ensures
        hex_val(s) >= 0,
    decreases s.len(),
{
    if s.len() > 0 {
        assert(all_hex_digits(s.drop_last())) by {
            assert(forall|i: int| 0 <= i < s.len() - 1 ==> s.drop_last()[i] == #[trigger] s[i]);
        }
        lemma_hex_val_nonneg(s.drop_last());
    }
}

/// Parses `s` as an unsigned decimal number; `None` when `s` is empty, holds
/// a non-digit, or denotes more than `u128::MAX`.
pub fn parse_dec_u128(s: &[u8]) -> (r: Option<u128>)
    ensures
        r is Some <==> (s@.len() > 0 && all_dec_digits(s@) && dec_val(s@) <= u128::MAX),
        r matches Some(v) ==> v == dec_val(s@),
{
    if s.len() == 0 {
        return Option::None;
    }
    let mut acc: u128 = 0;
    let mut i: usize = 0;
    proof {
        assert(s@.subrange(0, 0) =~= Seq::<u8>::empty());
    }
    while i < s.len()
        invariant
            i <= s@.len(),
            all_dec_digits(s@.subrange(0, i as int)),
            acc == dec_val(s@.subrange(0, i as int)),
        decreases s@.len() - i,
    {
        let b = s[i];
        if !(0x30 <= b && b <= 0x39) {
            return Option::None;
        }
        let d = (b - 0x30) as u128;
        proof {
            assert(s@.subrange(0, i + 1).drop_last() =~= s@.subrange(0, i as int));
            assert(s@.subrange(0, i + 1).last() == s@[i as int]);
        }
        acc = match acc.checked_mul(10) {
            Option::Some(t) => match t.checked_add(d) {
                Option::Some(u) => u,
                Option::None => {
                    proof {
                        lemma_overflow_means_too_big_dec(s@, i as int);
                    }
                    return Option::None;
                },
            },
            Option::None => {
                proof {
                    lemma_overflow_means_too_big_dec(s@, i as int);
                }
                return Option::None;
            },
        };
        i = i + 1;
    }
    proof {
        assert(s@.subrange(0, s@.len() as int) =~= s@);
    }
    Option::Some(acc)
}

/// When the next accumulator step overflows, the whole digit string denotes
/// more than `u128::MAX` — provided the bytes up to and including position
/// `i` are digits and the prefix before `i` already denotes the accumulator.
proof fn lemma_overflow_means_too_big_dec(s: Seq<u8>, i: int)
    requires
        0 <= i < s.len(),
        all_dec_digits(s.subrange(0, i)),
        is_dec_digit(s[i]),
        dec_val(s.subrange(0, i)) * 10 + dec_digit_val(s[i]) > u128::MAX,
    ensures
        !(all_dec_digits(s) && dec_val(s) <= u128::MAX),
{
    if all_dec_digits(s) {
        lemma_dec_val_prefix(s, i + 1);
        assert(s.subrange(0, i + 1).drop_last() =~= s.subrange(0, i));
        assert(s.subrange(0, i + 1).last() == s[i]);
    }
}

/// Parses `s` as an unsigned hexadecimal number; `None` when `s` is empty,
/// holds a non-digit, or denotes more than `u128::MAX`.
pub fn parse_hex_u128(s: &[u8]) -> (r: Option<u128>)
    ensures
        r is Some <==> (s@.len() > 0 && all_hex_digits(s@) && hex_val(s@) <= u128::MAX),
        r matches Some(v) ==> v == hex_val(s@),
{
    if s.len() == 0 {
        return Option::None;
    }
    let mut acc: u128 = 0;
    let mut i: usize = 0;
    proof {
        assert(s@.subrange(0, 0) =~= Seq::<u8>::empty());
    }
    while i < s.len()
        invariant
            i <= s@.len(),
            all_hex_digits(s@.subrange(0, i as int)),
            acc == hex_val(s@.subrange(0, i as int)),
        decreases s@.len() - i,
    {
        let b = s[i];
        let d: u128;
        if 0x30 <= b && b <= 0x39 {
            d = (b - 0x30) as u128;
        } else if 0x61 <= b && b <= 0x66 {
            d = (b - 0x61 + 10) as u128;
        } else if 0x41 <= b && b <= 0x46 {
            d = (b - 0x41 + 10) as u128;
        } else {
            return Option::None;
        }
        proof {
            assert(s@.subrange(0, i + 1).drop_last() =~= s@.subrange(0, i as int));
            assert(s@.subrange(0, i + 1).last() == s@[i as int]);
        }
        acc = match acc.checked_mul(16) {
            Option::Some(t) => match t.checked_add(d) {
                Option::Some(u) => u,
                Option::None => {
                    proof {
                        lemma_overflow_means_too_big_hex(s@, i as int);
                    }
                    return Option::None;
                },
            },
            Option::None => {
                proof {
                    lemma_overflow_means_too_big_hex(s@, i as int);
                }
                return Option::None;
            },
        };
        i = i + 1;
    }
    proof {
        assert(s@.subrange(0, s@.len() as int) =~= s@);
    }
    Option::Some(acc)
}

/// As [`lemma_overflow_means_too_big_dec`], for hexadecimal digit strings.
proof fn lemma_overflow_means_too_big_hex(s: Seq<u8>, i: int)
    requires
        0 <= i < s.len(),
        all_hex_digits(s.subrange(0, i)),
        is_hex_digit(s[i]),
        hex_val(s.subrange(0, i)) * 16 + hex_digit_val(s[i]) > u128::MAX,
    ensures
        !(all_hex_digits(s) && hex_val(s) <= u128::MAX),
{
    if all_hex_digits(s) {
        lemma_hex_val_prefix(s, i + 1);
        assert(s.subrange(0, i + 1).drop_last() =~= s.subrange(0, i));
        assert(s.subrange(0, i + 1).last() == s[i]);
    }
}

/// The trimmed token announces a hexadecimal literal, `0x…`.
pub open spec fn is_hex_token(t: Seq<u8>) -> bool {
    t.len() >= 2 && t[0] == 0x30 && t[1] == 0x78
}

/// The number an option token denotes — hexadecimal after a `0x` prefix,
/// decimal otherwise, white space trimmed — or `None` when it cannot be
/// parsed.
pub open spec fn int_token_val(s: Seq<u8>) -> Option<int> {
    let t = trim_of(s);
    if is_hex_token(t) {
        if t.len() > 2 && all_hex_digits(t.skip(2)) {
            Option::Some(hex_val(t.skip(2)))
        } else {
            Option::None
        }
    } else {
        if t.len() > 0 && all_dec_digits(t) {
            Option::Some(dec_val(t))
        } else {
            Option::None
        }
    }
}

/// The value of an optional numeric option: an empty token means "not
/// given".
pub open spec fn int_token_opt(s: Seq<u8>) -> Option<int> {
    if s.len() == 0 {
        Option::None
    } else {
        int_token_val(s)
    }
}

/// The optional numeric option parses and fits below `max`.
pub open spec fn int_token_ok(s: Seq<u8>, max: int) -> bool {
    s.len() == 0 || (int_token_val(s) matches Some(v) && v <= max)
}

/// Parses an optional numeric option token: empty means "not given", `0x`
/// announces hexadecimal, anything else must be decimal, and the value must
/// fit below `max`.
pub fn parse_int_token(s: &[u8], max: u128) -> (r: Result<Option<u128>, MissionError>)
    ensures
        r is Ok <==> int_token_ok(s@, max as int),
        r matches Ok(o) ==> ((o is Some <==> int_token_opt(s@) is Some) && (o matches Some(u)
            ==> int_token_opt(s@) == Some(u as int))),
        r matches Err(e) ==> e == MissionError::UnparsableNumber,
{
    if s.len() == 0 {
        return Ok(Option::None);
    }
    let (a, b) = trim_bounds(s);
    let t = crate::helper::copy_bytes_range(s, a, b);
    if t.len() >= 2 && t[0] == 0x30 && t[1] == 0x78 {
        let digits = crate::helper::copy_bytes_range(t.as_slice(), 2, t.len());
        proof {
            assert(digits@ =~= trim_of(s@).skip(2));
        }
        match parse_hex_u128(digits.as_slice()) {
            Option::Some(v) => {
                if v <= max {
                    Ok(Option::Some(v))
                } else {
                    Err(MissionError::UnparsableNumber)
                }
            },
            Option::None => Err(MissionError::UnparsableNumber),
        }
    } else {
        match parse_dec_u128(t.as_slice()) {
            Option::Some(v) => {
                if v <= max {
                    Ok(Option::Some(v))
                } else {
                    Err(MissionError::UnparsableNumber)
                }
            },
            Option::None => Err(MissionError::UnparsableNumber),
        }
    }
}

/// The ASCII-filter value an alias name denotes: the first table entry the
/// name is a prefix of, in table order.
pub open spec fn af_alias_val(n: Seq<u8>) -> Option<u128> {
    if crate::names::is_prefix_of(n, crate::names::name_all()) {
        Option::Some(AF_ALL)
    } else if crate::names::is_prefix_of(n, crate::names::name_all_ctrl()) {
        Option::Some(AF_ALL & !AF_CTRL)
    } else if crate::names::is_prefix_of(n, crate::names::name_all_ctrl_wsp()) {
        Option::Some(AF_ALL & !AF_CTRL | AF_WHITESPACE)
    } else if crate::names::is_prefix_of(n, crate::names::name_default()) {
        Option::Some(AF_DEFAULT)
    } else if crate::names::is_prefix_of(n, crate::names::name_none()) {
        Option::Some(AF_NONE)
    } else if crate::names::is_prefix_of(n, crate::names::name_wsp()) {
        Option::Some(AF_WHITESPACE)
    } else {
        Option::None
    }
}

/// Executable form of [`af_alias_val`].
pub fn lookup_af_alias(n: &[u8]) -> (r: Option<u128>)
    ensures
        r == af_alias_val(n@),
{
    if crate::names::is_prefix(n, crate::names::make_name_all().as_slice()) {
        Option::Some(AF_ALL)
    } else if crate::names::is_prefix(n, crate::names::make_name_all_ctrl().as_slice()) {
        Option::Some(AF_ALL & !AF_CTRL)
    } else if crate::names::is_prefix(n, crate::names::make_name_all_ctrl_wsp().as_slice()) {
        Option::Some(AF_ALL & !AF_CTRL | AF_WHITESPACE)
    } else if crate::names::is_prefix(n, crate::names::make_name_default().as_slice()) {
        Option::Some(AF_DEFAULT)
    } else if crate::names::is_prefix(n, crate::names::make_name_none().as_slice()) {
        Option::Some(AF_NONE)
    } else if crate::names::is_prefix(n, crate::names::make_name_wsp().as_slice()) {
        Option::Some(AF_WHITESPACE)
    } else {
        Option::None
    }
}

/// The unicode-block-filter value an alias name denotes: the first table
/// entry the name is a prefix of, in table order.
pub open spec fn ubf_alias_val(n: Seq<u8>) -> Option<u64> {
    if crate::names::is_prefix_of(n, crate::names::name_african()) {
        Option::Some(UBF_AFRICAN)
    } else if crate::names::is_prefix_of(n, crate::names::name_all_asian()) {
        Option::Some(UBF_ALL & !UBF_INVALID & !UBF_ASIAN)
    } else if crate::names::is_prefix_of(n, crate::names::name_all()) {
        Option::Some(UBF_ALL & !UBF_INVALID)
    } else if crate::names::is_prefix_of(n, crate::names::name_arabic()) {
        Option::Some(UBF_ARABIC | UBF_SYRIAC)
    } else if crate::names::is_prefix_of(n, crate::names::name_armenian()) {
        Option::Some(UBF_ARMENIAN)
    } else if crate::names::is_prefix_of(n, crate::names::name_asian()) {
        Option::Some(UBF_ASIAN)
    } else if crate::names::is_prefix_of(n, crate::names::name_cjk()) {
        Option::Some(UBF_CJK)
    } else if crate::names::is_prefix_of(n, crate::names::name_common()) {
        Option::Some(UBF_COMMON)
    } else if crate::names::is_prefix_of(n, crate::names::name_cyrillic()) {
        Option::Some(UBF_CYRILLIC)
    } else if crate::names::is_prefix_of(n, crate::names::name_default()) {
        Option::Some(UBF_ALL & !UBF_INVALID)
    } else if crate::names::is_prefix_of(n, crate::names::name_greek()) {
        Option::Some(UBF_GREEK)
    } else if crate::names::is_prefix_of(n, crate::names::name_hangul()) {
        Option::Some(UBF_HANGUL)
    } else if crate::names::is_prefix_of(n, crate::names::name_hebrew()) {
        Option::Some(UBF_HEBREW)
    } else if crate::names::is_prefix_of(n, crate::names::name_kana()) {
        Option::Some(UBF_KANA)
    } else if crate::names::is_prefix_of(n, crate::names::name_latin()) {
        Option::Some(UBF_LATIN | UBF_ACCENTS)
    } else if crate::names::is_prefix_of(n, crate::names::name_none()) {
        Option::Some(!UBF_ALL)
    } else if crate::names::is_prefix_of(n, crate::names::name_private()) {
        Option::Some(UBF_PUA)
    } else if crate::names::is_prefix_of(n, crate::names::name_uncommon()) {
        Option::Some(UBF_UNCOMMON | UBF_PUA)
    } else {
        Option::None
    }
}

/// Executable form of [`ubf_alias_val`].
pub fn lookup_ubf_alias(n: &[u8]) -> (r: Option<u64>)
    ensures
        r == ubf_alias_val(n@),
{
    if crate::names::is_prefix(n, crate::names::make_name_african().as_slice()) {
        Option::Some(UBF_AFRICAN)
    } else if crate::names::is_prefix(n, crate::names::make_name_all_asian().as_slice()) {
        Option::Some(UBF_ALL & !UBF_INVALID & !UBF_ASIAN)
    } else if crate::names::is_prefix(n, crate::names::make_name_all().as_slice()) {
        Option::Some(UBF_ALL & !UBF_INVALID)
    } else if crate::names::is_prefix(n, crate::names::make_name_arabic().as_slice()) {
        Option::Some(UBF_ARABIC | UBF_SYRIAC)
    } else if crate::names::is_prefix(n, crate::names::make_name_armenian().as_slice()) {
        Option::Some(UBF_ARMENIAN)
    } else if crate::names::is_prefix(n, crate::names::make_name_asian().as_slice()) {
        Option::Some(UBF_ASIAN)
    } else if crate::names::is_prefix(n, crate::names::make_name_cjk().as_slice()) {
        Option::Some(UBF_CJK)
    } else if crate::names::is_prefix(n, crate::names::make_name_common().as_slice()) {
        Option::Some(UBF_COMMON)
    } else if crate::names::is_prefix(n, crate::names::make_name_cyrillic().as_slice()) {
        Option::Some(UBF_CYRILLIC)
    } else if crate::names::is_prefix(n, crate::names::make_name_default().as_slice()) {
        Option::Some(UBF_ALL & !UBF_INVALID)
    } else if crate::names::is_prefix(n, crate::names::make_name_greek().as_slice()) {
        Option::Some(UBF_GREEK)
    } else if crate::names::is_prefix(n, crate::names::make_name_hangul().as_slice()) {
        Option::Some(UBF_HANGUL)
    } else if crate::names::is_prefix(n, crate::names::make_name_hebrew().as_slice()) {
        Option::Some(UBF_HEBREW)
    } else if crate::names::is_prefix(n, crate::names::make_name_kana().as_slice()) {
        Option::Some(UBF_KANA)
    } else if crate::names::is_prefix(n, crate::names::make_name_latin().as_slice()) {
        Option::Some(UBF_LATIN | UBF_ACCENTS)
    } else if crate::names::is_prefix(n, crate::names::make_name_none().as_slice()) {
        Option::Some(!UBF_ALL)
    } else if crate::names::is_prefix(n, crate::names::make_name_private().as_slice()) {
        Option::Some(UBF_PUA)
    } else if crate::names::is_prefix(n, crate::names::make_name_uncommon().as_slice()) {
        Option::Some(UBF_UNCOMMON | UBF_PUA)
    } else {
        Option::None
    }
}

/// The value an ASCII-filter option token denotes: a hexadecimal mask after
/// `0x`, nothing when empty, else a table alias.
pub open spec fn af_token_val(s: Seq<u8>) -> Option<int> {
    if is_hex_token(trim_of(s)) {
        int_token_val(s)
    } else if s.len() == 0 {
        Option::None
    } else {
        match af_alias_val(trim_of(s)) {
            Option::Some(v) => Option::Some(v as int),
            Option::None => Option::None,
        }
    }
}

/// The ASCII-filter option token parses.
pub open spec fn af_token_ok(s: Seq<u8>) -> bool {
    if is_hex_token(trim_of(s)) {
        int_token_val(s) matches Some(v) && v <= u128::MAX
    } else {
        s.len() == 0 || af_alias_val(trim_of(s)) is Some
    }
}

/// Parses an ASCII-filter option token: a `0x` mask, an alias name, or
/// nothing.
pub fn parse_af_token(s: &[u8]) -> (r: Result<Option<u128>, MissionError>)
    ensures
        r is Ok <==> af_token_ok(s@),
        r matches Ok(o) ==> ((o is Some <==> af_token_val(s@) is Some) && (o matches Some(u)
            ==> af_token_val(s@) == Some(u as int))),
{
    let (a, b) = trim_bounds(s);
    let t = crate::helper::copy_bytes_range(s, a, b);
    if t.len() >= 2 && t[0] == 0x30 && t[1] == 0x78 {
        match parse_int_token(s, u128::MAX) {
            Ok(o) => Ok(o),
            Err(e) => Err(e),
        }
    } else if s.len() == 0 {
        Ok(Option::None)
    } else {
        match lookup_af_alias(t.as_slice()) {
            Option::Some(v) => Ok(Option::Some(v)),
            Option::None => Err(MissionError::UnknownFilterName),
        }
    }
}

/// The value a unicode-block-filter option token denotes.
pub open spec fn ubf_token_val(s: Seq<u8>) -> Option<int> {
    if is_hex_token(trim_of(s)) {
        int_token_val(s)
    } else if s.len() == 0 {
        Option::None
    } else {
        match ubf_alias_val(trim_of(s)) {
            Option::Some(v) => Option::Some(v as int),
            Option::None => Option::None,
        }
    }
}

/// The unicode-block-filter option token parses.
pub open spec fn ubf_token_ok(s: Seq<u8>) -> bool {
    if is_hex_token(trim_of(s)) {
        int_token_val(s) matches Some(v) && v <= u64::MAX
    } else {
        s.len() == 0 || ubf_alias_val(trim_of(s)) is Some
    }
}

/// Parses a unicode-block-filter option token: a `0x` mask, an alias name,
/// or nothing.
pub fn parse_ubf_token(s: &[u8]) -> (r: Result<Option<u64>, MissionError>)
    ensures
        r is Ok <==> ubf_token_ok(s@),
        r matches Ok(o) ==> ((o is Some <==> ubf_token_val(s@) is Some) && (o matches Some(u)
            ==> ubf_token_val(s@) == Some(u as int))),
{
    let (a, b) = trim_bounds(s);
    let t = crate::helper::copy_bytes_range(s, a, b);
    if t.len() >= 2 && t[0] == 0x30 && t[1] == 0x78 {
        match parse_int_token(s, u64::MAX as u128) {
            Ok(Option::Some(v)) => Ok(Option::Some(v as u64)),
            Ok(Option::None) => Ok(Option::None),
            Err(e) => Err(e),
        }
    } else if s.len() == 0 {
        Ok(Option::None)
    } else {
        match lookup_ubf_alias(t.as_slice()) {
            Option::Some(v) => Ok(Option::Some(v)),
            Option::None => Err(MissionError::UnknownFilterName),
        }
    }
}

/// The instruction parameters of one scanner: which encoding to search for,
/// and which findings to keep.
#[derive(Debug, Clone, Copy)]
pub struct Mission {
    /// Identifier of this mission: its index in the `Missions` vector.
    pub mission_id: u8,

    /// Start offset for the input-stream byte counter.
    pub counter_offset: ByteCounter,

    /// The encoding this scanner searches for.
    pub encoding: &'static encoding_rs::Encoding,

    /// Minimum number of characters a finding needs to be printed.
    pub chars_min_nb: u8,

    /// The command-line wish to keep multibyte characters of one finding in
    /// one Unicode block. The scanner does not act on it; it is stored for
    /// the configuration display only.
    pub require_same_unicode_block: bool,

    /// The filter a finding's characters must pass.
    pub filter: Utf8Filter,

    /// Maximum length of output lines in characters; longer findings are
    /// wrapped over several lines, the continuation lines labelled as such.
    pub output_line_char_nb_max: usize,

    /// The ASCII search is emulated with the `x-user-defined` decoder and an
    /// ASCII-only filter; this flag makes the output label the mission
    /// `ascii` instead.
    pub print_encoding_as_ascii: bool,
}

/// A mission is well formed when its filter is and its line length lies
/// within the hard bounds.
pub open spec fn mission_wf(m: Mission) -> bool {
    &&& filter_wf(m.filter)
    &&& OUTPUT_LINE_CHAR_NB_MIN <= m.output_line_char_nb_max <= OUTPUT_LINE_CHAR_NB_MAX_LIMIT
}

/// The bundle of all missions of one run.
#[derive(Debug)]
pub struct Missions {
    /// The missions, indexed by their `mission_id`.
    pub v: Vec<Mission>,
}

/// Position of the first comma of `s` at or after `from`, or the length of
/// `s` when there is none.
pub open spec fn first_comma(s: Seq<u8>, from: int) -> int
    decreases s.len() - from,
    when 0 <= from <= s.len()
{
    if from >= s.len() {
        s.len() as int
    } else if s[from] == 0x2c {
        from
    } else {
        first_comma(s, from + 1)
    }
}

/// Executable form of [`first_comma`].
pub fn find_comma(s: &[u8], from: usize) -> (r: usize)
    requires
        from <= s@.len(),
    ensures
        from <= r <= s@.len(),
        r == first_comma(s@, from as int),
        r < s@.len() ==> s@[r as int] == 0x2c,
{
    let mut i: usize = from;
    while i < s.len() && s[i] != 0x2c
        invariant
            from <= i <= s@.len(),
            first_comma(s@, from as int) == first_comma(s@, i as int),
        decreases s@.len() - i,
    {
        i = i + 1;
    }
    i
}

/// Start offset of the comma-separated field number `k` of `s`.
pub open spec fn field_start(s: Seq<u8>, k: int) -> int
    decreases k,
    when k >= 0
{
    if k <= 0 {
        0
    } else {
        first_comma(s, field_start(s, k - 1)) + 1
    }
}

/// Field number `k` exists: the fields are what separating on commas gives,
/// with a trailing empty field dropped.
pub open spec fn field_exists(s: Seq<u8>, k: int) -> bool
    decreases k,
    when k >= 0
{
    if k <= 0 {
        s.len() > 0
    } else {
        field_exists(s, k - 1) && field_start(s, k) < s.len()
    }
}

/// The bytes of field number `k` of `s`.
pub open spec fn field_of(s: Seq<u8>, k: int) -> Seq<u8> {
    s.subrange(field_start(s, k), first_comma(s, field_start(s, k)))
}

/// Field number `k`, or the empty sequence when it does not exist — which
/// the option parsers treat alike.
pub open spec fn fld(s: Seq<u8>, k: int) -> Seq<u8> {
    if field_exists(s, k) {
        field_of(s, k)
    } else {
        Seq::empty()
    }
}

/// All missions of the bundle are well formed and numbered by their index.
pub open spec fn missions_wf(ms: Missions) -> bool {
    &&& forall|i: int| 0 <= i < ms.v@.len() ==> mission_wf(#[trigger] ms.v@[i])
    &&& forall|i: int| 0 <= i < ms.v@.len() ==> (#[trigger] ms.v@[i]).mission_id == i
}

/// `a`, or else `d`.
pub open spec fn opt_or_u8(a: Option<u8>, d: u8) -> u8 {
    match a {
        Option::Some(v) => v,
        Option::None => d,
    }
}

/// `a`, or else `d`.
pub open spec fn opt_or_u64(a: Option<u64>, d: u64) -> u64 {
    match a {
        Option::Some(v) => v,
        Option::None => d,
    }
}

/// `a`, or else `d`.
pub open spec fn opt_or_u128(a: Option<u128>, d: u128) -> u128 {
    match a {
        Option::Some(v) => v,
        Option::None => d,
    }
}

/// `a`, or else `d`.
pub open spec fn opt_or_usize(a: Option<usize>, d: usize) -> usize {
    match a {
        Option::Some(v) => v,
        Option::None => d,
    }
}

/// `a`, or else `b`.
pub open spec fn opt_first_u8(a: Option<u8>, b: Option<u8>) -> Option<u8> {
    if a is Some {
        a
    } else {
        b
    }
}

/// The bytes of an optional option value; absent means empty.
pub open spec fn opt_bytes(o: Option<Vec<u8>>) -> Seq<u8> {
    match o {
        Option::Some(v) => v@,
        Option::None => Seq::empty(),
    }
}

/// The encoding name a mission searches, after the default: the `UTF-8`
/// label when none was given.
pub open spec fn effective_enc_name(n: Option<Seq<u8>>) -> Seq<u8> {
    match n {
        Option::Some(s) => s,
        Option::None => crate::names::name_utf8_default(),
    }
}

/// The label handed to the decoder library: the ASCII search is emulated
/// with the `x-user-defined` decoder.
pub open spec fn lookup_label_of(n: Seq<u8>) -> Seq<u8> {
    if n == crate::names::name_ascii() {
        crate::names::name_x_user_defined()
    } else {
        n
    }
}

/// The grep code, when given, is ASCII.
pub open spec fn grep_flag_ok(g: Option<u8>) -> bool {
    g matches Some(v) ==> v < 128
}

/// The output line length lies within the hard bounds.
pub open spec fn line_len_ok(line: usize) -> bool {
    OUTPUT_LINE_CHAR_NB_MIN <= line <= OUTPUT_LINE_CHAR_NB_MAX_LIMIT
}

/// Builds one mission from already-parsed per-encoding values and global
/// flags, filling defaults: the encoding defaults to `UTF-8`; `ascii` is
/// emulated with `x-user-defined` and labelled back as ASCII; filters
/// default per half, the unicode-block half closed for ASCII searches.
pub fn mission_from_parts(
    mission_id: u8,
    enc_name: &Option<Vec<u8>>,
    chars_min_opt: Option<u8>,
    filter_af_opt: Option<u128>,
    filter_ubf_opt: Option<u64>,
    filter_grep_opt: Option<u8>,
    flag_counter_offset: Option<u64>,
    flag_chars_min: Option<u8>,
    flag_same_unicode_block: bool,
    flag_af: Option<u128>,
    flag_ubf: Option<u64>,
    flag_grep: Option<u8>,
    flag_output_line_len: Option<usize>,
) -> (r: Result<Mission, MissionError>)
    ensures
        ({
            let nm = effective_enc_name(
                match *enc_name {
                    Option::Some(ref v) => Option::Some(v@),
                    Option::None => Option::None,
                },
            );
            let is_ascii = nm == crate::names::name_ascii();
            let line = opt_or_usize(flag_output_line_len, OUTPUT_LINE_CHAR_NB_MAX_DEFAULT);
            let grep = opt_first_u8(filter_grep_opt, flag_grep);
            &&& (r is Ok <==> (line_len_ok(line) && grep_flag_ok(grep) && crate::encodings::encoding_known(
                lookup_label_of(nm),
            )))
            &&& (r == Err::<Mission, MissionError>(MissionError::OutputLineLenOutOfRange)
                <==> !line_len_ok(line))
            &&& (r == Err::<Mission, MissionError>(MissionError::GrepCharTooLarge) <==> (
            line_len_ok(line) && !grep_flag_ok(grep)))
            &&& (r == Err::<Mission, MissionError>(MissionError::UnknownEncoding) <==> (
            line_len_ok(line) && grep_flag_ok(grep) && !crate::encodings::encoding_known(
                lookup_label_of(nm),
            )))
            &&& (r matches Ok(mn) ==> {
                &&& mn.mission_id == mission_id
                &&& mn.counter_offset == opt_or_u64(flag_counter_offset, COUNTER_OFFSET_DEFAULT)
                &&& mn.chars_min_nb == opt_or_u8(
                    chars_min_opt,
                    opt_or_u8(flag_chars_min, CHARS_MIN_DEFAULT),
                )
                &&& mn.require_same_unicode_block == flag_same_unicode_block
                &&& mn.filter.af == opt_or_u128(filter_af_opt, opt_or_u128(flag_af, AF_DEFAULT))
                &&& mn.filter.ubf == opt_or_u64(
                    filter_ubf_opt,
                    opt_or_u64(
                        flag_ubf,
                        if is_ascii {
                            UBF_NONE
                        } else {
                            UBF_COMMON
                        },
                    ),
                )
                &&& mn.filter.grep_char == grep
                &&& mn.output_line_char_nb_max == line
                &&& mn.print_encoding_as_ascii == is_ascii
                &&& mission_wf(mn)
            })
        }),
{
    let output_line_char_nb_max = match flag_output_line_len {
        Option::Some(n) => n,
        Option::None => OUTPUT_LINE_CHAR_NB_MAX_DEFAULT,
    };
    if output_line_char_nb_max < OUTPUT_LINE_CHAR_NB_MIN || output_line_char_nb_max
        > OUTPUT_LINE_CHAR_NB_MAX_LIMIT {
        return Err(MissionError::OutputLineLenOutOfRange);
    }
    let filter_grep_char = match filter_grep_opt {
        Option::Some(g) => Option::Some(g),
        Option::None => flag_grep,
    };
    match filter_grep_char {
        Option::Some(g) => {
            if g > 127 {
                return Err(MissionError::GrepCharTooLarge);
            }
        },
        Option::None => {},
    }
    let default_utf8 = crate::names::make_name_utf8_default();
    let name: &Vec<u8> = match enc_name {
        Option::Some(v) => v,
        Option::None => &default_utf8,
    };
    let ascii_label = crate::names::make_name_ascii();
    let print_encoding_as_ascii = crate::helper::bytes_eq(name.as_slice(), ascii_label.as_slice());
    let filter_af = match filter_af_opt {
        Option::Some(v) => v,
        Option::None => match flag_af {
            Option::Some(v) => v,
            Option::None => AF_DEFAULT,
        },
    };
    let filter_ubf = match filter_ubf_opt {
        Option::Some(v) => v,
        Option::None => match flag_ubf {
            Option::Some(v) => v,
            Option::None => {
                if print_encoding_as_ascii {
                    UBF_NONE
                } else {
                    UBF_COMMON
                }
            },
        },
    };
    let chars_min_nb = match chars_min_opt {
        Option::Some(v) => v,
        Option::None => match flag_chars_min {
            Option::Some(v) => v,
            Option::None => CHARS_MIN_DEFAULT,
        },
    };
    let counter_offset = match flag_counter_offset {
        Option::Some(v) => v,
        Option::None => COUNTER_OFFSET_DEFAULT,
    };
    let xud = crate::names::make_name_x_user_defined();
    let label: &Vec<u8> = if print_encoding_as_ascii {
        &xud
    } else {
        name
    };
    match crate::encodings::encoding_for_label(label.as_slice()) {
        Option::Some(encoding) => Ok(
            Mission {
                mission_id,
                counter_offset,
                encoding,
                chars_min_nb,
                require_same_unicode_block: flag_same_unicode_block,
                filter: Utf8Filter {
                    af: filter_af,
                    ubf: filter_ubf,
                    grep_char: filter_grep_char,
                },
                output_line_char_nb_max,
                print_encoding_as_ascii,
            },
        ),
        Option::None => Err(MissionError::UnknownEncoding),
    }
}

/// The comma-separated fields of one encoding specification all parse.
pub open spec fn enc_opt_ok(e: Seq<u8>) -> bool {
    &&& int_token_ok(fld(e, 1), 255)
    &&& af_token_ok(fld(e, 2))
    &&& ubf_token_ok(fld(e, 3))
    &&& int_token_ok(fld(e, 4), 255)
    &&& !field_exists(e, 5)
}

/// The encoding name of one specification: its first field, trimmed, or
/// nothing when empty.
pub open spec fn enc_opt_name(e: Seq<u8>) -> Option<Seq<u8>> {
    if fld(e, 0).len() > 0 {
        Option::Some(trim_of(fld(e, 0)))
    } else {
        Option::None
    }
}

/// The numeric value of an optional token, narrowed to a byte.
pub open spec fn tok_u8(s: Seq<u8>) -> Option<u8> {
    match int_token_opt(s) {
        Option::Some(v) => Option::Some(v as u8),
        Option::None => Option::None,
    }
}

/// The output line length after the default.
pub open spec fn line_tok_val(s: Seq<u8>) -> int {
    match int_token_opt(s) {
        Option::Some(v) => v,
        Option::None => OUTPUT_LINE_CHAR_NB_MAX_DEFAULT as int,
    }
}

/// The grep code of one encoding specification, cascaded with the global
/// flag.
pub open spec fn enc_grep_val(e: Seq<u8>, fg: Option<u8>) -> Option<u8> {
    match int_token_opt(fld(e, 4)) {
        Option::Some(v) => Option::Some(v as u8),
        Option::None => fg,
    }
}

/// The minimum character count of one encoding specification, after the
/// global flag and the default.
pub open spec fn enc_chars_val(e: Seq<u8>, flagtok: Seq<u8>) -> int {
    match int_token_opt(fld(e, 1)) {
        Option::Some(v) => v,
        Option::None => match int_token_opt(flagtok) {
            Option::Some(v) => v,
            Option::None => CHARS_MIN_DEFAULT as int,
        },
    }
}

/// The ASCII filter of one encoding specification, after the global flag
/// and the default.
pub open spec fn enc_af_val(e: Seq<u8>, flagtok: Seq<u8>) -> int {
    match af_token_val(fld(e, 2)) {
        Option::Some(v) => v,
        Option::None => match af_token_val(flagtok) {
            Option::Some(v) => v,
            Option::None => AF_DEFAULT as int,
        },
    }
}

/// An encoding specification asks for the emulated ASCII search.
pub open spec fn enc_is_ascii(e: Seq<u8>) -> bool {
    effective_enc_name(enc_opt_name(e)) == crate::names::name_ascii()
}

/// The unicode-block filter of one encoding specification, after the global
/// flag and the per-encoding default.
pub open spec fn enc_ubf_val(e: Seq<u8>, flagtok: Seq<u8>) -> int {
    match ubf_token_val(fld(e, 3)) {
        Option::Some(v) => v,
        Option::None => match ubf_token_val(flagtok) {
            Option::Some(v) => v,
            Option::None => if enc_is_ascii(e) {
                UBF_NONE as int
            } else {
                UBF_COMMON as int
            },
        },
    }
}

/// One encoding specification makes a valid mission under the global grep
/// flag: its fields parse, its grep code is ASCII, and its encoding label is
/// known.
pub open spec fn enc_ok(e: Seq<u8>, fg: Option<u8>) -> bool {
    &&& enc_opt_ok(e)
    &&& grep_flag_ok(enc_grep_val(e, fg))
    &&& crate::encodings::encoding_known(lookup_label_of(effective_enc_name(enc_opt_name(e))))
}

/// The encoding specification behind mission number `i`: the listed one, or
/// the empty specification, which falls back to every default, when none was
/// listed.
pub open spec fn enc_for(encs: Seq<Vec<u8>>, i: int) -> Seq<u8> {
    if encs.len() == 0 {
        Seq::empty()
    } else {
        encs[i]@
    }
}

/// When `Missions::new` succeeds: every global flag parses, the grep code is
/// ASCII, the output line length lies within bounds, at most 255 missions
/// are asked for, and every encoding specification (or the single default
/// one) makes a valid mission.
pub open spec fn missions_new_ok(
    co: Seq<u8>,
    encs: Seq<Vec<u8>>,
    cm: Seq<u8>,
    af: Seq<u8>,
    ubf: Seq<u8>,
    grep: Seq<u8>,
    line: Seq<u8>,
) -> bool {
    &&& int_token_ok(co, u64::MAX as int)
    &&& int_token_ok(cm, 255)
    &&& af_token_ok(af)
    &&& ubf_token_ok(ubf)
    &&& int_token_ok(grep, 255)
    &&& grep_flag_ok(tok_u8(grep))
    &&& int_token_ok(line, usize::MAX as int)
    &&& OUTPUT_LINE_CHAR_NB_MIN <= line_tok_val(line) <= OUTPUT_LINE_CHAR_NB_MAX_LIMIT
    &&& encs.len() <= 255
    &&& (forall|i: int|
        0 <= i < (if encs.len() == 0 {
            1int
        } else {
            encs.len() as int
        }) ==> enc_ok(#[trigger] enc_for(encs, i), tok_u8(grep)))
}

impl Missions {
    /// Builds the missions of one run from the command-line flags: one
    /// mission per encoding specification, or a single default UTF-8
    /// mission when none is given, each completed with defaults, parsed and
    /// checked.
    ///
    /// Two machine limits are enforced here: at most 255 missions, because
    /// mission identifiers are single bytes, and an output line length of at
    /// most [`OUTPUT_LINE_CHAR_NB_MAX_LIMIT`], because every collection's
    /// scratch buffer has the fixed capacity that must hold a decoded window
    /// plus a deferred trailing string.
    #[verifier::rlimit(60)]
    pub fn new(
        flag_counter_offset: &Option<Vec<u8>>,
        flag_encoding: &Vec<Vec<u8>>,
        flag_chars_min_nb: &Option<Vec<u8>>,
        flag_same_unicode_block: bool,
        flag_ascii_filter: &Option<Vec<u8>>,
        flag_unicode_block_filter: &Option<Vec<u8>>,
        flag_grep_char: &Option<Vec<u8>>,
        flag_output_line_len: &Option<Vec<u8>>,
    ) -> (r: Result<Missions, MissionError>)
        ensures
            r is Ok <==> missions_new_ok(
                opt_bytes(*flag_counter_offset),
                flag_encoding@,
                opt_bytes(*flag_chars_min_nb),
                opt_bytes(*flag_ascii_filter),
                opt_bytes(*flag_unicode_block_filter),
                opt_bytes(*flag_grep_char),
                opt_bytes(*flag_output_line_len),
            ),
            r matches Ok(ms) ==> {
                &&& missions_wf(ms)
                &&& ms.v@.len() == (if flag_encoding@.len() == 0 {
                    1int
                } else {
                    flag_encoding@.len() as int
                })
                &&& (forall|i: int|
                    0 <= i < ms.v@.len() ==> {
                        let mn = #[trigger] ms.v@[i];
                        let e = enc_for(flag_encoding@, i);
                        &&& mn.mission_id == i
                        &&& mn.require_same_unicode_block == flag_same_unicode_block
                        &&& mn.counter_offset as int == (match int_token_opt(
                            opt_bytes(*flag_counter_offset),
                        ) {
                            Option::Some(v) => v,
                            Option::None => 0int,
                        })
                        &&& mn.output_line_char_nb_max as int == line_tok_val(
                            opt_bytes(*flag_output_line_len),
                        )
                        &&& mn.chars_min_nb as int == enc_chars_val(
                            e,
                            opt_bytes(*flag_chars_min_nb),
                        )
                        &&& mn.filter.af as int == enc_af_val(e, opt_bytes(*flag_ascii_filter))
                        &&& mn.filter.ubf as int == enc_ubf_val(
                            e,
                            opt_bytes(*flag_unicode_block_filter),
                        )
                        &&& mn.filter.grep_char == enc_grep_val(
                            e,
                            tok_u8(opt_bytes(*flag_grep_char)),
                        )
                        &&& mn.print_encoding_as_ascii == enc_is_ascii(e)
                    })
            },
    {
        let empty: Vec<u8> = Vec::new();
        let co_slice: &[u8] = match flag_counter_offset {
            Option::Some(v) => v.as_slice(),
            Option::None => empty.as_slice(),
        };
        let flag_co_parsed: Option<u64> = match parse_int_token(co_slice, u64::MAX as u128) {
            Ok(Option::Some(v)) => Option::Some(v as u64),
            Ok(Option::None) => Option::None,
            Err(e) => {
                return Err(e);
            },
        };
        let cm_slice: &[u8] = match flag_chars_min_nb {
            Option::Some(v) => v.as_slice(),
            Option::None => empty.as_slice(),
        };
        let flag_cm_parsed: Option<u8> = match parse_int_token(cm_slice, 255) {
            Ok(Option::Some(v)) => Option::Some(v as u8),
            Ok(Option::None) => Option::None,
            Err(e) => {
                return Err(e);
            },
        };
        let af_slice: &[u8] = match flag_ascii_filter {
            Option::Some(v) => v.as_slice(),
            Option::None => empty.as_slice(),
        };
        let flag_af_parsed: Option<u128> = match parse_af_token(af_slice) {
            Ok(o) => o,
            Err(e) => {
                return Err(e);
            },
        };
        let ubf_slice: &[u8] = match flag_unicode_block_filter {
            Option::Some(v) => v.as_slice(),
            Option::None => empty.as_slice(),
        };
        let flag_ubf_parsed: Option<u64> = match parse_ubf_token(ubf_slice) {
            Ok(o) => o,
            Err(e) => {
                return Err(e);
            },
        };
        let grep_slice: &[u8] = match flag_grep_char {
            Option::Some(v) => v.as_slice(),
            Option::None => empty.as_slice(),
        };
        let flag_grep_parsed: Option<u8> = match parse_int_token(grep_slice, 255) {
            Ok(Option::Some(v)) => Option::Some(v as u8),
            Ok(Option::None) => Option::None,
            Err(e) => {
                return Err(e);
            },
        };
        match flag_grep_parsed {
            Option::Some(g) => {
                if g > 127 {
                    return Err(MissionError::GrepCharTooLarge);
                }
            },
            Option::None => {},
        }
        let line_slice: &[u8] = match flag_output_line_len {
            Option::Some(v) => v.as_slice(),
            Option::None => empty.as_slice(),
        };
        let flag_line_parsed: Option<usize> = match parse_int_token(
            line_slice,
            usize::MAX as u128,
        ) {
            Ok(Option::Some(v)) => Option::Some(v as usize),
            Ok(Option::None) => Option::None,
            Err(e) => {
                return Err(e);
            },
        };
        let line_value = match flag_line_parsed {
            Option::Some(v) => v,
            Option::None => OUTPUT_LINE_CHAR_NB_MAX_DEFAULT,
        };
        if line_value < OUTPUT_LINE_CHAR_NB_MIN || line_value > OUTPUT_LINE_CHAR_NB_MAX_LIMIT {
            return Err(MissionError::OutputLineLenOutOfRange);
        }
        if flag_encoding.len() > 255 {
            return Err(MissionError::TooManyFields);
        }
        let mut v: Vec<Mission> = Vec::new();
        if flag_encoding.len() == 0 {
            proof {
                assert(!field_exists(Seq::<u8>::empty(), 0));
                assert(!field_exists(Seq::<u8>::empty(), 1));
                assert(!field_exists(Seq::<u8>::empty(), 2));
                assert(!field_exists(Seq::<u8>::empty(), 3));
                assert(!field_exists(Seq::<u8>::empty(), 4));
                assert(!field_exists(Seq::<u8>::empty(), 5));
            }
            proof {
                assert(enc_for(flag_encoding@, 0) =~= Seq::<u8>::empty());
            }
            let mn = match mission_from_parts(
                0,
                &Option::None,
                Option::None,
                Option::None,
                Option::None,
                Option::None,
                flag_co_parsed,
                flag_cm_parsed,
                flag_same_unicode_block,
                flag_af_parsed,
                flag_ubf_parsed,
                flag_grep_parsed,
                flag_line_parsed,
            ) {
                Ok(mn) => mn,
                Err(e) => {
                    proof {
                        assert(!enc_ok(
                            enc_for(flag_encoding@, 0),
                            tok_u8(opt_bytes(*flag_grep_char)),
                        ));
                    }
                    return Err(e);
                },
            };
            v.push(mn);
            return Ok(Missions { v });
        }
        let mut i: usize = 0;
        while i < flag_encoding.len()
            invariant
                flag_encoding@.len() <= 255,
                i <= flag_encoding@.len(),
                v@.len() == i,
                forall|j: int| 0 <= j < i ==> enc_ok(
                    #[trigger] enc_for(flag_encoding@, j),
                    tok_u8(opt_bytes(*flag_grep_char)),
                ),
                int_token_ok(opt_bytes(*flag_counter_offset), u64::MAX as int),
                int_token_ok(opt_bytes(*flag_chars_min_nb), 255),
                af_token_ok(opt_bytes(*flag_ascii_filter)),
                ubf_token_ok(opt_bytes(*flag_unicode_block_filter)),
                int_token_ok(opt_bytes(*flag_grep_char), 255),
                grep_flag_ok(tok_u8(opt_bytes(*flag_grep_char))),
                int_token_ok(opt_bytes(*flag_output_line_len), usize::MAX as int),
                OUTPUT_LINE_CHAR_NB_MIN <= line_tok_val(opt_bytes(*flag_output_line_len))
                    <= OUTPUT_LINE_CHAR_NB_MAX_LIMIT,
                flag_co_parsed matches Some(u) ==> int_token_opt(opt_bytes(*flag_counter_offset))
                    == Some(u as int),
                flag_co_parsed is Some <==> int_token_opt(opt_bytes(*flag_counter_offset))
                    is Some,
                flag_cm_parsed matches Some(u) ==> int_token_opt(opt_bytes(*flag_chars_min_nb))
                    == Some(u as int),
                flag_cm_parsed is Some <==> int_token_opt(opt_bytes(*flag_chars_min_nb)) is Some,
                flag_af_parsed matches Some(u) ==> af_token_val(opt_bytes(*flag_ascii_filter))
                    == Some(u as int),
                flag_af_parsed is Some <==> af_token_val(opt_bytes(*flag_ascii_filter)) is Some,
                flag_ubf_parsed matches Some(u) ==> ubf_token_val(
                    opt_bytes(*flag_unicode_block_filter),
                ) == Some(u as int),
                flag_ubf_parsed is Some <==> ubf_token_val(opt_bytes(*flag_unicode_block_filter))
                    is Some,
                flag_grep_parsed == tok_u8(opt_bytes(*flag_grep_char)),
                flag_line_parsed matches Some(u) ==> int_token_opt(
                    opt_bytes(*flag_output_line_len),
                ) == Some(u as int),
                flag_line_parsed is Some <==> int_token_opt(opt_bytes(*flag_output_line_len))
                    is Some,
                forall|j: int|
                    0 <= j < i ==> {
                        let mn = #[trigger] v@[j];
                        let e = enc_for(flag_encoding@, j);
                        &&& mission_wf(mn)
                        &&& mn.mission_id == j
                        &&& mn.require_same_unicode_block == flag_same_unicode_block
                        &&& mn.counter_offset as int == (match int_token_opt(
                            opt_bytes(*flag_counter_offset),
                        ) {
                            Option::Some(w) => w,
                            Option::None => 0int,
                        })
                        &&& mn.output_line_char_nb_max as int == line_tok_val(
                            opt_bytes(*flag_output_line_len),
                        )
                        &&& mn.chars_min_nb as int == enc_chars_val(
                            e,
                            opt_bytes(*flag_chars_min_nb),
                        )
                        &&& mn.filter.af as int == enc_af_val(e, opt_bytes(*flag_ascii_filter))
                        &&& mn.filter.ubf as int == enc_ubf_val(
                            e,
                            opt_bytes(*flag_unicode_block_filter),
                        )
                        &&& mn.filter.grep_char == enc_grep_val(
                            e,
                            tok_u8(opt_bytes(*flag_grep_char)),
                        )
                        &&& mn.print_encoding_as_ascii == enc_is_ascii(e)
                    },
            decreases flag_encoding@.len() - i,
        {
            let enc_opt = &flag_encoding[i];
            proof {
                assert(enc_for(flag_encoding@, i as int) == flag_encoding@[i as int]@);
            }
            let parts = match Missions::parse_enc_opt(enc_opt.as_slice()) {
                Ok(t) => t,
                Err(e) => {
                    proof {
                        assert(!enc_ok(
                            enc_for(flag_encoding@, i as int),
                            tok_u8(opt_bytes(*flag_grep_char)),
                        ));
                    }
                    return Err(e);
                },
            };
            let (enc_name, chars_min, filter_af, filter_ubf, grep_char) = parts;
            let mn = match mission_from_parts(
                i as u8,
                &enc_name,
                chars_min,
                filter_af,
                filter_ubf,
                grep_char,
                flag_co_parsed,
                flag_cm_parsed,
                flag_same_unicode_block,
                flag_af_parsed,
                flag_ubf_parsed,
                flag_grep_parsed,
                flag_line_parsed,
            ) {
                Ok(mn) => mn,
                Err(e) => {
                    proof {
                        assert(!enc_ok(
                            enc_for(flag_encoding@, i as int),
                            tok_u8(opt_bytes(*flag_grep_char)),
                        ));
                    }
                    return Err(e);
                },
            };
            v.push(mn);
            i = i + 1;
        }
        Ok(Missions { v })
    }

    /// The number of missions.
    pub fn len(&self) -> (n: usize)
        ensures
            n == self.v@.len(),
    {
        self.v.len()
    }

    /// Splits one encoding specification `ENC[,MIN[,AF[,UBF[,GREP]]]]` into
    /// its parsed fields, each optional.
    pub fn parse_enc_opt(enc_opt: &[u8]) -> (r: Result<
        (Option<Vec<u8>>, Option<u8>, Option<u128>, Option<u64>, Option<u8>),
        MissionError,
    >)
        ensures
            r is Ok <==> enc_opt_ok(enc_opt@),
            r matches Ok(t) ==> {
                &&& (t.0 is Some <==> fld(enc_opt@, 0).len() > 0)
                &&& (t.0 matches Some(nm) ==> nm@ == trim_of(fld(enc_opt@, 0)))
                &&& (t.1 is Some <==> int_token_opt(fld(enc_opt@, 1)) is Some)
                &&& (t.1 matches Some(v) ==> int_token_opt(fld(enc_opt@, 1)) == Some(v as int))
                &&& (t.2 is Some <==> af_token_val(fld(enc_opt@, 2)) is Some)
                &&& (t.2 matches Some(v) ==> af_token_val(fld(enc_opt@, 2)) == Some(v as int))
                &&& (t.3 is Some <==> ubf_token_val(fld(enc_opt@, 3)) is Some)
                &&& (t.3 matches Some(v) ==> ubf_token_val(fld(enc_opt@, 3)) == Some(v as int))
                &&& (t.4 is Some <==> int_token_opt(fld(enc_opt@, 4)) is Some)
                &&& (t.4 matches Some(v) ==> int_token_opt(fld(enc_opt@, 4)) == Some(v as int))
            },
    {
        let n = enc_opt.len();
        let e0 = find_comma(enc_opt, 0);
        proof {
            assert(field_start(enc_opt@, 0) == 0);
            if n > 0 {
                assert(fld(enc_opt@, 0) == field_of(enc_opt@, 0));
            } else {
                assert(fld(enc_opt@, 0) =~= enc_opt@.subrange(0, e0 as int));
            }
        }
        let enc_name: Option<Vec<u8>> = if e0 == 0 {
            Option::None
        } else {
            let f0 = crate::helper::copy_bytes_range(enc_opt, 0, e0);
            let (a, b) = trim_bounds(f0.as_slice());
            Option::Some(crate::helper::copy_bytes_range(f0.as_slice(), a, b))
        };
        let has1 = e0 < n && e0 + 1 < n;
        let mut f1: Vec<u8> = Vec::new();
        let mut e1: usize = e0;
        if has1 {
            e1 = find_comma(enc_opt, e0 + 1);
            f1 = crate::helper::copy_bytes_range(enc_opt, e0 + 1, e1);
        }
        proof {
            assert(field_start(enc_opt@, 1) == e0 + 1);
            if has1 {
                assert(field_exists(enc_opt@, 1));
                assert(f1@ == fld(enc_opt@, 1));
            } else {
                assert(!field_exists(enc_opt@, 1));
                assert(f1@ =~= fld(enc_opt@, 1));
            }
        }
        let t1 = match parse_int_token(f1.as_slice(), 255) {
            Ok(o) => o,
            Err(e) => {
                return Err(e);
            },
        };
        let chars_min: Option<u8> = match t1 {
            Option::Some(v) => Option::Some(v as u8),
            Option::None => Option::None,
        };
        let has2 = has1 && e1 < n && e1 + 1 < n;
        let mut f2: Vec<u8> = Vec::new();
        let mut e2: usize = e1;
        if has2 {
            e2 = find_comma(enc_opt, e1 + 1);
            f2 = crate::helper::copy_bytes_range(enc_opt, e1 + 1, e2);
        }
        proof {
            if has1 {
                assert(field_start(enc_opt@, 2) == e1 + 1);
            }
            if has2 {
                assert(field_exists(enc_opt@, 2));
                assert(f2@ == fld(enc_opt@, 2));
            } else {
                assert(!field_exists(enc_opt@, 2));
                assert(f2@ =~= fld(enc_opt@, 2));
            }
        }
        let filter_af = match parse_af_token(f2.as_slice()) {
            Ok(o) => o,
            Err(e) => {
                return Err(e);
            },
        };
        let has3 = has2 && e2 < n && e2 + 1 < n;
        let mut f3: Vec<u8> = Vec::new();
        let mut e3: usize = e2;
        if has3 {
            e3 = find_comma(enc_opt, e2 + 1);
            f3 = crate::helper::copy_bytes_range(enc_opt, e2 + 1, e3);
        }
        proof {
            if has2 {
                assert(field_start(enc_opt@, 3) == e2 + 1);
            }
            if has3 {
                assert(field_exists(enc_opt@, 3));
                assert(f3@ == fld(enc_opt@, 3));
            } else {
                assert(!field_exists(enc_opt@, 3));
                assert(f3@ =~= fld(enc_opt@, 3));
            }
        }
        let filter_ubf = match parse_ubf_token(f3.as_slice()) {
            Ok(o) => o,
            Err(e) => {
                return Err(e);
            },
        };
        let has4 = has3 && e3 < n && e3 + 1 < n;
        let mut f4: Vec<u8> = Vec::new();
        let mut e4: usize = e3;
        if has4 {
            e4 = find_comma(enc_opt, e3 + 1);
            f4 = crate::helper::copy_bytes_range(enc_opt, e3 + 1, e4);
        }
        proof {
            if has3 {
                assert(field_start(enc_opt@, 4) == e3 + 1);
            }
            if has4 {
                assert(field_exists(enc_opt@, 4));
                assert(f4@ == fld(enc_opt@, 4));
            } else {
                assert(!field_exists(enc_opt@, 4));
                assert(f4@ =~= fld(enc_opt@, 4));
            }
        }
        let t4 = match parse_int_token(f4.as_slice(), 255) {
            Ok(o) => o,
            Err(e) => {
                return Err(e);
            },
        };
        let grep_char: Option<u8> = match t4 {
            Option::Some(v) => Option::Some(v as u8),
            Option::None => Option::None,
        };
        let has5 = has4 && e4 < n && e4 + 1 < n;
        proof {
            if has4 {
                assert(field_start(enc_opt@, 5) == e4 + 1);
            }
            if has5 {
                assert(field_exists(enc_opt@, 5));
            } else {
                assert(!field_exists(enc_opt@, 5));
            }
        }
        if has5 {
            return Err(MissionError::TooManyFields);
        }
        Ok((enc_name, chars_min, filter_af, filter_ubf, grep_char))
    }
}

} // verus!

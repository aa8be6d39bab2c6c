//! Walking UTF-8 byte sequences: character lengths, character counts, and the
//! facts about valid UTF-8 that the scanner's proofs rest on.

use crate::mission::{filter_passes, filter_wf, Utf8Filter};
use vstd::prelude::*;
use vstd::utf8::*;

verus! {

/// Byte length of the UTF-8 character introduced by the leading byte `b`;
/// leading bytes that are invalid in UTF-8 count as length 1.
pub open spec fn char_len_of(b: u8) -> int {
    if b & 0x80 == 0x00 {
        1
    } else if b & 0xe0 == 0xc0 {
        2
    } else if b & 0xf0 == 0xe0 {
        3
    } else if b & 0xf8 == 0xf0 {
        4
    } else {
        1
    }
}

/// Executable form of [`char_len_of`].
pub fn char_len(b: u8) -> (n: usize)
    ensures
        n == char_len_of(b),
{
    if b & 0x80 == 0x00 {
        1
    } else if b & 0xe0 == 0xc0 {
        2
    } else if b & 0xf0 == 0xe0 {
        3
    } else if b & 0xf8 == 0xf0 {
        4
    } else {
        1
    }
}

/// Number of characters encoded in the valid UTF-8 sequence `s`.
pub open spec fn count_chars(s: Seq<u8>) -> int {
    decode_utf8(s).len() as int
}

/// Every character of the valid UTF-8 sequence `s` passes the filter `f`,
/// judged by its leading byte.
pub open spec fn all_pass(f: Utf8Filter, s: Seq<u8>) -> bool
    decreases s.len(),
    when valid_utf8(s)
{
    s.len() == 0 || (filter_passes(f, s[0]) && all_pass(f, pop_first_scalar(s)))
}

/// Some byte of `s` equals `c`.
pub open spec fn grep_hit(s: Seq<u8>, c: u8) -> bool {
    exists|i: int| 0 <= i < s.len() && s[i] == c
}

/// The grep rule of the filter: when a grep code is configured, some byte of
/// `s` must equal it.
pub open spec fn grep_sat(g: Option<u8>, s: Seq<u8>) -> bool {
    g matches Some(c) ==> grep_hit(s, c)
}

/// For a sequence beginning with a well-formed scalar encoding, `char_len_of`
/// of the leading byte agrees with the length of that first scalar.
pub proof fn lemma_char_len_first(s: Seq<u8>)
    requires
        valid_first_scalar(s),
    ensures
        char_len_of(s[0]) == length_of_first_scalar(s),
        1 <= char_len_of(s[0]) <= 4,
        char_len_of(s[0]) <= s.len(),
{
    let b = s[0];
    assert((0x00 <= b <= 0x7f) ==> (b & 0x80 == 0x00)) by (bit_vector);
    assert((0xc0 <= b <= 0xdf) ==> (b & 0x80 != 0x00 && b & 0xe0 == 0xc0)) by (bit_vector);
    assert((0xe0 <= b <= 0xef) ==> (b & 0x80 != 0x00 && b & 0xe0 != 0xc0 && b & 0xf0 == 0xe0))
        by (bit_vector);
    assert((0xf0 <= b <= 0xf7) ==> (b & 0x80 != 0x00 && b & 0xe0 != 0xc0 && b & 0xf0 != 0xe0
        && b & 0xf8 == 0xf0)) by (bit_vector);
}

/// Facts about the first character of a nonempty valid UTF-8 sequence: its
/// length fits, the unit itself and the rest are valid UTF-8, the rest holds
/// one character less, its trailing bytes are continuation bytes, and a
/// multibyte unit starts at 0xC0 or above.
pub proof fn lemma_first_unit(s: Seq<u8>)
    requires
        valid_utf8(s),
        s.len() > 0,
    ensures
        1 <= char_len_of(s[0]) <= 4,
        char_len_of(s[0]) <= s.len(),
        valid_utf8(s.subrange(0, char_len_of(s[0]))),
        valid_utf8(s.subrange(char_len_of(s[0]), s.len() as int)),
        count_chars(s) == 1 + count_chars(s.subrange(char_len_of(s[0]), s.len() as int)),
        count_chars(s.subrange(0, char_len_of(s[0]))) == 1,
        forall|i: int| 1 <= i < char_len_of(s[0]) ==> is_continuation_byte(#[trigger] s[i]),
        char_len_of(s[0]) > 1 ==> s[0] >= 0xc0,
{
    let l = char_len_of(s[0]);
    lemma_char_len_first(s);
    let rest = s.subrange(l, s.len() as int);
    assert(rest =~= pop_first_scalar(s));
    let u = s.subrange(0, l);
    assert(valid_leading_and_continuation_bytes_first_codepoint(u)) by {
        assert(u.len() == l);
        assert(forall|i: int| 0 <= i < l ==> u[i] == s[i]);
    }
    assert(decode_first_codepoint(u) == decode_first_codepoint(s));
    assert(length_of_first_codepoint(u) == length_of_first_codepoint(s));
    assert(valid_first_scalar(u));
    assert(pop_first_scalar(u) =~= Seq::<u8>::empty());
    assert(valid_utf8(Seq::<u8>::empty()));
    assert(valid_utf8(u));
    assert(decode_utf8(s) == seq![decode_first_scalar(s) as char] + decode_utf8(rest));
    assert(decode_utf8(u) == seq![decode_first_scalar(u) as char] + decode_utf8(
        pop_first_scalar(u),
    ));
    assert(decode_utf8(pop_first_scalar(u)).len() == 0);
}

/// Concatenation of valid UTF-8 sequences is valid UTF-8, and decodes to the
/// concatenation of the decodings.
pub proof fn lemma_concat_valid(a: Seq<u8>, b: Seq<u8>)
    requires
        valid_utf8(a),
        valid_utf8(b),
    ensures
        valid_utf8(a + b),
        decode_utf8(a + b) == decode_utf8(a) + decode_utf8(b),
    decreases a.len(),
{
    if a.len() == 0 {
        assert(a + b =~= b);
        assert(decode_utf8(a) + decode_utf8(b) =~= decode_utf8(b));
    } else {
        let l = length_of_first_scalar(a);
        lemma_char_len_first(a);
        let ab = a + b;
        assert(ab.len() >= a.len());
        assert(forall|i: int| 0 <= i < a.len() ==> ab[i] == a[i]);
        assert(valid_leading_and_continuation_bytes_first_codepoint(ab));
        assert(decode_first_codepoint(ab) == decode_first_codepoint(a));
        assert(length_of_first_codepoint(ab) == length_of_first_codepoint(a));
        assert(valid_first_scalar(ab));
        assert(pop_first_scalar(ab) =~= pop_first_scalar(a) + b);
        lemma_concat_valid(pop_first_scalar(a), b);
        assert(valid_utf8(ab));
        assert(decode_utf8(ab) == seq![decode_first_scalar(ab) as char] + decode_utf8(
            pop_first_scalar(ab),
        ));
        assert(decode_utf8(a + b) =~= decode_utf8(a) + decode_utf8(b));
    }
}

/// The filter accepts every character of a concatenation exactly when it
/// accepts every character of both halves.
pub proof fn lemma_all_pass_concat(f: Utf8Filter, a: Seq<u8>, b: Seq<u8>)
    requires
        valid_utf8(a),
        valid_utf8(b),
    ensures
        all_pass(f, a + b) == (all_pass(f, a) && all_pass(f, b)),
    decreases a.len(),
{
    lemma_concat_valid(a, b);
    if a.len() == 0 {
        assert(a + b =~= b);
    } else {
        lemma_char_len_first(a);
        let ab = a + b;
        assert(forall|i: int| 0 <= i < a.len() ==> ab[i] == a[i]);
        assert(valid_leading_and_continuation_bytes_first_codepoint(ab));
        assert(decode_first_codepoint(ab) == decode_first_codepoint(a));
        assert(length_of_first_codepoint(ab) == length_of_first_codepoint(a));
        assert(valid_first_scalar(ab));
        assert(pop_first_scalar(ab) =~= pop_first_scalar(a) + b);
        lemma_all_pass_concat(f, pop_first_scalar(a), b);
    }
}

/// A byte occurs in a concatenation exactly when it occurs in one of the
/// halves.
pub proof fn lemma_grep_hit_concat(a: Seq<u8>, b: Seq<u8>, c: u8)
    ensures
        grep_hit(a + b, c) == (grep_hit(a, c) || grep_hit(b, c)),
{
    if grep_hit(a, c) {
        let i = choose|i: int| 0 <= i < a.len() && a[i] == c;
        assert((a + b)[i] == c);
    }
    if grep_hit(b, c) {
        let i = choose|i: int| 0 <= i < b.len() && b[i] == c;
        assert((a + b)[a.len() + i] == c);
    }
    if grep_hit(a + b, c) {
        let i = choose|i: int| 0 <= i < (a + b).len() && (a + b)[i] == c;
        if i < a.len() {
            assert(a[i] == c);
        } else {
            assert(b[i - a.len()] == c);
        }
    }
}

/// No byte of a single multibyte UTF-8 unit can equal an ASCII code: its
/// leading byte is 0xC0 or above and its continuation bytes are 0x80..0xBF.
pub proof fn lemma_multibyte_unit_no_ascii(u: Seq<u8>, c: u8)
    requires
        valid_utf8(u),
        u.len() > 0,
        u.len() == char_len_of(u[0]),
        u[0] & 0x80 != 0,
        c < 128,
    ensures
        !grep_hit(u, c),
{
    lemma_first_unit(u);
    assert forall|i: int| 0 <= i < u.len() implies u[i] != c by {
        if i == 0 {
            let b = u[0];
            assert(b & 0x80 != 0 ==> b >= 0x80) by (bit_vector);
        } else {
            assert(is_continuation_byte(u[i]));
        }
    }
}

/// Compares two byte strings for equality.
pub fn bytes_eq(a: &[u8], b: &[u8]) -> (r: bool)
    ensures
        r == (a@ == b@),
{
    if a.len() != b.len() {
        proof {
            assert(a@.len() != b@.len() ==> a@ != b@);
        }
        return false;
    }
    let mut i: usize = 0;
    while i < a.len()
        invariant
            i <= a.len(),
            a@.len() == b@.len(),
            forall|j: int| 0 <= j < i ==> a@[j] == b@[j],
        decreases a.len() - i,
    {
        if a[i] != b[i] {
            return false;
        }
        i = i + 1;
    }
    proof {
        assert(a@ =~= b@);
    }
    true
}

/// Copies the byte range `[a, b)` of `v` into a fresh vector.
pub(crate) fn copy_bytes_range(v: &[u8], a: usize, b: usize) -> (r: Vec<u8>)
    requires
        a <= b <= v@.len(),
    ensures
        r@ == v@.subrange(a as int, b as int),
{
    let mut r: Vec<u8> = Vec::new();
    let mut i: usize = a;
    proof {
        assert(v@.subrange(a as int, a as int) =~= Seq::<u8>::empty());
    }
    while i < b
        invariant
            a <= i <= b <= v@.len(),
            r@ == v@.subrange(a as int, i as int),
        decreases b - i,
    {
        r.push(v[i]);
        proof {
            assert(v@.subrange(a as int, i + 1) =~= v@.subrange(a as int, i as int).push(
                v@[i as int],
            ));
        }
        i = i + 1;
    }
    r
}

/// Tests whether a UTF-8 sequence starts with a multibyte character, judged
/// by the high bit of its first byte.
pub fn starts_with_multibyte_char(s: &[u8]) -> (r: bool)
    requires
        s@.len() > 0,
    ensures
        r == (s@[0] & 0x80 == 0x80),
{
    s[0] & 0x80 == 0x80
}

/// Counts the characters of the UTF-8 sequence `s` by walking the leading
/// bytes.
pub fn char_count(s: &[u8]) -> (n: usize)
    ensures
        valid_utf8(s@) ==> n == count_chars(s@),
{
    let ghost valid = valid_utf8(s@);
    let mut n: usize = 0;
    let mut i: usize = 0;
    proof {
        assert(s@.skip(0) =~= s@);
    }
    while i < s.len()
        invariant
            0 <= i <= s.len(),
            n <= i,
            valid == valid_utf8(s@),
            valid ==> valid_utf8(s@.skip(i as int)),
            valid ==> n + count_chars(s@.skip(i as int)) == count_chars(s@),
        decreases s.len() - i,
    {
        let ghost rest = s@.skip(i as int);
        let l = char_len(s[i]);
        proof {
            if valid {
                assert(rest[0] == s@[i as int]);
                lemma_first_unit(rest);
                assert(l as int <= rest.len());
            }
        }
        let step = if l > s.len() - i {
            s.len() - i
        } else {
            l
        };
        proof {
            if valid {
                assert(step == l);
                assert(rest.subrange(char_len_of(rest[0]), rest.len() as int) =~= s@.skip(
                    i + step,
                ));
            }
        }
        i = i + step;
        n = n + 1;
    }
    proof {
        if valid {
            assert(s@.skip(i as int) =~= Seq::<u8>::empty());
        }
    }
    n
}

/// One result of the [`SplitStr`] iterator: a substring of the searched
/// buffer that satisfied the filter, with flags describing how it may be
/// used.
#[derive(Debug, PartialEq, Eq)]
pub struct SplitStrResult {
    /// The found substring, always valid UTF-8.
    pub s: Vec<u8>,

    /// Byte offset in the searched buffer where `s` starts.
    pub s_start: usize,

    /// Byte offset in the searched buffer just after the end of `s`.
    pub s_end: usize,

    /// The substring starts at the left buffer boundary while the previous
    /// run's last substring was maybe cut: this one completes it.
    pub s_completes_previous_s: bool,

    /// The substring touches the right buffer boundary (and may continue in
    /// the next buffer), or was cut by the iterator itself because it was too
    /// long to be printed in one line.
    pub s_is_maybe_cut: bool,

    /// The substring touches the right buffer boundary and is too short to be
    /// printed now; it should be inserted at the beginning of the next buffer
    /// and filtered again.
    pub s_is_to_be_filtered_again: bool,

    /// The substring contains the configured grep character, when one is
    /// configured.
    pub s_satisfies_grep_char_rule: bool,

    /// The substring has at least `chars_min_nb` characters.
    pub s_satisfies_min_char_rule: bool,
}

/// An iterator that walks a valid UTF-8 buffer and yields the substrings
/// whose characters all pass a [`Utf8Filter`], subject to a minimum length, a
/// grep-character rule and a maximum output length.
pub struct SplitStr {
    /// The buffer in which `next()` searches for substrings.
    pub inp: Vec<u8>,

    /// The left boundary used to decide whether a substring completes the
    /// previous one; it is advanced past an overlong substring so that the
    /// next call treats the rest as its continuation.
    pub inp_start: usize,

    /// The cursor: all bytes below it have been read.
    pub p: usize,

    /// Substrings with fewer characters are dismissed, with the boundary
    /// exceptions described on the flags of [`SplitStrResult`].
    pub chars_min_nb: u8,

    /// The caller's note that the last substring of the previous buffer was
    /// maybe cut; a substring at the left boundary then completes it.
    pub last_s_was_maybe_cut: bool,

    /// The caller's note that invalid bytes follow the buffer, so that no
    /// substring can continue beyond its right boundary.
    pub invalid_bytes_after_inp: bool,

    /// The filter each character's leading byte must pass.
    pub utf8f: Utf8Filter,

    /// No returned substring holds more characters than this; the cursor
    /// then rests at the cut so that the next call continues the string.
    pub s_len_max: usize,
}

/// The walk `next()` performs, as a function of plain values. Starting with
/// a candidate that begins at `a` and already holds `chars` characters up to
/// the cursor `p` (grep rule met when `grep_ok`), the walk extends the
/// candidate by every character whose leading byte passes the filter, and at
/// a character that fails it either stops — when the candidate completes a
/// cut substring at the left boundary, or meets the minimum-length and grep
/// rules — or starts a fresh candidate behind the failing character. It also
/// stops at the end of the buffer and when the candidate reaches `max`
/// characters.
///
/// The result `(a, b, p, chars, grep_ok)` is the final candidate `[a, b)`,
/// the final cursor, and the candidate's character count and grep flag.
pub open spec fn split_scan(
    inp: Seq<u8>,
    f: Utf8Filter,
    chars_min: int,
    last_cut: bool,
    inp_start: int,
    max: int,
    a: int,
    p: int,
    chars: int,
    grep_ok: bool,
) -> (int, int, int, int, bool)
    decreases inp.len() - p,
    when 0 <= p <= inp.len()
{
    if p >= inp.len() || chars >= max {
        (a, p, p, chars, grep_ok)
    } else {
        let l = if char_len_of(inp[p]) <= inp.len() - p {
            char_len_of(inp[p])
        } else {
            inp.len() - p
        };
        if filter_passes(f, inp[p]) {
            let g2 = grep_ok || (inp[p] < 0x80 && f.grep_char == Some(inp[p]));
            split_scan(inp, f, chars_min, last_cut, inp_start, max, a, p + l, chars + 1, g2)
        } else {
            if last_cut && chars > 0 && a == inp_start {
                (a, p, p + l, chars, grep_ok)
            } else if chars >= chars_min && grep_ok {
                (a, p, p + l, chars, grep_ok)
            } else {
                split_scan(
                    inp,
                    f,
                    chars_min,
                    last_cut,
                    inp_start,
                    max,
                    p + l,
                    p + l,
                    0,
                    f.grep_char is None,
                )
            }
        }
    }
}

/// One substring the splitter yields: its bounds in the searched buffer and
/// the three flags that decide its use.
pub struct SplitOutcome {
    /// Start offset of the substring.
    pub a: int,
    /// End offset of the substring.
    pub b: int,
    /// The substring completes the previous buffer's cut substring.
    pub completes: bool,
    /// The substring may be cut at the right boundary or at the length cap.
    pub maybe_cut: bool,
    /// The substring is deferred to the front of the next buffer.
    pub refilter: bool,
}

/// Bounds of the [`split_scan`] walk: the candidate lies at or after the
/// start cursor and the final cursor at or after the candidate, all within
/// the buffer.
pub proof fn lemma_split_scan_bounds(
    inp: Seq<u8>,
    f: Utf8Filter,
    chars_min: int,
    last_cut: bool,
    inp_start: int,
    max: int,
    a: int,
    p: int,
    chars: int,
    grep_ok: bool,
)
    requires
        0 <= a <= p <= inp.len(),
    ensures
        ({
            let t = split_scan(inp, f, chars_min, last_cut, inp_start, max, a, p, chars, grep_ok);
            &&& a <= t.0 <= t.1 <= t.2 <= inp.len()
            &&& (t.1 > t.0 ==> t.2 > t.0)
        }),
    decreases inp.len() - p,
{
    if p >= inp.len() || chars >= max {
    } else {
        let l = if char_len_of(inp[p]) <= inp.len() - p {
            char_len_of(inp[p])
        } else {
            inp.len() - p
        };
        if filter_passes(f, inp[p]) {
            let g2 = grep_ok || (inp[p] < 0x80 && f.grep_char == Some(inp[p]));
            lemma_split_scan_bounds(
                inp,
                f,
                chars_min,
                last_cut,
                inp_start,
                max,
                a,
                p + l,
                chars + 1,
                g2,
            );
        } else {
            if last_cut && chars > 0 && a == inp_start {
            } else if chars >= chars_min && grep_ok {
            } else {
                lemma_split_scan_bounds(
                    inp,
                    f,
                    chars_min,
                    last_cut,
                    inp_start,
                    max,
                    p + l,
                    p + l,
                    0,
                    f.grep_char is None,
                );
            }
        }
    }
}

/// The full run of the splitter over `inp` from cursor `p`: the sequence of
/// all substrings successive `next()` calls yield, with their flags. Each
/// element is the candidate [`split_scan`] finds, provided it is nonempty
/// and passes the emission rule; the run continues behind it with the
/// boundary and flag updates `next()` makes.
pub open spec fn split_run(
    inp: Seq<u8>,
    f: Utf8Filter,
    chars_min: int,
    invalid_after: bool,
    max: int,
    p: int,
    inp_start: int,
    last_cut: bool,
) -> Seq<SplitOutcome>
    decreases inp.len() - p,
    when 0 <= inp_start && 0 <= p <= inp.len()
    via split_run_decreases
{
    let t = split_scan(inp, f, chars_min, last_cut, inp_start, max, p, p, 0, f.grep_char is None);
    let completes = last_cut && t.0 == inp_start;
    let grep_ok = t.4;
    let min_ok = t.3 >= chars_min;
    let refilter = !completes && t.1 == inp.len() && !invalid_after && (t.3 < max || !grep_ok);
    let maybe_cut = t.3 >= max || (t.1 == inp.len() && !invalid_after);
    if t.1 > t.0 && (completes || refilter || (min_ok && grep_ok)) {
        seq![
            SplitOutcome { a: t.0, b: t.1, completes, maybe_cut, refilter },
        ] + split_run(
            inp,
            f,
            chars_min,
            invalid_after,
            max,
            t.2,
            if t.3 >= max {
                t.1
            } else {
                inp_start
            },
            maybe_cut,
        )
    } else {
        Seq::empty()
    }
}

#[via_fn]
proof fn split_run_decreases(
    inp: Seq<u8>,
    f: Utf8Filter,
    chars_min: int,
    invalid_after: bool,
    max: int,
    p: int,
    inp_start: int,
    last_cut: bool,
) {
    if 0 <= inp_start && 0 <= p <= inp.len() {
        lemma_split_scan_bounds(
            inp,
            f,
            chars_min,
            last_cut,
            inp_start,
            max,
            p,
            p,
            0,
            f.grep_char is None,
        );
    }
}

/// The substrings still to come from an iterator in state `it`, given what
/// the caller said about the bytes after the buffer.
pub open spec fn split_run_from(it: SplitStr, invalid_after: bool) -> Seq<SplitOutcome> {
    split_run(
        it.inp@,
        it.utf8f,
        it.chars_min_nb as int,
        invalid_after,
        it.s_len_max as int,
        it.p as int,
        it.inp_start as int,
        it.last_s_was_maybe_cut,
    )
}

/// Invariant of the [`SplitStr`] iterator state.
pub open spec fn split_str_wf(s: SplitStr) -> bool {
    &&& valid_utf8(s.inp@)
    &&& s.inp_start <= s.p <= s.inp@.len()
    &&& valid_utf8(s.inp@.skip(s.p as int))
    &&& filter_wf(s.utf8f)
}

impl SplitStr {
    /// Builds an iterator over `inp` with the given search criteria.
    pub fn new(
        inp: &[u8],
        chars_min_nb: u8,
        last_s_was_maybe_cut: bool,
        invalid_bytes_after_inp: bool,
        utf8f: Utf8Filter,
        s_len_max: usize,
    ) -> (r: SplitStr)
        requires
            valid_utf8(inp@),
            filter_wf(utf8f),
        ensures
            split_str_wf(r),
            r.inp@ == inp@,
            r.inp_start == 0,
            r.p == 0,
            r.chars_min_nb == chars_min_nb,
            r.last_s_was_maybe_cut == last_s_was_maybe_cut,
            r.invalid_bytes_after_inp == invalid_bytes_after_inp,
            r.utf8f == utf8f,
            r.s_len_max == s_len_max,
    {
        proof {
            assert(inp@.skip(0) =~= inp@);
        }
        SplitStr {
            inp: copy_bytes_range(inp, 0, inp.len()),
            inp_start: 0,
            p: 0,
            chars_min_nb,
            last_s_was_maybe_cut,
            invalid_bytes_after_inp,
            utf8f,
            s_len_max,
        }
    }

    /// Searches from the cursor for the next substring that satisfies the
    /// filter criteria.
    ///
    /// The contract fixes the result completely: the [`split_scan`] walk
    /// determines the candidate, the final cursor and whether anything is
    /// returned, and the remaining clauses pin every field and flag of a
    /// returned substring and every state update. A returned substring
    /// always advances the cursor, so a loop over `next()` terminates.
    pub fn next(&mut self) -> (r: Option<SplitStrResult>)
        requires
            split_str_wf(*old(self)),
        ensures
            split_str_wf(*final(self)),
            final(self).inp == old(self).inp,
            final(self).chars_min_nb == old(self).chars_min_nb,
            final(self).invalid_bytes_after_inp == old(self).invalid_bytes_after_inp,
            final(self).utf8f == old(self).utf8f,
            final(self).s_len_max == old(self).s_len_max,
            final(self).p >= old(self).p,
            r is None ==> final(self).last_s_was_maybe_cut == old(self).last_s_was_maybe_cut
                && final(self).inp_start == old(self).inp_start,
            ({
                let t = split_scan(
                    old(self).inp@,
                    old(self).utf8f,
                    old(self).chars_min_nb as int,
                    old(self).last_s_was_maybe_cut,
                    old(self).inp_start as int,
                    old(self).s_len_max as int,
                    old(self).p as int,
                    old(self).p as int,
                    0,
                    old(self).utf8f.grep_char is None,
                );
                let completes = old(self).last_s_was_maybe_cut && t.0 == old(self).inp_start;
                let refilter = !completes && t.1 == old(self).inp@.len() && !old(
                    self,
                ).invalid_bytes_after_inp && (t.3 < old(self).s_len_max || !t.4);
                let emitted = t.1 > t.0 && (completes || refilter || (t.3 >= old(
                    self,
                ).chars_min_nb && t.4));
                &&& final(self).p == t.2
                &&& t.3 == count_chars(old(self).inp@.subrange(t.0, t.1))
                &&& t.4 == grep_sat(
                    old(self).utf8f.grep_char,
                    old(self).inp@.subrange(t.0, t.1),
                )
                &&& (r is Some <==> emitted)
                &&& (r matches Some(c) ==> c.s_start == t.0 && c.s_end == t.1)
            }),
            r matches Some(c) ==> {
                &&& final(self).p > old(self).p
                &&& old(self).p <= c.s_start <= c.s_end <= old(self).inp@.len()
                &&& c.s_end <= final(self).p
                &&& c.s_start < c.s_end
                &&& c.s@ == old(self).inp@.subrange(c.s_start as int, c.s_end as int)
                &&& c.s_end - c.s_start <= 4 * old(self).s_len_max
                &&& count_chars(c.s@) <= old(self).s_len_max
                &&& valid_utf8(c.s@)
                &&& all_pass(old(self).utf8f, c.s@)
                &&& c.s_satisfies_min_char_rule == (count_chars(c.s@) >= old(self).chars_min_nb)
                &&& c.s_satisfies_grep_char_rule == grep_sat(old(self).utf8f.grep_char, c.s@)
                &&& c.s_completes_previous_s == (old(self).last_s_was_maybe_cut && c.s_start
                    == old(self).inp_start)
                &&& c.s_is_maybe_cut == (count_chars(c.s@) >= old(self).s_len_max || (c.s_end
                    == old(self).inp@.len() && !old(self).invalid_bytes_after_inp))
                &&& c.s_is_to_be_filtered_again == (!c.s_completes_previous_s && c.s_end
                    == old(self).inp@.len() && !old(self).invalid_bytes_after_inp && (count_chars(
                    c.s@,
                ) < old(self).s_len_max || !c.s_satisfies_grep_char_rule))
                &&& (c.s_completes_previous_s || c.s_is_to_be_filtered_again
                    || (c.s_satisfies_min_char_rule && c.s_satisfies_grep_char_rule))
                &&& final(self).last_s_was_maybe_cut == c.s_is_maybe_cut
                &&& final(self).inp_start == (if count_chars(c.s@) >= old(self).s_len_max {
                    c.s_end as int
                } else {
                    old(self).inp_start as int
                })
                &&& (c.s_end < old(self).inp@.len() && count_chars(c.s@) < old(self).s_len_max
                    ==> !filter_passes(old(self).utf8f, old(self).inp@[c.s_end as int]))
            },
    {
        let mut grep_char_ok = self.utf8f.grep_char.is_none();
        let mut ok_s_p = self.p;
        let mut ok_s_len: usize = 0;
        let mut ok_chars_nb: usize = 0;
        let ok_s_len_max = self.s_len_max;
        let ghost old_self = *self;
        let ghost scan0 = split_scan(
            self.inp@,
            self.utf8f,
            self.chars_min_nb as int,
            self.last_s_was_maybe_cut,
            self.inp_start as int,
            self.s_len_max as int,
            self.p as int,
            self.p as int,
            0,
            self.utf8f.grep_char is None,
        );
        proof {
            assert(self.inp@.subrange(ok_s_p as int, ok_s_p as int) =~= Seq::<u8>::empty());
            assert(valid_utf8(Seq::<u8>::empty()));
        }
        while self.p < self.inp.len() && ok_chars_nb < ok_s_len_max
            invariant_except_break
                self.p == ok_s_p + ok_s_len,
                scan0 == split_scan(
                    old_self.inp@,
                    old_self.utf8f,
                    old_self.chars_min_nb as int,
                    old_self.last_s_was_maybe_cut,
                    old_self.inp_start as int,
                    old_self.s_len_max as int,
                    ok_s_p as int,
                    self.p as int,
                    ok_chars_nb as int,
                    grep_char_ok,
                ),
            invariant
                self.inp == old_self.inp,
                self.inp_start == old_self.inp_start,
                self.last_s_was_maybe_cut == old_self.last_s_was_maybe_cut,
                self.invalid_bytes_after_inp == old_self.invalid_bytes_after_inp,
                self.utf8f == old_self.utf8f,
                self.chars_min_nb == old_self.chars_min_nb,
                self.s_len_max == old_self.s_len_max,
                ok_s_len_max == self.s_len_max,
                filter_wf(self.utf8f),
                valid_utf8(self.inp@),
                old_self.p <= ok_s_p,
                ok_s_p + ok_s_len <= self.p <= self.inp@.len(),
                valid_utf8(self.inp@.skip(self.p as int)),
                valid_utf8(self.inp@.subrange(ok_s_p as int, ok_s_p + ok_s_len)),
                all_pass(self.utf8f, self.inp@.subrange(ok_s_p as int, ok_s_p + ok_s_len)),
                count_chars(self.inp@.subrange(ok_s_p as int, ok_s_p + ok_s_len)) == ok_chars_nb,
                grep_char_ok == grep_sat(
                    self.utf8f.grep_char,
                    self.inp@.subrange(ok_s_p as int, ok_s_p + ok_s_len),
                ),
                ok_chars_nb <= ok_s_len,
                ok_chars_nb <= self.s_len_max,
                ok_s_len <= 4 * ok_chars_nb,
            ensures
                self.p == ok_s_p + ok_s_len || (ok_s_p + ok_s_len < self.inp@.len()
                    && !filter_passes(self.utf8f, self.inp@[ok_s_p + ok_s_len])),
                self.p == ok_s_p + ok_s_len ==> (self.p >= self.inp@.len() || ok_chars_nb
                    >= ok_s_len_max),
                ok_chars_nb >= ok_s_len_max ==> self.p == ok_s_p + ok_s_len,
                scan0 == (
                    ok_s_p as int,
                    ok_s_p + ok_s_len,
                    self.p as int,
                    ok_chars_nb as int,
                    grep_char_ok,
                ),
            decreases self.inp@.len() - self.p,
        {
            let ghost rest = self.inp@.skip(self.p as int);
            let ghost cand = self.inp@.subrange(ok_s_p as int, ok_s_p + ok_s_len);
            let ghost p0 = self.p as int;
            let ghost a0 = ok_s_p as int;
            let ghost ch0 = ok_chars_nb as int;
            let ghost g0 = grep_char_ok;
            let leading_byte = self.inp[self.p];
            let char_length = char_len(leading_byte);
            proof {
                assert(rest[0] == self.inp@[self.p as int]);
                lemma_first_unit(rest);
            }
            let ghost unit = self.inp@.subrange(self.p as int, self.p + char_length);
            proof {
                assert(unit =~= rest.subrange(0, char_len_of(rest[0])));
                assert(rest.subrange(char_len_of(rest[0]), rest.len() as int) =~= self.inp@.skip(
                    self.p + char_length,
                ));
            }
            if self.utf8f.pass_filter(leading_byte) {
                if leading_byte & 0x80 == 0 {
                    match self.utf8f.grep_char {
                        Option::Some(g) => {
                            if leading_byte == g {
                                grep_char_ok = true;
                            }
                        },
                        Option::None => {},
                    }
                }
                proof {
                    let g = self.utf8f.grep_char;
                    lemma_grep_hit_concat_helper(cand, unit, g);
                    assert(unit[0] == leading_byte);
                    if char_len_of(unit[0]) > 1 {
                        assert(unit[0] & 0x80 != 0) by {
                            let b = unit[0];
                            assert(b >= 0xc0 ==> b & 0x80 != 0) by (bit_vector);
                        }
                        match g {
                            Option::Some(c) => lemma_multibyte_unit_no_ascii(unit, c),
                            Option::None => (),
                        }
                    } else {
                        assert(unit.len() == 1);
                        lemma_char_len_first(rest);
                        assert(is_leading_byte_width_1(rest[0]));
                        assert(leading_byte <= 0x7f ==> leading_byte & 0x80 == 0)
                            by (bit_vector);
                        match g {
                            Option::Some(c) => {
                                if unit[0] == c {
                                    assert(grep_hit(unit, c)) by {
                                        assert(0 <= 0 < unit.len() && unit[0] == c);
                                    }
                                } else {
                                    assert(!grep_hit(unit, c)) by {
                                        assert(forall|i: int|
                                            0 <= i < unit.len() ==> #[trigger] unit[i] != c);
                                    }
                                }
                            },
                            Option::None => (),
                        }
                    }
                    lemma_concat_valid(cand, unit);
                    lemma_all_pass_concat(self.utf8f, cand, unit);
                    assert(all_pass(self.utf8f, unit)) by {
                        lemma_char_len_first(unit);
                        assert(pop_first_scalar(unit) =~= Seq::<u8>::empty());
                        assert(all_pass(self.utf8f, Seq::<u8>::empty()));
                    }
                    assert(self.inp@.subrange(ok_s_p as int, ok_s_p + ok_s_len + char_length)
                        =~= cand + unit);
                }
                ok_s_len = ok_s_len + char_length;
                ok_chars_nb = ok_chars_nb + 1;
                self.p = self.p + char_length;
                proof {
                    assert(leading_byte & 0x80 == 0 <==> leading_byte < 0x80) by (bit_vector);
                    assert(split_scan(
                        old_self.inp@,
                        old_self.utf8f,
                        old_self.chars_min_nb as int,
                        old_self.last_s_was_maybe_cut,
                        old_self.inp_start as int,
                        old_self.s_len_max as int,
                        a0,
                        p0,
                        ch0,
                        g0,
                    ) == split_scan(
                        old_self.inp@,
                        old_self.utf8f,
                        old_self.chars_min_nb as int,
                        old_self.last_s_was_maybe_cut,
                        old_self.inp_start as int,
                        old_self.s_len_max as int,
                        a0,
                        p0 + char_length,
                        ch0 + 1,
                        grep_char_ok,
                    ));
                }
            } else {
                self.p = self.p + char_length;
                if self.last_s_was_maybe_cut && ok_chars_nb > 0 && ok_s_p == self.inp_start {
                    proof {
                        assert(split_scan(
                            old_self.inp@,
                            old_self.utf8f,
                            old_self.chars_min_nb as int,
                            old_self.last_s_was_maybe_cut,
                            old_self.inp_start as int,
                            old_self.s_len_max as int,
                            a0,
                            p0,
                            ch0,
                            g0,
                        ) == (a0, p0, p0 + char_length, ch0, g0));
                    }
                    break ;
                } else if ok_chars_nb >= self.chars_min_nb as usize && grep_char_ok {
                    proof {
                        assert(split_scan(
                            old_self.inp@,
                            old_self.utf8f,
                            old_self.chars_min_nb as int,
                            old_self.last_s_was_maybe_cut,
                            old_self.inp_start as int,
                            old_self.s_len_max as int,
                            a0,
                            p0,
                            ch0,
                            g0,
                        ) == (a0, p0, p0 + char_length, ch0, g0));
                    }
                    break ;
                }
                ok_s_len = 0;
                ok_chars_nb = 0;
                ok_s_p = self.p;
                grep_char_ok = self.utf8f.grep_char.is_none();
                proof {
                    assert(self.inp@.subrange(ok_s_p as int, ok_s_p as int) =~= Seq::<
                        u8,
                    >::empty());
                    assert(split_scan(
                        old_self.inp@,
                        old_self.utf8f,
                        old_self.chars_min_nb as int,
                        old_self.last_s_was_maybe_cut,
                        old_self.inp_start as int,
                        old_self.s_len_max as int,
                        a0,
                        p0,
                        ch0,
                        g0,
                    ) == split_scan(
                        old_self.inp@,
                        old_self.utf8f,
                        old_self.chars_min_nb as int,
                        old_self.last_s_was_maybe_cut,
                        old_self.inp_start as int,
                        old_self.s_len_max as int,
                        p0 + char_length,
                        p0 + char_length,
                        0,
                        grep_char_ok,
                    ));
                }
            }
        }
        if ok_s_len == 0 {
            return Option::None;
        }
        let s_touches_left_boundary = ok_s_p == self.inp_start;
        let s_touches_right_boundary = ok_s_p + ok_s_len >= self.inp.len();
        let s_is_maybe_cut = ok_chars_nb >= ok_s_len_max || (s_touches_right_boundary
            && !self.invalid_bytes_after_inp);
        let s_completes_previous_s = s_touches_left_boundary && self.last_s_was_maybe_cut;
        let s_is_to_be_filtered_again = !s_completes_previous_s && s_touches_right_boundary
            && !self.invalid_bytes_after_inp && (ok_chars_nb < self.s_len_max || !grep_char_ok);
        let s_satisfies_min_char_rule = ok_chars_nb >= self.chars_min_nb as usize;
        let s_satisfies_grep_char_rule = grep_char_ok;
        if !s_completes_previous_s && !s_is_to_be_filtered_again && (!s_satisfies_grep_char_rule
            || !s_satisfies_min_char_rule) {
            return Option::None;
        }
        if ok_chars_nb >= ok_s_len_max {
            self.inp_start = self.p;
        }
        self.last_s_was_maybe_cut = s_is_maybe_cut;
        let s = copy_bytes_range(self.inp.as_slice(), ok_s_p, ok_s_p + ok_s_len);
        Option::Some(
            SplitStrResult {
                s,
                s_start: ok_s_p,
                s_end: ok_s_p + ok_s_len,
                s_completes_previous_s,
                s_is_maybe_cut,
                s_is_to_be_filtered_again,
                s_satisfies_grep_char_rule,
                s_satisfies_min_char_rule,
            },
        )
    }
}

/// A byte occurs in `cand + unit` exactly when it occurs in `cand` or in
/// `unit`, restated over the grep option for convenience in `next()`.
proof fn lemma_grep_hit_concat_helper(cand: Seq<u8>, unit: Seq<u8>, g: Option<u8>)
    ensures
        g matches Some(c) ==> grep_hit(cand + unit, c) == (grep_hit(cand, c) || grep_hit(
            unit,
            c,
        )),
{
    match g {
        Option::Some(c) => lemma_grep_hit_concat(cand, unit, c),
        Option::None => (),
    }
}

} // verus!

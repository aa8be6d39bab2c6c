//! A 7-bit ASCII graphic-only codec: tab and space pass, every other
//! control character and every byte of 0x7F and above is invalid.

use crate::helper::char_len_of;
use vstd::prelude::*;

verus! {

/// The byte length of the character starting at position `i` of `s`, capped
/// at the end of the buffer.
pub open spec fn clamped_char_len(s: Seq<u8>, i: int) -> int {
    if char_len_of(s[i]) <= s.len() - i {
        char_len_of(s[i])
    } else {
        s.len() - i
    }
}

/// A byte the graphic-only ASCII codec accepts: printable ASCII, tab
/// included.
pub open spec fn ascii_graphic(b: u8) -> bool {
    b < 0x7f && (b >= 0x20 || b == 0x09)
}

/// Position of the first byte of `s` the graphic-only codec rejects, or the
/// length of `s` when it accepts them all.
pub open spec fn first_non_graphic(s: Seq<u8>) -> int
    decreases s.len(),
{
    if s.len() == 0 {
        0
    } else if !ascii_graphic(s[0]) {
        0
    } else {
        1 + first_non_graphic(s.skip(1))
    }
}

/// The custom ASCII graphic-only encoding: it represents exactly the
/// graphic characters; all control characters except tab and space are
/// invalid.
#[derive(Clone, Copy)]
pub struct AsciiGraphicEncoding;

impl AsciiGraphicEncoding {
    /// The name of this encoding.
    pub fn name(&self) -> (r: Vec<u8>)
        ensures
            r@ == crate::names::name_ascii(),
    {
        crate::names::make_name_ascii()
    }
}

/// An encoder for the graphic-only ASCII encoding.
#[derive(Clone, Copy)]
pub struct AsciiGraphicEncoder;

/// A decoder for the graphic-only ASCII encoding.
#[derive(Clone, Copy)]
pub struct AsciiGraphicDecoder;

impl AsciiGraphicEncoder {
    /// Builds an encoder.
    pub fn new() -> (r: AsciiGraphicEncoder) {
        AsciiGraphicEncoder
    }

    /// Feeds `input` to the encoder: the longest graphic-only prefix is the
    /// encoded output; the offset of the first non-graphic byte and, when
    /// one exists, the position just after that whole character are reported
    /// back.
    ///
    /// Returns `(output, offset, error_upto)`.
    pub fn raw_feed(&mut self, input: &[u8]) -> (r: (Vec<u8>, usize, Option<usize>))
        ensures
            r.1 == first_non_graphic(input@),
            r.0@ == input@.subrange(0, r.1 as int),
            r.2 is Some <==> r.1 < input@.len(),
            r.2 matches Some(upto) ==> upto == r.1 + clamped_char_len(input@, r.1 as int),
    {
        let n = feed_scan(input);
        let out = crate::helper::copy_bytes_range(input, 0, n);
        if n < input.len() {
            let l = crate::helper::char_len(input[n]);
            let step = if l > input.len() - n {
                input.len() - n
            } else {
                l
            };
            (out, n, Option::Some(n + step))
        } else {
            (out, n, Option::None)
        }
    }
}

impl AsciiGraphicDecoder {
    /// Builds a decoder.
    pub fn new() -> (r: AsciiGraphicDecoder) {
        AsciiGraphicDecoder
    }

    /// Feeds `input` to the decoder: the longest graphic-only prefix is the
    /// decoded output — graphic ASCII decodes to itself — with the offset
    /// of the first non-graphic byte and, when one exists, the position just
    /// after it.
    ///
    /// Returns `(output, offset, error_upto)`.
    pub fn raw_feed(&mut self, input: &[u8]) -> (r: (Vec<u8>, usize, Option<usize>))
        ensures
            r.1 == first_non_graphic(input@),
            r.0@ == input@.subrange(0, r.1 as int),
            r.2 is Some <==> r.1 < input@.len(),
            r.2 matches Some(upto) ==> upto == r.1 + 1,
    {
        let n = feed_scan(input);
        let out = crate::helper::copy_bytes_range(input, 0, n);
        if n < input.len() {
            (out, n, Option::Some(n + 1))
        } else {
            (out, n, Option::None)
        }
    }
}

/// Finds the first non-graphic byte of `input`.
fn feed_scan(input: &[u8]) -> (n: usize)
    ensures
        n == first_non_graphic(input@),
        n <= input@.len(),
        n < input@.len() ==> !ascii_graphic(input@[n as int]),
        forall|j: int| 0 <= j < n ==> ascii_graphic(#[trigger] input@[j]),
{
    let mut i: usize = 0;
    proof {
        assert(input@.skip(0) =~= input@);
    }
    while i < input.len() && input[i] < 0x7f && (input[i] >= 0x20 || input[i] == 0x09)
        invariant
            i <= input@.len(),
            forall|j: int| 0 <= j < i ==> ascii_graphic(#[trigger] input@[j]),
            first_non_graphic(input@) == i + first_non_graphic(input@.skip(i as int)),
        decreases input@.len() - i,
    {
        proof {
            assert(input@.skip(i as int)[0] == input@[i as int]);
            assert(input@.skip(i as int).skip(1) =~= input@.skip(i + 1));
        }
        i = i + 1;
    }
    proof {
        if i < input.len() {
            assert(input@.skip(i as int)[0] == input@[i as int]);
        } else {
            assert(input@.skip(i as int).len() == 0);
        }
    }
    i
}

} // verus!

//! Trusted declarations for the `encoding_rs` library: the encoding handle,
//! the stateful decoder, and the calls the scanner makes into them.

use vstd::prelude::*;
use vstd::utf8::valid_utf8;

verus! {

#[verifier::external_type_specification]
#[verifier::external_body]
pub struct ExEncoding(encoding_rs::Encoding);

#[verifier::external_type_specification]
#[verifier::external_body]
pub struct ExDecoder(encoding_rs::Decoder);

/// Whether `encoding_rs` knows an encoding under this label.
pub uninterp spec fn encoding_known(label: Seq<u8>) -> bool;

/// Relies on `encoding_rs::Encoding::for_label`: looks the label up in the
/// WHATWG encoding table; the result depends on the label bytes alone.
#[verifier::external_body]
pub fn encoding_for_label(label: &[u8]) -> (r: Option<&'static encoding_rs::Encoding>)
    ensures
        r is Some == encoding_known(label@),
{
    encoding_rs::Encoding::for_label(label)
}

/// Relies on `encoding_rs::Encoding::new_decoder_without_bom_handling`: makes
/// a fresh decoder for this encoding in its initial state.
#[verifier::external_body]
pub fn new_decoder(enc: &'static encoding_rs::Encoding) -> (r: encoding_rs::Decoder) {
    enc.new_decoder_without_bom_handling()
}

/// What one decoder call reported: the input was exhausted, the output space
/// did not suffice, or a malformed byte sequence was met.
#[derive(Debug, Clone, Copy, PartialEq, Eq, Structural)]
pub enum DecodeStatus {
    /// All bytes of the input slice were consumed.
    InputEmpty,
    /// The decoder cannot write another character into the remaining output
    /// space.
    OutputFull,
    /// The decoder met a malformed byte sequence and consumed it.
    Malformed,
}

/// Relies on `encoding_rs::Decoder::decode_to_utf8_without_replacement`:
/// decodes bytes from `src[src_start..src_end]` and writes UTF-8 into `dst`
/// starting at `dst_start`. The bytes it reports as written are valid UTF-8
/// (the library's own `decode_to_str_without_replacement` builds on exactly
/// this guarantee), `InputEmpty` means the whole input slice was consumed,
/// and no byte outside the written range changes.
///
/// Returns `(status, bytes_read, bytes_written)`.
#[verifier::external_body]
pub fn decode_step(
    dec: &mut encoding_rs::Decoder,
    src: &[u8],
    src_start: usize,
    src_end: usize,
    dst: &mut Vec<u8>,
    dst_start: usize,
    last: bool,
) -> (r: (DecodeStatus, usize, usize))
    requires
        src_start <= src_end <= src@.len(),
        dst_start <= old(dst)@.len(),
    ensures
        final(dst)@.len() == old(dst)@.len(),
        r.1 <= src_end - src_start,
        dst_start + r.2 <= final(dst)@.len(),
        forall|i: int|
            0 <= i < final(dst)@.len() && !(dst_start <= i < dst_start + r.2) ==> final(dst)@[i]
                == old(dst)@[i],
        valid_utf8(final(dst)@.subrange(dst_start as int, dst_start + r.2)),
        r.0 == DecodeStatus::InputEmpty ==> r.1 == src_end - src_start,
{
    let space = dst.len() - dst_start;
    let mut tmp = vec![0u8; space];
    let (res, read, written) = dec.decode_to_utf8_without_replacement(
        &src[src_start..src_end],
        &mut tmp,
        last,
    );
    dst[dst_start..dst_start + written].copy_from_slice(&tmp[..written]);
    let status = match res {
        encoding_rs::DecoderResult::InputEmpty => DecodeStatus::InputEmpty,
        encoding_rs::DecoderResult::OutputFull => DecodeStatus::OutputFull,
        encoding_rs::DecoderResult::Malformed(_, _) => DecodeStatus::Malformed,
    };
    (status, read, written)
}

} // verus!

//! A finding: one string found in the input, decoded to UTF-8, with its
//! position and the mission that found it; and the total order the merger
//! sorts findings by.

use crate::helper::bytes_eq;
use crate::mission::Mission;
use crate::options::Radix;
use crate::ByteCounter;
use vstd::prelude::*;

verus! {

/// The digit byte for the value `d` of one digit: `0…9a…f`.
pub open spec fn radix_digit(d: int) -> u8 {
    if d < 10 {
        (0x30 + d) as u8
    } else {
        (0x61 + (d - 10)) as u8
    }
}

/// The digits of `n` written in base `base`, most significant first.
pub open spec fn radix_repr(n: int, base: int) -> Seq<u8>
    decreases n,
    when base >= 2 && n >= 0
    via radix_repr_decreases
{
    if n < base {
        seq![radix_digit(n)]
    } else {
        radix_repr(n / base, base).push(radix_digit(n % base))
    }
}

#[via_fn]
proof fn radix_repr_decreases(n: int, base: int) {
    if base >= 2 && n >= 0 && !(n < base) {
        assert(n / base < n) by (nonlinear_arith)
            requires
                n >= base >= 2,
        ;
        assert(n / base >= 0) by (nonlinear_arith)
            requires
                n >= base >= 2,
        ;
    }
}

/// Writes `n` in base `base` (octal, decimal or hexadecimal).
pub fn u64_to_radix(n: u64, base: u64) -> (r: Vec<u8>)
    requires
        base == 8 || base == 10 || base == 16,
    ensures
        r@ == radix_repr(n as int, base as int),
{
    let mut out: Vec<u8> = Vec::new();
    let mut m: u64 = n;
    proof {
        assert(radix_repr(n as int, base as int) + Seq::<u8>::empty() =~= radix_repr(
            n as int,
            base as int,
        ));
    }
    while m >= base
        invariant
            base == 8 || base == 10 || base == 16,
            radix_repr(n as int, base as int) == radix_repr(m as int, base as int) + out@,
        decreases m,
    {
        let ghost out_before = out@;
        let d = (m % base) as u8;
        let digit: u8 = if d < 10 {
            0x30 + d
        } else {
            0x61 + (d - 10)
        };
        out.insert(0, digit);
        proof {
            assert(out@ =~= seq![digit] + out_before);
            assert(digit == radix_digit(m as int % base as int));
            assert(radix_repr(m as int, base as int) == radix_repr(
                m as int / base as int,
                base as int,
            ).push(radix_digit(m as int % base as int)));
            assert(radix_repr(m as int / base as int, base as int) + out@ =~= radix_repr(
                m as int,
                base as int,
            ) + out_before);
        }
        m = m / base;
    }
    let ghost out_before = out@;
    let d = (m % base) as u8;
    let digit: u8 = if d < 10 {
        0x30 + d
    } else {
        0x61 + (d - 10)
    };
    out.insert(0, digit);
    proof {
        assert(m as int % base as int == m as int);
        assert(digit == radix_digit(m as int));
        assert(radix_repr(m as int, base as int) =~= seq![digit]);
        assert(out@ =~= radix_repr(m as int, base as int) + out_before);
    }
    out
}

/// Appends the bytes of `src` to `dst`.
pub(crate) fn append_bytes(dst: &mut Vec<u8>, src: &[u8])
    ensures
        final(dst)@ == old(dst)@ + src@,
{
    let mut i: usize = 0;
    proof {
        assert(old(dst)@ + src@.subrange(0, 0) =~= old(dst)@);
    }
    while i < src.len()
        invariant
            i <= src@.len(),
            dst@ == old(dst)@ + src@.subrange(0, i as int),
        decreases src@.len() - i,
    {
        dst.push(src[i]);
        proof {
            assert(old(dst)@ + src@.subrange(0, i + 1) =~= (old(dst)@ + src@.subrange(
                0,
                i as int,
            )).push(src@[i as int]));
        }
        i = i + 1;
    }
}

/// Capacity of the scratch buffer of every `FindingCollection`: at least
/// twice the size of an input window, so that the worst-case expansion of a
/// decoding plus a prepended leftover always fits.
pub const OUTPUT_BUF_LEN: usize = 0x9192;

/// Extra space for the byte counter and the encoding name when a finding is
/// printed.
pub const OUTPUT_LINE_METADATA_LEN: usize = 40;

/// How precisely the byte position of a finding is known.
#[derive(Debug, Clone, Copy, PartialEq, Eq, Structural)]
pub enum Precision {
    /// The finding lies somewhere before the reported position.
    Before,
    /// The finding lies exactly at the reported position.
    Exact,
    /// The finding lies somewhere after the reported position, and before
    /// the position of the next finding of the same scanner.
    After,
}

/// One result string, decoded to UTF-8, with its location in the input
/// stream and the mission that found it.
#[derive(Debug, Clone)]
pub struct Finding {
    /// Origin of the input data: `None` for standard input, `Some(1)` for
    /// the first input file, `Some(2)` for the second, and so on.
    pub input_file_id: Option<u8>,

    /// The mission this finding belongs to.
    pub mission: Mission,

    /// Byte position of this finding in the input stream.
    pub position: ByteCounter,

    /// How precisely `position` locates the finding.
    pub position_precision: Precision,

    /// The found string, always valid UTF-8, whatever the original encoding
    /// was.
    pub s: Vec<u8>,

    /// The finding holds only the continuation of a finding that was cut at
    /// the end of the previous input window.
    pub s_completes_previous_s: bool,
}

/// The total preorder the merger sorts findings by: position first, then
/// mission id, then the unicode-block filter, then the ASCII filter, the
/// last on its bitwise complement for tie-breaks.
pub open spec fn finding_le(a: Finding, b: Finding) -> bool {
    if a.position != b.position {
        a.position < b.position
    } else if a.mission.mission_id != b.mission.mission_id {
        a.mission.mission_id < b.mission.mission_id
    } else if a.mission.filter.ubf != b.mission.filter.ubf {
        a.mission.filter.ubf < b.mission.filter.ubf
    } else {
        !a.mission.filter.af <= !b.mission.filter.af
    }
}

/// A sequence of findings is sorted when consecutive entries respect
/// [`finding_le`].
pub open spec fn findings_sorted(s: Seq<Finding>) -> bool {
    forall|i: int, j: int| 0 <= i <= j < s.len() ==> finding_le(#[trigger] s[i], #[trigger] s[j])
}

/// The position marker of a precision: `>` after, ` ` exact, `<` before.
pub open spec fn prec_byte(p: Precision) -> u8 {
    match p {
        Precision::After => 0x3e,
        Precision::Exact => 0x20,
        Precision::Before => 0x3c,
    }
}

/// The base a radix letter selects.
pub open spec fn radix_base(r: Radix) -> int {
    match r {
        Radix::O => 8,
        Radix::X => 16,
        Radix::D => 10,
    }
}

/// The input-source letter part of a record: the letter and a space, when
/// several inputs exist and metadata is on.
pub open spec fn src_part_spec(
    input_file_id: Option<u8>,
    multiple_inputs: bool,
    no_metadata: bool,
) -> Seq<u8> {
    if !no_metadata && multiple_inputs && input_file_id is Some {
        seq![(input_file_id.unwrap() + 64) as u8, 0x20u8]
    } else {
        Seq::empty()
    }
}

/// The position part of a record: the precision marker, the position in the
/// chosen radix, and the continuation marker, when a radix is chosen and
/// metadata is on.
pub open spec fn pos_part_spec(
    position: ByteCounter,
    precision: Precision,
    completes: bool,
    radix: Option<Radix>,
    no_metadata: bool,
) -> Seq<u8> {
    if !no_metadata && radix is Some {
        seq![prec_byte(precision)] + radix_repr(position as int, radix_base(radix.unwrap()))
            + seq![
            (if completes {
                0x2bu8
            } else {
                0x20u8
            }),
            0x09u8,
        ]
    } else {
        Seq::empty()
    }
}

/// The mission part of a record: the mission letter and the encoding label
/// in parentheses, when several missions exist and metadata is on.
pub open spec fn mission_part_spec(
    mission_id: u8,
    print_encoding_as_ascii: bool,
    multiple_missions: bool,
    no_metadata: bool,
    enc_name: Seq<u8>,
) -> Seq<u8> {
    if !no_metadata && multiple_missions {
        seq![0x28u8, (mission_id + 97) as u8, 0x20u8] + (if print_encoding_as_ascii {
            crate::names::name_ascii()
        } else {
            enc_name
        }) + seq![0x29u8, 0x09u8]
    } else {
        Seq::empty()
    }
}

/// The wire format of one finding: a newline; then, unless metadata is off:
/// the input-source letter when several inputs exist, the position in the
/// chosen radix between its precision marker and its continuation marker,
/// and the mission letter with its encoding label when several missions
/// exist; then the text.
pub open spec fn record_format(
    f: Finding,
    multiple_inputs: bool,
    multiple_missions: bool,
    radix: Option<Radix>,
    no_metadata: bool,
    enc_name: Seq<u8>,
) -> Seq<u8> {
    seq![0x0au8] + src_part_spec(f.input_file_id, multiple_inputs, no_metadata) + pos_part_spec(
        f.position,
        f.position_precision,
        f.s_completes_previous_s,
        radix,
        no_metadata,
    ) + mission_part_spec(
        f.mission.mission_id,
        f.mission.print_encoding_as_ascii,
        multiple_missions,
        no_metadata,
        enc_name,
    ) + f.s@
}

/// Builds the input-source letter part of a record.
fn src_part(input_file_id: Option<u8>, multiple_inputs: bool, no_metadata: bool) -> (r: Vec<u8>)
    requires
        input_file_id matches Some(i) ==> i <= 190,
    ensures
        r@ == src_part_spec(input_file_id, multiple_inputs, no_metadata),
{
    let mut out: Vec<u8> = Vec::new();
    if !no_metadata && multiple_inputs {
        match input_file_id {
            Option::Some(i) => {
                out.push(i + 64);
                out.push(0x20);
                proof {
                    assert(out@ =~= src_part_spec(input_file_id, multiple_inputs, no_metadata));
                }
            },
            Option::None => {},
        }
    }
    out
}

/// Builds the position part of a record.
fn pos_part(
    position: ByteCounter,
    precision: Precision,
    completes: bool,
    radix: Option<Radix>,
    no_metadata: bool,
) -> (r: Vec<u8>)
    ensures
        r@ == pos_part_spec(position, precision, completes, radix, no_metadata),
{
    let mut out: Vec<u8> = Vec::new();
    if !no_metadata {
        match radix {
            Option::Some(rx) => {
                let prec: u8 = match precision {
                    Precision::After => 0x3e,
                    Precision::Exact => 0x20,
                    Precision::Before => 0x3c,
                };
                out.push(prec);
                let base: u64 = match rx {
                    Radix::O => 8,
                    Radix::X => 16,
                    Radix::D => 10,
                };
                let digits = u64_to_radix(position, base);
                append_bytes(&mut out, digits.as_slice());
                if completes {
                    out.push(0x2b);
                } else {
                    out.push(0x20);
                }
                out.push(0x09);
                proof {
                    assert(out@ =~= pos_part_spec(position, precision, completes, radix,
                        no_metadata));
                }
            },
            Option::None => {},
        }
    }
    out
}

/// Builds the mission part of a record.
fn mission_part(
    mission_id: u8,
    print_encoding_as_ascii: bool,
    multiple_missions: bool,
    no_metadata: bool,
    enc_name: &[u8],
) -> (r: Vec<u8>)
    requires
        mission_id <= 158,
    ensures
        r@ == mission_part_spec(
            mission_id,
            print_encoding_as_ascii,
            multiple_missions,
            no_metadata,
            enc_name@,
        ),
{
    let mut out: Vec<u8> = Vec::new();
    if !no_metadata && multiple_missions {
        out.push(0x28);
        out.push(mission_id + 97);
        out.push(0x20);
        if print_encoding_as_ascii {
            let ascii = crate::names::make_name_ascii();
            append_bytes(&mut out, ascii.as_slice());
        } else {
            append_bytes(&mut out, enc_name);
        }
        out.push(0x29);
        out.push(0x09);
        proof {
            assert(out@ =~= mission_part_spec(
                mission_id,
                print_encoding_as_ascii,
                multiple_missions,
                no_metadata,
                enc_name@,
            ));
        }
    }
    out
}

impl Finding {
    /// Lays the finding out in the output wire format; `enc_name` is the
    /// canonical label of the mission's encoding, printed unless the
    /// mission emulates ASCII.
    pub fn format_record(
        &self,
        multiple_inputs: bool,
        multiple_missions: bool,
        radix: Option<Radix>,
        no_metadata: bool,
        enc_name: &[u8],
    ) -> (r: Vec<u8>)
        requires
            self.input_file_id matches Some(i) ==> i <= 190,
            self.mission.mission_id <= 158,
        ensures
            r@ == record_format(
                *self,
                multiple_inputs,
                multiple_missions,
                radix,
                no_metadata,
                enc_name@,
            ),
    {
        let mut out: Vec<u8> = Vec::new();
        out.push(0x0a);
        let p1 = src_part(self.input_file_id, multiple_inputs, no_metadata);
        append_bytes(&mut out, p1.as_slice());
        let p2 = pos_part(
            self.position,
            self.position_precision,
            self.s_completes_previous_s,
            radix,
            no_metadata,
        );
        append_bytes(&mut out, p2.as_slice());
        let p3 = mission_part(
            self.mission.mission_id,
            self.mission.print_encoding_as_ascii,
            multiple_missions,
            no_metadata,
            enc_name,
        );
        append_bytes(&mut out, p3.as_slice());
        append_bytes(&mut out, self.s.as_slice());
        proof {
            assert(out@ =~= record_format(
                *self,
                multiple_inputs,
                multiple_missions,
                radix,
                no_metadata,
                enc_name@,
            ));
        }
        out
    }
}

impl PartialEq for Finding {
    /// Findings are compared by position, precision, mission, filter and
    /// text.
    fn eq(&self, other: &Self) -> (r: bool) {
        let grep_eq = match (self.mission.filter.grep_char, other.mission.filter.grep_char) {
            (Option::Some(a), Option::Some(b)) => a == b,
            (Option::None, Option::None) => true,
            _ => false,
        };
        self.position == other.position && self.position_precision == other.position_precision
            && self.mission.mission_id == other.mission.mission_id && self.mission.filter.af
            == other.mission.filter.af && self.mission.filter.ubf == other.mission.filter.ubf
            && grep_eq && bytes_eq(self.s.as_slice(), other.s.as_slice())
    }
}

impl vstd::std_specs::cmp::PartialEqSpecImpl for Finding {
    open spec fn obeys_eq_spec() -> bool {
        true
    }

    open spec fn eq_spec(&self, other: &Finding) -> bool {
        &&& self.position == other.position
        &&& self.position_precision == other.position_precision
        &&& self.mission.mission_id == other.mission.mission_id
        &&& self.mission.filter.af == other.mission.filter.af
        &&& self.mission.filter.ubf == other.mission.filter.ubf
        &&& self.mission.filter.grep_char == other.mission.filter.grep_char
        &&& self.s@ == other.s@
    }
}

impl PartialOrd for Finding {
    /// The executable form of [`finding_le`], as the three-way comparison
    /// the merger relies on.
    fn partial_cmp(&self, other: &Self) -> (r: Option<core::cmp::Ordering>) {
        if self.position != other.position {
            if self.position < other.position {
                Option::Some(core::cmp::Ordering::Less)
            } else {
                Option::Some(core::cmp::Ordering::Greater)
            }
        } else if self.mission.mission_id != other.mission.mission_id {
            if self.mission.mission_id < other.mission.mission_id {
                Option::Some(core::cmp::Ordering::Less)
            } else {
                Option::Some(core::cmp::Ordering::Greater)
            }
        } else if self.mission.filter.ubf != other.mission.filter.ubf {
            if self.mission.filter.ubf < other.mission.filter.ubf {
                Option::Some(core::cmp::Ordering::Less)
            } else {
                Option::Some(core::cmp::Ordering::Greater)
            }
        } else {
            if !self.mission.filter.af < !other.mission.filter.af {
                Option::Some(core::cmp::Ordering::Less)
            } else if self.mission.filter.af == other.mission.filter.af {
                Option::Some(core::cmp::Ordering::Equal)
            } else {
                Option::Some(core::cmp::Ordering::Greater)
            }
        }
    }
}

impl vstd::std_specs::cmp::PartialOrdSpecImpl for Finding {
    open spec fn obeys_partial_cmp_spec() -> bool {
        true
    }

    open spec fn partial_cmp_spec(&self, other: &Finding) -> Option<core::cmp::Ordering> {
        if self.position != other.position {
            if self.position < other.position {
                Option::Some(core::cmp::Ordering::Less)
            } else {
                Option::Some(core::cmp::Ordering::Greater)
            }
        } else if self.mission.mission_id != other.mission.mission_id {
            if self.mission.mission_id < other.mission.mission_id {
                Option::Some(core::cmp::Ordering::Less)
            } else {
                Option::Some(core::cmp::Ordering::Greater)
            }
        } else if self.mission.filter.ubf != other.mission.filter.ubf {
            if self.mission.filter.ubf < other.mission.filter.ubf {
                Option::Some(core::cmp::Ordering::Less)
            } else {
                Option::Some(core::cmp::Ordering::Greater)
            }
        } else {
            if !self.mission.filter.af < !other.mission.filter.af {
                Option::Some(core::cmp::Ordering::Less)
            } else if self.mission.filter.af == other.mission.filter.af {
                Option::Some(core::cmp::Ordering::Equal)
            } else {
                Option::Some(core::cmp::Ordering::Greater)
            }
        }
    }
}

} // verus!

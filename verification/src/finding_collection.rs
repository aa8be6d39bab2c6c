//! The scan: decode one input window, split the decoded text against the
//! filter, and collect the findings.

use crate::encodings::{decode_step, new_decoder, DecodeStatus};
use crate::finding::{findings_sorted, Finding, Precision, OUTPUT_BUF_LEN};
use crate::helper::{
    all_pass, copy_bytes_range, count_chars, grep_sat, lemma_concat_valid, split_run,
    split_run_from, split_scan, SplitOutcome, SplitStr,
};
use crate::mission::{filter_wf, mission_wf, Mission};
use crate::scanner::{scanner_state_wf, ScannerState};
use crate::ByteCounter;
use vstd::prelude::*;
use vstd::utf8::valid_utf8;

verus! {

/// One decoder round as the scan's contract records it: the scratch range
/// whose decoded text the splitter walked, the flags the splitter was given,
/// and the position and first-fragment precision of the round's findings.
pub struct ScanRound {
    /// Start of the round's range in the scratch buffer.
    pub lo: int,
    /// End of the round's range in the scratch buffer.
    pub hi: int,
    /// The splitter was told the previous substring was maybe cut.
    pub continue_str: bool,
    /// The splitter was told invalid bytes follow the range.
    pub invalid_after: bool,
    /// The input position all of the round's findings report.
    pub position: ByteCounter,
    /// The precision of the round's first finding; later ones are `After`.
    pub prec0: Precision,
}

/// The splitter outcomes of one round: the full run over the round's
/// scratch range with the mission's parameters.
pub open spec fn round_entries(scratch: Seq<u8>, r: ScanRound, m: Mission) -> Seq<SplitOutcome> {
    split_run(
        scratch.subrange(r.lo, r.hi),
        m.filter,
        m.chars_min_nb as int,
        r.invalid_after,
        m.output_line_char_nb_max as int,
        0,
        0,
        r.continue_str,
    )
}

/// How many findings a round's outcomes contribute: all of them except a
/// deferred (to-be-refiltered) trailing substring.
pub open spec fn emitted_count(entries: Seq<SplitOutcome>) -> int
    decreases entries.len(),
{
    if entries.len() == 0 {
        0
    } else if entries[0].refilter {
        0
    } else {
        1 + emitted_count(entries.skip(1))
    }
}

/// The findings `vs` are exactly the emitted outcomes of one round, in
/// order: the text of the `k`-th finding is the `k`-th outcome's range of
/// the scratch buffer, at the round's position, the first with the round's
/// precision and the rest tagged `After`, with the outcome's continuation
/// flag.
pub open spec fn round_match(
    vs: Seq<Finding>,
    scratch: Seq<u8>,
    r: ScanRound,
    m: Mission,
    input_file_id: Option<u8>,
) -> bool {
    let e = round_entries(scratch, r, m);
    &&& vs.len() == emitted_count(e)
    &&& forall|k: int|
        0 <= k < vs.len() ==> {
            let f = #[trigger] vs[k];
            &&& f.s@ == scratch.subrange(r.lo + e[k].a, r.lo + e[k].b)
            &&& f.position == r.position
            &&& f.position_precision == (if k == 0 {
                r.prec0
            } else {
                Precision::After
            })
            &&& f.s_completes_previous_s == e[k].completes
            &&& f.mission == m
            &&& f.input_file_id == input_file_id
        }
}

/// The findings `v` are exactly the emitted splitter outcomes of the
/// recorded rounds, in round order.
pub open spec fn rounds_cover(
    v: Seq<Finding>,
    scratch: Seq<u8>,
    rounds: Seq<ScanRound>,
    m: Mission,
    input_file_id: Option<u8>,
) -> bool
    decreases rounds.len(),
{
    if rounds.len() == 0 {
        v.len() == 0
    } else {
        let n = emitted_count(round_entries(scratch, rounds[0], m));
        &&& n <= v.len()
        &&& round_match(v.take(n), scratch, rounds[0], m, input_file_id)
        &&& rounds_cover(v.skip(n), scratch, rounds.skip(1), m, input_file_id)
    }
}

/// Every recorded round lies within the first `bound` bytes of the scratch
/// buffer.
pub open spec fn rounds_within(rounds: Seq<ScanRound>, bound: int) -> bool {
    forall|j: int|
        0 <= j < rounds.len() ==> 0 <= (#[trigger] rounds[j]).lo <= rounds[j].hi <= bound
}

/// The emitted count never exceeds the number of outcomes, and no counted
/// outcome is a deferred one.
proof fn lemma_emitted_count_le(d: Seq<SplitOutcome>)
    ensures
        0 <= emitted_count(d) <= d.len(),
        forall|k: int| 0 <= k < emitted_count(d) ==> !(#[trigger] d[k]).refilter,
    decreases d.len(),
{
    if d.len() > 0 && !d[0].refilter {
        lemma_emitted_count_le(d.skip(1));
        assert forall|k: int| 0 <= k < emitted_count(d) implies !(#[trigger] d[k]).refilter by {
            if k > 0 {
                assert(d[k] == d.skip(1)[k - 1]);
                assert(!d.skip(1)[k - 1].refilter);
            }
        }
    }
}

/// A run without a deferred outcome counts completely.
proof fn lemma_emitted_count_all(d: Seq<SplitOutcome>)
    requires
        forall|j: int| 0 <= j < d.len() ==> !(#[trigger] d[j]).refilter,
    ensures
        emitted_count(d) == d.len(),
    decreases d.len(),
{
    if d.len() > 0 {
        assert(forall|j: int|
            0 <= j < d.skip(1).len() ==> #[trigger] d.skip(1)[j] == d[j + 1]);
        lemma_emitted_count_all(d.skip(1));
    }
}

/// A deferred outcome at the end does not count.
proof fn lemma_emitted_count_stop(d: Seq<SplitOutcome>, o: SplitOutcome)
    requires
        forall|j: int| 0 <= j < d.len() ==> !(#[trigger] d[j]).refilter,
        o.refilter,
    ensures
        emitted_count(d + seq![o]) == d.len(),
    decreases d.len(),
{
    if d.len() == 0 {
        assert(d + seq![o] =~= seq![o]);
    } else {
        assert((d + seq![o]).skip(1) =~= d.skip(1) + seq![o]);
        assert(forall|j: int|
            0 <= j < d.skip(1).len() ==> #[trigger] d.skip(1)[j] == d[j + 1]);
        lemma_emitted_count_stop(d.skip(1), o);
    }
}

/// Every outcome of a run lies within the searched buffer.
proof fn lemma_split_run_entry_bounds(
    inp: Seq<u8>,
    f: crate::mission::Utf8Filter,
    chars_min: int,
    invalid_after: bool,
    max: int,
    p: int,
    inp_start: int,
    last_cut: bool,
)
    requires
        0 <= inp_start,
        0 <= p <= inp.len(),
    ensures
        ({
            let run = split_run(inp, f, chars_min, invalid_after, max, p, inp_start, last_cut);
            forall|k: int|
                0 <= k < run.len() ==> 0 <= (#[trigger] run[k]).a <= run[k].b <= inp.len()
        }),
    decreases inp.len() - p,
{
    let t = crate::helper::split_scan(
        inp,
        f,
        chars_min,
        last_cut,
        inp_start,
        max,
        p,
        p,
        0,
        f.grep_char is None,
    );
    crate::helper::lemma_split_scan_bounds(
        inp,
        f,
        chars_min,
        last_cut,
        inp_start,
        max,
        p,
        p,
        0,
        f.grep_char is None,
    );
    let run = split_run(inp, f, chars_min, invalid_after, max, p, inp_start, last_cut);
    if run.len() > 0 {
        let nxt_start = if t.3 >= max {
            t.1
        } else {
            inp_start
        };
        let completes = last_cut && t.0 == inp_start;
        let maybe_cut = t.3 >= max || (t.1 == inp.len() && !invalid_after);
        lemma_split_run_entry_bounds(
            inp,
            f,
            chars_min,
            invalid_after,
            max,
            t.2,
            nxt_start,
            maybe_cut,
        );
        let rest = split_run(inp, f, chars_min, invalid_after, max, t.2, nxt_start, maybe_cut);
        assert(forall|k: int| 1 <= k < run.len() ==> #[trigger] run[k] == rest[k - 1]);
    }
}

/// Round outcomes do not depend on scratch bytes beyond `bound` when the
/// round lies below it.
proof fn lemma_round_entries_frame(
    s1: Seq<u8>,
    s2: Seq<u8>,
    r: ScanRound,
    m: Mission,
    bound: int,
)
    requires
        s1.len() == s2.len(),
        bound <= s1.len(),
        0 <= r.lo <= r.hi <= bound,
        forall|i: int| 0 <= i < bound ==> s1[i] == s2[i],
    ensures
        round_entries(s1, r, m) == round_entries(s2, r, m),
{
    assert(s1.subrange(r.lo, r.hi) =~= s2.subrange(r.lo, r.hi));
}

/// The recorded correspondence survives writes to the scratch buffer beyond
/// `bound`.
proof fn lemma_rounds_cover_frame(
    v: Seq<Finding>,
    s1: Seq<u8>,
    s2: Seq<u8>,
    rounds: Seq<ScanRound>,
    m: Mission,
    input_file_id: Option<u8>,
    bound: int,
)
    requires
        s1.len() == s2.len(),
        bound <= s1.len(),
        forall|i: int| 0 <= i < bound ==> s1[i] == s2[i],
        rounds_within(rounds, bound),
        rounds_cover(v, s1, rounds, m, input_file_id),
    ensures
        rounds_cover(v, s2, rounds, m, input_file_id),
    decreases rounds.len(),
{
    if rounds.len() > 0 {
        let r = rounds[0];
        lemma_round_entries_frame(s1, s2, r, m, bound);
        let e = round_entries(s1, r, m);
        let n = emitted_count(e);
        lemma_emitted_count_le(e);
        lemma_split_run_entry_bounds(
            s1.subrange(r.lo, r.hi),
            m.filter,
            m.chars_min_nb as int,
            r.invalid_after,
            m.output_line_char_nb_max as int,
            0,
            0,
            r.continue_str,
        );
        assert forall|k: int| 0 <= k < n implies #[trigger] v.take(n)[k].s@ == s2.subrange(
            r.lo + e[k].a,
            r.lo + e[k].b,
        ) by {
            assert(v.take(n)[k].s@ == s1.subrange(r.lo + e[k].a, r.lo + e[k].b));
            assert(r.lo + e[k].b <= r.hi);
            assert(s1.subrange(r.lo + e[k].a, r.lo + e[k].b) =~= s2.subrange(
                r.lo + e[k].a,
                r.lo + e[k].b,
            ));
        }
        assert(round_match(v.take(n), s2, r, m, input_file_id));
        assert(rounds_within(rounds.skip(1), bound)) by {
            assert(forall|j: int|
                0 <= j < rounds.skip(1).len() ==> #[trigger] rounds.skip(1)[j] == rounds[j + 1]);
        }
        lemma_rounds_cover_frame(
            v.skip(n),
            s1,
            s2,
            rounds.skip(1),
            m,
            input_file_id,
            bound,
        );
    }
}

/// Appending one matched round extends the correspondence.
proof fn lemma_rounds_cover_snoc(
    v1: Seq<Finding>,
    v2: Seq<Finding>,
    scratch: Seq<u8>,
    rounds: Seq<ScanRound>,
    r: ScanRound,
    m: Mission,
    input_file_id: Option<u8>,
)
    requires
        rounds_cover(v1, scratch, rounds, m, input_file_id),
        round_match(v2, scratch, r, m, input_file_id),
    ensures
        rounds_cover(v1 + v2, scratch, rounds.push(r), m, input_file_id),
    decreases rounds.len(),
{
    let rs = rounds.push(r);
    if rounds.len() == 0 {
        assert(v1.len() == 0);
        assert(v1 + v2 =~= v2);
        assert(rs[0] == r);
        let n = emitted_count(round_entries(scratch, r, m));
        assert(n == v2.len());
        assert(v2.take(n) =~= v2);
        assert(v2.skip(n) =~= Seq::<Finding>::empty());
        assert(rs.skip(1) =~= Seq::<ScanRound>::empty());
        assert(rounds_cover(v2.skip(n), scratch, rs.skip(1), m, input_file_id));
    } else {
        assert(rs[0] == rounds[0]);
        let n0 = emitted_count(round_entries(scratch, rounds[0], m));
        assert(n0 <= v1.len());
        assert((v1 + v2).take(n0) =~= v1.take(n0));
        assert((v1 + v2).skip(n0) =~= v1.skip(n0) + v2);
        assert(rs.skip(1) =~= rounds.skip(1).push(r));
        lemma_rounds_cover_snoc(
            v1.skip(n0),
            v2,
            scratch,
            rounds.skip(1),
            r,
            m,
            input_file_id,
        );
    }
}

/// What the scan guarantees of every finding it emits: the text is nonempty
/// valid UTF-8, every character passes the mission's filter, and the finding
/// meets the minimum-length and grep rules unless it completes a previous
/// finding.
pub open spec fn finding_ok(f: Finding) -> bool {
    &&& f.s@.len() > 0
    &&& valid_utf8(f.s@)
    &&& all_pass(f.mission.filter, f.s@)
    &&& (f.s_completes_previous_s || (count_chars(f.s@) >= f.mission.chars_min_nb && grep_sat(
        f.mission.filter.grep_char,
        f.s@,
    )))
}

/// The text `s` is a contiguous piece of `scratch` below `bound`.
pub open spec fn in_scratch_upto(s: Seq<u8>, scratch: Seq<u8>, bound: int) -> bool {
    exists|a: int, b: int|
        0 <= a <= b <= bound <= scratch.len() && s == scratch.subrange(a, b)
}

/// What holds of all findings a scan run has collected: they are sorted,
/// individually well formed, all of the scanning mission, their positions lie
/// in the scanned byte range, and their texts live in the scratch buffer.
pub open spec fn scan_findings_ok(
    fc: FindingCollection,
    m: Mission,
    input_file_id: Option<u8>,
    lo: ByteCounter,
    hi: int,
    bound: int,
) -> bool {
    &&& findings_sorted(fc.v@)
    &&& forall|i: int|
        0 <= i < fc.v@.len() ==> {
            let f = #[trigger] fc.v@[i];
            &&& finding_ok(f)
            &&& f.mission == m
            &&& f.input_file_id == input_file_id
            &&& lo <= f.position <= hi
            &&& in_scratch_upto(f.s@, fc.output_buffer_bytes@, bound)
        }
}

/// A set of findings in scan order, together with the scratch buffer that
/// holds the UTF-8 the decoder produced, which their texts were copied from.
pub struct FindingCollection {
    /// The findings, in scan order.
    pub v: Vec<Finding>,

    /// The position of the first byte this scan run looked at; all positions
    /// of findings refer to the same input stream.
    pub first_byte_position: ByteCounter,

    /// The buffer the decoder writes UTF-8 into during one scan run. It is
    /// allocated once with the fixed capacity `OUTPUT_BUF_LEN` and never
    /// grows, so the pieces of it that findings were read from stay in
    /// place.
    pub output_buffer_bytes: Vec<u8>,

    /// Set when the scratch buffer could not receive all decoder output; the
    /// findings of this window were discarded to make space.
    pub str_buf_overflow: bool,
}

impl FindingCollection {
    /// Allocates an empty collection whose positions start at `byte_offset`.
    pub fn new(byte_offset: ByteCounter) -> (fc: FindingCollection)
        ensures
            fc.v@.len() == 0,
            fc.first_byte_position == byte_offset,
            fc.output_buffer_bytes@.len() == OUTPUT_BUF_LEN,
            forall|i: int|
                0 <= i < fc.output_buffer_bytes@.len() ==> fc.output_buffer_bytes@[i] == 0u8,
            !fc.str_buf_overflow,
    {
        let mut buf: Vec<u8> = Vec::new();
        let mut i: usize = 0;
        while i < OUTPUT_BUF_LEN
            invariant
                buf@.len() == i,
                i <= OUTPUT_BUF_LEN,
                forall|j: int| 0 <= j < i ==> buf@[j] == 0u8,
            decreases OUTPUT_BUF_LEN - i,
        {
            buf.push(0u8);
            i = i + 1;
        }
        FindingCollection {
            v: Vec::new(),
            first_byte_position: byte_offset,
            output_buffer_bytes: buf,
            str_buf_overflow: false,
        }
    }

    /// Empties the collection after a scratch overflow and marks it
    /// incomplete.
    pub fn clear_and_mark_incomplete(&mut self)
        ensures
            final(self).v@.len() == 0,
            final(self).str_buf_overflow,
            final(self).first_byte_position == old(self).first_byte_position,
            final(self).output_buffer_bytes == old(self).output_buffer_bytes,
    {
        self.v.clear();
        self.str_buf_overflow = true;
    }

    /// Scans one input window: repeatedly decodes a sub-window to UTF-8 into
    /// the scratch buffer, splits the decoded text with [`SplitStr`] against
    /// the mission's filter, and collects the surviving substrings as
    /// findings. Residue — a decoder state, a deferred trailing substring,
    /// and the may-be-cut flag — is carried in the scanner state so that
    /// strings straddling window boundaries reassemble.
    ///
    /// The contract states the scan invariants: the byte counter advances by
    /// exactly the window's length, the collection starts at the old
    /// counter, its findings are sorted by position within the scanned
    /// range, each one is valid UTF-8 that passes the filter and meets the
    /// minimum-length and grep rules unless it completes a previous finding,
    /// every text is a piece of the scratch buffer, and a finding completing
    /// a previous one can only open the collection if the previous window
    /// ended in a maybe-cut finding. Beyond these invariants, the collection
    /// is tied to the splitter: unless the scratch overflowed, there is a
    /// record of decoder rounds under which the findings are exactly, round
    /// by round, the emitted outcomes of the [`split_run`] walk over each
    /// round's scratch range, with the round's position and precision
    /// tagging. What the rounds hold — which byte ranges the decoder filled
    /// — depends on the decoder's hidden state and stays outside the
    /// contract.
    #[verifier::rlimit(100)]
    pub fn from(
        ss: &mut ScannerState,
        input_file_id: Option<u8>,
        input_buffer: &[u8],
        is_last_input_buffer: bool,
    ) -> (fc: FindingCollection)
        requires
            scanner_state_wf(*old(ss)),
            old(ss).consumed_bytes + input_buffer@.len() <= u64::MAX,
        ensures
            scanner_state_wf(*final(ss)),
            final(ss).mission == old(ss).mission,
            final(ss).consumed_bytes == old(ss).consumed_bytes + input_buffer@.len(),
            fc.first_byte_position == old(ss).consumed_bytes,
            fc.output_buffer_bytes@.len() == OUTPUT_BUF_LEN,
            scan_findings_ok(
                fc,
                old(ss).mission,
                input_file_id,
                old(ss).consumed_bytes,
                old(ss).consumed_bytes + input_buffer@.len(),
                OUTPUT_BUF_LEN as int,
            ),
            !fc.str_buf_overflow && fc.v@.len() > 0 ==> (fc.v@[0].s_completes_previous_s ==> old(
                ss,
            ).last_run_str_was_printed_and_is_maybe_cut_str),
            !fc.str_buf_overflow ==> exists|rs: Seq<ScanRound>|
                rounds_within(rs, OUTPUT_BUF_LEN as int) && #[trigger] rounds_cover(
                    fc.v@,
                    fc.output_buffer_bytes@,
                    rs,
                    old(ss).mission,
                    input_file_id,
                ),
    {
        let ghost old_consumed = ss.consumed_bytes;
        let ghost old_last_run = ss.last_run_str_was_printed_and_is_maybe_cut_str;
        let ghost m = ss.mission;
        let ghost mut rounds: Seq<ScanRound> = Seq::empty();
        let mut fc = FindingCollection::new(ss.consumed_bytes);
        let mut extra_round = false;
        let mut decoder_input_start: usize = 0;
        let mut decoder_output_start: usize = 0;
        let mut last_window_leftover_len: usize = 0;
        if ss.last_scan_run_leftover.len() > 0 {
            let leftover_len = ss.last_scan_run_leftover.len();
            let mut k: usize = 0;
            while k < leftover_len
                invariant
                    scanner_state_wf(*ss),
                    leftover_len == ss.last_scan_run_leftover@.len(),
                    leftover_len <= 4 * ss.mission.output_line_char_nb_max,
                    mission_wf(ss.mission),
                    k <= leftover_len,
                    fc.v@.len() == 0,
                    fc.first_byte_position == old_consumed,
                    !fc.str_buf_overflow,
                    fc.output_buffer_bytes@.len() == OUTPUT_BUF_LEN,
                    forall|j: int|
                        0 <= j < k ==> fc.output_buffer_bytes@[j] == ss.last_scan_run_leftover@[j],
                decreases leftover_len - k,
            {
                let byte = ss.last_scan_run_leftover[k];
                fc.output_buffer_bytes[k] = byte;
                k = k + 1;
            }
            last_window_leftover_len = leftover_len;
            ss.last_scan_run_leftover = Vec::new();
            decoder_output_start = leftover_len;
            proof {
                assert(fc.output_buffer_bytes@.subrange(0, leftover_len as int)
                    =~= old(ss).last_scan_run_leftover@);
            }
        }
        let mut last_window_str_was_printed_and_is_maybe_cut_str =
            ss.last_run_str_was_printed_and_is_maybe_cut_str;
        let decoder_input_window = 2 * ss.mission.output_line_char_nb_max;
        while decoder_input_start < input_buffer.len()
            invariant
                mission_wf(m),
                ss.mission == m,
                ss.consumed_bytes == old_consumed,
                ss.last_scan_run_leftover@.len() == 0,
                old_consumed + input_buffer@.len() <= u64::MAX,
                decoder_input_window == 2 * m.output_line_char_nb_max,
                decoder_input_start <= input_buffer@.len(),
                fc.output_buffer_bytes@.len() == OUTPUT_BUF_LEN,
                fc.first_byte_position == old_consumed,
                last_window_leftover_len <= decoder_output_start <= OUTPUT_BUF_LEN,
                last_window_leftover_len <= 4 * m.output_line_char_nb_max,
                valid_utf8(
                    fc.output_buffer_bytes@.subrange(
                        decoder_output_start - last_window_leftover_len,
                        decoder_output_start as int,
                    ),
                ),
                scan_findings_ok(
                    fc,
                    m,
                    input_file_id,
                    old_consumed,
                    old_consumed + decoder_input_start,
                    decoder_output_start as int,
                ),
                !fc.str_buf_overflow && fc.v@.len() == 0 ==> (
                last_window_str_was_printed_and_is_maybe_cut_str ==> old_last_run),
                !fc.str_buf_overflow && fc.v@.len() > 0 ==> (fc.v@[0].s_completes_previous_s
                    ==> old_last_run),
                !fc.str_buf_overflow ==> rounds_within(rounds, decoder_output_start as int)
                    && rounds_cover(fc.v@, fc.output_buffer_bytes@, rounds, m, input_file_id),
            decreases input_buffer@.len() - decoder_input_start,
        {
            let decoder_input_end: usize;
            let is_last_window: bool;
            if input_buffer.len() - decoder_input_start > decoder_input_window {
                decoder_input_end = decoder_input_start + decoder_input_window;
                is_last_window = false;
            } else {
                decoder_input_end = input_buffer.len();
                is_last_window = true;
            }
            let ghost round_input_start = decoder_input_start;
            // A decoder call always makes progress on its input or its
            // pending state, so this bound is never reached; it gives the
            // round loop a measure, and a decoder that stalled anyway would
            // have the rest of the window skipped.
            let mut fuel: usize = (decoder_input_end - decoder_input_start) * 8 + 64;
            loop
                invariant
                    mission_wf(m),
                    ss.mission == m,
                    ss.consumed_bytes == old_consumed,
                    ss.last_scan_run_leftover@.len() == 0,
                    old_consumed + input_buffer@.len() <= u64::MAX,
                    round_input_start <= decoder_input_start <= decoder_input_end,
                    decoder_input_end <= input_buffer@.len(),
                    fc.output_buffer_bytes@.len() == OUTPUT_BUF_LEN,
                    fc.first_byte_position == old_consumed,
                    last_window_leftover_len <= decoder_output_start <= OUTPUT_BUF_LEN,
                    last_window_leftover_len <= 4 * m.output_line_char_nb_max,
                    valid_utf8(
                        fc.output_buffer_bytes@.subrange(
                            decoder_output_start - last_window_leftover_len,
                            decoder_output_start as int,
                        ),
                    ),
                    scan_findings_ok(
                        fc,
                        m,
                        input_file_id,
                        old_consumed,
                        old_consumed + decoder_input_start,
                        decoder_output_start as int,
                    ),
                    !fc.str_buf_overflow && fc.v@.len() == 0 ==> (
                    last_window_str_was_printed_and_is_maybe_cut_str ==> old_last_run),
                    !fc.str_buf_overflow && fc.v@.len() > 0 ==> (fc.v@[0].s_completes_previous_s
                        ==> old_last_run),
                    !fc.str_buf_overflow ==> rounds_within(rounds, decoder_output_start as int)
                        && rounds_cover(fc.v@, fc.output_buffer_bytes@, rounds, m, input_file_id),
                ensures
                    mission_wf(m),
                    ss.mission == m,
                    ss.consumed_bytes == old_consumed,
                    ss.last_scan_run_leftover@.len() == 0,
                    decoder_input_start == decoder_input_end,
                    decoder_input_end <= input_buffer@.len(),
                    fc.output_buffer_bytes@.len() == OUTPUT_BUF_LEN,
                    fc.first_byte_position == old_consumed,
                    last_window_leftover_len <= decoder_output_start <= OUTPUT_BUF_LEN,
                    last_window_leftover_len <= 4 * m.output_line_char_nb_max,
                    valid_utf8(
                        fc.output_buffer_bytes@.subrange(
                            decoder_output_start - last_window_leftover_len,
                            decoder_output_start as int,
                        ),
                    ),
                    scan_findings_ok(
                        fc,
                        m,
                        input_file_id,
                        old_consumed,
                        old_consumed + decoder_input_start,
                        decoder_output_start as int,
                    ),
                    !fc.str_buf_overflow && fc.v@.len() == 0 ==> (
                    last_window_str_was_printed_and_is_maybe_cut_str ==> old_last_run),
                    !fc.str_buf_overflow && fc.v@.len() > 0 ==> (fc.v@[0].s_completes_previous_s
                        ==> old_last_run),
                    !fc.str_buf_overflow ==> rounds_within(rounds, decoder_output_start as int)
                        && rounds_cover(fc.v@, fc.output_buffer_bytes@, rounds, m, input_file_id),
                decreases fuel,
            {
                if fuel == 0 {
                    decoder_input_start = decoder_input_end;
                    break ;
                }
                fuel = fuel - 1;
                let ghost scratch_before = fc.output_buffer_bytes@;
                let (decoder_result, decoder_read, decoder_written) = decode_step(
                    &mut ss.decoder,
                    input_buffer,
                    decoder_input_start,
                    decoder_input_end,
                    &mut fc.output_buffer_bytes,
                    decoder_output_start,
                    extra_round,
                );
                proof {
                    assert(fc.output_buffer_bytes@.subrange(
                        decoder_output_start - last_window_leftover_len,
                        decoder_output_start as int,
                    ) =~= scratch_before.subrange(
                        decoder_output_start - last_window_leftover_len,
                        decoder_output_start as int,
                    ));
                    assert forall|i: int| 0 <= i < fc.v@.len() implies in_scratch_upto(
                        (#[trigger] fc.v@[i]).s@,
                        fc.output_buffer_bytes@,
                        decoder_output_start as int,
                    ) by {
                        let (a, b) = choose|a: int, b: int|
                            0 <= a <= b <= decoder_output_start as int <= scratch_before.len()
                                && fc.v@[i].s@ == scratch_before.subrange(a, b);
                        assert(fc.output_buffer_bytes@.subrange(a, b) =~= scratch_before.subrange(
                            a,
                            b,
                        ));
                    }
                    if !fc.str_buf_overflow {
                        lemma_rounds_cover_frame(
                            fc.v@,
                            scratch_before,
                            fc.output_buffer_bytes@,
                            rounds,
                            m,
                            input_file_id,
                            decoder_output_start as int,
                        );
                    }
                }
                let mut position_precision = Precision::Exact;
                if decoder_written > 0 && decoder_input_start == 0 {
                    let first_decoded = fc.output_buffer_bytes[decoder_output_start];
                    if first_decoded & 0x80 == 0x80 {
                        let mut probe_decoder = new_decoder(ss.mission.encoding);
                        let mut probe_buf: Vec<u8> = Vec::new();
                        let mut z: usize = 0;
                        while z < 8
                            invariant
                                probe_buf@.len() == z,
                                z <= 8,
                            decreases 8 - z,
                        {
                            probe_buf.push(0u8);
                            z = z + 1;
                        }
                        let (_probe_result, _probe_read, probe_written) = decode_step(
                            &mut probe_decoder,
                            input_buffer,
                            0,
                            input_buffer.len(),
                            &mut probe_buf,
                            0,
                            true,
                        );
                        let mut same = probe_written > 0;
                        let mut q: usize = 0;
                        while q < probe_written
                            invariant
                                probe_written <= probe_buf@.len(),
                                probe_buf@.len() == 8,
                                q <= probe_written,
                                fc.output_buffer_bytes@.len() == OUTPUT_BUF_LEN,
                            decreases probe_written - q,
                        {
                            if fc.output_buffer_bytes[q] != probe_buf[q] {
                                same = false;
                            }
                            q = q + 1;
                        }
                        if !same {
                            position_precision = Precision::Before;
                        }
                    }
                }
                let mut split_str_start = decoder_output_start;
                let split_str_end = decoder_output_start + decoder_written;
                if last_window_leftover_len > 0 {
                    split_str_start = split_str_start - last_window_leftover_len;
                    last_window_leftover_len = 0;
                    position_precision = Precision::Before;
                }
                let invalid_bytes_after_split_str_buffer = (decoder_result
                    == DecodeStatus::Malformed) || (is_last_window && is_last_input_buffer);
                let continue_str_if_possible = last_window_str_was_printed_and_is_maybe_cut_str;
                last_window_str_was_printed_and_is_maybe_cut_str = false;
                proof {
                    assert(fc.output_buffer_bytes@.subrange(
                        split_str_start as int,
                        split_str_end as int,
                    ) =~= fc.output_buffer_bytes@.subrange(
                        split_str_start as int,
                        decoder_output_start as int,
                    ) + fc.output_buffer_bytes@.subrange(
                        decoder_output_start as int,
                        split_str_end as int,
                    ));
                    lemma_concat_valid(
                        fc.output_buffer_bytes@.subrange(
                            split_str_start as int,
                            decoder_output_start as int,
                        ),
                        fc.output_buffer_bytes@.subrange(
                            decoder_output_start as int,
                            split_str_end as int,
                        ),
                    );
                }
                let split_str_buffer = copy_bytes_range(
                    fc.output_buffer_bytes.as_slice(),
                    split_str_start,
                    split_str_end,
                );
                let mut iter = SplitStr::new(
                    split_str_buffer.as_slice(),
                    ss.mission.chars_min_nb,
                    continue_str_if_possible,
                    invalid_bytes_after_split_str_buffer,
                    ss.mission.filter,
                    ss.mission.output_line_char_nb_max,
                );
                let ghost pos_hi = old_consumed + decoder_input_start;
                let round_position = ss.consumed_bytes + (decoder_input_start as u64);
                let ghost round = ScanRound {
                    lo: split_str_start as int,
                    hi: split_str_end as int,
                    continue_str: continue_str_if_possible,
                    invalid_after: invalid_bytes_after_split_str_buffer,
                    position: round_position,
                    prec0: position_precision,
                };
                let ghost full_entries = split_run_from(
                    iter,
                    invalid_bytes_after_split_str_buffer,
                );
                let ghost mut done: Seq<SplitOutcome> = Seq::empty();
                let ghost mut refil_seen = false;
                let ghost mut refil_o = SplitOutcome {
                    a: 0,
                    b: 0,
                    completes: false,
                    maybe_cut: false,
                    refilter: true,
                };
                let ghost v_base = fc.v@.len() as int;
                proof {
                    assert(done + Seq::<SplitOutcome>::empty() + split_run_from(
                        iter,
                        round.invalid_after,
                    ) =~= full_entries);
                    assert(full_entries == split_run(
                        iter.inp@,
                        m.filter,
                        m.chars_min_nb as int,
                        round.invalid_after,
                        m.output_line_char_nb_max as int,
                        0,
                        0,
                        round.continue_str,
                    ));
                    assert(fc.v@.subrange(0, v_base) =~= fc.v@);
                }
                loop
                    invariant_except_break
                        full_entries == done + (if refil_seen {
                            seq![refil_o]
                        } else {
                            Seq::<SplitOutcome>::empty()
                        }) + split_run_from(iter, round.invalid_after),
                        refil_seen ==> split_run_from(iter, round.invalid_after) == Seq::<
                            SplitOutcome,
                        >::empty(),
                    invariant
                        mission_wf(m),
                        ss.mission == m,
                        ss.consumed_bytes == old_consumed,
                        old_consumed + input_buffer@.len() <= u64::MAX,
                        decoder_input_start <= input_buffer@.len(),
                        pos_hi == old_consumed + decoder_input_start,
                        crate::helper::split_str_wf(iter),
                        iter.invalid_bytes_after_inp == round.invalid_after,
                        iter.inp@ == fc.output_buffer_bytes@.subrange(
                            split_str_start as int,
                            split_str_end as int,
                        ),
                        iter.chars_min_nb == m.chars_min_nb,
                        iter.utf8f == m.filter,
                        iter.s_len_max == m.output_line_char_nb_max,
                        fc.output_buffer_bytes@.len() == OUTPUT_BUF_LEN,
                        fc.first_byte_position == old_consumed,
                        split_str_start <= split_str_end <= OUTPUT_BUF_LEN,
                        last_window_leftover_len <= split_str_end,
                        last_window_leftover_len <= 4 * m.output_line_char_nb_max,
                        valid_utf8(
                            fc.output_buffer_bytes@.subrange(
                                split_str_end - last_window_leftover_len,
                                split_str_end as int,
                            ),
                        ),
                        scan_findings_ok(
                            fc,
                            m,
                            input_file_id,
                            old_consumed,
                            pos_hi as int,
                            split_str_end as int,
                        ),
                        !fc.str_buf_overflow && fc.v@.len() == 0 ==> (
                        last_window_str_was_printed_and_is_maybe_cut_str ==> (
                        continue_str_if_possible && old_last_run)),
                        !fc.str_buf_overflow && fc.v@.len() == 0 ==> (iter.last_s_was_maybe_cut
                            && iter.p < iter.inp@.len() ==> (continue_str_if_possible
                            && old_last_run)),
                        !fc.str_buf_overflow && fc.v@.len() > 0 ==> (
                        fc.v@[0].s_completes_previous_s ==> old_last_run),
                        !fc.str_buf_overflow && fc.v@.len() == 0 ==> (continue_str_if_possible
                            ==> old_last_run),
                        round.lo == split_str_start as int,
                        round.hi == split_str_end as int,
                        round.position == old_consumed + decoder_input_start,
                        round.continue_str == continue_str_if_possible,
                        round.invalid_after == invalid_bytes_after_split_str_buffer,
                        refil_seen ==> refil_o.refilter,
                        full_entries == split_run(
                            iter.inp@,
                            m.filter,
                            m.chars_min_nb as int,
                            round.invalid_after,
                            m.output_line_char_nb_max as int,
                            0,
                            0,
                            round.continue_str,
                        ),
                        forall|j: int| 0 <= j < done.len() ==> !(#[trigger] done[j]).refilter,
                        0 <= v_base,
                        v_base + done.len() == fc.v@.len(),
                        forall|k: int|
                            0 <= k < done.len() ==> {
                                let f = #[trigger] fc.v@[v_base + k];
                                &&& f.s@ == fc.output_buffer_bytes@.subrange(
                                    round.lo + done[k].a,
                                    round.lo + done[k].b,
                                )
                                &&& f.position == round.position
                                &&& f.position_precision == (if k == 0 {
                                    round.prec0
                                } else {
                                    Precision::After
                                })
                                &&& f.s_completes_previous_s == done[k].completes
                                &&& f.mission == m
                                &&& f.input_file_id == input_file_id
                            },
                        done.len() == 0 && !refil_seen ==> position_precision == round.prec0,
                        (done.len() > 0 || refil_seen) ==> position_precision
                            == Precision::After,
                        !fc.str_buf_overflow ==> rounds_within(
                            rounds,
                            decoder_output_start as int,
                        ) && rounds_cover(
                            fc.v@.subrange(0, v_base),
                            fc.output_buffer_bytes@,
                            rounds,
                            m,
                            input_file_id,
                        ),
                    ensures
                        full_entries == done + (if refil_seen {
                            seq![refil_o]
                        } else {
                            Seq::<SplitOutcome>::empty()
                        }),
                        full_entries == split_run(
                            iter.inp@,
                            m.filter,
                            m.chars_min_nb as int,
                            round.invalid_after,
                            m.output_line_char_nb_max as int,
                            0,
                            0,
                            round.continue_str,
                        ),
                        iter.inp@ == fc.output_buffer_bytes@.subrange(
                            split_str_start as int,
                            split_str_end as int,
                        ),
                    decreases iter.inp@.len() - iter.p,
                {
                    let ghost it0 = iter;
                    let chunk_opt = iter.next();
                    match chunk_opt {
                        Option::None => {
                            proof {
                                assert(split_run_from(it0, round.invalid_after) == Seq::<
                                    SplitOutcome,
                                >::empty());
                                assert(full_entries =~= done + (if refil_seen {
                                    seq![refil_o]
                                } else {
                                    Seq::<SplitOutcome>::empty()
                                }));
                            }
                            break ;
                        },
                        Option::Some(chunk) => {
                            let ghost t = split_scan(
                                it0.inp@,
                                it0.utf8f,
                                it0.chars_min_nb as int,
                                it0.last_s_was_maybe_cut,
                                it0.inp_start as int,
                                it0.s_len_max as int,
                                it0.p as int,
                                it0.p as int,
                                0,
                                it0.utf8f.grep_char is None,
                            );
                            let ghost o = SplitOutcome {
                                a: t.0,
                                b: t.1,
                                completes: it0.last_s_was_maybe_cut && t.0 == it0.inp_start,
                                maybe_cut: t.3 >= it0.s_len_max || (t.1 == it0.inp@.len()
                                    && !round.invalid_after),
                                refilter: !(it0.last_s_was_maybe_cut && t.0 == it0.inp_start)
                                    && t.1 == it0.inp@.len() && !round.invalid_after && (t.3
                                    < it0.s_len_max || !t.4),
                            };
                            proof {
                                if refil_seen {
                                    assert(split_run_from(it0, round.invalid_after).len() >= 1);
                                    assert(false);
                                }
                                crate::helper::lemma_split_scan_bounds(
                                    it0.inp@,
                                    it0.utf8f,
                                    it0.chars_min_nb as int,
                                    it0.last_s_was_maybe_cut,
                                    it0.inp_start as int,
                                    it0.s_len_max as int,
                                    it0.p as int,
                                    it0.p as int,
                                    0,
                                    it0.utf8f.grep_char is None,
                                );
                                assert(split_run_from(it0, round.invalid_after) == seq![o]
                                    + split_run_from(iter, round.invalid_after));
                                assert(o.a == chunk.s_start && o.b == chunk.s_end);
                                assert(o.completes == chunk.s_completes_previous_s);
                                assert(o.refilter == chunk.s_is_to_be_filtered_again);
                                assert(o.maybe_cut == chunk.s_is_maybe_cut);
                                assert(full_entries =~= (done + seq![o]) + split_run_from(
                                    iter,
                                    round.invalid_after,
                                ));
                            }
                            proof {
                                assert(chunk.s@ == fc.output_buffer_bytes@.subrange(
                                    split_str_start + chunk.s_start,
                                    split_str_start + chunk.s_end,
                                )) by {
                                    assert(iter.inp@.subrange(
                                        chunk.s_start as int,
                                        chunk.s_end as int,
                                    ) =~= fc.output_buffer_bytes@.subrange(
                                        split_str_start + chunk.s_start,
                                        split_str_start + chunk.s_end,
                                    ));
                                }
                            }
                            if !chunk.s_is_to_be_filtered_again {
                                let position = ss.consumed_bytes + (decoder_input_start as u64);
                                let finding = Finding {
                                    input_file_id,
                                    mission: ss.mission,
                                    position,
                                    position_precision,
                                    s: chunk.s,
                                    s_completes_previous_s: chunk.s_completes_previous_s,
                                };
                                proof {
                                    assert(finding_ok(finding));
                                    assert(in_scratch_upto(
                                        finding.s@,
                                        fc.output_buffer_bytes@,
                                        split_str_end as int,
                                    )) by {
                                        let a = split_str_start + chunk.s_start;
                                        let b = split_str_start + chunk.s_end;
                                        assert(0 <= a <= b <= split_str_end as int
                                            <= fc.output_buffer_bytes@.len() && finding.s@
                                            == fc.output_buffer_bytes@.subrange(a, b));
                                    }
                                    assert forall|i: int|
                                        0 <= i < fc.v@.len() implies crate::finding::finding_le(
                                        #[trigger] fc.v@[i],
                                        finding,
                                    ) by {}
                                }
                                let ghost v_pre = fc.v@;
                                fc.v.push(finding);
                                proof {
                                    assert(fc.v@.subrange(0, v_base) =~= v_pre.subrange(
                                        0,
                                        v_base,
                                    ));
                                    assert(finding.position == round.position);
                                    assert forall|k: int|
                                        0 <= k < done.push(o).len() implies {
                                            let f = #[trigger] fc.v@[v_base + k];
                                            &&& f.s@ == fc.output_buffer_bytes@.subrange(
                                                round.lo + done.push(o)[k].a,
                                                round.lo + done.push(o)[k].b,
                                            )
                                            &&& f.position == round.position
                                            &&& f.position_precision == (if k == 0 {
                                                round.prec0
                                            } else {
                                                Precision::After
                                            })
                                            &&& f.s_completes_previous_s == done.push(
                                                o,
                                            )[k].completes
                                            &&& f.mission == m
                                            &&& f.input_file_id == input_file_id
                                        } by {
                                        if k < done.len() {
                                            assert(fc.v@[v_base + k] == v_pre[v_base + k]);
                                            assert(done.push(o)[k] == done[k]);
                                        } else {
                                            assert(fc.v@[v_base + k] == finding);
                                            assert(done.push(o)[k] == o);
                                        }
                                    }
                                    done = done.push(o);
                                }
                                last_window_leftover_len = 0;
                                last_window_str_was_printed_and_is_maybe_cut_str =
                                    chunk.s_is_maybe_cut;
                            } else {
                                proof {
                                    assert(chunk.s_end == iter.inp@.len());
                                    assert(split_str_start + chunk.s_end == split_str_end);
                                    assert(fc.output_buffer_bytes@.subrange(
                                        split_str_end - (chunk.s_end - chunk.s_start),
                                        split_str_end as int,
                                    ) == chunk.s@);
                                }
                                proof {
                                    refil_seen = true;
                                    refil_o = o;
                                    assert(iter.p == iter.inp@.len());
                                    assert(split_run_from(iter, round.invalid_after) == Seq::<
                                        SplitOutcome,
                                    >::empty());
                                }
                                last_window_leftover_len = chunk.s.len();
                                last_window_str_was_printed_and_is_maybe_cut_str = false;
                            }
                            position_precision = Precision::After;
                        },
                    }
                }
                decoder_output_start = decoder_output_start + decoder_written;
                decoder_input_start = decoder_input_start + decoder_read;
                proof {
                    assert(decoder_output_start == split_str_end);
                    if !fc.str_buf_overflow {
                        let scratch = fc.output_buffer_bytes@;
                        assert(scratch.subrange(round.lo, round.hi) == iter.inp@);
                        let e = round_entries(scratch, round, m);
                        assert(e == full_entries);
                        if refil_seen {
                            lemma_emitted_count_stop(done, refil_o);
                            assert(full_entries =~= done + seq![refil_o]);
                        } else {
                            lemma_emitted_count_all(done);
                            assert(full_entries =~= done);
                        }
                        assert(emitted_count(e) == done.len());
                        let vs = fc.v@.subrange(v_base, fc.v@.len() as int);
                        assert(vs.len() == emitted_count(e));
                        assert forall|k: int|
                            0 <= k < vs.len() implies {
                                let f = #[trigger] vs[k];
                                &&& f.s@ == scratch.subrange(round.lo + e[k].a, round.lo + e[k].b)
                                &&& f.position == round.position
                                &&& f.position_precision == (if k == 0 {
                                    round.prec0
                                } else {
                                    Precision::After
                                })
                                &&& f.s_completes_previous_s == e[k].completes
                                &&& f.mission == m
                                &&& f.input_file_id == input_file_id
                            } by {
                            assert(vs[k] == fc.v@[v_base + k]);
                            if refil_seen {
                                assert(e[k] == (done + seq![refil_o])[k]);
                            }
                            assert(e[k] == done[k]);
                            assert(fc.v@[v_base + k].s@ == fc.output_buffer_bytes@.subrange(
                                round.lo + done[k].a,
                                round.lo + done[k].b,
                            ));
                        }
                        assert(round_match(vs, scratch, round, m, input_file_id));
                        assert(fc.v@.subrange(0, v_base) + vs =~= fc.v@);
                        lemma_rounds_cover_snoc(
                            fc.v@.subrange(0, v_base),
                            vs,
                            scratch,
                            rounds,
                            round,
                            m,
                            input_file_id,
                        );
                        rounds = rounds.push(round);
                        assert forall|j: int|
                            0 <= j < rounds.len() implies 0 <= (#[trigger] rounds[j]).lo
                                <= rounds[j].hi <= decoder_output_start as int by {
                            if j < rounds.len() - 1 {
                                assert(rounds[j] == rounds.drop_last()[j]);
                            }
                        }
                    } else {
                        rounds = rounds.push(round);
                    }
                }
                match decoder_result {
                    DecodeStatus::InputEmpty => {
                        if is_last_window && is_last_input_buffer && !extra_round {
                            extra_round = true;
                        } else {
                            break ;
                        }
                    },
                    DecodeStatus::OutputFull => {
                        fc.clear_and_mark_incomplete();
                        decoder_output_start = 0;
                        last_window_leftover_len = 0;
                    },
                    DecodeStatus::Malformed => {},
                }
            }
        }
        let leftover = copy_bytes_range(
            fc.output_buffer_bytes.as_slice(),
            decoder_output_start - last_window_leftover_len,
            decoder_output_start,
        );
        ss.last_scan_run_leftover = leftover;
        ss.last_run_str_was_printed_and_is_maybe_cut_str =
            last_window_str_was_printed_and_is_maybe_cut_str;
        ss.consumed_bytes = ss.consumed_bytes + (decoder_input_start as u64);
        proof {
            if !fc.str_buf_overflow {
                assert(rounds_within(rounds, OUTPUT_BUF_LEN as int));
                assert(rounds_cover(fc.v@, fc.output_buffer_bytes@, rounds, m, input_file_id));
            }
        }
        fc
    }
}

} // verus!

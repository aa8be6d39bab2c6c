//! The per-mission scanner state that persists across input windows.

use crate::encodings::new_decoder;
use crate::mission::{mission_wf, missions_wf, Mission, Missions};
use crate::ByteCounter;
use vstd::prelude::*;
use vstd::utf8::valid_utf8;

verus! {

/// The mutable state of one scanner, kept between `scan` runs over
/// successive input windows.
pub struct ScannerState {
    /// The static instruction parameters of this scanner.
    pub mission: Mission,

    /// The decoder; it may hold bytes of a character that was cut at the end
    /// of the previous window in its internal state.
    pub decoder: encoding_rs::Decoder,

    /// A short string from the very end of the previous window whose fate
    /// could not be decided yet; it is re-examined in front of the next
    /// window.
    pub last_scan_run_leftover: Vec<u8>,

    /// The last printed string touched the right boundary of the previous
    /// window and may be cut; the first string of the next window may
    /// complete it.
    pub last_run_str_was_printed_and_is_maybe_cut_str: bool,

    /// Absolute counter of input-stream bytes: the offset of the next
    /// unprocessed input byte, starting at the mission's counter offset.
    pub consumed_bytes: ByteCounter,
}

/// The scanner state invariant: the mission is well formed and the leftover
/// is a short piece of valid UTF-8.
pub open spec fn scanner_state_wf(ss: ScannerState) -> bool {
    &&& mission_wf(ss.mission)
    &&& valid_utf8(ss.last_scan_run_leftover@)
    &&& ss.last_scan_run_leftover@.len() <= 4 * ss.mission.output_line_char_nb_max
}

impl ScannerState {
    /// Builds the initial state of a scanner for the given mission.
    pub fn new(mission: &Mission) -> (r: ScannerState)
        requires
            mission_wf(*mission),
        ensures
            scanner_state_wf(r),
            r.mission == *mission,
            r.consumed_bytes == mission.counter_offset,
            r.last_scan_run_leftover@.len() == 0,
            !r.last_run_str_was_printed_and_is_maybe_cut_str,
    {
        ScannerState {
            mission: *mission,
            decoder: new_decoder(mission.encoding),
            last_scan_run_leftover: Vec::new(),
            last_run_str_was_printed_and_is_maybe_cut_str: false,
            consumed_bytes: mission.counter_offset,
        }
    }
}

/// The scanner states of all missions of one run.
pub struct ScannerStates {
    /// One state per mission, in mission order.
    pub v: Vec<ScannerState>,
}

impl ScannerStates {
    /// Builds one initial scanner state for every mission.
    pub fn new(missions: &Missions) -> (r: ScannerStates)
        requires
            missions_wf(*missions),
        ensures
            r.v@.len() == missions.v@.len(),
            forall|i: int|
                0 <= i < r.v@.len() ==> (#[trigger] r.v@[i]).mission == missions.v@[i],
            forall|i: int| 0 <= i < r.v@.len() ==> scanner_state_wf(#[trigger] r.v@[i]),
            forall|i: int|
                0 <= i < r.v@.len() ==> (#[trigger] r.v@[i]).consumed_bytes
                    == missions.v@[i].counter_offset,
    {
        let mut v: Vec<ScannerState> = Vec::new();
        let mut i: usize = 0;
        while i < missions.v.len()
            invariant
                missions_wf(*missions),
                i <= missions.v@.len(),
                v@.len() == i,
                forall|j: int| 0 <= j < i ==> (#[trigger] v@[j]).mission == missions.v@[j],
                forall|j: int| 0 <= j < i ==> scanner_state_wf(#[trigger] v@[j]),
                forall|j: int|
                    0 <= j < i ==> (#[trigger] v@[j]).consumed_bytes
                        == missions.v@[j].counter_offset,
            decreases missions.v@.len() - i,
        {
            v.push(ScannerState::new(&missions.v[i]));
            i = i + 1;
        }
        ScannerStates { v }
    }
}

} // verus!

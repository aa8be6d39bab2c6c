//! Configuration surface: the parsed command-line arguments and their
//! defaults.

use vstd::prelude::*;

verus! {

/// Default value when no minimum character count is given.
pub const CHARS_MIN_DEFAULT: u8 = 4;

/// Default value when no counter offset is given.
pub const COUNTER_OFFSET_DEFAULT: u64 = 0;

/// Default value when no output line length is given.
pub const OUTPUT_LINE_CHAR_NB_MAX_DEFAULT: usize = 64;

/// Hard minimum for the output line length: there must be space for at least
/// three long Unicode characters to guarantee progress in streaming.
pub const OUTPUT_LINE_CHAR_NB_MIN: usize = 6;

/// Hard maximum for the output line length, forced by the fixed capacity of
/// the scratch buffer every finding collection allocates.
pub const OUTPUT_LINE_CHAR_NB_MAX_LIMIT: usize = 4096;

/// The parsed command-line options, handed to the library as plain values.
/// The numeric options stay in their textual form here; `Missions::new`
/// parses and validates them.
#[derive(Debug, Clone, PartialEq)]
pub struct Args {
    /// Filter applied after decoding: the ASCII half, as a name or a literal
    /// mask.
    pub ascii_filter: Option<Vec<u8>>,
    /// Never print byte counter, encoding or filter.
    pub no_metadata: bool,
    /// Show how the command-line options are interpreted.
    pub debug_option: bool,
    /// Paths of the files to scan, or a single "-" for standard input.
    pub inputs: Vec<Vec<u8>>,
    /// The encoding specifications to search for.
    pub encoding: Vec<Vec<u8>>,
    /// Grep for this ASCII code in output lines.
    pub grep_char: Option<Vec<u8>>,
    /// List predefined encoding and filter names.
    pub list_encodings: bool,
    /// Minimum characters of printed strings.
    pub chars_min: Option<Vec<u8>>,
    /// Require the characters of a finding to share one Unicode block.
    pub same_unicode_block: bool,
    /// Print to this file instead of standard output.
    pub output: Option<Vec<u8>>,
    /// Output line length in Unicode code points.
    pub output_line_len: Option<Vec<u8>>,
    /// Start counting input bytes at this number.
    pub counter_offset: Option<Vec<u8>>,
    /// Radix of the printed byte counter.
    pub radix: Option<Radix>,
    /// Filter applied after decoding: the Unicode-block half, as a name or a
    /// literal mask.
    pub unicode_block_filter: Option<Vec<u8>>,
    /// Print the version and exit.
    pub version: bool,
}

/// Radix of the byte counter when printed.
#[derive(Debug, Hash, Clone, Eq, PartialEq, Copy, Structural)]
pub enum Radix {
    /// Octal.
    O,
    /// Hexadecimal.
    X,
    /// Decimal.
    D,
}

impl Radix {
    /// Parses a radix letter, upper or lower case.
    pub fn from_byte(rad: u8) -> (r: Result<Radix, ()>)
        ensures
            r == Ok::<Radix, ()>(Radix::O) <==> (rad == 0x6f || rad == 0x4f),
            r == Ok::<Radix, ()>(Radix::X) <==> (rad == 0x78 || rad == 0x58),
            r == Ok::<Radix, ()>(Radix::D) <==> (rad == 0x64 || rad == 0x44),
            r is Err <==> !(rad == 0x6f || rad == 0x4f || rad == 0x78 || rad == 0x58 || rad
                == 0x64 || rad == 0x44),
    {
        if rad == 0x6f || rad == 0x4f {
            Ok(Radix::O)
        } else if rad == 0x78 || rad == 0x58 {
            Ok(Radix::X)
        } else if rad == 0x64 || rad == 0x44 {
            Ok(Radix::D)
        } else {
            Err(())
        }
    }
}

} // verus!

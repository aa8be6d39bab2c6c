//! The byte names the configuration layer recognizes: filter alias names and
//! encoding labels, each as a spec sequence with its run-time builder.

use vstd::prelude::*;

verus! {

/// `p` is a prefix of `s`.
pub open spec fn is_prefix_of(p: Seq<u8>, s: Seq<u8>) -> bool {
    p.len() <= s.len() && p == s.subrange(0, p.len() as int)
}

/// Executable form of [`is_prefix_of`].
pub fn is_prefix(p: &[u8], s: &[u8]) -> (r: bool)
    ensures
        r == is_prefix_of(p@, s@),
{
    if p.len() > s.len() {
        return false;
    }
    let mut i: usize = 0;
    while i < p.len()
        invariant
            i <= p@.len() <= s@.len(),
            forall|j: int| 0 <= j < i ==> p@[j] == s@[j],
        decreases p@.len() - i,
    {
        if p[i] != s[i] {
            proof {
                assert(p@ != s@.subrange(0, p@.len() as int));
            }
            return false;
        }
        i = i + 1;
    }
    proof {
        assert(p@ =~= s@.subrange(0, p@.len() as int));
    }
    true
}

/// The alias name `African` as a byte sequence.
pub open spec fn name_african() -> Seq<u8> {
    seq![0x41u8, 0x66u8, 0x72u8, 0x69u8, 0x63u8, 0x61u8, 0x6eu8]
}

/// Builds the alias name `African` at run time.
pub fn make_name_african() -> (r: Vec<u8>)
    ensures
        r@ == name_african(),
{
    let mut v: Vec<u8> = Vec::new();
    v.push(0x41);
    v.push(0x66);
    v.push(0x72);
    v.push(0x69);
    v.push(0x63);
    v.push(0x61);
    v.push(0x6e);
    proof {
        assert(v@ =~= name_african());
    }
    v
}

/// The alias name `All-Asian` as a byte sequence.
pub open spec fn name_all_asian() -> Seq<u8> {
    seq![0x41u8, 0x6cu8, 0x6cu8, 0x2du8, 0x41u8, 0x73u8, 0x69u8, 0x61u8, 0x6eu8]
}

/// Builds the alias name `All-Asian` at run time.
pub fn make_name_all_asian() -> (r: Vec<u8>)
    ensures
        r@ == name_all_asian(),
{
    let mut v: Vec<u8> = Vec::new();
    v.push(0x41);
    v.push(0x6c);
    v.push(0x6c);
    v.push(0x2d);
    v.push(0x41);
    v.push(0x73);
    v.push(0x69);
    v.push(0x61);
    v.push(0x6e);
    proof {
        assert(v@ =~= name_all_asian());
    }
    v
}

/// The alias name `All` as a byte sequence.
pub open spec fn name_all() -> Seq<u8> {
    seq![0x41u8, 0x6cu8, 0x6cu8]
}

/// Builds the alias name `All` at run time.
pub fn make_name_all() -> (r: Vec<u8>)
    ensures
        r@ == name_all(),
{
    let mut v: Vec<u8> = Vec::new();
    v.push(0x41);
    v.push(0x6c);
    v.push(0x6c);
    proof {
        assert(v@ =~= name_all());
    }
    v
}

/// The alias name `Arabic` as a byte sequence.
pub open spec fn name_arabic() -> Seq<u8> {
    seq![0x41u8, 0x72u8, 0x61u8, 0x62u8, 0x69u8, 0x63u8]
}

/// Builds the alias name `Arabic` at run time.
pub fn make_name_arabic() -> (r: Vec<u8>)
    ensures
        r@ == name_arabic(),
{
    let mut v: Vec<u8> = Vec::new();
    v.push(0x41);
    v.push(0x72);
    v.push(0x61);
    v.push(0x62);
    v.push(0x69);
    v.push(0x63);
    proof {
        assert(v@ =~= name_arabic());
    }
    v
}

/// The alias name `Armenian` as a byte sequence.
pub open spec fn name_armenian() -> Seq<u8> {
    seq![0x41u8, 0x72u8, 0x6du8, 0x65u8, 0x6eu8, 0x69u8, 0x61u8, 0x6eu8]
}

/// Builds the alias name `Armenian` at run time.
pub fn make_name_armenian() -> (r: Vec<u8>)
    ensures
        r@ == name_armenian(),
{
    let mut v: Vec<u8> = Vec::new();
    v.push(0x41);
    v.push(0x72);
    v.push(0x6d);
    v.push(0x65);
    v.push(0x6e);
    v.push(0x69);
    v.push(0x61);
    v.push(0x6e);
    proof {
        assert(v@ =~= name_armenian());
    }
    v
}

/// The alias name `Asian` as a byte sequence.
pub open spec fn name_asian() -> Seq<u8> {
    seq![0x41u8, 0x73u8, 0x69u8, 0x61u8, 0x6eu8]
}

/// Builds the alias name `Asian` at run time.
pub fn make_name_asian() -> (r: Vec<u8>)
    ensures
        r@ == name_asian(),
{
    let mut v: Vec<u8> = Vec::new();
    v.push(0x41);
    v.push(0x73);
    v.push(0x69);
    v.push(0x61);
    v.push(0x6e);
    proof {
        assert(v@ =~= name_asian());
    }
    v
}

/// The alias name `Cjk` as a byte sequence.
pub open spec fn name_cjk() -> Seq<u8> {
    seq![0x43u8, 0x6au8, 0x6bu8]
}

/// Builds the alias name `Cjk` at run time.
pub fn make_name_cjk() -> (r: Vec<u8>)
    ensures
        r@ == name_cjk(),
{
    let mut v: Vec<u8> = Vec::new();
    v.push(0x43);
    v.push(0x6a);
    v.push(0x6b);
    proof {
        assert(v@ =~= name_cjk());
    }
    v
}

/// The alias name `Common` as a byte sequence.
pub open spec fn name_common() -> Seq<u8> {
    seq![0x43u8, 0x6fu8, 0x6du8, 0x6du8, 0x6fu8, 0x6eu8]
}

/// Builds the alias name `Common` at run time.
pub fn make_name_common() -> (r: Vec<u8>)
    ensures
        r@ == name_common(),
{
    let mut v: Vec<u8> = Vec::new();
    v.push(0x43);
    v.push(0x6f);
    v.push(0x6d);
    v.push(0x6d);
    v.push(0x6f);
    v.push(0x6e);
    proof {
        assert(v@ =~= name_common());
    }
    v
}

/// The alias name `Cyrillic` as a byte sequence.
pub open spec fn name_cyrillic() -> Seq<u8> {
    seq![0x43u8, 0x79u8, 0x72u8, 0x69u8, 0x6cu8, 0x6cu8, 0x69u8, 0x63u8]
}

/// Builds the alias name `Cyrillic` at run time.
pub fn make_name_cyrillic() -> (r: Vec<u8>)
    ensures
        r@ == name_cyrillic(),
{
    let mut v: Vec<u8> = Vec::new();
    v.push(0x43);
    v.push(0x79);
    v.push(0x72);
    v.push(0x69);
    v.push(0x6c);
    v.push(0x6c);
    v.push(0x69);
    v.push(0x63);
    proof {
        assert(v@ =~= name_cyrillic());
    }
    v
}

/// The alias name `Default` as a byte sequence.
pub open spec fn name_default() -> Seq<u8> {
    seq![0x44u8, 0x65u8, 0x66u8, 0x61u8, 0x75u8, 0x6cu8, 0x74u8]
}

/// Builds the alias name `Default` at run time.
pub fn make_name_default() -> (r: Vec<u8>)
    ensures
        r@ == name_default(),
{
    let mut v: Vec<u8> = Vec::new();
    v.push(0x44);
    v.push(0x65);
    v.push(0x66);
    v.push(0x61);
    v.push(0x75);
    v.push(0x6c);
    v.push(0x74);
    proof {
        assert(v@ =~= name_default());
    }
    v
}

/// The alias name `Greek` as a byte sequence.
pub open spec fn name_greek() -> Seq<u8> {
    seq![0x47u8, 0x72u8, 0x65u8, 0x65u8, 0x6bu8]
}

/// Builds the alias name `Greek` at run time.
pub fn make_name_greek() -> (r: Vec<u8>)
    ensures
        r@ == name_greek(),
{
    let mut v: Vec<u8> = Vec::new();
    v.push(0x47);
    v.push(0x72);
    v.push(0x65);
    v.push(0x65);
    v.push(0x6b);
    proof {
        assert(v@ =~= name_greek());
    }
    v
}

/// The alias name `Hangul` as a byte sequence.
pub open spec fn name_hangul() -> Seq<u8> {
    seq![0x48u8, 0x61u8, 0x6eu8, 0x67u8, 0x75u8, 0x6cu8]
}

/// Builds the alias name `Hangul` at run time.
pub fn make_name_hangul() -> (r: Vec<u8>)
    ensures
        r@ == name_hangul(),
{
    let mut v: Vec<u8> = Vec::new();
    v.push(0x48);
    v.push(0x61);
    v.push(0x6e);
    v.push(0x67);
    v.push(0x75);
    v.push(0x6c);
    proof {
        assert(v@ =~= name_hangul());
    }
    v
}

/// The alias name `Hebrew` as a byte sequence.
pub open spec fn name_hebrew() -> Seq<u8> {
    seq![0x48u8, 0x65u8, 0x62u8, 0x72u8, 0x65u8, 0x77u8]
}

/// Builds the alias name `Hebrew` at run time.
pub fn make_name_hebrew() -> (r: Vec<u8>)
    ensures
        r@ == name_hebrew(),
{
    let mut v: Vec<u8> = Vec::new();
    v.push(0x48);
    v.push(0x65);
    v.push(0x62);
    v.push(0x72);
    v.push(0x65);
    v.push(0x77);
    proof {
        assert(v@ =~= name_hebrew());
    }
    v
}

/// The alias name `Kana` as a byte sequence.
pub open spec fn name_kana() -> Seq<u8> {
    seq![0x4bu8, 0x61u8, 0x6eu8, 0x61u8]
}

/// Builds the alias name `Kana` at run time.
pub fn make_name_kana() -> (r: Vec<u8>)
    ensures
        r@ == name_kana(),
{
    let mut v: Vec<u8> = Vec::new();
    v.push(0x4b);
    v.push(0x61);
    v.push(0x6e);
    v.push(0x61);
    proof {
        assert(v@ =~= name_kana());
    }
    v
}

/// The alias name `Latin` as a byte sequence.
pub open spec fn name_latin() -> Seq<u8> {
    seq![0x4cu8, 0x61u8, 0x74u8, 0x69u8, 0x6eu8]
}

/// Builds the alias name `Latin` at run time.
pub fn make_name_latin() -> (r: Vec<u8>)
    ensures
        r@ == name_latin(),
{
    let mut v: Vec<u8> = Vec::new();
    v.push(0x4c);
    v.push(0x61);
    v.push(0x74);
    v.push(0x69);
    v.push(0x6e);
    proof {
        assert(v@ =~= name_latin());
    }
    v
}

/// The alias name `None` as a byte sequence.
pub open spec fn name_none() -> Seq<u8> {
    seq![0x4eu8, 0x6fu8, 0x6eu8, 0x65u8]
}

/// Builds the alias name `None` at run time.
pub fn make_name_none() -> (r: Vec<u8>)
    ensures
        r@ == name_none(),
{
    let mut v: Vec<u8> = Vec::new();
    v.push(0x4e);
    v.push(0x6f);
    v.push(0x6e);
    v.push(0x65);
    proof {
        assert(v@ =~= name_none());
    }
    v
}

/// The alias name `Private` as a byte sequence.
pub open spec fn name_private() -> Seq<u8> {
    seq![0x50u8, 0x72u8, 0x69u8, 0x76u8, 0x61u8, 0x74u8, 0x65u8]
}

/// Builds the alias name `Private` at run time.
pub fn make_name_private() -> (r: Vec<u8>)
    ensures
        r@ == name_private(),
{
    let mut v: Vec<u8> = Vec::new();
    v.push(0x50);
    v.push(0x72);
    v.push(0x69);
    v.push(0x76);
    v.push(0x61);
    v.push(0x74);
    v.push(0x65);
    proof {
        assert(v@ =~= name_private());
    }
    v
}

/// The alias name `Uncommon` as a byte sequence.
pub open spec fn name_uncommon() -> Seq<u8> {
    seq![0x55u8, 0x6eu8, 0x63u8, 0x6fu8, 0x6du8, 0x6du8, 0x6fu8, 0x6eu8]
}

/// Builds the alias name `Uncommon` at run time.
pub fn make_name_uncommon() -> (r: Vec<u8>)
    ensures
        r@ == name_uncommon(),
{
    let mut v: Vec<u8> = Vec::new();
    v.push(0x55);
    v.push(0x6e);
    v.push(0x63);
    v.push(0x6f);
    v.push(0x6d);
    v.push(0x6d);
    v.push(0x6f);
    v.push(0x6e);
    proof {
        assert(v@ =~= name_uncommon());
    }
    v
}

/// The alias name `All-Ctrl` as a byte sequence.
pub open spec fn name_all_ctrl() -> Seq<u8> {
    seq![0x41u8, 0x6cu8, 0x6cu8, 0x2du8, 0x43u8, 0x74u8, 0x72u8, 0x6cu8]
}

/// Builds the alias name `All-Ctrl` at run time.
pub fn make_name_all_ctrl() -> (r: Vec<u8>)
    ensures
        r@ == name_all_ctrl(),
{
    let mut v: Vec<u8> = Vec::new();
    v.push(0x41);
    v.push(0x6c);
    v.push(0x6c);
    v.push(0x2d);
    v.push(0x43);
    v.push(0x74);
    v.push(0x72);
    v.push(0x6c);
    proof {
        assert(v@ =~= name_all_ctrl());
    }
    v
}

/// The alias name `All-Ctrl+Wsp` as a byte sequence.
pub open spec fn name_all_ctrl_wsp() -> Seq<u8> {
    seq![0x41u8, 0x6cu8, 0x6cu8, 0x2du8, 0x43u8, 0x74u8, 0x72u8, 0x6cu8, 0x2bu8, 0x57u8, 0x73u8, 0x70u8]
}

/// Builds the alias name `All-Ctrl+Wsp` at run time.
pub fn make_name_all_ctrl_wsp() -> (r: Vec<u8>)
    ensures
        r@ == name_all_ctrl_wsp(),
{
    let mut v: Vec<u8> = Vec::new();
    v.push(0x41);
    v.push(0x6c);
    v.push(0x6c);
    v.push(0x2d);
    v.push(0x43);
    v.push(0x74);
    v.push(0x72);
    v.push(0x6c);
    v.push(0x2b);
    v.push(0x57);
    v.push(0x73);
    v.push(0x70);
    proof {
        assert(v@ =~= name_all_ctrl_wsp());
    }
    v
}

/// The alias name `Wsp` as a byte sequence.
pub open spec fn name_wsp() -> Seq<u8> {
    seq![0x57u8, 0x73u8, 0x70u8]
}

/// Builds the alias name `Wsp` at run time.
pub fn make_name_wsp() -> (r: Vec<u8>)
    ensures
        r@ == name_wsp(),
{
    let mut v: Vec<u8> = Vec::new();
    v.push(0x57);
    v.push(0x73);
    v.push(0x70);
    proof {
        assert(v@ =~= name_wsp());
    }
    v
}

/// The alias name `ascii` as a byte sequence.
pub open spec fn name_ascii() -> Seq<u8> {
    seq![0x61u8, 0x73u8, 0x63u8, 0x69u8, 0x69u8]
}

/// Builds the alias name `ascii` at run time.
pub fn make_name_ascii() -> (r: Vec<u8>)
    ensures
        r@ == name_ascii(),
{
    let mut v: Vec<u8> = Vec::new();
    v.push(0x61);
    v.push(0x73);
    v.push(0x63);
    v.push(0x69);
    v.push(0x69);
    proof {
        assert(v@ =~= name_ascii());
    }
    v
}

/// The alias name `x-user-defined` as a byte sequence.
pub open spec fn name_x_user_defined() -> Seq<u8> {
    seq![0x78u8, 0x2du8, 0x75u8, 0x73u8, 0x65u8, 0x72u8, 0x2du8, 0x64u8, 0x65u8, 0x66u8, 0x69u8, 0x6eu8, 0x65u8, 0x64u8]
}

/// Builds the alias name `x-user-defined` at run time.
pub fn make_name_x_user_defined() -> (r: Vec<u8>)
    ensures
        r@ == name_x_user_defined(),
{
    let mut v: Vec<u8> = Vec::new();
    v.push(0x78);
    v.push(0x2d);
    v.push(0x75);
    v.push(0x73);
    v.push(0x65);
    v.push(0x72);
    v.push(0x2d);
    v.push(0x64);
    v.push(0x65);
    v.push(0x66);
    v.push(0x69);
    v.push(0x6e);
    v.push(0x65);
    v.push(0x64);
    proof {
        assert(v@ =~= name_x_user_defined());
    }
    v
}

/// The alias name `UTF-8` as a byte sequence.
pub open spec fn name_utf8_default() -> Seq<u8> {
    seq![0x55u8, 0x54u8, 0x46u8, 0x2du8, 0x38u8]
}

/// Builds the alias name `UTF-8` at run time.
pub fn make_name_utf8_default() -> (r: Vec<u8>)
    ensures
        r@ == name_utf8_default(),
{
    let mut v: Vec<u8> = Vec::new();
    v.push(0x55);
    v.push(0x54);
    v.push(0x46);
    v.push(0x2d);
    v.push(0x38);
    proof {
        assert(v@ =~= name_utf8_default());
    }
    v
}

} // verus!

//! The moment of a run, in the two notations that a snapshot carries.

use crate::text::{has_prefix, has_suffix};
use chrono::Datelike;
use vstd::prelude::*;

verus! {

/// A local date and time, to the second, as text.
#[derive(Debug, Clone)]
pub struct Timestamp {
    /// The year of the proleptic Gregorian calendar.
    pub year: i32,
    /// The notation shown in a document: `2024-01-31 09:05:00`.
    pub display: String,
    /// The notation used in file names: `20240131_090500`.
    pub file_stamp: String,
}

/// The pattern of the notation shown in a document.
pub open spec fn display_pattern() -> Seq<char> {
    "%Y-%m-%d %H:%M:%S"@
}

/// The pattern of the notation used in file names.
pub open spec fn file_pattern() -> Seq<char> {
    "%Y%m%d_%H%M%S"@
}

/// Whether `s[from..to]` holds decimal digits only.
pub open spec fn digits_at(s: Seq<char>, from: int, to: int) -> bool {
    forall|i: int| from <= i < to ==> '0' <= #[trigger] s[i] <= '9'
}

/// Whether `s` has the shape of the notation shown in a document: four
/// digits, and five times two, with `-`, `-`, a blank, `:` and `:` between
/// them.
pub open spec fn display_shaped(s: Seq<char>) -> bool {
    &&& s.len() == 19
    &&& digits_at(s, 0, 4) && s[4] == '-'
    &&& digits_at(s, 5, 7) && s[7] == '-'
    &&& digits_at(s, 8, 10) && s[10] == ' '
    &&& digits_at(s, 11, 13) && s[13] == ':'
    &&& digits_at(s, 14, 16) && s[16] == ':'
    &&& digits_at(s, 17, 19)
}

/// Whether `s` has the shape of the notation used in file names: eight
/// digits, `_`, six digits.
pub open spec fn file_stamp_shaped(s: Seq<char>) -> bool {
    &&& s.len() == 15
    &&& digits_at(s, 0, 8)
    &&& s[8] == '_'
    &&& digits_at(s, 9, 15)
}

/// The current local date and time, written after the two patterns.
///
/// Trusted: `chrono::Local::now`, `chrono::DateTime::format` and
/// `chrono::Datelike::year`. For a year of four digits at most, `%Y` gives
/// four digits and `%m`, `%d`, `%H`, `%M` and `%S` give two digits each,
/// all padded with zeros; the other characters of a pattern are copied.
/// Nothing is claimed of other years, which carry a sign. The patterns
/// are bound to the two of this module, on which `format` cannot fail. The
/// call panics where the system clock stands before 1970 or the local time
/// zone cannot be found.
#[verifier::external_body]
pub(crate) fn local_now(display: &str, file: &str) -> (now: Timestamp)
    requires
        display@ == display_pattern(),
        file@ == file_pattern(),
    ensures
        0 <= now.year <= 9999 ==> display_shaped(now.display@) && file_stamp_shaped(
            now.file_stamp@,
        ),
{
    let t = chrono::Local::now();
    Timestamp {
        year: t.year(),
        display: t.format(display).to_string(),
        file_stamp: t.format(file).to_string(),
    }
}

impl Timestamp {
    /// The current local date and time.
    pub fn now() -> (now: Timestamp)
        ensures
            0 <= now.year <= 9999 ==> display_shaped(now.display@) && file_stamp_shaped(
                now.file_stamp@,
            ),
    {
        local_now("%Y-%m-%d %H:%M:%S", "%Y%m%d_%H%M%S")
    }
}

/// The name of a snapshot written at the moment with the given file stamp.
pub open spec fn default_output_name(file_stamp: Seq<char>) -> Seq<char> {
    "merged_"@ + file_stamp + ".md"@
}

/// Whether `name` has the shape of a snapshot's name: `merged_`, eight
/// digits, `_`, six digits, `.md`.
pub open spec fn snapshot_shaped(name: Seq<char>) -> bool {
    &&& name.len() == 25
    &&& has_prefix(name, "merged_"@)
    &&& digits_at(name, 7, 15)
    &&& name[15] == '_'
    &&& digits_at(name, 16, 22)
    &&& has_suffix(name, ".md"@)
}

/// The default name of a snapshot has the shape of a snapshot's name,
/// where its file stamp is eight digits, `_` and six digits: as it is for
/// the years 0 to 9999. Such a name is what the first exclusion rule looks
/// for.
pub proof fn lemma_default_name_is_snapshot_shaped(file_stamp: Seq<char>)
    requires
        file_stamp_shaped(file_stamp),
    ensures
        snapshot_shaped(default_output_name(file_stamp)),
{
    reveal_strlit("merged_");
    reveal_strlit(".md");
    let name = default_output_name(file_stamp);
    assert(name.len() == 25);
    assert(name.subrange(0, 7) =~= "merged_"@);
    assert(name.subrange(22, 25) =~= ".md"@);
    assert forall|i: int| 7 <= i < 15 implies '0' <= #[trigger] name[i] <= '9' by {
        assert(name[i] == file_stamp[i - 7]);
    }
    assert forall|i: int| 16 <= i < 22 implies '0' <= #[trigger] name[i] <= '9' by {
        assert(name[i] == file_stamp[i - 7]);
    }
    assert(name[15] == file_stamp[8]);
}

} // verus!

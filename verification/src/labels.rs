//! Rules on target classification labels: which labels name an airliner
//! (kept longer when offline and given more slack while active) and which
//! are generic classes that a specific identification may replace.
use vstd::prelude::*;
use crate::text::same_str;

verus! {

/// `pat` occurs in `s` as a contiguous run of characters.
pub open spec fn has_substring(s: Seq<char>, pat: Seq<char>) -> bool {
    exists|i: int| 0 <= i <= s.len() - pat.len() && #[trigger] s.subrange(i, i + pat.len()) == pat
}

/// `str::contains` with a string pattern.
#[verifier::external_body]
pub(crate) fn str_contains(s: &str, pat: &str) -> (b: bool)
    ensures
        b == has_substring(s@, pat@),
{
    s.contains(pat)
}

/// The label names an airliner: it mentions "Airliner", "AAL" or "UAL".
pub open spec fn names_airliner(c: Seq<char>) -> bool {
    has_substring(c, "Airliner"@) || has_substring(c, "AAL"@) || has_substring(c, "UAL"@)
}

/// Whether the label names an airliner.
pub fn label_names_airliner(classification: &str) -> (b: bool)
    ensures
        b == names_airliner(classification@),
{
    str_contains(classification, "Airliner") || str_contains(classification, "AAL") || str_contains(
        classification,
        "UAL",
    )
}

/// The label identifies an airliner: a flight identification (it holds a
/// parenthesis, as in "AAL191 (B788)") or an airliner name.
pub open spec fn identifies_airliner(c: Seq<char>) -> bool {
    has_substring(c, "("@) || names_airliner(c)
}

/// Whether the label identifies an airliner.
pub fn is_identified_airliner(classification: &str) -> (b: bool)
    ensures
        b == identifies_airliner(classification@),
{
    str_contains(classification, "(") || label_names_airliner(classification)
}

/// Generic labels: the kinematic classes and placeholder labels.
pub open spec fn generic_label(c: Seq<char>) -> bool {
    ||| c == "Ground Vehicle"@
    ||| c == "Helicopter"@
    ||| c == "Propeller Aircraft"@
    ||| c == "Light Jet / Utility"@
    ||| c == "Turboprop Airliner"@
    ||| c == "Commercial Airliner"@
    ||| c == "Supersonic Fighter Jet"@
    ||| c == "High-Altitude Jet / Recon"@
    ||| c == "Low-Alt UAV / Drone"@
    ||| c == "Target"@
    ||| c == "Suspect"@
    ||| c == "Active"@
    ||| c == "Unknown"@
    ||| c == ""@
}

/// Whether a label is generic.
pub fn is_generic_classification(c: &str) -> (b: bool)
    ensures
        b == generic_label(c@),
{
    same_str(c, "Ground Vehicle") || same_str(c, "Helicopter") || same_str(c, "Propeller Aircraft") || same_str(
        c,
        "Light Jet / Utility",
    ) || same_str(c, "Turboprop Airliner") || same_str(c, "Commercial Airliner") || same_str(
        c,
        "Supersonic Fighter Jet",
    ) || same_str(c, "High-Altitude Jet / Recon") || same_str(c, "Low-Alt UAV / Drone") || same_str(c, "Target")
        || same_str(c, "Suspect") || same_str(c, "Active") || same_str(c, "Unknown") || same_str(c, "")
}

/// When two duplicate tracks merge, the kept track takes over the other's
/// label exactly when its own is generic and the other's is not.
pub fn inherits_label(kept: &str, absorbed: &str) -> (b: bool)
    ensures
        b == (generic_label(kept@) && !generic_label(absorbed@)),
{
    is_generic_classification(kept) && !is_generic_classification(absorbed)
}

} // verus!

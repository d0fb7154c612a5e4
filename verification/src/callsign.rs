//! Names derived from a target's classification label and track id: the
//! display callsign and the file name of a saved fingerprint.
use vstd::prelude::*;
use crate::labels::{has_substring, str_contains};
use crate::text::{lowercase, uppercase, alphanumeric, to_lowercase, to_uppercase, is_alphanumeric, string_of, utf8_len, skip_space, word_end, trim, decimal, chars_of, skip_space_from, word_end_from, slice_chars, lemma_word_end_bounds, trimmed, utf8_len_at_least, all_alphanumeric, decimal_digits, spells};

verus! {

/// The first white-space separated word, or the whole string where it has
/// none (`split_whitespace().next().unwrap_or(s)`).
pub open spec fn first_word_or_all(s: Seq<char>) -> Seq<char> {
    let i = skip_space(s, 0);
    if i >= s.len() {
        s
    } else {
        s.subrange(i, word_end(s, i))
    }
}

/// Index of the first `'('` at or after `i` (or the length).
pub open spec fn paren_at(s: Seq<char>, i: int) -> int
    decreases s.len() - i,
{
    if i < 0 || i >= s.len() {
        s.len() as int
    } else if s[i] == '(' {
        i
    } else {
        paren_at(s, i + 1)
    }
}

/// What precedes the first `'('` (`split('(').next()`).
pub open spec fn before_paren(s: Seq<char>) -> Seq<char> {
    s.subrange(0, paren_at(s, 0))
}

/// Decimal digits of `n` padded with zeros to at least two (`{:02}`).
pub open spec fn two_digits(n: nat) -> Seq<char> {
    if n < 10 {
        seq!['0'] + decimal(n)
    } else {
        decimal(n)
    }
}

/// The first white-space separated word, or all of `s` where it has none.
fn first_word(s: &[char]) -> (v: Vec<char>)
    ensures
        v@ == first_word_or_all(s@),
{
    let i = skip_space_from(s, 0);
    if i >= s.len() {
        slice_chars(s, 0, s.len())
    } else {
        let j = word_end_from(s, i);
        proof {
            lemma_word_end_bounds(s@, i as int);
        }
        slice_chars(s, i, j)
    }
}

/// What precedes the first `'('`.
fn up_to_paren(s: &[char]) -> (v: Vec<char>)
    ensures
        v@ == before_paren(s@),
{
    let mut j: usize = 0;
    while j < s.len() && s[j] != '('
        invariant
            j <= s.len(),
            paren_at(s@, j as int) == paren_at(s@, 0),
        decreases s.len() - j,
    {
        j = j + 1;
    }
    slice_chars(s, 0, j)
}

/// Decimal digits of `n`, zero-padded to two.
fn two_digit(n: u32) -> (v: Vec<char>)
    ensures
        v@ == two_digits(n as nat),
{
    let d = decimal_digits(n as u128);
    if n < 10 {
        let mut v: Vec<char> = Vec::new();
        v.push('0');
        v.push(d[0]);
        assert(v@ =~= seq!['0'] + decimal(n as nat));
        v
    } else {
        d
    }
}

/// `prefix`, a dash and the id with at least two digits.
pub open spec fn tagged(prefix: Seq<char>, id: u32) -> Seq<char> {
    prefix + seq!['-'] + two_digits(id as nat)
}

/// The first word of the label, cut at a parenthesis, trimmed and upper-cased.
pub open spec fn clean_name(c: Seq<char>) -> Seq<char> {
    uppercase(trim(before_paren(first_word_or_all(c))))
}

/// Upper-cased first words of the generic aircraft classes.
pub open spec fn is_class_word(name: Seq<char>) -> bool {
    ||| name == "COMMERCIAL"@
    ||| name == "PROPELLER"@
    ||| name == "TURBOPROP"@
    ||| name == "LIGHT"@
    ||| name == "HELICOPTER"@
    ||| name == "SUPERSONIC"@
    ||| name == "HIGH-ALTITUDE"@
}

/// Callsign prefix of a generic aircraft class.
pub open spec fn class_prefix(name: Seq<char>) -> Seq<char> {
    if name == "COMMERCIAL"@ {
        "AAL"@
    } else if name == "PROPELLER"@ {
        "PRP"@
    } else if name == "TURBOPROP"@ {
        "TRB"@
    } else if name == "LIGHT"@ {
        "LGT"@
    } else if name == "HELICOPTER"@ {
        "COP"@
    } else if name == "SUPERSONIC"@ {
        "FTR"@
    } else {
        "JETA"@
    }
}

/// The callsign of a target with classification `c` and track id `id`:
/// drones and ground vehicles get a class tag; other identified targets
/// their cleaned-up first word when that is an alphanumeric name of at
/// least three bytes, a class tag for the generic aircraft classes, and a
/// flight tag otherwise; unidentified targets a track tag.
pub open spec fn callsign_of(c: Seq<char>, id: u32) -> Seq<char> {
    let lower = lowercase(c);
    if has_substring(lower, "drone"@) || has_substring(lower, "uav"@) {
        tagged("DRN"@, id)
    } else if has_substring(lower, "ground"@) || has_substring(lower, "vehicle"@) {
        tagged("VEH"@, id)
    } else if c.len() > 0 && !has_substring(c, "Unknown"@) && !has_substring(c, "Target"@) {
        let name = clean_name(c);
        if utf8_len(name) >= 3 && (forall|i: int| 0 <= i < name.len() ==> #[trigger] alphanumeric(name[i])) {
            name
        } else if is_class_word(name) {
            tagged(class_prefix(name), id)
        } else {
            tagged("FLT"@, id)
        }
    } else {
        tagged("TRK"@, id)
    }
}

/// `prefix`, a dash and the id with at least two digits.
fn tag(prefix: &str, id: u32) -> (s: String)
    ensures
        s@ == tagged(prefix@, id),
{
    let mut v = chars_of(prefix);
    v.push('-');
    let mut d = two_digit(id);
    v.append(&mut d);
    string_of(&v)
}

/// The display callsign of a target with the given classification label
/// and track id.
pub fn callsign(classification: &str, id: u32) -> (s: String)
    ensures
        s@ == callsign_of(classification@, id),
{
    let lower = to_lowercase(classification);
    if str_contains(lower.as_str(), "drone") || str_contains(lower.as_str(), "uav") {
        return tag("DRN", id);
    }
    if str_contains(lower.as_str(), "ground") || str_contains(lower.as_str(), "vehicle") {
        return tag("VEH", id);
    }
    let chars = chars_of(classification);
    if chars.len() == 0 || str_contains(classification, "Unknown") || str_contains(classification, "Target") {
        return tag("TRK", id);
    }
    let word = first_word(&chars);
    let head = up_to_paren(&word);
    let core = trimmed(&head);
    let name = to_uppercase(&core);
    if utf8_len_at_least(&name, 3) && all_alphanumeric(&name) {
        return string_of(&name);
    }
    if spells(&name, "COMMERCIAL") {
        tag("AAL", id)
    } else if spells(&name, "PROPELLER") {
        tag("PRP", id)
    } else if spells(&name, "TURBOPROP") {
        tag("TRB", id)
    } else if spells(&name, "LIGHT") {
        tag("LGT", id)
    } else if spells(&name, "HELICOPTER") {
        tag("COP", id)
    } else if spells(&name, "SUPERSONIC") {
        tag("FTR", id)
    } else if spells(&name, "HIGH-ALTITUDE") {
        tag("JETA", id)
    } else {
        tag("FLT", id)
    }
}

/// The label with every character that is not alphanumeric replaced by `'_'`.
pub open spec fn file_safe(c: Seq<char>) -> Seq<char> {
    Seq::new(c.len(), |i: int| if alphanumeric(c[i]) { c[i] } else { '_' })
}

/// File name under which the fingerprint of a target is saved.
pub open spec fn fingerprint_file_name_of(c: Seq<char>, id: u32) -> Seq<char> {
    "fingerprint_"@ + file_safe(c) + seq!['_'] + decimal(id as nat) + ".json"@
}

/// The file name under which the fingerprint of a target with the given
/// classification label and track id is saved.
pub fn fingerprint_file_name(classification: &str, id: u32) -> (s: String)
    ensures
        s@ == fingerprint_file_name_of(classification@, id),
{
    let label = chars_of(classification);
    let mut v = chars_of("fingerprint_");
    let ghost start = v@;
    let mut k: usize = 0;
    while k < label.len()
        invariant
            k <= label.len(),
            label@ == classification@,
            v@ == start + file_safe(label@).take(k as int),
        decreases label.len() - k,
    {
        let c = label[k];
        if is_alphanumeric(c) {
            v.push(c);
        } else {
            v.push('_');
        }
        assert(file_safe(label@).take(k + 1) =~= file_safe(label@).take(k as int).push(
            file_safe(label@)[k as int],
        ));
        k = k + 1;
    }
    assert(file_safe(label@).take(k as int) =~= file_safe(label@));
    v.push('_');
    let mut d = decimal_digits(id as u128);
    v.append(&mut d);
    let mut ext = chars_of(".json");
    v.append(&mut ext);
    string_of(&v)
}

} // verus!

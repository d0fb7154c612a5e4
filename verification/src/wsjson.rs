//! Pretty-spacing of compact JSON text for the dashboard socket: a space is
//! inserted after every `:` that separates a key from its value, leaving
//! string contents (and escaped characters) untouched.
use vstd::prelude::*;

verus! {

/// Scanner state after a prefix: inside a string literal, and whether the
/// next character is escaped.
pub open spec fn scan_state(raw: Seq<char>) -> (bool, bool)
    decreases raw.len(),
{
    if raw.len() == 0 {
        (false, false)
    } else {
        let (in_string, escaped) = scan_state(raw.drop_last());
        let c = raw.last();
        if escaped {
            (in_string, false)
        } else if c == '\\' {
            (in_string, true)
        } else if c == '"' {
            (!in_string, false)
        } else {
            (in_string, false)
        }
    }
}

/// Text emitted for character `c` in scanner state `(in_string, escaped)`.
pub open spec fn emit(c: char, in_string: bool, escaped: bool) -> Seq<char> {
    if !escaped && c == ':' && !in_string {
        seq![':', ' ']
    } else {
        seq![c]
    }
}

/// The spaced text of `raw`.
pub open spec fn spaced(raw: Seq<char>) -> Seq<char>
    decreases raw.len(),
{
    if raw.len() == 0 {
        Seq::empty()
    } else {
        let st = scan_state(raw.drop_last());
        spaced(raw.drop_last()) + emit(raw.last(), st.0, st.1)
    }
}

/// Inserts a space after each key/value colon outside string literals.
pub fn space_json_colons(raw: &[char]) -> (out: Vec<char>)
    ensures
        out@ == spaced(raw@),
{
    let mut result: Vec<char> = Vec::new();
    let mut in_string = false;
    let mut escaped = false;
    let mut i: usize = 0;
    while i < raw.len()
        invariant
            i <= raw@.len(),
            result@ == spaced(raw@.subrange(0, i as int)),
            (in_string, escaped) == scan_state(raw@.subrange(0, i as int)),
        decreases raw@.len() - i,
    {
        let c = raw[i];
        proof {
            let p = raw@.subrange(0, i + 1);
            assert(p.drop_last() =~= raw@.subrange(0, i as int));
            assert(p.last() == c);
        }
        if escaped {
            result.push(c);
            escaped = false;
        } else if c == '\\' {
            result.push(c);
            escaped = true;
        } else if c == '"' {
            result.push(c);
            in_string = !in_string;
        } else if c == ':' && !in_string {
            result.push(':');
            result.push(' ');
        } else {
            result.push(c);
        }
        proof {
            let p = raw@.subrange(0, i + 1);
            assert(result@ =~= spaced(p));
        }
        i = i + 1;
    }
    proof {
        assert(raw@.subrange(0, raw@.len() as int) =~= raw@);
    }
    result
}

/// The text without its spaces.
pub open spec fn strip_spaces(s: Seq<char>) -> Seq<char>
    decreases s.len(),
{
    if s.len() == 0 {
        Seq::empty()
    } else if s.last() == ' ' {
        strip_spaces(s.drop_last())
    } else {
        strip_spaces(s.drop_last()).push(s.last())
    }
}

proof fn lemma_strip_concat(a: Seq<char>, b: Seq<char>)
    ensures
        strip_spaces(a + b) == strip_spaces(a) + strip_spaces(b),
    decreases b.len(),
{
    if b.len() == 0 {
        assert(a + b =~= a);
        assert(strip_spaces(a) + Seq::<char>::empty() =~= strip_spaces(a));
    } else {
        assert((a + b).drop_last() =~= a + b.drop_last());
        lemma_strip_concat(a, b.drop_last());
        if b.last() != ' ' {
            assert(strip_spaces(a) + strip_spaces(b.drop_last()).push(b.last()) =~= (strip_spaces(a)
                + strip_spaces(b.drop_last())).push(b.last()));
        }
    }
}

/// Spacing law: the spaced text differs from its input only by inserted
/// spaces.
pub proof fn lemma_spacing_only_adds_spaces(raw: Seq<char>)
    ensures
        strip_spaces(spaced(raw)) == strip_spaces(raw),
    decreases raw.len(),
{
    if raw.len() > 0 {
        let st = scan_state(raw.drop_last());
        let e = emit(raw.last(), st.0, st.1);
        lemma_spacing_only_adds_spaces(raw.drop_last());
        lemma_strip_concat(spaced(raw.drop_last()), e);
        assert(raw =~= raw.drop_last() + seq![raw.last()]);
        lemma_strip_concat(raw.drop_last(), seq![raw.last()]);
        if e.len() == 2 {
            assert(e.drop_last() =~= seq![':']);
            assert(seq![':'].drop_last() =~= Seq::<char>::empty());
        } else {
            assert(e =~= seq![raw.last()]);
        }
        assert(seq![raw.last()].drop_last() =~= Seq::<char>::empty());
    }
}

} // verus!

//! Character-level text handling: the Unicode facts that std supplies
//! (case mapping, white space, alphanumerics), UTF-8 byte lengths, words,
//! trimming and decimal digits.
use vstd::prelude::*;

verus! {

/// An ASCII character.
pub open spec fn is_ascii_char(c: char) -> bool {
    (c as u32) < 0x80
}

/// A string of ASCII characters.
pub open spec fn all_ascii(s: Seq<char>) -> bool {
    forall|i: int| 0 <= i < s.len() ==> is_ascii_char(#[trigger] s[i])
}

/// ASCII lower case of a character (other characters unchanged).
pub open spec fn ascii_lower(c: char) -> char {
    if 'A' <= c && c <= 'Z' {
        ((c as u32) + 32) as char
    } else {
        c
    }
}

/// ASCII upper case of a character (other characters unchanged).
pub open spec fn ascii_upper(c: char) -> char {
    if 'a' <= c && c <= 'z' {
        ((c as u32) - 32) as char
    } else {
        c
    }
}

/// What `str::to_lowercase` makes of a string that holds a character
/// beyond ASCII (Unicode lowercase mapping).
pub uninterp spec fn lowercase_beyond_ascii(s: Seq<char>) -> Seq<char>;

/// What `str::to_uppercase` makes of a string that holds a character
/// beyond ASCII (Unicode uppercase mapping).
pub uninterp spec fn uppercase_beyond_ascii(s: Seq<char>) -> Seq<char>;

/// Whether a character beyond ASCII has the Unicode `White_Space` property.
pub uninterp spec fn white_space_beyond_ascii(c: char) -> bool;

/// Whether a character beyond ASCII has the Unicode `Alphabetic` or
/// `Numeric` property.
pub uninterp spec fn alphanumeric_beyond_ascii(c: char) -> bool;

/// Unicode lowercase mapping of a string: letter by letter on ASCII.
pub open spec fn lowercase(s: Seq<char>) -> Seq<char> {
    if all_ascii(s) {
        s.map_values(|c: char| ascii_lower(c))
    } else {
        lowercase_beyond_ascii(s)
    }
}

/// Unicode uppercase mapping of a string: letter by letter on ASCII.
pub open spec fn uppercase(s: Seq<char>) -> Seq<char> {
    if all_ascii(s) {
        s.map_values(|c: char| ascii_upper(c))
    } else {
        uppercase_beyond_ascii(s)
    }
}

/// The Unicode `White_Space` property; within ASCII: tab, line feed,
/// vertical tab, form feed, carriage return and space.
pub open spec fn white_space(c: char) -> bool {
    if is_ascii_char(c) {
        c == ' ' || ('\t' <= c && c <= '\r')
    } else {
        white_space_beyond_ascii(c)
    }
}

/// The Unicode `Alphabetic` or `Numeric` property; within ASCII: letters
/// and digits.
pub open spec fn alphanumeric(c: char) -> bool {
    if is_ascii_char(c) {
        ('0' <= c && c <= '9') || ('a' <= c && c <= 'z') || ('A' <= c && c <= 'Z')
    } else {
        alphanumeric_beyond_ascii(c)
    }
}

/// `str::to_lowercase`: ASCII letters map to lower case one by one; a string
/// with other characters maps to the name `lowercase_beyond_ascii`.
#[verifier::external_body]
pub(crate) fn to_lowercase(s: &str) -> (r: String)
    ensures
        r@ == (if all_ascii(s@) {
            s@.map_values(|c: char| ascii_lower(c))
        } else {
            lowercase_beyond_ascii(s@)
        }),
{
    s.to_lowercase()
}

/// `str::to_uppercase` on the string spelled by `s`: ASCII letters map to
/// upper case one by one; a string with other characters maps to the name
/// `uppercase_beyond_ascii`.
#[verifier::external_body]
pub(crate) fn to_uppercase(s: &[char]) -> (r: Vec<char>)
    ensures
        r@ == (if all_ascii(s@) {
            s@.map_values(|c: char| ascii_upper(c))
        } else {
            uppercase_beyond_ascii(s@)
        }),
{
    s.iter().collect::<String>().to_uppercase().chars().collect()
}

/// `char::is_whitespace`: within ASCII exactly tab through carriage return
/// and space; beyond ASCII the name `white_space_beyond_ascii`.
#[verifier::external_body]
pub(crate) fn is_whitespace(c: char) -> (b: bool)
    ensures
        b == (if is_ascii_char(c) {
            c == ' ' || ('\t' <= c && c <= '\r')
        } else {
            white_space_beyond_ascii(c)
        }),
{
    c.is_whitespace()
}

/// `char::is_alphanumeric`: within ASCII exactly the letters and digits;
/// beyond ASCII the name `alphanumeric_beyond_ascii`.
#[verifier::external_body]
pub(crate) fn is_alphanumeric(c: char) -> (b: bool)
    ensures
        b == (if is_ascii_char(c) {
            ('0' <= c && c <= '9') || ('a' <= c && c <= 'z') || ('A' <= c && c <= 'Z')
        } else {
            alphanumeric_beyond_ascii(c)
        }),
{
    c.is_alphanumeric()
}

/// A string made of the given characters (`String: FromIterator<char>`).
#[verifier::external_body]
pub(crate) fn string_of(cs: &[char]) -> (s: String)
    ensures
        s@ == cs@,
{
    cs.iter().collect()
}

/// Number of bytes of `c` in UTF-8.
pub open spec fn utf8_width(c: char) -> nat {
    if (c as u32) < 0x80 {
        1
    } else if (c as u32) < 0x800 {
        2
    } else if (c as u32) < 0x10000 {
        3
    } else {
        4
    }
}

/// Number of bytes of a string in UTF-8 (what `String::len` counts).
pub open spec fn utf8_len(s: Seq<char>) -> nat
    decreases s.len(),
{
    if s.len() == 0 {
        0
    } else {
        utf8_len(s.drop_last()) + utf8_width(s.last())
    }
}

/// First index at or after `i` that holds no white space (or the length).
pub open spec fn skip_space(s: Seq<char>, i: int) -> int
    decreases s.len() - i,
{
    if i < 0 || i >= s.len() {
        s.len() as int
    } else if white_space(s[i]) {
        skip_space(s, i + 1)
    } else {
        i
    }
}

/// First index at or after `i` that holds white space (or the length).
pub open spec fn word_end(s: Seq<char>, i: int) -> int
    decreases s.len() - i,
{
    if i < 0 || i >= s.len() {
        s.len() as int
    } else if white_space(s[i]) {
        i
    } else {
        word_end(s, i + 1)
    }
}

/// One past the last index below `j` that holds no white space (0 if none).
pub open spec fn trim_end(s: Seq<char>, j: int) -> int
    decreases j,
{
    if j <= 0 || j > s.len() {
        0
    } else if white_space(s[j - 1]) {
        trim_end(s, j - 1)
    } else {
        j
    }
}

/// The string without leading and trailing white space (`str::trim`).
pub open spec fn trim(s: Seq<char>) -> Seq<char> {
    let i = skip_space(s, 0);
    if i >= s.len() {
        Seq::empty()
    } else {
        s.subrange(i, trim_end(s, s.len() as int))
    }
}

/// Decimal digits of `n`, most significant first (no leading zeros, `0`
/// for zero).
pub open spec fn decimal(n: nat) -> Seq<char>
    decreases n,
{
    if n < 10 {
        seq![digit_char(n)]
    } else {
        decimal(n / 10).push(digit_char(n % 10))
    }
}

/// The character of a decimal digit.
pub open spec fn digit_char(d: nat) -> char {
    if d == 0 {
        '0'
    } else if d == 1 {
        '1'
    } else if d == 2 {
        '2'
    } else if d == 3 {
        '3'
    } else if d == 4 {
        '4'
    } else if d == 5 {
        '5'
    } else if d == 6 {
        '6'
    } else if d == 7 {
        '7'
    } else if d == 8 {
        '8'
    } else {
        '9'
    }
}

/// The characters of a string.
pub(crate) fn chars_of(s: &str) -> (v: Vec<char>)
    ensures
        v@ == s@,
{
    let mut v: Vec<char> = Vec::new();
    for c in it: s.chars()
        invariant
            it.seq() == s@,
            v@ == it.seq().take(it.index() as int),
    {
        v.push(c);
    }
    v
}

/// Index of the first character at or after `i` that is not white space.
pub(crate) fn skip_space_from(s: &[char], i: usize) -> (j: usize)
    requires
        i <= s.len(),
    ensures
        j == skip_space(s@, i as int),
{
    let mut j = i;
    while j < s.len() && is_whitespace(s[j])
        invariant
            i <= j <= s.len(),
            skip_space(s@, j as int) == skip_space(s@, i as int),
        decreases s.len() - j,
    {
        j = j + 1;
    }
    j
}

/// Index of the first white space at or after `i`.
pub(crate) fn word_end_from(s: &[char], i: usize) -> (j: usize)
    requires
        i <= s.len(),
    ensures
        j == word_end(s@, i as int),
{
    let mut j = i;
    while j < s.len() && !is_whitespace(s[j])
        invariant
            i <= j <= s.len(),
            word_end(s@, j as int) == word_end(s@, i as int),
        decreases s.len() - j,
    {
        j = j + 1;
    }
    j
}

/// The characters `s[lo..hi]`.
pub(crate) fn slice_chars(s: &[char], lo: usize, hi: usize) -> (v: Vec<char>)
    requires
        lo <= hi <= s.len(),
    ensures
        v@ == s@.subrange(lo as int, hi as int),
{
    let mut v: Vec<char> = Vec::new();
    let mut k = lo;
    while k < hi
        invariant
            lo <= k <= hi <= s.len(),
            v@ == s@.subrange(lo as int, k as int),
        decreases hi - k,
    {
        v.push(s[k]);
        k = k + 1;
    }
    v
}

pub proof fn lemma_skip_space(s: Seq<char>, i: int)
    requires
        0 <= i <= s.len(),
    ensures
        i <= skip_space(s, i) <= s.len(),
        skip_space(s, i) < s.len() ==> !white_space(s[skip_space(s, i)]),
    decreases s.len() - i,
{
    if i < s.len() && white_space(s[i]) {
        lemma_skip_space(s, i + 1);
    }
}

pub proof fn lemma_word_end_bounds(s: Seq<char>, i: int)
    requires
        0 <= i <= s.len(),
    ensures
        i <= word_end(s, i) <= s.len(),
    decreases s.len() - i,
{
    if i < s.len() && !white_space(s[i]) {
        lemma_word_end_bounds(s, i + 1);
    }
}

/// `s` without leading and trailing white space.
pub(crate) fn trimmed(s: &[char]) -> (v: Vec<char>)
    ensures
        v@ == trim(s@),
{
    let i = skip_space_from(s, 0);
    if i >= s.len() {
        return Vec::new();
    }
    proof {
        lemma_skip_space(s@, 0);
    }
    let mut j = s.len();
    while j > 0 && is_whitespace(s[j - 1])
        invariant
            i < s.len(),
            !white_space(s@[i as int]),
            i < j <= s.len(),
            trim_end(s@, j as int) == trim_end(s@, s.len() as int),
        decreases j,
    {
        j = j - 1;
    }
    slice_chars(s, i, j)
}

/// Number of bytes of `c` in UTF-8 (`char::len_utf8`).
pub(crate) fn char_width(c: char) -> (w: usize)
    ensures
        w == utf8_width(c),
{
    let u = c as u32;
    if u < 0x80 {
        1
    } else if u < 0x800 {
        2
    } else if u < 0x10000 {
        3
    } else {
        4
    }
}

pub proof fn lemma_utf8_len_grows(s: Seq<char>, k: int)
    requires
        0 <= k <= s.len(),
    ensures
        utf8_len(s.take(k)) <= utf8_len(s),
    decreases s.len() - k,
{
    if k < s.len() {
        lemma_utf8_len_grows(s, k + 1);
        assert(s.take(k + 1).drop_last() =~= s.take(k));
    } else {
        assert(s.take(k) =~= s);
    }
}

/// Whether `s` takes at least `n` bytes in UTF-8.
pub(crate) fn utf8_len_at_least(s: &[char], n: usize) -> (b: bool)
    requires
        n <= usize::MAX - 4,
    ensures
        b == (utf8_len(s@) >= n),
{
    if n == 0 {
        return true;
    }
    let mut total: usize = 0;
    let mut k: usize = 0;
    while k < s.len()
        invariant
            k <= s.len(),
            total == utf8_len(s@.take(k as int)),
            total < n,
            n <= usize::MAX - 4,
        decreases s.len() - k,
    {
        assert(s@.take(k + 1).drop_last() =~= s@.take(k as int));
        total = total + char_width(s[k]);
        k = k + 1;
        if total >= n {
            proof {
                lemma_utf8_len_grows(s@, k as int);
            }
            return true;
        }
    }
    assert(s@.take(k as int) =~= s@);
    false
}

/// Whether every character of `s` is alphanumeric.
pub(crate) fn all_alphanumeric(s: &[char]) -> (b: bool)
    ensures
        b == (forall|i: int| 0 <= i < s.len() ==> alphanumeric(#[trigger] s@[i])),
{
    let mut k: usize = 0;
    while k < s.len()
        invariant
            k <= s.len(),
            forall|i: int| 0 <= i < k ==> alphanumeric(#[trigger] s@[i]),
        decreases s.len() - k,
    {
        if !is_alphanumeric(s[k]) {
            return false;
        }
        k = k + 1;
    }
    true
}

/// Whether `a` and `b` hold the same characters.
pub(crate) fn same_chars(a: &[char], b: &[char]) -> (r: bool)
    ensures
        r == (a@ == b@),
{
    if a.len() != b.len() {
        return false;
    }
    let mut k: usize = 0;
    while k < a.len()
        invariant
            a.len() == b.len(),
            k <= a.len(),
            forall|i: int| 0 <= i < k ==> a@[i] == b@[i],
        decreases a.len() - k,
    {
        if a[k] != b[k] {
            return false;
        }
        k = k + 1;
    }
    assert(a@ =~= b@);
    true
}

/// The character of decimal digit `d`.
pub(crate) fn digit(d: u128) -> (c: char)
    requires
        d < 10,
    ensures
        c == digit_char(d as nat),
{
    if d == 0 {
        '0'
    } else if d == 1 {
        '1'
    } else if d == 2 {
        '2'
    } else if d == 3 {
        '3'
    } else if d == 4 {
        '4'
    } else if d == 5 {
        '5'
    } else if d == 6 {
        '6'
    } else if d == 7 {
        '7'
    } else if d == 8 {
        '8'
    } else {
        '9'
    }
}

/// Decimal digits of `n`.
pub(crate) fn decimal_digits(n: u128) -> (v: Vec<char>)
    ensures
        v@ == decimal(n as nat),
    decreases n,
{
    if n < 10 {
        let mut v: Vec<char> = Vec::new();
        v.push(digit(n));
        assert(v@ =~= seq![digit_char(n as nat)]);
        v
    } else {
        let mut v = decimal_digits(n / 10);
        v.push(digit(n % 10));
        v
    }
}

/// Whether `name` spells the string `lit`.
pub(crate) fn spells(name: &[char], lit: &str) -> (b: bool)
    ensures
        b == (name@ == lit@),
{
    let l = chars_of(lit);
    same_chars(name, &l)
}

/// String equality.
pub(crate) fn same_str(a: &str, b: &str) -> (r: bool)
    ensures
        r == (a@ == b@),
{
    let x = chars_of(a);
    spells(&x, b)
}

pub proof fn lemma_word_end_past(s: Seq<char>, i: int)
    requires
        0 <= i < s.len(),
        !white_space(s[i]),
    ensures
        i < word_end(s, i) <= s.len(),
{
    lemma_word_end_bounds(s, i + 1);
}

/// The white-space separated words of `s` from index `i` on.
pub open spec fn words_from(s: Seq<char>, i: int) -> Seq<Seq<char>>
    decreases s.len() - i,
{
    if i < 0 || i >= s.len() {
        Seq::empty()
    } else {
        let j = skip_space(s, i);
        if j >= s.len() {
            Seq::empty()
        } else {
            proof {
                lemma_skip_space(s, i);
                lemma_word_end_past(s, j);
            }
            seq![s.subrange(j, word_end(s, j))] + words_from(s, word_end(s, j))
        }
    }
}

/// The white-space separated words of `s` (`str::split_whitespace`).
pub open spec fn words(s: Seq<char>) -> Seq<Seq<char>> {
    words_from(s, 0)
}

/// The words of `s`.
pub(crate) fn split_words(s: &[char]) -> (ws: Vec<Vec<char>>)
    ensures
        ws.len() == words(s@).len(),
        forall|k: int| 0 <= k < ws.len() ==> #[trigger] ws[k]@ == words(s@)[k],
{
    let mut ws: Vec<Vec<char>> = Vec::new();
    let mut i: usize = 0;
    while i < s.len()
        invariant
            i <= s.len(),
            words(s@) == ws@.map_values(|w: Vec<char>| w@) + words_from(s@, i as int),
        decreases s.len() - i,
    {
        let j = skip_space_from(s, i);
        proof {
            lemma_skip_space(s@, i as int);
        }
        if j >= s.len() {
            assert(words_from(s@, i as int) =~= Seq::<Seq<char>>::empty());
            i = s.len();
        } else {
            let e = word_end_from(s, j);
            proof {
                lemma_word_end_past(s@, j as int);
            }
            let w = slice_chars(s, j, e);
            let ghost before = ws@.map_values(|w: Vec<char>| w@);
            ws.push(w);
            assert(ws@.map_values(|w: Vec<char>| w@) =~= before.push(s@.subrange(j as int, e as int)));
            assert(words_from(s@, i as int) =~= seq![s@.subrange(j as int, e as int)] + words_from(
                s@,
                e as int,
            ));
            assert(before + words_from(s@, i as int) =~= before.push(s@.subrange(j as int, e as int))
                + words_from(s@, e as int));
            i = e;
        }
    }
    assert(words_from(s@, i as int) =~= Seq::<Seq<char>>::empty());
    assert(ws@.map_values(|w: Vec<char>| w@) =~= words(s@));
    assert forall|k: int| 0 <= k < ws.len() implies #[trigger] ws[k]@ == words(s@)[k] by {
        assert(ws@.map_values(|w: Vec<char>| w@)[k] == ws@[k]@);
    }
    ws
}

/// Number of bytes of `s` in UTF-8.
pub(crate) fn utf8_length(s: &[char]) -> (n: u128)
    ensures
        n == utf8_len(s@),
{
    let mut total: u128 = 0;
    let mut k: usize = 0;
    while k < s.len()
        invariant
            k <= s.len(),
            total == utf8_len(s@.take(k as int)),
            total <= 4 * k,
        decreases s.len() - k,
    {
        assert(s@.take(k + 1).drop_last() =~= s@.take(k as int));
        total = total + char_width(s[k]) as u128;
        k = k + 1;
    }
    assert(s@.take(k as int) =~= s@);
    total
}

} // verus!

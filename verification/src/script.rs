//! Test scripts of the receiver: a script is a text of lines `KEY name`,
//! `TICK count` or `DUMP file` (the command word in any case); blank lines,
//! lines starting with `#` and lines of any other form are skipped. While a
//! script runs, each frame carries out the commands due: keys are pressed
//! and dumps requested until a `TICK` makes the script wait that many frames.
use vstd::prelude::*;
use crate::console::{digits_value, is_digit};
use crate::controls::Key;
use crate::text::{
    chars_of, lowercase, spells, string_of, to_lowercase, to_uppercase, trim, trimmed, uppercase, utf8_len, utf8_width,
    char_width,
};

verus! {

/// A script command, with its argument.
#[derive(Debug)]
pub enum ScriptCommand {
    /// Press the key of that name.
    Key(String),
    /// Wait that many frames.
    Tick(usize),
    /// Dump the screen to that file.
    Dump(String),
}

/// A script command with its text as characters.
pub enum ScriptItem {
    Key(Seq<char>),
    Tick(nat),
    Dump(Seq<char>),
}

impl ScriptCommand {
    /// The command with its text as characters.
    pub open spec fn model(&self) -> ScriptItem {
        match self {
            ScriptCommand::Key(s) => ScriptItem::Key(s@),
            ScriptCommand::Tick(n) => ScriptItem::Tick(*n as nat),
            ScriptCommand::Dump(s) => ScriptItem::Dump(s@),
        }
    }
}

/// The pieces of `s` between line feeds (one more than there are line
/// feeds).
pub open spec fn split_lines(s: Seq<char>) -> Seq<Seq<char>>
    decreases s.len(),
{
    if s.len() == 0 {
        seq![Seq::empty()]
    } else {
        let p = split_lines(s.drop_last());
        if s.last() == '\n' {
            p.push(Seq::empty())
        } else {
            p.update(p.len() - 1, p.last().push(s.last()))
        }
    }
}

/// Index of the first space at or after `i` (the length if none).
pub open spec fn space_from(s: Seq<char>, i: int) -> int
    decreases s.len() - i,
{
    if i < 0 || i >= s.len() {
        s.len() as int
    } else if s[i] == ' ' {
        i
    } else {
        space_from(s, i + 1)
    }
}

/// The digits of a count word: the word without a leading `+`.
pub open spec fn count_digits(w: Seq<char>) -> Seq<char> {
    if w.len() > 0 && w[0] == '+' {
        w.drop_first()
    } else {
        w
    }
}

/// The count a word spells: an optional `+`, then decimal digits, with a
/// value that fits in a `usize` (the syntax of `usize::from_str`).
pub open spec fn count_word(w: Seq<char>) -> Option<nat> {
    let body = count_digits(w);
    if body.len() == 0 || !(forall|k: int| 0 <= k < body.len() ==> #[trigger] is_digit(body[k])) {
        None
    } else if digits_value(body) <= usize::MAX {
        Some(digits_value(body))
    } else {
        None
    }
}

/// The command on a script line, if any. The line is trimmed; the command
/// word is what precedes its first space, in any case, and the argument is
/// the rest, trimmed.
pub open spec fn line_item(line: Seq<char>) -> Option<ScriptItem> {
    let t = trim(line);
    let p = space_from(t, 0);
    if t.len() == 0 || t[0] == '#' || p >= t.len() {
        None
    } else {
        let cmd = uppercase(t.take(p));
        let arg = trim(t.skip(p + 1));
        if cmd == "KEY"@ {
            Some(ScriptItem::Key(arg))
        } else if cmd == "TICK"@ {
            match count_word(arg) {
                Some(n) => Some(ScriptItem::Tick(n)),
                None => None,
            }
        } else if cmd == "DUMP"@ {
            Some(ScriptItem::Dump(arg))
        } else {
            None
        }
    }
}

/// The commands of the first `n` lines.
pub open spec fn items_of(lines: Seq<Seq<char>>, n: int) -> Seq<ScriptItem>
    decreases n,
{
    if n <= 0 {
        Seq::empty()
    } else {
        match line_item(lines[n - 1]) {
            Some(x) => items_of(lines, n - 1).push(x),
            None => items_of(lines, n - 1),
        }
    }
}

/// The commands of a script text, in order.
pub open spec fn script_items(text: Seq<char>) -> Seq<ScriptItem> {
    items_of(split_lines(text), split_lines(text).len() as int)
}

proof fn lemma_split_lines_nonempty(s: Seq<char>)
    ensures
        split_lines(s).len() >= 1,
    decreases s.len(),
{
    if s.len() > 0 {
        lemma_split_lines_nonempty(s.drop_last());
    }
}

/// Index of the first space of `s` (its length if none).
fn first_space(s: &[char]) -> (p: usize)
    ensures
        p == space_from(s@, 0),
{
    let mut i: usize = 0;
    while i < s.len() && s[i] != ' '
        invariant
            i <= s.len(),
            space_from(s@, i as int) == space_from(s@, 0),
        decreases s.len() - i,
    {
        i = i + 1;
    }
    i
}

proof fn lemma_digits_value_step(w: Seq<char>, k: int)
    requires
        0 <= k < w.len(),
    ensures
        digits_value(w.take(k + 1)) == digits_value(w.take(k)) * 10 + ((w[k] as u32) - 48) as nat,
{
    assert(w.take(k + 1).drop_last() =~= w.take(k));
}

/// The count the word `w` spells, if any.
fn parse_count(w: &[char]) -> (r: Option<usize>)
    ensures
        r matches Some(n) ==> count_word(w@) == Some(n as nat),
        r is None ==> count_word(w@) is None,
{
    let start: usize = if w.len() > 0 && w[0] == '+' { 1 } else { 0 };
    let ghost body = count_digits(w@);
    assert(body =~= w@.subrange(start as int, w@.len() as int));
    if start >= w.len() {
        return None;
    }
    let mut value: u128 = 0;
    let mut big = false;
    let mut k: usize = start;
    while k < w.len()
        invariant
            start <= k <= w.len(),
            start < w.len(),
            body == w@.subrange(start as int, w@.len() as int),
            body == count_digits(w@),
            forall|i: int| 0 <= i < k - start ==> #[trigger] is_digit(body[i]),
            !big ==> value == digits_value(body.take(k - start)) && value <= usize::MAX,
            big ==> digits_value(body.take(k - start)) > usize::MAX,
        decreases w.len() - k,
    {
        let c = w[k];
        if !('0' <= c && c <= '9') {
            assert(!is_digit(body[k - start]));
            assert(body.len() > 0);
            assert(!(forall|i: int| 0 <= i < body.len() ==> #[trigger] is_digit(body[i])));
            return None;
        }
        let d = (c as u32 - 48) as u128;
        proof {
            lemma_digits_value_step(body, k - start);
        }
        if !big {
            assert(value * 10 + d <= usize::MAX * 10 + 9) by (nonlinear_arith)
                requires
                    value <= usize::MAX,
                    d <= 9,
            ;
            let next = value * 10 + d;
            if next > usize::MAX as u128 {
                big = true;
            } else {
                value = next;
            }
        } else {
            assert(digits_value(body.take(k - start + 1)) >= digits_value(body.take(k - start)) * 10)
                by (nonlinear_arith)
                requires
                    digits_value(body.take(k - start + 1)) == digits_value(body.take(k - start)) * 10
                        + ((body[k - start] as u32) - 48) as nat,
                    is_digit(body[k - start]),
            ;
        }
        k = k + 1;
    }
    assert(body.take(k - start) =~= body);
    if big {
        None
    } else {
        Some(value as usize)
    }
}

/// The command on one script line, if any.
fn read_line(line: &[char]) -> (r: Option<ScriptCommand>)
    ensures
        r matches Some(c) ==> line_item(line@) == Some(c.model()),
        r is None ==> line_item(line@) is None,
{
    let t = trimmed(line);
    let p = first_space(&t);
    if t.len() == 0 || t[0] == '#' || p >= t.len() {
        return None;
    }
    let mut head: Vec<char> = Vec::new();
    let mut k: usize = 0;
    while k < p
        invariant
            k <= p < t@.len(),
            head@ == t@.take(k as int),
        decreases p - k,
    {
        head.push(t[k]);
        proof {
            assert(head@ =~= t@.take(k + 1));
        }
        k = k + 1;
    }
    let mut rest: Vec<char> = Vec::new();
    let mut k: usize = p + 1;
    while k < t.len()
        invariant
            p + 1 <= k <= t@.len(),
            rest@ == t@.subrange(p + 1, k as int),
        decreases t@.len() - k,
    {
        rest.push(t[k]);
        proof {
            assert(rest@ =~= t@.subrange(p + 1, k + 1));
        }
        k = k + 1;
    }
    assert(rest@ =~= t@.skip(p + 1));
    let cmd = to_uppercase(&head);
    let arg = trimmed(&rest);
    proof {
        assert(cmd@ == uppercase(t@.take(p as int)));
    }
    if spells(&cmd, "KEY") {
        Some(ScriptCommand::Key(string_of(&arg)))
    } else if spells(&cmd, "TICK") {
        match parse_count(&arg) {
            Some(n) => Some(ScriptCommand::Tick(n)),
            None => None,
        }
    } else if spells(&cmd, "DUMP") {
        Some(ScriptCommand::Dump(string_of(&arg)))
    } else {
        None
    }
}

/// Reads the commands of a script text, in order.
pub fn parse_script(text: &str) -> (cmds: Vec<ScriptCommand>)
    ensures
        cmds@.len() == script_items(text@).len(),
        forall|k: int| 0 <= k < cmds@.len() ==> (#[trigger] cmds@[k]).model() == script_items(text@)[k],
{
    let s = chars_of(text);
    let mut cmds: Vec<ScriptCommand> = Vec::new();
    let mut line: Vec<char> = Vec::new();
    let mut i: usize = 0;
    proof {
        lemma_split_lines_nonempty(s@.take(0));
        assert(s@.take(0) =~= Seq::<char>::empty());
    }
    while i < s.len()
        invariant
            i <= s@.len(),
            s@ == text@,
            split_lines(s@.take(i as int)).len() >= 1,
            line@ == split_lines(s@.take(i as int)).last(),
            cmds@.len() == items_of(split_lines(s@.take(i as int)), split_lines(s@.take(i as int)).len() - 1).len(),
            forall|k: int|
                0 <= k < cmds@.len() ==> (#[trigger] cmds@[k]).model() == items_of(
                    split_lines(s@.take(i as int)),
                    split_lines(s@.take(i as int)).len() - 1,
                )[k],
        decreases s@.len() - i,
    {
        let ghost pre = s@.take(i as int);
        let ghost lines0 = split_lines(pre);
        let c = s[i];
        proof {
            assert(s@.take(i + 1).drop_last() =~= pre);
            assert(s@.take(i + 1).last() == c);
        }
        if c == '\n' {
            let item = read_line(&line);
            let ghost old_cmds = cmds@;
            match item {
                Some(cmd) => cmds.push(cmd),
                None => {},
            }
            line = Vec::new();
            proof {
                let lines1 = split_lines(s@.take(i + 1));
                assert(lines1 == lines0.push(Seq::empty()));
                assert forall|n: int| 0 <= n <= lines0.len() implies #[trigger] items_of(lines1, n) == items_of(lines0, n) by {
                    lemma_items_prefix(lines0, lines1, n);
                }
                assert(lines1[lines0.len() - 1] == lines0.last());
                lemma_split_lines_nonempty(s@.take(i + 1));
            }
        } else {
            line.push(c);
            proof {
                let lines1 = split_lines(s@.take(i + 1));
                assert(lines1 == lines0.update(lines0.len() - 1, lines0.last().push(c)));
                assert(line@ == lines1.last());
                assert forall|n: int| 0 <= n <= lines0.len() - 1 implies #[trigger] items_of(lines1, n) == items_of(lines0, n) by {
                    lemma_items_prefix(lines0, lines1, n);
                }
            }
        }
        i = i + 1;
    }
    let item = read_line(&line);
    match item {
        Some(cmd) => cmds.push(cmd),
        None => {},
    }
    proof {
        assert(s@.take(s@.len() as int) =~= s@);
    }
    cmds
}

/// Items of the first `n` lines depend on those lines only.
proof fn lemma_items_prefix(a: Seq<Seq<char>>, b: Seq<Seq<char>>, n: int)
    requires
        0 <= n <= a.len(),
        n <= b.len(),
        forall|k: int| 0 <= k < n ==> a[k] == b[k],
    ensures
        items_of(a, n) == items_of(b, n),
    decreases n,
{
    if n > 0 {
        lemma_items_prefix(a, b, n - 1);
    }
}

/// The commands of a script as items.
pub open spec fn models(cmds: Seq<ScriptCommand>) -> Seq<ScriptItem> {
    Seq::new(cmds.len(), |k: int| cmds[k].model())
}

/// Where a frame stops running commands, from command `idx` with `wait`
/// frames still to wait, and the wait then: nothing runs while waiting;
/// otherwise commands run in order until a `TICK` sets a wait or the script
/// ends.
pub open spec fn frame_end(items: Seq<ScriptItem>, idx: int, wait: nat) -> (int, nat)
    decreases items.len() - idx,
{
    if wait > 0 || idx < 0 || idx >= items.len() {
        (idx, wait)
    } else {
        match items[idx] {
            ScriptItem::Tick(n) => frame_end(items, idx + 1, n),
            _ => frame_end(items, idx + 1, 0),
        }
    }
}

/// One frame of a running script from command `idx` with `wait` frames to
/// wait: the commands `idx..end` are due in this frame (the caller presses
/// the keys and takes the dumps among them), `wait` becomes one frame less
/// than the wait then left, and the script is over once it has run every
/// command and waits no more.
pub fn script_frame(cmds: &[ScriptCommand], idx: usize, wait: usize) -> (r: (usize, usize, bool))
    requires
        idx <= cmds@.len(),
    ensures
        r.0 == frame_end(models(cmds@), idx as int, wait as nat).0,
        r.1 == if frame_end(models(cmds@), idx as int, wait as nat).1 > 0 {
            frame_end(models(cmds@), idx as int, wait as nat).1 - 1
        } else {
            0
        },
        r.2 == (r.0 >= cmds@.len() && frame_end(models(cmds@), idx as int, wait as nat).1 == 0),
{
    let ghost items = models(cmds@);
    let mut i = idx;
    let mut w = wait;
    while i < cmds.len() && w == 0
        invariant
            idx <= i <= cmds@.len(),
            items == models(cmds@),
            frame_end(items, i as int, w as nat) == frame_end(items, idx as int, wait as nat),
        decreases cmds@.len() - i,
    {
        match &cmds[i] {
            ScriptCommand::Tick(n) => {
                w = *n;
            },
            _ => {},
        }
        i = i + 1;
    }
    let over = i >= cmds.len() && w == 0;
    let left = if w > 0 { w - 1 } else { 0 };
    (i, left, over)
}

/// The key a script names: the name in lower case; "space" is the space
/// bar, "=" is "+", "up", "down" and "esc" are those keys, a one-byte name
/// is that character, and any other name is no key.
pub open spec fn key_named(name: Seq<char>) -> Key {
    let l = lowercase(name);
    if l == "space"@ {
        Key::Char(' ')
    } else if l == "="@ {
        Key::Char('+')
    } else if l == "up"@ {
        Key::Up
    } else if l == "down"@ {
        Key::Down
    } else if l == "esc"@ {
        Key::Esc
    } else if utf8_len(l) == 1 {
        Key::Char(l[0])
    } else {
        Key::Other
    }
}

/// The key a script names.
pub fn key_from_name(name: &str) -> (k: Key)
    ensures
        k == key_named(name@),
{
    let l = to_lowercase(name);
    let lc = chars_of(l.as_str());
    proof {
        assert(lc@ == lowercase(name@));
    }
    if spells(&lc, "space") {
        Key::Char(' ')
    } else if spells(&lc, "=") {
        Key::Char('+')
    } else if spells(&lc, "up") {
        Key::Up
    } else if spells(&lc, "down") {
        Key::Down
    } else if spells(&lc, "esc") {
        Key::Esc
    } else if lc.len() == 1 && char_width(lc[0]) == 1 {
        proof {
            assert(utf8_len(lc@) == utf8_width(lc@[0])) by {
                reveal_with_fuel(utf8_len, 2);
                assert(lc@.drop_first() =~= Seq::<char>::empty());
            }
        }
        Key::Char(lc[0])
    } else {
        proof {
            if utf8_len(lc@) == 1 {
                lemma_utf8_len_one(lc@);
            }
        }
        Key::Other
    }
}

/// A text of UTF-8 length one is one one-byte character.
proof fn lemma_utf8_len_one(s: Seq<char>)
    requires
        utf8_len(s) == 1,
    ensures
        s.len() == 1,
        utf8_width(s[0]) == 1,
{
    lemma_utf8_len_at_least_len(s);
    if s.len() == 1 {
        assert(s.drop_last() =~= Seq::<char>::empty());
    }
}

/// Every character takes at least one byte.
proof fn lemma_utf8_len_at_least_len(s: Seq<char>)
    ensures
        utf8_len(s) >= s.len(),
    decreases s.len(),
{
    if s.len() > 0 {
        lemma_utf8_len_at_least_len(s.drop_last());
    }
}

} // verus!

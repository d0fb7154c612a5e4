//! The operator console of the web interface: a one-line command language
//! (`ping`, `sysinfo`, `scan`, `jam`, `spoof`, `mitigate`, `logs`) with its
//! argument checks and its effect on the console state.
use vstd::prelude::*;
use crate::text::{chars_of, spells, split_words, utf8_len, utf8_len_at_least, words};

verus! {

/// Longest payload accepted, in UTF-8 bytes.
pub const MAX_PAYLOAD_BYTES: usize = 4096;

/// Number of spoofed targets the console keeps at most.
pub const SPOOF_QUEUE_CAPACITY: u32 = 20;

/// Target id spoofed when the command names none.
pub const DEFAULT_SPOOF_ID: u32 = 9999;

/// How a `--speed` argument reads as a floating-point speed in m/s.
#[derive(Clone, Copy, Debug, PartialEq, Eq, Structural)]
pub enum SpeedVerdict {
    /// A finite speed between zero and the speed of light.
    Valid,
    /// Not a number, infinite, or faster than light.
    Superluminal,
    /// A finite negative speed.
    Negative,
    /// Not a number at all.
    Malformed,
}

/// The console's answer to a command.
#[derive(Clone, Copy, Debug, PartialEq, Eq, Structural)]
pub enum ConsoleReply {
    BufferOverflow,
    UnknownCommand,
    Pong,
    SystemNominal,
    ScanFrequencies,
    /// Jamming switched; the new state.
    Jamming(bool),
    /// A target is being spoofed; `speed_word` is the index of the word that
    /// gave its speed, if any.
    Spoofing { id: u32, speed_word: Option<usize> },
    InvalidArguments,
    InvalidTargetId,
    DuplicateSpoofId,
    SuperluminalSpeed,
    InvalidSpeedBounds,
    SpoofQueueFull,
    SpoofMitigated,
    Logs,
}

/// What the console commands change.
pub struct ConsoleState {
    pub jamming_active: bool,
    pub active_spoof_count: u32,
    pub spoofed_ids: Vec<u32>,
}

/// An ASCII decimal digit.
pub open spec fn is_digit(c: char) -> bool {
    '0' <= c && c <= '9'
}

/// Value of a string of decimal digits.
pub open spec fn digits_value(w: Seq<char>) -> nat
    decreases w.len(),
{
    if w.len() == 0 {
        0
    } else {
        digits_value(w.drop_last()) * 10 + ((w.last() as u32) - 48) as nat
    }
}

/// The digits of a word after an optional sign.
pub open spec fn unsigned_part(w: Seq<char>) -> Seq<char> {
    if w.len() > 0 && (w[0] == '+' || w[0] == '-') {
        w.drop_first()
    } else {
        w
    }
}

/// The target id a word spells: an integer in the syntax of
/// `i64::from_str` (an optional sign, then decimal digits) whose value lies
/// in `0..=u32::MAX`.
pub open spec fn target_id_word(w: Seq<char>) -> Option<u32> {
    let body = unsigned_part(w);
    if body.len() == 0 || !(forall|k: int| 0 <= k < body.len() ==> #[trigger] is_digit(body[k])) {
        None
    } else if w[0] == '-' && digits_value(body) != 0 {
        None
    } else if digits_value(body) <= u32::MAX {
        Some(digits_value(body) as u32)
    } else {
        None
    }
}

/// The verdict on word `k` as a speed (missing verdicts count as malformed).
pub open spec fn verdict_at(verdicts: Seq<SpeedVerdict>, k: int) -> SpeedVerdict {
    if 0 <= k < verdicts.len() {
        verdicts[k]
    } else {
        SpeedVerdict::Malformed
    }
}

/// Reading the arguments of `spoof` from word `i` on, with the ids and the
/// speed word read so far: the first error, or the ids and the speed word.
pub open spec fn spoof_scan(
    w: Seq<Seq<char>>,
    i: int,
    ids: Seq<u32>,
    speed: Option<usize>,
    verdicts: Seq<SpeedVerdict>,
) -> (Option<ConsoleReply>, Seq<u32>, Option<usize>)
    decreases w.len() - i,
{
    if i < 0 || i >= w.len() {
        (None, ids, speed)
    } else if w[i] == "--id"@ {
        if i + 1 >= w.len() {
            (Some(ConsoleReply::InvalidArguments), ids, speed)
        } else {
            match target_id_word(w[i + 1]) {
                None => (Some(ConsoleReply::InvalidTargetId), ids, speed),
                Some(id) => if ids.contains(id) {
                    (Some(ConsoleReply::DuplicateSpoofId), ids, speed)
                } else {
                    spoof_scan(w, i + 2, ids.push(id), speed, verdicts)
                },
            }
        }
    } else if w[i] == "--speed"@ {
        if i + 1 >= w.len() {
            (Some(ConsoleReply::InvalidArguments), ids, speed)
        } else {
            match verdict_at(verdicts, i + 1) {
                SpeedVerdict::Valid => spoof_scan(w, i + 2, ids, Some((i + 1) as usize), verdicts),
                SpeedVerdict::Superluminal => (Some(ConsoleReply::SuperluminalSpeed), ids, speed),
                SpeedVerdict::Negative => (Some(ConsoleReply::InvalidSpeedBounds), ids, speed),
                SpeedVerdict::Malformed => (Some(ConsoleReply::InvalidArguments), ids, speed),
            }
        }
    } else {
        match target_id_word(w[i]) {
            None => (Some(ConsoleReply::InvalidTargetId), ids, speed),
            Some(id) => if ids.contains(id) {
                (Some(ConsoleReply::DuplicateSpoofId), ids, speed)
            } else {
                spoof_scan(w, i + 1, ids.push(id), speed, verdicts)
            },
        }
    }
}

/// The reply to `payload`, given whether jamming is on, how many targets are
/// spoofed, and the verdict on each word of the payload as a speed.
pub open spec fn console_reply(
    payload: Seq<char>,
    jamming: bool,
    spoof_count: u32,
    verdicts: Seq<SpeedVerdict>,
) -> ConsoleReply {
    let w = words(payload);
    if utf8_len(payload) > MAX_PAYLOAD_BYTES {
        ConsoleReply::BufferOverflow
    } else if w.len() == 0 {
        ConsoleReply::UnknownCommand
    } else if w[0] == "ping"@ {
        ConsoleReply::Pong
    } else if w[0] == "sysinfo"@ {
        ConsoleReply::SystemNominal
    } else if w[0] == "scan"@ {
        ConsoleReply::ScanFrequencies
    } else if w[0] == "jam"@ {
        ConsoleReply::Jamming(!jamming)
    } else if w[0] == "spoof"@ {
        let (err, ids, speed) = spoof_scan(w, 1, Seq::empty(), None, verdicts);
        match err {
            Some(e) => e,
            None => if spoof_count >= SPOOF_QUEUE_CAPACITY {
                ConsoleReply::SpoofQueueFull
            } else {
                ConsoleReply::Spoofing {
                    id: if ids.len() > 0 { ids[0] } else { DEFAULT_SPOOF_ID },
                    speed_word: speed,
                }
            },
        }
    } else if w[0] == "mitigate"@ {
        if w.len() > 1 && w[1] == "--spoof"@ {
            ConsoleReply::SpoofMitigated
        } else {
            ConsoleReply::UnknownCommand
        }
    } else if w[0] == "logs"@ {
        ConsoleReply::Logs
    } else {
        ConsoleReply::UnknownCommand
    }
}

proof fn lemma_digits_value_step(w: Seq<char>, k: int)
    requires
        0 <= k < w.len(),
    ensures
        digits_value(w.take(k + 1)) == digits_value(w.take(k)) * 10 + ((w[k] as u32) - 48) as nat,
{
    assert(w.take(k + 1).drop_last() =~= w.take(k));
}

proof fn lemma_digits_value_grows(w: Seq<char>, k: int)
    requires
        0 <= k <= w.len(),
    ensures
        digits_value(w.take(k)) <= digits_value(w),
    decreases w.len() - k,
{
    if k < w.len() {
        lemma_digits_value_grows(w, k + 1);
        lemma_digits_value_step(w, k);
    } else {
        assert(w.take(k) =~= w);
    }
}

/// The target id that the word `w` spells, if any.
fn parse_target_id(w: &[char]) -> (r: Option<u32>)
    ensures
        r == target_id_word(w@),
{
    let signed = w.len() > 0 && (w[0] == '+' || w[0] == '-');
    let start: usize = if signed { 1 } else { 0 };
    let ghost body = unsigned_part(w@);
    assert(body =~= w@.subrange(start as int, w@.len() as int));
    if start >= w.len() {
        return None;
    }
    let mut value: u64 = 0;
    let mut big = false;
    let mut k: usize = start;
    while k < w.len()
        invariant
            start <= k <= w.len(),
            start < w.len(),
            body == w@.subrange(start as int, w@.len() as int),
            body == unsigned_part(w@),
            forall|i: int| 0 <= i < k - start ==> #[trigger] is_digit(body[i]),
            !big ==> value == digits_value(body.take(k - start)) && value <= u32::MAX,
            big ==> digits_value(body.take(k - start)) > u32::MAX,
        decreases w.len() - k,
    {
        let c = w[k];
        if !('0' <= c && c <= '9') {
            assert(!is_digit(body[k - start]));
            assert(body.len() > 0);
            assert(!(forall|i: int| 0 <= i < body.len() ==> #[trigger] is_digit(body[i])));
            return None;
        }
        let d = (c as u32 - 48) as u64;
        proof {
            lemma_digits_value_step(body, k - start);
        }
        if !big {
            let next = value * 10 + d;
            if next > 0xFFFF_FFFF {
                big = true;
            } else {
                value = next;
            }
        } else {
            assert(digits_value(body.take(k - start + 1)) >= digits_value(body.take(k - start)) * 10)
                by (nonlinear_arith)
                requires
                    digits_value(body.take(k - start + 1)) == digits_value(body.take(k - start)) * 10
                        + ((body[k - start] as u32) - 48) as nat,
                    is_digit(body[k - start]),
            ;
        }
        k = k + 1;
    }
    assert(body.take(k - start) =~= body);
    if big {
        None
    } else if w[0] == '-' && value != 0 {
        None
    } else {
        Some(value as u32)
    }
}

/// The errors of the `spoof` arguments neither switch jamming nor spoof.
proof fn lemma_spoof_scan_errors(
    w: Seq<Seq<char>>,
    i: int,
    ids: Seq<u32>,
    speed: Option<usize>,
    verdicts: Seq<SpeedVerdict>,
)
    ensures
        spoof_scan(w, i, ids, speed, verdicts).0 matches Some(e) ==> !(e is Jamming) && !(e is Spoofing),
    decreases w.len() - i,
{
    if 0 <= i < w.len() {
        if w[i] == "--id"@ {
            if i + 1 < w.len() {
                if let Some(id) = target_id_word(w[i + 1]) {
                    if !ids.contains(id) {
                        lemma_spoof_scan_errors(w, i + 2, ids.push(id), speed, verdicts);
                    }
                }
            }
        } else if w[i] == "--speed"@ {
            if i + 1 < w.len() && verdict_at(verdicts, i + 1) == SpeedVerdict::Valid {
                lemma_spoof_scan_errors(w, i + 2, ids, Some((i + 1) as usize), verdicts);
            }
        } else {
            if let Some(id) = target_id_word(w[i]) {
                if !ids.contains(id) {
                    lemma_spoof_scan_errors(w, i + 1, ids.push(id), speed, verdicts);
                }
            }
        }
    }
}

/// Whether `id` occurs in `ids`.
fn holds_id(ids: &Vec<u32>, id: u32) -> (b: bool)
    ensures
        b == ids@.contains(id),
{
    let mut k: usize = 0;
    while k < ids.len()
        invariant
            k <= ids.len(),
            forall|i: int| 0 <= i < k ==> ids@[i] != id,
        decreases ids.len() - k,
    {
        if ids[k] == id {
            assert(ids@[k as int] == id);
            return true;
        }
        k = k + 1;
    }
    false
}

/// The arguments of `spoof` (the words after the first): the first error,
/// or the ids named and the word that gave the speed.
fn scan_spoof_args(w: &Vec<Vec<char>>, verdicts: &[SpeedVerdict]) -> (r: (
    Option<ConsoleReply>,
    Vec<u32>,
    Option<usize>,
))
    ensures
        (r.0, r.1@, r.2) == spoof_scan(
            w@.map_values(|x: Vec<char>| x@),
            1,
            Seq::empty(),
            None,
            verdicts@,
        ),
{
    let ghost ws = w@.map_values(|x: Vec<char>| x@);
    let mut ids: Vec<u32> = Vec::new();
    let mut speed: Option<usize> = None;
    let mut i: usize = 1;
    if w.len() == 0 {
        return (None, ids, speed);
    }
    while i < w.len()
        invariant
            1 <= i <= w.len(),
            ws == w@.map_values(|x: Vec<char>| x@),
            spoof_scan(ws, i as int, ids@, speed, verdicts@) == spoof_scan(
                ws,
                1,
                Seq::empty(),
                None,
                verdicts@,
            ),
        decreases w.len() - i,
    {
        assert(ws[i as int] == w[i as int]@);
        if spells(&w[i], "--id") {
            if i + 1 >= w.len() {
                return (Some(ConsoleReply::InvalidArguments), ids, speed);
            }
            assert(ws[i + 1] == w[i + 1]@);
            match parse_target_id(&w[i + 1]) {
                None => {
                    return (Some(ConsoleReply::InvalidTargetId), ids, speed);
                },
                Some(id) => {
                    if holds_id(&ids, id) {
                        return (Some(ConsoleReply::DuplicateSpoofId), ids, speed);
                    }
                    ids.push(id);
                    i = i + 2;
                },
            }
        } else if spells(&w[i], "--speed") {
            if i + 1 >= w.len() {
                return (Some(ConsoleReply::InvalidArguments), ids, speed);
            }
            let v = if i + 1 < verdicts.len() {
                verdicts[i + 1]
            } else {
                SpeedVerdict::Malformed
            };
            match v {
                SpeedVerdict::Valid => {
                    speed = Some(i + 1);
                    i = i + 2;
                },
                SpeedVerdict::Superluminal => {
                    return (Some(ConsoleReply::SuperluminalSpeed), ids, speed);
                },
                SpeedVerdict::Negative => {
                    return (Some(ConsoleReply::InvalidSpeedBounds), ids, speed);
                },
                SpeedVerdict::Malformed => {
                    return (Some(ConsoleReply::InvalidArguments), ids, speed);
                },
            }
        } else {
            match parse_target_id(&w[i]) {
                None => {
                    return (Some(ConsoleReply::InvalidTargetId), ids, speed);
                },
                Some(id) => {
                    if holds_id(&ids, id) {
                        return (Some(ConsoleReply::DuplicateSpoofId), ids, speed);
                    }
                    ids.push(id);
                    i = i + 1;
                },
            }
        }
    }
    (None, ids, speed)
}

/// Runs one console command: answers it and applies its effect (switching
/// jamming, queueing a spoofed target). `verdicts[k]` is the verdict on
/// word `k` of the payload read as a speed.
pub fn run_console_command(payload: &str, state: &mut ConsoleState, verdicts: &[SpeedVerdict]) -> (r:
    ConsoleReply)
    ensures
        r == console_reply(payload@, old(state).jamming_active, old(state).active_spoof_count, verdicts@),
        final(state).jamming_active == (match r {
            ConsoleReply::Jamming(on) => on,
            _ => old(state).jamming_active,
        }),
        final(state).active_spoof_count == (match r {
            ConsoleReply::Spoofing { .. } => (old(state).active_spoof_count + 1) as u32,
            _ => old(state).active_spoof_count,
        }),
        final(state).spoofed_ids@ == (match r {
            ConsoleReply::Spoofing { id, .. } => old(state).spoofed_ids@.push(id),
            _ => old(state).spoofed_ids@,
        }),
{
    let chars = chars_of(payload);
    if utf8_len_at_least(&chars, MAX_PAYLOAD_BYTES + 1) {
        return ConsoleReply::BufferOverflow;
    }
    let w = split_words(&chars);
    let ghost ws = words(payload@);
    assert(w@.map_values(|x: Vec<char>| x@) =~= ws);
    if w.len() == 0 {
        return ConsoleReply::UnknownCommand;
    }
    assert(ws[0] == w[0]@);
    if spells(&w[0], "ping") {
        ConsoleReply::Pong
    } else if spells(&w[0], "sysinfo") {
        ConsoleReply::SystemNominal
    } else if spells(&w[0], "scan") {
        ConsoleReply::ScanFrequencies
    } else if spells(&w[0], "jam") {
        state.jamming_active = !state.jamming_active;
        ConsoleReply::Jamming(state.jamming_active)
    } else if spells(&w[0], "spoof") {
        let (err, ids, speed) = scan_spoof_args(&w, verdicts);
        proof {
            lemma_spoof_scan_errors(ws, 1, Seq::empty(), None, verdicts@);
        }
        match err {
            Some(e) => e,
            None => {
                if state.active_spoof_count >= SPOOF_QUEUE_CAPACITY {
                    ConsoleReply::SpoofQueueFull
                } else {
                    let id = if ids.len() > 0 {
                        ids[0]
                    } else {
                        DEFAULT_SPOOF_ID
                    };
                    state.active_spoof_count = state.active_spoof_count + 1;
                    state.spoofed_ids.push(id);
                    ConsoleReply::Spoofing { id, speed_word: speed }
                }
            },
        }
    } else if spells(&w[0], "mitigate") {
        if w.len() > 1 && spells(&w[1], "--spoof") {
            assert(ws[1] == w[1]@);
            ConsoleReply::SpoofMitigated
        } else {
            proof {
                if w.len() > 1 {
                    assert(ws[1] == w[1]@);
                }
            }
            ConsoleReply::UnknownCommand
        }
    } else if spells(&w[0], "logs") {
        ConsoleReply::Logs
    } else {
        ConsoleReply::UnknownCommand
    }
}

/// The spoof queue never outgrows its capacity: a command spoofs a target
/// only while fewer than `SPOOF_QUEUE_CAPACITY` are spoofed.
pub proof fn lemma_spoof_queue_bounded(
    payload: Seq<char>,
    jamming: bool,
    spoof_count: u32,
    verdicts: Seq<SpeedVerdict>,
)
    ensures
        console_reply(payload, jamming, spoof_count, verdicts) is Spoofing ==> spoof_count
            < SPOOF_QUEUE_CAPACITY,
{
    lemma_spoof_scan_errors(words(payload), 1, Seq::empty(), None, verdicts);
}

} // verus!

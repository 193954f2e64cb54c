//! The grammar of one log line:
//!
//! `[Y.M.D-h.m.s:ms]` `[ frame ]` `Category: ` `Verbosity: ` message
//!
//! The two bracketed groups and the verbosity are optional; the category,
//! closed by a colon and one space, is not.
use vstd::prelude::*;

use crate::entry::{
    verbosity_name, zero_timestamp, LogEntry, LogEntryView, Timestamp, UnrealLogParserError,
    Verbosity,
};
use crate::text::{char_digit, chars_of, decimal_value, is_digit, string_of_range};

verus! {

/// The characters that close the seven timestamp fields, in order.
pub open spec fn timestamp_separators() -> Seq<char> {
    seq!['.', '.', '-', '.', '.', ':', ']']
}

/// Number of consecutive digits in `s` from index `i`.
pub open spec fn digit_run(s: Seq<char>, i: int) -> nat
    decreases s.len() - i,
{
    if 0 <= i < s.len() && is_digit(s[i]) {
        1 + digit_run(s, i + 1)
    } else {
        0
    }
}

/// A character allowed between the brackets of a frame number.
pub open spec fn is_frame_char(c: char) -> bool {
    is_digit(c) || c == ' '
}

/// Number of consecutive frame characters in `s` from index `i`.
pub open spec fn frame_run(s: Seq<char>, i: int) -> nat
    decreases s.len() - i,
{
    if 0 <= i < s.len() && is_frame_char(s[i]) {
        1 + frame_run(s, i + 1)
    } else {
        0
    }
}

/// A character allowed in a category: anything but a colon, an opening
/// bracket or white space.
pub open spec fn is_category_char(c: char) -> bool {
    c != ':' && c != '[' && c != ' ' && c != '\t' && c != '\r' && c != '\n'
}

/// Number of consecutive category characters in `s` from index `i`.
pub open spec fn category_run(s: Seq<char>, i: int) -> nat
    decreases s.len() - i,
{
    if 0 <= i < s.len() && is_category_char(s[i]) {
        1 + category_run(s, i + 1)
    } else {
        0
    }
}

/// Reads, from index `i`, one non-empty digit run closed by each separator of
/// `seps` in turn. Gives the values read and the index after the last separator.
pub open spec fn scan_fields(s: Seq<char>, i: int, seps: Seq<char>) -> Option<(Seq<nat>, int)>
    decreases seps.len(),
{
    if seps.len() == 0 {
        Some((Seq::empty(), i))
    } else {
        let n = digit_run(s, i);
        if n > 0 && i + n < s.len() && s[i + n] == seps[0] {
            match scan_fields(s, i + n + 1, seps.drop_first()) {
                Some((vs, e)) => Some((seq![decimal_value(s.subrange(i, i + n))] + vs, e)),
                None => None,
            }
        } else {
            None
        }
    }
}

/// The bracketed timestamp at the start of `s`: its seven field values and
/// the index after its closing bracket.
#[verifier::opaque]
pub open spec fn timestamp_at(s: Seq<char>) -> Option<(Seq<nat>, int)> {
    if s.len() > 0 && s[0] == '[' {
        scan_fields(s, 1, timestamp_separators())
    } else {
        None
    }
}

/// The bracketed frame number at index `p`: the text between the brackets
/// and the index after the closing bracket.
#[verifier::opaque]
pub open spec fn frame_at(s: Seq<char>, p: int) -> Option<(Seq<char>, int)> {
    let n = frame_run(s, p + 1);
    if 0 <= p < s.len() && s[p] == '[' && n > 0 && p + 1 + n < s.len() && s[p + 1 + n] == ']' {
        Some((s.subrange(p + 1, p + 1 + n), p + 2 + n))
    } else {
        None
    }
}

/// The category at index `p`, followed by `": "`: its length.
pub open spec fn category_at(s: Seq<char>, p: int) -> Option<nat> {
    let n = category_run(s, p);
    if n > 0 && p + n + 1 < s.len() && s[p + n] == ':' && s[p + n + 1] == ' ' {
        Some(n)
    } else {
        None
    }
}

/// The tag of `v` followed by `": "` stands at index `p`.
pub open spec fn tag_at(s: Seq<char>, p: int, v: Verbosity) -> bool {
    let t = verbosity_name(v) + seq![':', ' '];
    0 <= p && p + t.len() <= s.len() && s.subrange(p, p + t.len()) == t
}

/// The verbosity whose tag, followed by `": "`, stands at index `p`.
#[verifier::opaque]
pub open spec fn verbosity_at(s: Seq<char>, p: int) -> Option<Verbosity> {
    if tag_at(s, p, Verbosity::VeryVerbose) {
        Some(Verbosity::VeryVerbose)
    } else if tag_at(s, p, Verbosity::Verbose) {
        Some(Verbosity::Verbose)
    } else if tag_at(s, p, Verbosity::Display) {
        Some(Verbosity::Display)
    } else if tag_at(s, p, Verbosity::Log) {
        Some(Verbosity::Log)
    } else if tag_at(s, p, Verbosity::Warning) {
        Some(Verbosity::Warning)
    } else if tag_at(s, p, Verbosity::Error) {
        Some(Verbosity::Error)
    } else if tag_at(s, p, Verbosity::Fatal) {
        Some(Verbosity::Fatal)
    } else {
        None
    }
}

/// The number fits in a `u32`.
pub open spec fn fits_u32(n: nat) -> bool {
    n <= u32::MAX
}

/// The timestamp with the seven field values `vs`, if each fits in a `u32`.
pub open spec fn timestamp_value(vs: Seq<nat>) -> Option<Timestamp> {
    if forall|k: int| 0 <= k < vs.len() ==> fits_u32(#[trigger] vs[k]) {
        Some(
            Timestamp {
                year: vs[0] as u32,
                month: vs[1] as u32,
                day: vs[2] as u32,
                hour: vs[3] as u32,
                minute: vs[4] as u32,
                second: vs[5] as u32,
                millisecond: vs[6] as u32,
            },
        )
    } else {
        None
    }
}

/// `s` with its spaces removed.
pub open spec fn strip_spaces(s: Seq<char>) -> Seq<char>
    decreases s.len(),
{
    if s.len() == 0 {
        s
    } else if s.last() == ' ' {
        strip_spaces(s.drop_last())
    } else {
        strip_spaces(s.drop_last()).push(s.last())
    }
}

/// The number written between the brackets of a frame number: its digits
/// with the spaces removed, if there is at least one and the value fits.
pub open spec fn frame_value(body: Seq<char>) -> Option<u32> {
    let d = strip_spaces(body);
    if d.len() > 0 && fits_u32(decimal_value(d)) {
        Some(decimal_value(d) as u32)
    } else {
        None
    }
}

/// Index after the timestamp at the start of `s`, or 0 where there is none.
pub open spec fn after_timestamp(s: Seq<char>) -> int {
    match timestamp_at(s) {
        Some((_, e)) => e,
        None => 0,
    }
}

/// Index after the frame number that follows the timestamp, or
/// `after_timestamp(s)` where there is none.
pub open spec fn after_frame(s: Seq<char>) -> int {
    match frame_at(s, after_timestamp(s)) {
        Some((_, e)) => e,
        None => after_timestamp(s),
    }
}

/// The verbosity written at index `p`, `Log` where none is.
pub open spec fn verbosity_or_log(s: Seq<char>, p: int) -> Verbosity {
    match verbosity_at(s, p) {
        Some(v) => v,
        None => Verbosity::Log,
    }
}

/// Index where the message starts, the verbosity being looked for at `p`.
pub open spec fn message_start(s: Seq<char>, p: int) -> int {
    match verbosity_at(s, p) {
        Some(v) => p + verbosity_name(v).len() + 2,
        None => p,
    }
}

/// The entry made of fields that the grammar matched, or the error of the
/// first one whose number does not convert.
#[verifier::opaque]
pub open spec fn fields_result(
    ts: Option<(Seq<nat>, int)>,
    fr: Option<(Seq<char>, int)>,
    category: Seq<char>,
    verbosity: Verbosity,
    message: Seq<char>,
) -> Result<LogEntryView, UnrealLogParserError> {
    if match ts {
        Some((vs, _)) => timestamp_value(vs) is None,
        None => false,
    } {
        Err(UnrealLogParserError::InvalidTimestamp)
    } else if match fr {
        Some((body, _)) => frame_value(body) is None,
        None => false,
    } {
        Err(UnrealLogParserError::InvalidFrameNumber)
    } else {
        Ok(
            LogEntryView {
                timestamp: match ts {
                    Some((vs, _)) => timestamp_value(vs)->0,
                    None => zero_timestamp(),
                },
                frame_num: match fr {
                    Some((body, _)) => frame_value(body)->0,
                    None => 0,
                },
                category,
                verbosity,
                message,
            },
        )
    }
}

/// What one line of text parses to.
pub open spec fn line_result(s: Seq<char>) -> Result<LogEntryView, UnrealLogParserError> {
    let p2 = after_frame(s);
    match category_at(s, p2) {
        None => Err(UnrealLogParserError::ParseError),
        Some(n) => {
            let p3 = p2 + n + 2;
            fields_result(
                timestamp_at(s),
                frame_at(s, after_timestamp(s)),
                s.subrange(p2, p2 + n),
                verbosity_or_log(s, p3),
                s.subrange(message_start(s, p3), s.len() as int),
            )
        },
    }
}

/// Length of the digit run in `s` from `i`.
fn scan_digits(s: &Vec<char>, i: usize) -> (r: usize)
    requires
        i <= s@.len(),
    ensures
        r == digit_run(s@, i as int),
        i + r <= s@.len(),
        forall|k: int| i <= k < i + r ==> is_digit(#[trigger] s@[k]),
{
    let mut j = i;
    while j < s.len() && is_digit_char(s[j])
        invariant
            i <= j <= s@.len(),
            forall|k: int| i <= k < j ==> is_digit(#[trigger] s@[k]),
            digit_run(s@, i as int) == (j - i) + digit_run(s@, j as int),
        decreases s@.len() - j,
    {
        j = j + 1;
    }
    j - i
}

/// Length of the run of frame characters in `s` from `i`.
fn scan_frame_chars(s: &Vec<char>, i: usize) -> (r: usize)
    requires
        i <= s@.len(),
    ensures
        r == frame_run(s@, i as int),
        i + r <= s@.len(),
        forall|k: int| i <= k < i + r ==> is_frame_char(#[trigger] s@[k]),
{
    let mut j = i;
    while j < s.len() && (is_digit_char(s[j]) || s[j] == ' ')
        invariant
            i <= j <= s@.len(),
            forall|k: int| i <= k < j ==> is_frame_char(#[trigger] s@[k]),
            frame_run(s@, i as int) == (j - i) + frame_run(s@, j as int),
        decreases s@.len() - j,
    {
        j = j + 1;
    }
    j - i
}

/// Length of the run of category characters in `s` from `i`.
fn scan_category_chars(s: &Vec<char>, i: usize) -> (r: usize)
    requires
        i <= s@.len(),
    ensures
        r == category_run(s@, i as int),
        i + r <= s@.len(),
        forall|k: int| i <= k < i + r ==> is_category_char(#[trigger] s@[k]),
{
    let mut j = i;
    while j < s.len() && s[j] != ':' && s[j] != '[' && s[j] != ' ' && s[j] != '\t' && s[j]
        != '\r' && s[j] != '\n'
        invariant
            i <= j <= s@.len(),
            forall|k: int| i <= k < j ==> is_category_char(#[trigger] s@[k]),
            category_run(s@, i as int) == (j - i) + category_run(s@, j as int),
        decreases s@.len() - j,
    {
        j = j + 1;
    }
    j - i
}

/// The value of the digits `s[from..to]`, if it fits in a `u32`.
fn read_u32(s: &Vec<char>, from: usize, to: usize) -> (r: Option<u32>)
    requires
        from <= to <= s@.len(),
        forall|k: int| from <= k < to ==> is_digit(#[trigger] s@[k]),
    ensures
        r == (if fits_u32(decimal_value(s@.subrange(from as int, to as int))) {
            Some(decimal_value(s@.subrange(from as int, to as int)) as u32)
        } else {
            None
        }),
{
    let mut acc: u32 = 0;
    let mut i = from;
    while i < to
        invariant
            from <= i <= to <= s@.len(),
            forall|k: int| from <= k < to ==> is_digit(#[trigger] s@[k]),
            acc == decimal_value(s@.subrange(from as int, i as int)),
        decreases to - i,
    {
        let d = char_digit(s[i]);
        let ghost prev = s@.subrange(from as int, i as int);
        let ghost next = s@.subrange(from as int, i + 1);
        assert(next.drop_last() == prev);
        if acc > (u32::MAX - d) / 10 {
            assert(decimal_value(next) > u32::MAX);
            proof {
                lemma_decimal_value_grows(s@, from as int, i + 1, to as int);
            }
            return None;
        }
        acc = acc * 10 + d;
        i = i + 1;
    }
    Some(acc)
}

/// A digit sequence never loses value when digits are appended.
proof fn lemma_decimal_value_grows(s: Seq<char>, from: int, i: int, to: int)
    requires
        0 <= from <= i <= to <= s.len(),
    ensures
        decimal_value(s.subrange(from, i)) <= decimal_value(s.subrange(from, to)),
    decreases to - i,
{
    if i < to {
        lemma_decimal_value_grows(s, from, i + 1, to);
        assert(s.subrange(from, i + 1).drop_last() == s.subrange(from, i));
    }
}

/// The frame number written in `s[from..to]`, a run of digits and spaces.
fn read_frame_number(s: &Vec<char>, from: usize, to: usize) -> (r: Option<u32>)
    requires
        from <= to <= s@.len(),
        forall|k: int| from <= k < to ==> is_frame_char(#[trigger] s@[k]),
    ensures
        r == frame_value(s@.subrange(from as int, to as int)),
{
    let mut acc: u32 = 0;
    let mut ok = true;
    let mut seen: usize = 0;
    let mut i = from;
    while i < to
        invariant
            from <= i <= to <= s@.len(),
            forall|k: int| from <= k < to ==> is_frame_char(#[trigger] s@[k]),
            seen == strip_spaces(s@.subrange(from as int, i as int)).len(),
            seen <= i - from,
            ok ==> acc == decimal_value(strip_spaces(s@.subrange(from as int, i as int))),
            !ok ==> !fits_u32(decimal_value(strip_spaces(s@.subrange(from as int, i as int)))),
        decreases to - i,
    {
        let ghost prev = s@.subrange(from as int, i as int);
        let ghost next = s@.subrange(from as int, i + 1);
        assert(next.drop_last() == prev);
        let c = s[i];
        if c != ' ' {
            let d = char_digit(c);
            assert(strip_spaces(next) == strip_spaces(prev).push(c));
            assert(strip_spaces(next).drop_last() == strip_spaces(prev));
            if ok {
                if acc > (u32::MAX - d) / 10 {
                    ok = false;
                } else {
                    acc = acc * 10 + d;
                }
            }
            seen = seen + 1;
        }
        i = i + 1;
    }
    if ok && seen > 0 {
        Some(acc)
    } else {
        None
    }
}

/// Whether the tag of `v`, followed by `": "`, stands in `s` at index `p`.
fn tag_matches(s: &Vec<char>, p: usize, v: Verbosity) -> (r: bool)
    requires
        p <= s@.len(),
    ensures
        r == tag_at(s@, p as int, v),
{
    let t = v.name_chars();
    let ghost full = verbosity_name(v) + seq![':', ' '];
    if t.len() + 2 > s.len() - p {
        return false;
    }
    let mut i: usize = 0;
    while i < t.len()
        invariant
            t@ == verbosity_name(v),
            full == verbosity_name(v) + seq![':', ' '],
            p + t@.len() + 2 <= s.len(),
            i <= t@.len(),
            forall|k: int| 0 <= k < i ==> s@[p + k] == t@[k],
        decreases t@.len() - i,
    {
        if s[p + i] != t[i] {
            assert(s@.subrange(p as int, p + full.len())[i as int] != full[i as int]);
            return false;
        }
        i = i + 1;
    }
    let n = t.len();
    if s[p + n] != ':' {
        assert(s@.subrange(p as int, p + full.len())[n as int] != full[n as int]);
        return false;
    }
    if s[p + n + 1] != ' ' {
        assert(s@.subrange(p as int, p + full.len())[n + 1] != full[n + 1]);
        return false;
    }
    assert(s@.subrange(p as int, p + full.len()) == full);
    true
}

/// `vs` put in front of the values of a scan, if the scan matched.
pub open spec fn prepend_values(vs: Seq<nat>, r: Option<(Seq<nat>, int)>) -> Option<(Seq<nat>, int)> {
    match r {
        Some((ws, e)) => Some((vs + ws, e)),
        None => None,
    }
}

/// One step of `scan_fields`, seen from the values read so far.
proof fn lemma_scan_step(s: Seq<char>, done: Seq<nat>, pos: int, k: int, n: int)
    requires
        0 <= k < 7,
        n == digit_run(s, pos),
        n > 0,
        pos + n < s.len(),
        s[pos + n] == timestamp_separators()[k],
    ensures
        prepend_values(done, scan_fields(s, pos, timestamp_separators().skip(k))) == prepend_values(
            done.push(decimal_value(s.subrange(pos, pos + n))),
            scan_fields(s, pos + n + 1, timestamp_separators().skip(k + 1)),
        ),
{
    let seps = timestamp_separators().skip(k);
    assert(seps.drop_first() == timestamp_separators().skip(k + 1));
    assert(seps[0] == timestamp_separators()[k]);
    let v = decimal_value(s.subrange(pos, pos + n));
    match scan_fields(s, pos + n + 1, timestamp_separators().skip(k + 1)) {
        Some((ws, e)) => {
            assert(done + (seq![v] + ws) == done.push(v) + ws);
        },
        None => {},
    }
}

/// The bracketed timestamp at the start of `s`: `None` where there is none,
/// else its value (`None` where a field does not fit) and the index after it.
fn scan_timestamp(s: &Vec<char>) -> (r: Option<(Option<Timestamp>, usize)>)
    ensures
        match timestamp_at(s@) {
            None => r is None,
            Some((vs, e)) => r == Some((timestamp_value(vs), e as usize)) && 0 <= e <= s.len(),
        },
{
    reveal(timestamp_at);
    if s.len() == 0 || s[0] != '[' {
        return None;
    }
    let seps = vec!['.', '.', '-', '.', '.', ':', ']'];
    let mut vals: Vec<u32> = Vec::new();
    let mut ok = true;
    let ghost mut done: Seq<nat> = Seq::empty();
    let mut pos: usize = 1;
    let mut k: usize = 0;
    assert(timestamp_separators().skip(0) == timestamp_separators());
    assert(done + Seq::<nat>::empty() == done);
    while k < 7
        invariant
            s@.len() > 0 && s@[0] == '[',
            seps@ == timestamp_separators(),
            1 <= pos <= s@.len(),
            k <= 7,
            done.len() == k,
            vals@.len() == k,
            scan_fields(s@, 1, timestamp_separators()) == prepend_values(
                done,
                scan_fields(s@, pos as int, timestamp_separators().skip(k as int)),
            ),
            forall|j: int| 0 <= j < k && fits_u32(done[j]) ==> vals@[j] as nat == done[j],
            ok == (forall|j: int| 0 <= j < k ==> fits_u32(#[trigger] done[j])),
        decreases 7 - k,
    {
        let n = scan_digits(s, pos);
        if n == 0 || n >= s.len() - pos || s[pos + n] != seps[k] {
            proof {
                let t = timestamp_separators().skip(k as int);
                assert(t.len() > 0);
                assert(t[0] == timestamp_separators()[k as int]);
                assert(scan_fields(s@, pos as int, t) is None);
                reveal(timestamp_at);
            }
            return None;
        }
        proof {
            lemma_scan_step(s@, done, pos as int, k as int, n as int);
        }
        let ghost v = decimal_value(s@.subrange(pos as int, pos + n));
        match read_u32(s, pos, pos + n) {
            Some(x) => {
                vals.push(x);
            },
            None => {
                vals.push(0);
                ok = false;
            },
        }
        proof {
            let before = done;
            done = done.push(v);
            assert(forall|j: int| 0 <= j < k ==> done[j] == before[j]);
            assert(done[k as int] == v);
        }
        pos = pos + n + 1;
        k = k + 1;
    }
    assert(timestamp_separators().skip(7).len() == 0);
    let ghost vs = done + Seq::<nat>::empty();
    assert(vs == done);
    if ok {
        let t = Timestamp {
            year: vals[0],
            month: vals[1],
            day: vals[2],
            hour: vals[3],
            minute: vals[4],
            second: vals[5],
            millisecond: vals[6],
        };
        Some((Some(t), pos))
    } else {
        Some((None, pos))
    }
}

/// The verbosity whose tag, followed by `": "`, stands in `s` at index `p`.
fn verbosity_here(s: &Vec<char>, p: usize) -> (r: Option<Verbosity>)
    requires
        p <= s@.len(),
    ensures
        r == verbosity_at(s@, p as int),
        match r {
            Some(v) => tag_at(s@, p as int, v),
            None => true,
        },
{
    reveal(verbosity_at);
    if tag_matches(s, p, Verbosity::VeryVerbose) {
        Some(Verbosity::VeryVerbose)
    } else if tag_matches(s, p, Verbosity::Verbose) {
        Some(Verbosity::Verbose)
    } else if tag_matches(s, p, Verbosity::Display) {
        Some(Verbosity::Display)
    } else if tag_matches(s, p, Verbosity::Log) {
        Some(Verbosity::Log)
    } else if tag_matches(s, p, Verbosity::Warning) {
        Some(Verbosity::Warning)
    } else if tag_matches(s, p, Verbosity::Error) {
        Some(Verbosity::Error)
    } else if tag_matches(s, p, Verbosity::Fatal) {
        Some(Verbosity::Fatal)
    } else {
        None
    }
}

/// The bracketed frame number at index `p`: `None` where there is none,
/// else its value (`None` where it is not a number that fits) and the index after it.
fn scan_frame(s: &Vec<char>, p: usize) -> (r: Option<(Option<u32>, usize)>)
    requires
        p <= s@.len(),
    ensures
        match frame_at(s@, p as int) {
            None => r is None,
            Some((body, e)) => r == Some((frame_value(body), e as usize)) && 0 <= e <= s.len(),
        },
{
    reveal(frame_at);
    if p < s.len() && s[p] == '[' {
        let n = scan_frame_chars(s, p + 1);
        if n > 0 && n < s.len() - (p + 1) && s[p + 1 + n] == ']' {
            return Some((read_frame_number(s, p + 1, p + 1 + n), p + 2 + n));
        }
    }
    None
}

/// Parses one line given as characters.
pub fn parse_line_chars(s: &Vec<char>) -> (r: Result<LogEntry, UnrealLogParserError>)
    ensures
        match r {
            Ok(e) => line_result(s@) == Ok::<LogEntryView, UnrealLogParserError>(e@),
            Err(x) => line_result(s@) == Err::<LogEntryView, UnrealLogParserError>(x),
        },
{
    let ts = scan_timestamp(s);
    let p1: usize = match ts {
        Some((_, e)) => e,
        None => 0,
    };
    let fr = scan_frame(s, p1);
    let p2: usize = match fr {
        Some((_, e)) => e,
        None => p1,
    };
    assert(p1 == after_timestamp(s@));
    assert(p2 == after_frame(s@));
    let n = scan_category_chars(s, p2);
    if !(n > 0 && s.len() - p2 - n >= 2 && s[p2 + n] == ':' && s[p2 + n + 1] == ' ') {
        assert(category_at(s@, p2 as int) is None);
        return Err(UnrealLogParserError::ParseError);
    }
    assert(category_at(s@, p2 as int) == Some(n as nat));
    let p3 = p2 + n + 2;
    let vb = verbosity_here(s, p3);
    let (verbosity, p4) = match vb {
        Some(v) => (v, p3 + v.name_chars().len() + 2),
        None => (Verbosity::Log, p3),
    };
    assert(verbosity == verbosity_or_log(s@, p3 as int));
    assert(p4 == message_start(s@, p3 as int));
    let ghost category = s@.subrange(p2 as int, p2 + n);
    let ghost message = s@.subrange(p4 as int, s@.len() as int);
    assert(line_result(s@) == fields_result(
        timestamp_at(s@),
        frame_at(s@, after_timestamp(s@)),
        category,
        verbosity,
        message,
    ));
    build_entry(s, ts, fr, p2, p2 + n, verbosity, p4)
}

/// The entry made of the fields found in `s`, or the error of the first
/// number that does not convert.
fn build_entry(
    s: &Vec<char>,
    ts: Option<(Option<Timestamp>, usize)>,
    fr: Option<(Option<u32>, usize)>,
    cat_from: usize,
    cat_to: usize,
    verbosity: Verbosity,
    msg_from: usize,
) -> (r: Result<LogEntry, UnrealLogParserError>)
    requires
        cat_from <= cat_to <= s@.len(),
        msg_from <= s@.len(),
        match timestamp_at(s@) {
            None => ts is None,
            Some((vs, e)) => ts == Some((timestamp_value(vs), e as usize)),
        },
        match frame_at(s@, after_timestamp(s@)) {
            None => fr is None,
            Some((body, e)) => fr == Some((frame_value(body), e as usize)),
        },
    ensures
        match r {
            Ok(e) => fields_result(
                timestamp_at(s@),
                frame_at(s@, after_timestamp(s@)),
                s@.subrange(cat_from as int, cat_to as int),
                verbosity,
                s@.subrange(msg_from as int, s@.len() as int),
            ) == Ok::<LogEntryView, UnrealLogParserError>(e@),
            Err(x) => fields_result(
                timestamp_at(s@),
                frame_at(s@, after_timestamp(s@)),
                s@.subrange(cat_from as int, cat_to as int),
                verbosity,
                s@.subrange(msg_from as int, s@.len() as int),
            ) == Err::<LogEntryView, UnrealLogParserError>(x),
        },
{
    reveal(fields_result);
    let timestamp = match ts {
        Some((Some(t), _)) => t,
        Some((None, _)) => {
            return Err(UnrealLogParserError::InvalidTimestamp);
        },
        None => Timestamp::new(),
    };
    let frame_num = match fr {
        Some((Some(f), _)) => f,
        Some((None, _)) => {
            return Err(UnrealLogParserError::InvalidFrameNumber);
        },
        None => 0,
    };
    let category = string_of_range(s, cat_from, cat_to);
    let message = string_of_range(s, msg_from, s.len());
    Ok(LogEntry { timestamp, frame_num, category, verbosity, message })
}

impl LogEntry {
    /// Parses one log line.
    pub fn parse(input: &str) -> (r: Result<LogEntry, UnrealLogParserError>)
        ensures
            match r {
                Ok(e) => line_result(input@) == Ok::<LogEntryView, UnrealLogParserError>(e@),
                Err(x) => line_result(input@) == Err::<LogEntryView, UnrealLogParserError>(x),
            },
    {
        let chars = chars_of(input);
        parse_line_chars(&chars)
    }
}

/// Whether `c` is a decimal digit.
pub fn is_digit_char(c: char) -> (r: bool)
    ensures
        r == is_digit(c),
{
    '0' <= c && c <= '9'
}

} // verus!

//! Facts that hold of every line, stated over the grammar.
use vstd::prelude::*;

use crate::entry::{
    lemma_verbosity_name_inverse, verbosity_name, verbosity_of_name, zero_timestamp,
    LogEntryView, UnrealLogParserError, Verbosity,
};
use crate::entry::Timestamp;
use crate::grammar::{
    after_frame, after_timestamp, category_at, category_run, digit_run, fields_result, fits_u32,
    frame_at, frame_run, frame_value, is_category_char, is_frame_char, line_result, scan_fields,
    strip_spaces, tag_at, timestamp_at, timestamp_separators, timestamp_value, verbosity_at,
};
use crate::text::{all_digits, decimal_value, is_digit};

verus! {

/// `p` is a prefix of `s`.
pub open spec fn is_prefix(p: Seq<char>, s: Seq<char>) -> bool {
    p.len() <= s.len() && s.subrange(0, p.len() as int) == p
}

/// A verbosity tag followed by `": "`.
pub open spec fn tag_text(v: Verbosity) -> Seq<char> {
    verbosity_name(v) + seq![':', ' ']
}

/// A non-empty run of category characters.
pub open spec fn is_category(c: Seq<char>) -> bool {
    c.len() > 0 && forall|i: int| 0 <= i < c.len() ==> is_category_char(#[trigger] c[i])
}

/// `s` holds `c` at index `i` and no category character right after it.
proof fn lemma_category_run(s: Seq<char>, c: Seq<char>, i: int, j: int)
    requires
        is_category(c),
        0 <= i <= j <= i + c.len() <= s.len(),
        s.subrange(i, i + c.len()) == c,
        i + c.len() < s.len() ==> !is_category_char(s[i + c.len()]),
    ensures
        category_run(s, j) == i + c.len() - j,
    decreases i + c.len() - j,
{
    if j < i + c.len() {
        assert(s[j] == c[j - i]);
        lemma_category_run(s, c, i, j + 1);
    }
}

/// A line with no colon anywhere has no category, and so fails with the
/// generic parse error.
pub proof fn lemma_no_colon_no_entry(s: Seq<char>)
    requires
        forall|i: int| 0 <= i < s.len() ==> #[trigger] s[i] != ':',
    ensures
        line_result(s) == Err::<LogEntryView, UnrealLogParserError>(
            UnrealLogParserError::ParseError,
        ),
{
    let p = after_frame(s);
    let n = category_run(s, p);
    if n > 0 && p + n + 1 < s.len() {
        assert(s[p + n] != ':');
    }
    assert(category_at(s, p) is None);
}

/// A tag followed by `": "` is never a prefix of another tag followed by `": "`.
pub proof fn lemma_tags_prefix_free(u: Verbosity, v: Verbosity, msg: Seq<char>)
    requires
        u != v,
    ensures
        !is_prefix(tag_text(u), tag_text(v) + msg),
{
    let a = tag_text(u);
    let b = tag_text(v) + msg;
    if is_prefix(a, b) {
        assert(b.subrange(0, a.len() as int)[0] == a[0]);
        assert(b.subrange(0, a.len() as int)[3] == a[3]);
        assert(false);
    }
}

/// From index `p`, `s` holds a category, `": "` and then `rest`.
proof fn lemma_category_tail(s: Seq<char>, p: int, cat: Seq<char>, rest: Seq<char>)
    requires
        0 <= p <= s.len(),
        is_category(cat),
        s.subrange(p, s.len() as int) == cat + seq![':', ' '] + rest,
    ensures
        category_at(s, p) == Some(cat.len()),
        s.subrange(p, p + cat.len()) == cat,
        s.subrange(p + cat.len() + 2, s.len() as int) == rest,
        forall|u: Verbosity| #[trigger] tag_at(s, p + cat.len() + 2, u) == is_prefix(tag_text(u), rest),
{
    let t = s.subrange(p, s.len() as int);
    let n = cat.len() as int;
    assert(s.subrange(p, p + n) == t.subrange(0, n));
    assert(t.subrange(0, n) == cat);
    assert(s[p + n] == t[n]);
    assert(s[p + n + 1] == t[n + 1]);
    lemma_category_run(s, cat, p, p);
    let q = p + n + 2;
    assert(s.subrange(q, s.len() as int) == t.subrange(n + 2, t.len() as int));
    assert(t.subrange(n + 2, t.len() as int) == rest);
    assert forall|u: Verbosity| #[trigger] tag_at(s, q, u) == is_prefix(tag_text(u), rest) by {
        let a = tag_text(u);
        if q + a.len() <= s.len() {
            assert(s.subrange(q, q + a.len()) == rest.subrange(0, a.len() as int));
        }
    }
}

/// The verbosity whose tag and `": "` start `rest` is found at `q`.
proof fn lemma_verbosity_found(s: Seq<char>, q: int, v: Verbosity, msg: Seq<char>)
    requires
        forall|u: Verbosity| #[trigger] tag_at(s, q, u) == is_prefix(tag_text(u), tag_text(v) + msg),
    ensures
        verbosity_at(s, q) == Some(v),
{
    let r = tag_text(v) + msg;
    assert(r.subrange(0, tag_text(v).len() as int) == tag_text(v));
    assert(tag_at(s, q, v));
    assert forall|u: Verbosity| u != v implies !#[trigger] tag_at(s, q, u) by {
        lemma_tags_prefix_free(u, v, msg);
    }
    reveal(verbosity_at);
}

/// A line `Category: text` with no brackets, whose text does not start with
/// a verbosity tag and `": "`, parses to the zero timestamp, frame 0, that
/// category, verbosity `Log` and the text unchanged.
pub proof fn lemma_category_and_message(cat: Seq<char>, msg: Seq<char>)
    requires
        is_category(cat),
        forall|v: Verbosity| !is_prefix(#[trigger] tag_text(v), msg),
    ensures
        line_result(cat + seq![':', ' '] + msg) == Ok::<LogEntryView, UnrealLogParserError>(
            LogEntryView {
                timestamp: zero_timestamp(),
                frame_num: 0,
                category: cat,
                verbosity: Verbosity::Log,
                message: msg,
            },
        ),
{
    let s = cat + seq![':', ' '] + msg;
    assert(s[0] == cat[0]);
    assert(timestamp_at(s) is None) by {
        reveal(timestamp_at);
    }
    assert(frame_at(s, 0) is None) by {
        reveal(frame_at);
    }
    assert(after_frame(s) == 0);
    assert(s.subrange(0, s.len() as int) == s);
    lemma_category_tail(s, 0, cat, msg);
    assert(verbosity_at(s, cat.len() + 2int) is None) by {
        reveal(verbosity_at);
    }
    reveal(fields_result);
}

/// A word that is no verbosity tag, standing where the verbosity would, is
/// kept at the start of the message, and the verbosity is `Log`.
pub proof fn lemma_unknown_verbosity_in_message(cat: Seq<char>, word: Seq<char>, rest: Seq<char>)
    requires
        is_category(cat),
        verbosity_of_name(word) is None,
        forall|i: int| 0 <= i < word.len() ==> #[trigger] word[i] != ':',
    ensures
        line_result(cat + seq![':', ' '] + (word + seq![':', ' '] + rest))
            == Ok::<LogEntryView, UnrealLogParserError>(
            LogEntryView {
                timestamp: zero_timestamp(),
                frame_num: 0,
                category: cat,
                verbosity: Verbosity::Log,
                message: word + seq![':', ' '] + rest,
            },
        ),
{
    let msg = word + seq![':', ' '] + rest;
    assert forall|v: Verbosity| !is_prefix(#[trigger] tag_text(v), msg) by {
        let t = tag_text(v);
        let name = verbosity_name(v);
        if is_prefix(t, msg) {
            lemma_verbosity_name_inverse(v);
            assert(word != name);
            assert(msg[word.len() as int] == ':');
            if name.len() < word.len() {
                assert(msg.subrange(0, t.len() as int)[name.len() as int] == t[name.len() as int]);
                assert(word[name.len() as int] == ':');
            } else if name.len() > word.len() {
                assert(msg.subrange(0, t.len() as int)[word.len() as int] == t[word.len() as int]);
                assert(name[word.len() as int] == ':');
            } else {
                assert forall|i: int| 0 <= i < word.len() implies word[i] == name[i] by {
                    assert(msg.subrange(0, t.len() as int)[i] == t[i]);
                }
                assert(word == name);
            }
        }
    }
    lemma_category_and_message(cat, msg);
}

/// Each field followed by its separator: `f0 s0 f1 s1 ...`.
pub open spec fn join_fields(fields: Seq<Seq<char>>, seps: Seq<char>) -> Seq<char>
    decreases fields.len(),
{
    if fields.len() == 0 || seps.len() == 0 {
        Seq::empty()
    } else {
        fields[0] + seq![seps[0]] + join_fields(fields.drop_first(), seps.drop_first())
    }
}

/// A line with every element: `[Y.M.D-h.m.s:ms][frame]Category: Verbosity: message`.
pub open spec fn full_line(
    fields: Seq<Seq<char>>,
    frame: Seq<char>,
    cat: Seq<char>,
    v: Verbosity,
    msg: Seq<char>,
) -> Seq<char> {
    seq!['['] + join_fields(fields, timestamp_separators()) + (seq!['['] + frame + seq![']']) + (
    cat + seq![':', ' '] + (tag_text(v) + msg))
}

/// A well-formed timestamp field: a non-empty run of digits whose value fits in a `u32`.
pub open spec fn is_number_field(f: Seq<char>) -> bool {
    f.len() > 0 && all_digits(f) && fits_u32(decimal_value(f))
}

/// A well-formed frame number: digits and spaces, with at least one digit,
/// whose value fits in a `u32`.
pub open spec fn is_frame_field(f: Seq<char>) -> bool {
    &&& f.len() > 0
    &&& forall|i: int| 0 <= i < f.len() ==> is_frame_char(#[trigger] f[i])
    &&& strip_spaces(f).len() > 0
    &&& fits_u32(decimal_value(strip_spaces(f)))
}

/// `s` holds the digits `f` at index `i`, not followed by another digit.
pub(crate) proof fn lemma_digit_run(s: Seq<char>, f: Seq<char>, i: int, j: int)
    requires
        all_digits(f),
        0 <= i <= j <= i + f.len() <= s.len(),
        s.subrange(i, i + f.len()) == f,
        i + f.len() < s.len() ==> !is_digit(s[i + f.len()]),
    ensures
        digit_run(s, j) == i + f.len() - j,
    decreases i + f.len() - j,
{
    if j < i + f.len() {
        assert(s[j] == f[j - i]);
        lemma_digit_run(s, f, i, j + 1);
    }
}

/// `s` holds the frame characters `f` at index `i`, not followed by another one.
proof fn lemma_frame_run(s: Seq<char>, f: Seq<char>, i: int, j: int)
    requires
        forall|k: int| 0 <= k < f.len() ==> is_frame_char(#[trigger] f[k]),
        0 <= i <= j <= i + f.len() <= s.len(),
        s.subrange(i, i + f.len()) == f,
        i + f.len() < s.len() ==> !is_frame_char(s[i + f.len()]),
    ensures
        frame_run(s, j) == i + f.len() - j,
    decreases i + f.len() - j,
{
    if j < i + f.len() {
        assert(s[j] == f[j - i]);
        lemma_frame_run(s, f, i, j + 1);
    }
}

/// Reading fields closed by separators that are not digits gives the value
/// of each field.
proof fn lemma_scan_joined(s: Seq<char>, pos: int, fields: Seq<Seq<char>>, seps: Seq<char>)
    requires
        fields.len() == seps.len(),
        forall|k: int| 0 <= k < fields.len() ==> #[trigger] fields[k].len() > 0 && all_digits(fields[k]),
        forall|k: int| 0 <= k < seps.len() ==> !is_digit(#[trigger] seps[k]),
        0 <= pos,
        pos + join_fields(fields, seps).len() <= s.len(),
        s.subrange(pos, pos + join_fields(fields, seps).len()) == join_fields(fields, seps),
    ensures
        scan_fields(s, pos, seps) == Some(
            (fields.map_values(|f: Seq<char>| decimal_value(f)), pos + join_fields(fields, seps).len()),
        ),
    decreases seps.len(),
{
    if seps.len() == 0 {
        assert(fields.map_values(|f: Seq<char>| decimal_value(f)) == Seq::<nat>::empty());
    } else {
        let j = join_fields(fields, seps);
        let f = fields[0];
        let rest = join_fields(fields.drop_first(), seps.drop_first());
        let n = f.len() as int;
        assert(j == f + seq![seps[0]] + rest);
        assert(s.subrange(pos, pos + n) == j.subrange(0, n));
        assert(j.subrange(0, n) == f);
        assert(s[pos + n] == j[n]);
        lemma_digit_run(s, f, pos, pos);
        assert(s.subrange(pos + n + 1, pos + n + 1 + rest.len()) == j.subrange(n + 1, j.len() as int));
        assert(j.subrange(n + 1, j.len() as int) == rest);
        assert forall|k: int| 0 <= k < fields.drop_first().len() implies #[trigger] fields.drop_first()[k].len() > 0
            && all_digits(fields.drop_first()[k]) by {
            assert(fields.drop_first()[k] == fields[k + 1]);
        }
        assert forall|k: int| 0 <= k < seps.drop_first().len() implies !is_digit(#[trigger] seps.drop_first()[k]) by {
            assert(seps.drop_first()[k] == seps[k + 1]);
        }
        lemma_scan_joined(s, pos + n + 1, fields.drop_first(), seps.drop_first());
        assert(seq![decimal_value(f)] + fields.drop_first().map_values(|f: Seq<char>| decimal_value(f))
            == fields.map_values(|f: Seq<char>| decimal_value(f)));
    }
}

/// A line with a timestamp, a frame number, a category, a verbosity and a
/// message parses to exactly those values, whatever the width of each
/// number: a field's value is the value of its digits, and a frame number's
/// value is that of its digits with the spaces removed. Its timestamp then
/// renders in the zero-padded canonical form of those values.
pub proof fn lemma_full_line(
    fields: Seq<Seq<char>>,
    frame: Seq<char>,
    cat: Seq<char>,
    v: Verbosity,
    msg: Seq<char>,
)
    requires
        fields.len() == 7,
        forall|k: int| 0 <= k < 7 ==> is_number_field(#[trigger] fields[k]),
        is_frame_field(frame),
        is_category(cat),
    ensures
        line_result(full_line(fields, frame, cat, v, msg)) == Ok::<LogEntryView, UnrealLogParserError>(
            LogEntryView {
                timestamp: Timestamp {
                    year: decimal_value(fields[0]) as u32,
                    month: decimal_value(fields[1]) as u32,
                    day: decimal_value(fields[2]) as u32,
                    hour: decimal_value(fields[3]) as u32,
                    minute: decimal_value(fields[4]) as u32,
                    second: decimal_value(fields[5]) as u32,
                    millisecond: decimal_value(fields[6]) as u32,
                },
                frame_num: decimal_value(strip_spaces(frame)) as u32,
                category: cat,
                verbosity: v,
                message: msg,
            },
        ),
{
    let seps = timestamp_separators();
    let j = join_fields(fields, seps);
    let fr = seq!['['] + frame + seq![']'];
    let tail = cat + seq![':', ' '] + (tag_text(v) + msg);
    let s = full_line(fields, frame, cat, v, msg);
    assert(s == seq!['['] + j + fr + tail);
    let p1 = 1 + j.len() as int;
    let p2 = p1 + fr.len() as int;
    // the timestamp
    assert(s.subrange(1, p1) == j);
    assert forall|k: int| 0 <= k < fields.len() implies #[trigger] fields[k].len() > 0 && all_digits(fields[k]) by {
        assert(is_number_field(fields[k]));
    }
    lemma_scan_joined(s, 1, fields, seps);
    let vs = fields.map_values(|f: Seq<char>| decimal_value(f));
    assert(timestamp_at(s) == Some((vs, p1))) by {
        reveal(timestamp_at);
    }
    assert forall|k: int| 0 <= k < vs.len() implies fits_u32(#[trigger] vs[k]) by {
        assert(is_number_field(fields[k]));
    }
    assert(after_timestamp(s) == p1);
    // the frame number
    assert(s[p1] == '[');
    assert(s.subrange(p1 + 1, p1 + 1 + frame.len()) == frame);
    assert(s[p1 + 1 + frame.len()] == ']');
    lemma_frame_run(s, frame, p1 + 1, p1 + 1);
    assert(frame_at(s, p1) == Some((frame, p2))) by {
        reveal(frame_at);
    }
    assert(after_frame(s) == p2);
    // category, verbosity and message
    assert(s.subrange(p2, s.len() as int) == tail);
    lemma_category_tail(s, p2, cat, tag_text(v) + msg);
    let q = p2 + cat.len() as int + 2;
    lemma_verbosity_found(s, q, v, msg);
    assert(s.subrange(q + verbosity_name(v).len() + 2, s.len() as int) == msg);
    assert(timestamp_value(vs) is Some);
    assert(frame_value(frame) == Some(decimal_value(strip_spaces(frame)) as u32));
    reveal(fields_result);
}

} // verus!

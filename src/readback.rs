//! Reading numbers back out of rendered text.
use vstd::prelude::*;

use crate::entry::{LogEntryView, Timestamp};
use crate::grammar::digit_run;
use crate::laws::lemma_digit_run;
use crate::render::{decimal_digits, digit_char, entry_head, padded, timestamp_text};
use crate::text::{all_digits, decimal_value, digit_value, is_digit};
use vstd::seq_lib::lemma_concat_associative;

verus! {

/// The values of the maximal runs of digits in `s`, in order.
pub open spec fn digit_runs(s: Seq<char>) -> Seq<nat>
    decreases s.len(),
{
    if s.len() == 0 {
        Seq::empty()
    } else if !is_digit(s[0]) {
        digit_runs(s.drop_first())
    } else {
        let n = digit_run(s, 0);
        if 0 < n <= s.len() {
            seq![decimal_value(s.subrange(0, n as int))] + digit_runs(s.subrange(n as int, s.len() as int))
        } else {
            Seq::empty()
        }
    }
}

/// No character of `s` is a digit.
pub open spec fn no_digits(s: Seq<char>) -> bool {
    forall|i: int| 0 <= i < s.len() ==> !is_digit(#[trigger] s[i])
}

/// Text without digits holds no run.
proof fn lemma_runs_none(s: Seq<char>)
    requires
        no_digits(s),
    ensures
        digit_runs(s) == Seq::<nat>::empty(),
    decreases s.len(),
{
    if s.len() > 0 {
        assert(no_digits(s.drop_first())) by {
            assert forall|i: int| 0 <= i < s.drop_first().len() implies !is_digit(
                #[trigger] s.drop_first()[i],
            ) by {
                assert(s.drop_first()[i] == s[i + 1]);
            }
        }
        lemma_runs_none(s.drop_first());
    }
}

/// Text without digits, then a run of digits, then text that does not start
/// with a digit: the run's value comes first.
proof fn lemma_runs_step(l: Seq<char>, d: Seq<char>, rest: Seq<char>)
    requires
        no_digits(l),
        d.len() > 0,
        all_digits(d),
        rest.len() > 0 ==> !is_digit(rest[0]),
    ensures
        digit_runs(l + (d + rest)) == seq![decimal_value(d)] + digit_runs(rest),
    decreases l.len(),
{
    let s = l + (d + rest);
    if l.len() > 0 {
        assert(s.drop_first() == l.drop_first() + (d + rest));
        assert(no_digits(l.drop_first())) by {
            assert forall|i: int| 0 <= i < l.drop_first().len() implies !is_digit(
                #[trigger] l.drop_first()[i],
            ) by {
                assert(l.drop_first()[i] == l[i + 1]);
            }
        }
        assert(s[0] == l[0]);
        lemma_runs_step(l.drop_first(), d, rest);
    } else {
        assert(s == d + rest);
        assert(s.subrange(0, d.len() as int) == d);
        if d.len() < s.len() {
            assert(s[d.len() as int] == rest[0]);
        }
        lemma_digit_run(s, d, 0, 0);
        assert(s[0] == d[0]);
        assert(s.subrange(d.len() as int, s.len() as int) == rest);
    }
}

/// A digit character reads back as its value.
proof fn lemma_digit_char(d: nat)
    requires
        d < 10,
    ensures
        is_digit(digit_char(d)),
        digit_value(digit_char(d)) == d,
{
}

/// The decimal digits of `n` are digits and read back as `n`.
proof fn lemma_decimal_digits(n: nat)
    ensures
        decimal_digits(n).len() > 0,
        all_digits(decimal_digits(n)),
        decimal_value(decimal_digits(n)) == n,
    decreases n,
{
    lemma_digit_char(n % 10);
    if n >= 10 {
        lemma_decimal_digits(n / 10);
        let d = decimal_digits(n);
        assert(d.drop_last() == decimal_digits(n / 10));
        assert(d.last() == digit_char(n % 10));
        assert(decimal_value(d) == decimal_value(d.drop_last()) * 10 + digit_value(d.last()));
        assert(n == (n / 10) * 10 + n % 10);
        assert forall|i: int| 0 <= i < d.len() implies is_digit(#[trigger] d[i]) by {
            if i < d.len() - 1 {
                assert(d[i] == decimal_digits(n / 10)[i]);
            }
        }
    } else {
        let d = decimal_digits(n);
        assert(d.drop_last() == Seq::<char>::empty());
        assert(d.last() == digit_char(n));
        assert(decimal_value(d) == decimal_value(d.drop_last()) * 10 + digit_value(d.last()));
    }
}

/// Leading zeros do not change the value of a digit sequence.
proof fn lemma_leading_zeros(z: Seq<char>, x: Seq<char>)
    requires
        forall|i: int| 0 <= i < z.len() ==> #[trigger] z[i] == '0',
    ensures
        decimal_value(z + x) == decimal_value(x),
    decreases z.len() + x.len(),
{
    if x.len() > 0 {
        assert((z + x).drop_last() == z + x.drop_last());
        lemma_leading_zeros(z, x.drop_last());
    } else if z.len() > 0 {
        assert(z + x == z);
        assert(z.drop_last() + x == z.drop_last());
        lemma_leading_zeros(z.drop_last(), x);
        assert(digit_value('0') == 0);
    }
}

/// A zero-padded number is a non-empty run of digits that reads back as the number.
pub proof fn lemma_padded(n: nat, w: nat)
    ensures
        padded(n, w).len() > 0,
        all_digits(padded(n, w)),
        decimal_value(padded(n, w)) == n,
{
    lemma_decimal_digits(n);
    let d = decimal_digits(n);
    if d.len() < w {
        let z = Seq::new((w - d.len()) as nat, |_k: int| '0');
        lemma_leading_zeros(z, d);
        let p = z + d;
        assert forall|i: int| 0 <= i < p.len() implies is_digit(#[trigger] p[i]) by {
            if i >= z.len() {
                assert(p[i] == d[i - z.len()]);
            }
        }
    }
}

/// A rendered timestamp, grouped from the right.
proof fn lemma_timestamp_text_grouped(t: Timestamp)
    ensures
        timestamp_text(t) == "Date: "@ + (padded(t.year as nat, 4) + ("."@ + (padded(
            t.month as nat,
            2,
        ) + ("."@ + (padded(t.day as nat, 2) + (" Time: "@ + (padded(t.hour as nat, 2) + ("."@
            + (padded(t.minute as nat, 2) + ("."@ + (padded(t.second as nat, 2) + (" "@ + (
        padded(t.millisecond as nat, 3) + "ms"@))))))))))))),
{
    let p0 = "Date: "@;
    let p1 = padded(t.year as nat, 4);
    let p2 = "."@;
    let p3 = padded(t.month as nat, 2);
    let p4 = "."@;
    let p5 = padded(t.day as nat, 2);
    let p6 = " Time: "@;
    let p7 = padded(t.hour as nat, 2);
    let p8 = "."@;
    let p9 = padded(t.minute as nat, 2);
    let p10 = "."@;
    let p11 = padded(t.second as nat, 2);
    let p12 = " "@;
    let p13 = padded(t.millisecond as nat, 3);
    let p14 = "ms"@;
    let r13 = p13 + p14;
    let r12 = p12 + r13;
    let r11 = p11 + r12;
    let r10 = p10 + r11;
    let r9 = p9 + r10;
    let r8 = p8 + r9;
    let r7 = p7 + r8;
    let r6 = p6 + r7;
    let r5 = p5 + r6;
    let r4 = p4 + r5;
    let r3 = p3 + r4;
    let r2 = p2 + r3;
    let r1 = p1 + r2;
    let l1 = p0 + p1;
    let l2 = l1 + p2;
    let l3 = l2 + p3;
    let l4 = l3 + p4;
    let l5 = l4 + p5;
    let l6 = l5 + p6;
    let l7 = l6 + p7;
    let l8 = l7 + p8;
    let l9 = l8 + p9;
    let l10 = l9 + p10;
    let l11 = l10 + p11;
    let l12 = l11 + p12;
    let l13 = l12 + p13;
    lemma_concat_associative(p0, p1, r2);
    lemma_concat_associative(l1, p2, r3);
    lemma_concat_associative(l2, p3, r4);
    lemma_concat_associative(l3, p4, r5);
    lemma_concat_associative(l4, p5, r6);
    lemma_concat_associative(l5, p6, r7);
    lemma_concat_associative(l6, p7, r8);
    lemma_concat_associative(l7, p8, r9);
    lemma_concat_associative(l8, p9, r10);
    lemma_concat_associative(l9, p10, r11);
    lemma_concat_associative(l10, p11, r12);
    lemma_concat_associative(l11, p12, r13);
    lemma_concat_associative(l12, p13, p14);
}

/// Reading the runs of digits out of a rendered timestamp gives back its
/// seven fields, in order.
pub proof fn lemma_timestamp_reads_back(t: Timestamp)
    ensures
        digit_runs(timestamp_text(t)) == seq![
            t.year as nat,
            t.month as nat,
            t.day as nat,
            t.hour as nat,
            t.minute as nat,
            t.second as nat,
            t.millisecond as nat,
        ],
{
    reveal_strlit("Date: ");
    reveal_strlit(".");
    reveal_strlit(" Time: ");
    reveal_strlit(" ");
    reveal_strlit("ms");
    let y = padded(t.year as nat, 4);
    let mo = padded(t.month as nat, 2);
    let d = padded(t.day as nat, 2);
    let h = padded(t.hour as nat, 2);
    let mi = padded(t.minute as nat, 2);
    let s = padded(t.second as nat, 2);
    let ms = padded(t.millisecond as nat, 3);
    lemma_padded(t.year as nat, 4);
    lemma_padded(t.month as nat, 2);
    lemma_padded(t.day as nat, 2);
    lemma_padded(t.hour as nat, 2);
    lemma_padded(t.minute as nat, 2);
    lemma_padded(t.second as nat, 2);
    lemma_padded(t.millisecond as nat, 3);
    let r7 = "ms"@;
    let r6 = " "@ + (ms + r7);
    let r5 = "."@ + (s + r6);
    let r4 = "."@ + (mi + r5);
    let r3 = " Time: "@ + (h + r4);
    let r2 = "."@ + (d + r3);
    let r1 = "."@ + (mo + r2);
    let r0 = "Date: "@ + (y + r1);
    lemma_timestamp_text_grouped(t);
    lemma_runs_none(r7);
    lemma_runs_step(" "@, ms, r7);
    lemma_runs_step("."@, s, r6);
    lemma_runs_step("."@, mi, r5);
    lemma_runs_step(" Time: "@, h, r4);
    lemma_runs_step("."@, d, r3);
    lemma_runs_step("."@, mo, r2);
    lemma_runs_step("Date: "@, y, r1);
    assert(digit_runs(r0) == seq![
        t.year as nat,
        t.month as nat,
        t.day as nat,
        t.hour as nat,
        t.minute as nat,
        t.second as nat,
        t.millisecond as nat,
    ]);
}

/// What `digit_run` says of the characters it counts and of the one after.
proof fn lemma_run_facts(s: Seq<char>, i: int)
    requires
        0 <= i <= s.len(),
    ensures
        i + digit_run(s, i) <= s.len(),
        forall|k: int| i <= k < i + digit_run(s, i) ==> is_digit(#[trigger] s[k]),
        i + digit_run(s, i) < s.len() ==> !is_digit(s[i + digit_run(s, i)]),
    decreases s.len() - i,
{
    if i < s.len() && is_digit(s[i]) {
        lemma_run_facts(s, i + 1);
    }
}

/// Runs do not join across a boundary that follows a character that is not a digit.
pub proof fn lemma_runs_concat(a: Seq<char>, b: Seq<char>)
    requires
        a.len() > 0 ==> !is_digit(a.last()),
    ensures
        digit_runs(a + b) == digit_runs(a) + digit_runs(b),
    decreases a.len(),
{
    let s = a + b;
    if a.len() == 0 {
        assert(s == b);
        assert(digit_runs(a) + digit_runs(b) == digit_runs(b));
    } else if !is_digit(a[0]) {
        assert(s[0] == a[0]);
        assert(s.drop_first() == a.drop_first() + b);
        if a.drop_first().len() > 0 {
            assert(a.drop_first().last() == a.last());
        }
        lemma_runs_concat(a.drop_first(), b);
    } else {
        let n = digit_run(a, 0);
        lemma_run_facts(a, 0);
        assert(n < a.len()) by {
            if n == a.len() {
                assert(is_digit(a[a.len() - 1]));
            }
        }
        let f = a.subrange(0, n as int);
        assert(s.subrange(0, n as int) == f);
        assert(s[n as int] == a[n as int]);
        lemma_digit_run(s, f, 0, 0);
        assert(s[0] == a[0]);
        lemma_digit_run(a, f, 0, 0);
        let a2 = a.subrange(n as int, a.len() as int);
        assert(s.subrange(n as int, s.len() as int) == a2 + b);
        assert(a2.last() == a.last());
        lemma_runs_concat(a2, b);
        let v = seq![decimal_value(f)];
        assert(v + (digit_runs(a2) + digit_runs(b)) == (v + digit_runs(a2)) + digit_runs(b));
    }
}

/// Reading the runs of digits out of the numeric lines of a rendered entry
/// gives back its seven timestamp fields and then its frame number.
pub proof fn lemma_entry_reads_back(e: LogEntryView)
    ensures
        digit_runs(entry_head(e)) == seq![
            e.timestamp.year as nat,
            e.timestamp.month as nat,
            e.timestamp.day as nat,
            e.timestamp.hour as nat,
            e.timestamp.minute as nat,
            e.timestamp.second as nat,
            e.timestamp.millisecond as nat,
            e.frame_num as nat,
        ],
{
    reveal_strlit("Timestamp: ");
    reveal_strlit(" \nFrame: ");
    reveal_strlit("ms");
    let t = e.timestamp;
    let head = "Timestamp: "@;
    let text = timestamp_text(t);
    let d = decimal_digits(e.frame_num as nat);
    let label = " \nFrame: "@;
    lemma_concat_associative(head + text, label, d);
    lemma_timestamp_text_grouped(t);
    let r14 = "ms"@;
    assert(text.last() == 's') by {
        let g = padded(t.millisecond as nat, 3) + r14;
        assert(g.last() == 's');
        assert(text.last() == g.last());
    }
    lemma_runs_concat(head + text, label + d);
    lemma_runs_concat(head, text);
    lemma_runs_none(head);
    lemma_timestamp_reads_back(t);
    lemma_decimal_digits(e.frame_num as nat);
    lemma_runs_none(Seq::<char>::empty());
    lemma_runs_step(label, d, Seq::<char>::empty());
    assert(d + Seq::<char>::empty() == d);
    assert(digit_runs(head) + digit_runs(text) == digit_runs(text));
}

} // verus!

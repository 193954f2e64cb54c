//! The text form of timestamps, verbosities and entries.
use vstd::prelude::*;

use crate::entry::{verbosity_name, LogEntry, LogEntryView, Timestamp, Verbosity};

verus! {

/// The digit character for `d < 10`.
pub open spec fn digit_char(d: nat) -> char {
    if d == 0 {
        '0'
    } else if d == 1 {
        '1'
    } else if d == 2 {
        '2'
    } else if d == 3 {
        '3'
    } else if d == 4 {
        '4'
    } else if d == 5 {
        '5'
    } else if d == 6 {
        '6'
    } else if d == 7 {
        '7'
    } else if d == 8 {
        '8'
    } else {
        '9'
    }
}

/// The digit character for `d < 10`.
fn digit_to_char(d: u32) -> (r: char)
    requires
        d < 10,
    ensures
        r == digit_char(d as nat),
{
    if d == 0 {
        '0'
    } else if d == 1 {
        '1'
    } else if d == 2 {
        '2'
    } else if d == 3 {
        '3'
    } else if d == 4 {
        '4'
    } else if d == 5 {
        '5'
    } else if d == 6 {
        '6'
    } else if d == 7 {
        '7'
    } else if d == 8 {
        '8'
    } else {
        '9'
    }
}

/// The decimal digits of `n`, most significant first, with no leading zero.
pub open spec fn decimal_digits(n: nat) -> Seq<char>
    decreases n,
{
    if n < 10 {
        seq![digit_char(n)]
    } else {
        decimal_digits(n / 10).push(digit_char(n % 10))
    }
}

/// The decimal digits of `n`, with zeros in front up to `w` characters.
pub open spec fn padded(n: nat, w: nat) -> Seq<char> {
    let d = decimal_digits(n);
    if d.len() >= w {
        d
    } else {
        Seq::new((w - d.len()) as nat, |_k: int| '0') + d
    }
}

/// `Date: YYYY.MM.DD Time: hh.mm.ss mmmms`.
pub open spec fn timestamp_text(t: Timestamp) -> Seq<char> {
    "Date: "@ + padded(t.year as nat, 4) + "."@ + padded(t.month as nat, 2) + "."@ + padded(
        t.day as nat,
        2,
    ) + " Time: "@ + padded(t.hour as nat, 2) + "."@ + padded(t.minute as nat, 2) + "."@
        + padded(t.second as nat, 2) + " "@ + padded(t.millisecond as nat, 3) + "ms"@
}

/// The numeric lines of an entry's text: its timestamp and its frame number.
pub open spec fn entry_head(e: LogEntryView) -> Seq<char> {
    "Timestamp: "@ + timestamp_text(e.timestamp) + " \nFrame: "@ + decimal_digits(
        e.frame_num as nat,
    )
}

/// The five fields of an entry, one per line.
pub open spec fn entry_text(e: LogEntryView) -> Seq<char> {
    entry_head(e) + " \nCategory: "@ + e.category + " \nVerbosity: "@ + verbosity_name(
        e.verbosity,
    ) + " \nMessage: "@ + e.message
}

/// Number of decimal digits of `n`.
fn decimal_len(n: u32) -> (r: usize)
    ensures
        r == decimal_digits(n as nat).len(),
        r <= n as nat + 1,
    decreases n,
{
    if n < 10 {
        1
    } else {
        decimal_len(n / 10) + 1
    }
}

/// Appends the decimal digits of `n`.
fn push_decimal(out: &mut String, n: u32)
    ensures
        final(out)@ == old(out)@ + decimal_digits(n as nat),
    decreases n,
{
    if n >= 10 {
        push_decimal(out, n / 10);
    }
    let d = n % 10;
    let c = digit_to_char(d);
    let ghost before = out@;
    out.push(c);
    proof {
        if n >= 10 {
            assert(out@ == old(out)@ + decimal_digits(n as nat / 10).push(digit_char(n as nat % 10)));
        } else {
            assert(out@ == old(out)@ + seq![digit_char(n as nat)]);
        }
    }
}

/// Appends `n` padded with zeros to `w` characters.
fn push_padded(out: &mut String, n: u32, w: usize)
    requires
        w <= 4,
    ensures
        final(out)@ == old(out)@ + padded(n as nat, w as nat),
{
    let len = decimal_len(n);
    let mut k = len;
    while k < w
        invariant
            len == decimal_digits(n as nat).len(),
            len <= k,
            k <= w || len > w,
            len >= w ==> k == len,
            out@ == old(out)@ + Seq::new((k - len) as nat, |_k: int| '0'),
        decreases w - k,
    {
        let ghost before = out@;
        out.push('0');
        assert(Seq::new((k + 1 - len) as nat, |_k: int| '0') == Seq::new(
            (k - len) as nat,
            |_k: int| '0',
        ).push('0'));
        k = k + 1;
    }
    let ghost zeros = out@;
    push_decimal(out, n);
    proof {
        if len >= w {
            assert(Seq::new((k - len) as nat, |_k: int| '0') =~= Seq::<char>::empty());
            assert(old(out)@ + Seq::<char>::empty() == old(out)@);
        }
    }
}

impl Timestamp {
    /// `Date: YYYY.MM.DD Time: hh.mm.ss mmmms`, each field padded with zeros.
    pub fn to_string(&self) -> (r: String)
        ensures
            r@ == timestamp_text(*self),
    {
        let mut out = String::new();
        out.append("Date: ");
        push_padded(&mut out, self.year, 4);
        out.append(".");
        push_padded(&mut out, self.month, 2);
        out.append(".");
        push_padded(&mut out, self.day, 2);
        out.append(" Time: ");
        push_padded(&mut out, self.hour, 2);
        out.append(".");
        push_padded(&mut out, self.minute, 2);
        out.append(".");
        push_padded(&mut out, self.second, 2);
        out.append(" ");
        push_padded(&mut out, self.millisecond, 3);
        out.append("ms");
        out
    }
}

impl Verbosity {
    /// The tag of this verbosity.
    pub fn to_string(&self) -> (r: String)
        ensures
            r@ == verbosity_name(*self),
    {
        let t = self.name_chars();
        let mut out = String::new();
        let mut i: usize = 0;
        while i < t.len()
            invariant
                i <= t@.len(),
                out@ == t@.subrange(0, i as int),
            decreases t@.len() - i,
        {
            out.push(t[i]);
            assert(t@.subrange(0, i + 1) == t@.subrange(0, i as int).push(t@[i as int]));
            i = i + 1;
        }
        assert(t@.subrange(0, t@.len() as int) == t@);
        out
    }
}

impl LogEntry {
    /// The five fields of the entry, one per line.
    pub fn to_string(&self) -> (r: String)
        ensures
            r@ == entry_text(self@),
    {
        let mut out = String::new();
        out.append("Timestamp: ");
        let ts = self.timestamp.to_string();
        out.append(ts.as_str());
        out.append(" \nFrame: ");
        push_decimal(&mut out, self.frame_num);
        out.append(" \nCategory: ");
        out.append(self.category.as_str());
        out.append(" \nVerbosity: ");
        let v = self.verbosity.to_string();
        out.append(v.as_str());
        out.append(" \nMessage: ");
        out.append(self.message.as_str());
        out
    }
}

} // verus!

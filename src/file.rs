//! A whole log file: its text split into lines, each line parsed on its own.
use vstd::prelude::*;

use crate::entry::{chars_equal, verbosity_name, LogEntry, LogEntryView, UnrealLogParserError};
use crate::grammar::{line_result, parse_line_chars};
use crate::text::{chars_of, string_of_range};

verus! {

/// `l` without one carriage return at its end.
pub open spec fn strip_cr(l: Seq<char>) -> Seq<char> {
    if l.len() > 0 && l.last() == '\r' {
        l.drop_last()
    } else {
        l
    }
}

/// The lines of `s` from index `i` on, the current line having started at
/// `start`. A line ends at a newline, which is not part of it; a final line
/// with no newline counts only if it is not empty.
pub open spec fn split_from(s: Seq<char>, start: int, i: int) -> Seq<Seq<char>>
    decreases s.len() - i,
{
    if i >= s.len() {
        if start < s.len() {
            seq![strip_cr(s.subrange(start, s.len() as int))]
        } else {
            Seq::empty()
        }
    } else if s[i] == '\n' {
        seq![strip_cr(s.subrange(start, i))] + split_from(s, i + 1, i + 1)
    } else {
        split_from(s, start, i + 1)
    }
}

/// A text with a character left to read from `start` has at least one more line.
proof fn lemma_split_nonempty(s: Seq<char>, start: int, i: int)
    requires
        0 <= start <= i,
        start < s.len(),
    ensures
        split_from(s, start, i).len() > 0,
    decreases s.len() - i,
{
    if i < s.len() && s[i] != '\n' {
        lemma_split_nonempty(s, start, i + 1);
    }
}

/// The lines of a text.
pub open spec fn lines_of(s: Seq<char>) -> Seq<Seq<char>> {
    split_from(s, 0, 0)
}

/// The entries of the lines that parse, in line order.
pub open spec fn parsed_entries(lines: Seq<Seq<char>>) -> Seq<LogEntryView>
    decreases lines.len(),
{
    if lines.len() == 0 {
        Seq::empty()
    } else {
        let rest = parsed_entries(lines.drop_last());
        match line_result(lines.last()) {
            Ok(e) => rest.push(e),
            Err(_) => rest,
        }
    }
}

/// The lines that do not parse, in line order.
pub open spec fn rejected_lines(lines: Seq<Seq<char>>) -> Seq<Seq<char>>
    decreases lines.len(),
{
    if lines.len() == 0 {
        Seq::empty()
    } else {
        let rest = rejected_lines(lines.drop_last());
        match line_result(lines.last()) {
            Ok(_) => rest,
            Err(_) => rest.push(lines.last()),
        }
    }
}

/// Where no line parses, no entry is found and every line is handed back:
/// a pass over such a text ends in `NoLogEntriesFound` rather than in the
/// error of any one line.
pub proof fn lemma_no_line_parses(lines: Seq<Seq<char>>)
    requires
        forall|i: int| 0 <= i < lines.len() ==> (#[trigger] line_result(lines[i])) is Err,
    ensures
        parsed_entries(lines) == Seq::<LogEntryView>::empty(),
        rejected_lines(lines) == lines,
    decreases lines.len(),
{
    if lines.len() > 0 {
        let init = lines.drop_last();
        assert forall|i: int| 0 <= i < init.len() implies (#[trigger] line_result(init[i])) is Err by {
            assert(init[i] == lines[i]);
        }
        lemma_no_line_parses(init);
        assert(line_result(lines[lines.len() - 1]) is Err);
        assert(init.push(lines.last()) == lines);
    }
}

/// What a sequence of entries holds.
pub open spec fn entries_view(v: Seq<LogEntry>) -> Seq<LogEntryView> {
    v.map_values(|e: LogEntry| e@)
}

/// The characters of a sequence of strings.
pub open spec fn strings_view(v: Seq<String>) -> Seq<Seq<char>> {
    v.map_values(|s: String| s@)
}

/// The entry passes both filters: its verbosity tag equals the verbosity
/// filter where one is given, and its category equals the category filter
/// where one is given.
pub open spec fn entry_selected(
    e: LogEntryView,
    verbosity: Option<Seq<char>>,
    category: Option<Seq<char>>,
) -> bool {
    &&& match verbosity {
        Some(v) => verbosity_name(e.verbosity) == v,
        None => true,
    }
    &&& match category {
        Some(c) => e.category == c,
        None => true,
    }
}

/// The indices, in increasing order, of the first `n` entries that pass both filters.
pub open spec fn selected_indices(
    es: Seq<LogEntryView>,
    verbosity: Option<Seq<char>>,
    category: Option<Seq<char>>,
    n: int,
) -> Seq<int>
    decreases n,
{
    if n <= 0 {
        Seq::empty()
    } else if entry_selected(es[n - 1], verbosity, category) {
        selected_indices(es, verbosity, category, n - 1).push(n - 1)
    } else {
        selected_indices(es, verbosity, category, n - 1)
    }
}

/// The characters of an optional text.
pub open spec fn opt_view(s: Option<&str>) -> Option<Seq<char>> {
    match s {
        Some(t) => Some(t@),
        None => None,
    }
}

/// The indices, in order, of the entries that pass both filters; a filter
/// that is `None` lets every entry pass.
pub fn select_entries(entries: &Vec<LogEntry>, verbosity: Option<&str>, category: Option<&str>) -> (r:
    Vec<usize>)
    ensures
        r@.map_values(|i: usize| i as int) == selected_indices(
            entries_view(entries@),
            opt_view(verbosity),
            opt_view(category),
            entries@.len() as int,
        ),
{
    let vf = match verbosity {
        Some(v) => Some(chars_of(v)),
        None => None,
    };
    let cf = match category {
        Some(c) => Some(chars_of(c)),
        None => None,
    };
    let ghost es = entries_view(entries@);
    let mut out: Vec<usize> = Vec::new();
    let mut i: usize = 0;
    while i < entries.len()
        invariant
            i <= entries@.len(),
            es == entries_view(entries@),
            match vf {
                Some(v) => opt_view(verbosity) == Some(v@),
                None => verbosity is None,
            },
            match cf {
                Some(c) => opt_view(category) == Some(c@),
                None => category is None,
            },
            out@.map_values(|k: usize| k as int) == selected_indices(
                es,
                opt_view(verbosity),
                opt_view(category),
                i as int,
            ),
        decreases entries@.len() - i,
    {
        let e = &entries[i];
        let pass_v = match &vf {
            Some(v) => chars_equal(&e.verbosity.name_chars(), v),
            None => true,
        };
        let pass_c = match &cf {
            Some(c) => chars_equal(&chars_of(e.category.as_str()), c),
            None => true,
        };
        assert(es[i as int] == e@);
        if pass_v && pass_c {
            let ghost before = out@;
            out.push(i);
            assert(out@.map_values(|k: usize| k as int) == before.map_values(|k: usize| k as int).push(
                i as int,
            ));
        }
        i = i + 1;
    }
    out
}

/// A log file and the entries read from it.
pub struct LogFile {
    pub entries: Vec<LogEntry>,
    pub path: String,
}

/// `chars[from..to]` as a vector of its own.
fn copy_range(chars: &Vec<char>, from: usize, to: usize) -> (r: Vec<char>)
    requires
        from <= to <= chars@.len(),
    ensures
        r@ == chars@.subrange(from as int, to as int),
{
    let mut out: Vec<char> = Vec::new();
    let mut i = from;
    while i < to
        invariant
            from <= i <= to <= chars@.len(),
            out@ == chars@.subrange(from as int, i as int),
        decreases to - i,
    {
        out.push(chars[i]);
        assert(chars@.subrange(from as int, i + 1) == chars@.subrange(from as int, i as int).push(
            chars@[i as int],
        ));
        i = i + 1;
    }
    out
}

impl LogFile {
    /// A log file at `path`, with no entries yet.
    pub fn new(path: String) -> (r: LogFile)
        ensures
            r.entries@.len() == 0,
            r.path@ == path@,
    {
        LogFile { entries: Vec::new(), path }
    }

    /// Parses one line, `chars[from..to]` less a closing carriage return:
    /// appends its entry, or hands the line back where it does not parse.
    fn take_line(&mut self, chars: &Vec<char>, from: usize, to: usize) -> (r: Option<String>)
        requires
            from <= to <= chars@.len(),
        ensures
            final(self).path == old(self).path,
            match line_result(strip_cr(chars@.subrange(from as int, to as int))) {
                Ok(e) => r is None && entries_view(final(self).entries@) == entries_view(
                    old(self).entries@,
                ).push(e),
                Err(_) => r is Some && r->0@ == strip_cr(chars@.subrange(from as int, to as int))
                    && final(self).entries@ == old(self).entries@,
            },
    {
        let end = if to > from && chars[to - 1] == '\r' {
            to - 1
        } else {
            to
        };
        assert(chars@.subrange(from as int, end as int) == strip_cr(
            chars@.subrange(from as int, to as int),
        ));
        let line = copy_range(chars, from, end);
        match parse_line_chars(&line) {
            Ok(e) => {
                let ghost before = self.entries@;
                self.entries.push(e);
                assert(entries_view(self.entries@) == entries_view(before).push(e@));
                None
            },
            Err(_) => Some(string_of_range(chars, from, end)),
        }
    }

    /// Parses the text of the file, `None` where it could not be read.
    ///
    /// Each line is parsed on its own: the entries of those that parse are
    /// appended, in order, and those that do not are handed back, in order.
    /// Unreadable text gives `NoSuchFile`; text without lines, or a pass that
    /// leaves no entry at all, gives `NoLogEntriesFound`.
    pub fn parse(&mut self, contents: Option<&str>) -> (r: (
        Result<(), UnrealLogParserError>,
        Vec<String>,
    ))
        ensures
            final(self).path == old(self).path,
            match contents {
                None => r.0 == Err::<(), UnrealLogParserError>(UnrealLogParserError::NoSuchFile)
                    && final(self).entries@ == old(self).entries@ && r.1@.len() == 0,
                Some(t) => if lines_of(t@).len() == 0 {
                    r.0 == Err::<(), UnrealLogParserError>(UnrealLogParserError::NoLogEntriesFound)
                        && final(self).entries@ == old(self).entries@ && r.1@.len() == 0
                } else {
                    &&& entries_view(final(self).entries@) == entries_view(old(self).entries@)
                        + parsed_entries(lines_of(t@))
                    &&& strings_view(r.1@) == rejected_lines(lines_of(t@))
                    &&& r.0 == if final(self).entries@.len() == 0 {
                        Err::<(), UnrealLogParserError>(UnrealLogParserError::NoLogEntriesFound)
                    } else {
                        Ok::<(), UnrealLogParserError>(())
                    }
                },
            },
    {
        let text = match contents {
            None => {
                return (Err(UnrealLogParserError::NoSuchFile), Vec::new());
            },
            Some(t) => t,
        };
        let chars = chars_of(text);
        let mut rejected: Vec<String> = Vec::new();
        if chars.len() == 0 {
            return (Err(UnrealLogParserError::NoLogEntriesFound), rejected);
        }
        let ghost old_entries = entries_view(self.entries@);
        let ghost mut done: Seq<Seq<char>> = Seq::empty();
        let mut start: usize = 0;
        let mut i: usize = 0;
        while i < chars.len()
            invariant
                chars@ == text@,
                start <= i <= chars@.len(),
                self.path == old(self).path,
                lines_of(chars@) == done + split_from(chars@, start as int, i as int),
                entries_view(self.entries@) == old_entries + parsed_entries(done),
                strings_view(rejected@) == rejected_lines(done),
            decreases chars@.len() - i,
        {
            if chars[i] == '\n' {
                let ghost line = strip_cr(chars@.subrange(start as int, i as int));
                let ghost before = self.entries@;
                let outcome = self.take_line(&chars, start, i);
                proof {
                    assert(done.push(line).drop_last() == done);
                    assert(done + split_from(chars@, start as int, i as int) == done.push(line)
                        + split_from(chars@, i + 1, i + 1));
                    done = done.push(line);
                }
                match outcome {
                    Some(l) => {
                        let ghost before_r = rejected@;
                        rejected.push(l);
                        assert(strings_view(rejected@) == strings_view(before_r).push(line));
                    },
                    None => {},
                }
                assert(entries_view(self.entries@) == old_entries + parsed_entries(done));
                start = i + 1;
            }
            i = i + 1;
        }
        if start < chars.len() {
            let ghost line = strip_cr(chars@.subrange(start as int, chars@.len() as int));
            let outcome = self.take_line(&chars, start, chars.len());
            proof {
                assert(done.push(line).drop_last() == done);
                assert(done + split_from(chars@, start as int, i as int) == done.push(line));
                done = done.push(line);
            }
            match outcome {
                Some(l) => {
                    let ghost before_r = rejected@;
                    rejected.push(l);
                    assert(strings_view(rejected@) == strings_view(before_r).push(line));
                },
                None => {},
            }
        } else {
            assert(done + split_from(chars@, start as int, i as int) == done);
        }
        assert(lines_of(text@) == done);
        proof {
            lemma_split_nonempty(chars@, 0, 0);
        }
        if self.entries.len() == 0 {
            (Err(UnrealLogParserError::NoLogEntriesFound), rejected)
        } else {
            (Ok(()), rejected)
        }
    }
}

} // verus!

use vstd::prelude::*;

use crate::text::chars_of;

verus! {

/// Point in time written at the start of a log line, field by field.
/// No calendar check is made: each field is whatever number the line held.
#[derive(Debug, Clone, Copy, PartialEq, Eq, Structural)]
pub struct Timestamp {
    pub year: u32,
    pub month: u32,
    pub day: u32,
    pub hour: u32,
    pub minute: u32,
    pub second: u32,
    pub millisecond: u32,
}

/// Severity of a log line.
#[derive(Debug, Clone, Copy, PartialEq, Eq, Structural)]
pub enum Verbosity {
    Verbose,
    VeryVerbose,
    Display,
    Log,
    Warning,
    Error,
    Fatal,
}

/// Why a line or a file could not be turned into entries.
#[derive(Debug, Clone, Copy, PartialEq, Eq, Structural)]
pub enum UnrealLogParserError {
    NoSuchFile,
    ParseError,
    NoLogEntriesFound,
    InvalidVerbosity,
    InvalidCategory,
    InvalidTimestamp,
    InvalidFrameNumber,
}

/// One parsed log line.
#[derive(Debug, PartialEq)]
pub struct LogEntry {
    pub timestamp: Timestamp,
    pub frame_num: u32,
    pub category: String,
    pub verbosity: Verbosity,
    pub message: String,
}

/// What a `LogEntry` holds, with its texts as character sequences.
pub struct LogEntryView {
    pub timestamp: Timestamp,
    pub frame_num: u32,
    pub category: Seq<char>,
    pub verbosity: Verbosity,
    pub message: Seq<char>,
}

impl View for LogEntry {
    type V = LogEntryView;

    open spec fn view(&self) -> LogEntryView {
        LogEntryView {
            timestamp: self.timestamp,
            frame_num: self.frame_num,
            category: self.category@,
            verbosity: self.verbosity,
            message: self.message@,
        }
    }
}

/// The all-zero timestamp, used when a line has none.
pub open spec fn zero_timestamp() -> Timestamp {
    Timestamp { year: 0, month: 0, day: 0, hour: 0, minute: 0, second: 0, millisecond: 0 }
}

/// The entry that a line with no fields at all would give.
pub open spec fn default_entry() -> LogEntryView {
    LogEntryView {
        timestamp: zero_timestamp(),
        frame_num: 0,
        category: Seq::empty(),
        verbosity: Verbosity::Log,
        message: Seq::empty(),
    }
}

/// The tag under which a verbosity is written in a log line.
pub open spec fn verbosity_name(v: Verbosity) -> Seq<char> {
    match v {
        Verbosity::VeryVerbose => seq!['V', 'e', 'r', 'y', 'V', 'e', 'r', 'b', 'o', 's', 'e'],
        Verbosity::Verbose => seq!['V', 'e', 'r', 'b', 'o', 's', 'e'],
        Verbosity::Display => seq!['D', 'i', 's', 'p', 'l', 'a', 'y'],
        Verbosity::Log => seq!['L', 'o', 'g'],
        Verbosity::Warning => seq!['W', 'a', 'r', 'n', 'i', 'n', 'g'],
        Verbosity::Error => seq!['E', 'r', 'r', 'o', 'r'],
        Verbosity::Fatal => seq!['F', 'a', 't', 'a', 'l'],
    }
}

/// The verbosity whose tag is `s`, if any.
pub open spec fn verbosity_of_name(s: Seq<char>) -> Option<Verbosity> {
    if s == verbosity_name(Verbosity::VeryVerbose) {
        Some(Verbosity::VeryVerbose)
    } else if s == verbosity_name(Verbosity::Verbose) {
        Some(Verbosity::Verbose)
    } else if s == verbosity_name(Verbosity::Display) {
        Some(Verbosity::Display)
    } else if s == verbosity_name(Verbosity::Log) {
        Some(Verbosity::Log)
    } else if s == verbosity_name(Verbosity::Warning) {
        Some(Verbosity::Warning)
    } else if s == verbosity_name(Verbosity::Error) {
        Some(Verbosity::Error)
    } else if s == verbosity_name(Verbosity::Fatal) {
        Some(Verbosity::Fatal)
    } else {
        None
    }
}

/// Distinct verbosities have distinct tags, so a tag names exactly one verbosity.
pub proof fn lemma_verbosity_name_inverse(v: Verbosity)
    ensures
        verbosity_of_name(verbosity_name(v)) == Some(v),
{
    let n = verbosity_name(v);
    if v != Verbosity::VeryVerbose {
        assert(n != verbosity_name(Verbosity::VeryVerbose)) by {
            assert(n.len() != 11 || n[3] != 'y');
        }
    }
    if v != Verbosity::Verbose {
        assert(n != verbosity_name(Verbosity::Verbose)) by {
            assert(n.len() != 7 || n[0] != 'V');
        }
    }
    if v != Verbosity::Display {
        assert(n != verbosity_name(Verbosity::Display)) by {
            assert(n.len() != 7 || n[0] != 'D');
        }
    }
    if v != Verbosity::Log {
        assert(n != verbosity_name(Verbosity::Log)) by {
            assert(n.len() != 3);
        }
    }
    if v != Verbosity::Warning {
        assert(n != verbosity_name(Verbosity::Warning)) by {
            assert(n.len() != 7 || n[0] != 'W');
        }
    }
    if v != Verbosity::Error {
        assert(n != verbosity_name(Verbosity::Error)) by {
            assert(n.len() != 5 || n[0] != 'E');
        }
    }
}

/// Whether `s` equals the characters of `t`.
pub fn chars_equal(s: &Vec<char>, t: &Vec<char>) -> (r: bool)
    ensures
        r == (s@ == t@),
{
    if s.len() != t.len() {
        return false;
    }
    let mut i: usize = 0;
    while i < s.len()
        invariant
            s@.len() == t@.len(),
            i <= s@.len(),
            forall|j: int| 0 <= j < i ==> s@[j] == t@[j],
        decreases s@.len() - i,
    {
        if s[i] != t[i] {
            return false;
        }
        i = i + 1;
    }
    assert(s@ == t@);
    true
}

impl Verbosity {
    /// The tag of this verbosity, as characters.
    pub fn name_chars(&self) -> (r: Vec<char>)
        ensures
            r@ == verbosity_name(*self),
    {
        let r = match self {
            Verbosity::VeryVerbose => vec!['V', 'e', 'r', 'y', 'V', 'e', 'r', 'b', 'o', 's', 'e'],
            Verbosity::Verbose => vec!['V', 'e', 'r', 'b', 'o', 's', 'e'],
            Verbosity::Display => vec!['D', 'i', 's', 'p', 'l', 'a', 'y'],
            Verbosity::Log => vec!['L', 'o', 'g'],
            Verbosity::Warning => vec!['W', 'a', 'r', 'n', 'i', 'n', 'g'],
            Verbosity::Error => vec!['E', 'r', 'r', 'o', 'r'],
            Verbosity::Fatal => vec!['F', 'a', 't', 'a', 'l'],
        };
        assert(r@ == verbosity_name(*self));
        r
    }

    /// The verbosity whose tag is exactly `s`.
    pub fn from_str(s: &str) -> (r: Result<Verbosity, UnrealLogParserError>)
        ensures
            r == match verbosity_of_name(s@) {
                Some(v) => Ok(v),
                None => Err(UnrealLogParserError::InvalidVerbosity),
            },
    {
        let cs = chars_of(s);
        if chars_equal(&cs, &Verbosity::VeryVerbose.name_chars()) {
            Ok(Verbosity::VeryVerbose)
        } else if chars_equal(&cs, &Verbosity::Verbose.name_chars()) {
            Ok(Verbosity::Verbose)
        } else if chars_equal(&cs, &Verbosity::Display.name_chars()) {
            Ok(Verbosity::Display)
        } else if chars_equal(&cs, &Verbosity::Log.name_chars()) {
            Ok(Verbosity::Log)
        } else if chars_equal(&cs, &Verbosity::Warning.name_chars()) {
            Ok(Verbosity::Warning)
        } else if chars_equal(&cs, &Verbosity::Error.name_chars()) {
            Ok(Verbosity::Error)
        } else if chars_equal(&cs, &Verbosity::Fatal.name_chars()) {
            Ok(Verbosity::Fatal)
        } else {
            Err(UnrealLogParserError::InvalidVerbosity)
        }
    }
}

impl Timestamp {
    /// The all-zero timestamp.
    pub fn new() -> (r: Timestamp)
        ensures
            r == zero_timestamp(),
    {
        Timestamp { year: 0, month: 0, day: 0, hour: 0, minute: 0, second: 0, millisecond: 0 }
    }
}

impl LogEntry {
    /// An entry with every field at its default: zero timestamp, frame 0,
    /// empty category, verbosity `Log`, empty message.
    pub fn new() -> (r: LogEntry)
        ensures
            r@ == default_entry(),
    {
        LogEntry {
            timestamp: Timestamp::new(),
            frame_num: 0,
            category: String::new(),
            verbosity: Verbosity::Log,
            message: String::new(),
        }
    }
}

} // verus!

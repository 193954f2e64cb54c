use unreal_log_parser::file::select_entries;
use unreal_log_parser::{LogEntry, LogFile, Timestamp, UnrealLogParserError, Verbosity};

fn stamp(year: u32, month: u32, day: u32, hour: u32, minute: u32, second: u32, millisecond: u32) -> Timestamp {
    Timestamp { year, month, day, hour, minute, second, millisecond }
}

#[test]
fn test_parse_log_entry_with_verbosity() {
    let log_line = "[2024.04.27-12.34.56:789][  1]LogTemp: Warning: This is a warning message.";

    let parsed = LogEntry::parse(log_line).expect("Failed to parse log line");

    let expected = LogEntry {
        timestamp: Timestamp {
            year: 2024,
            month: 4,
            day: 27,
            hour: 12,
            minute: 34,
            second: 56,
            millisecond: 789,
        },
        frame_num: 1,
        category: "LogTemp".to_string(),
        verbosity: Verbosity::Warning,
        message: "This is a warning message.".to_string(),
    };

    assert_eq!(parsed, expected);
}

#[test]
fn test_parse_log_entry_without_verbosity() {
    let log_line = "[2024.04.27-12.34.56:789][  1]LogTemp: This is a log message.";

    let parsed = LogEntry::parse(log_line).expect("Failed to parse log line");

    let expected = LogEntry {
        timestamp: Timestamp {
            year: 2024,
            month: 4,
            day: 27,
            hour: 12,
            minute: 34,
            second: 56,
            millisecond: 789,
        },
        frame_num: 1,
        category: "LogTemp".to_string(),
        verbosity: Verbosity::Log,
        message: "This is a log message.".to_string(),
    };

    assert_eq!(parsed, expected);
}

#[test]
fn test_parse_log_minimal() {
    let log_line = "LogCore: Very small log";

    let parsed = LogEntry::parse(log_line).expect("Failed to parse log line");

    let expected = LogEntry {
        timestamp: Timestamp::new(),
        frame_num: 0,
        category: "LogCore".to_string(),
        verbosity: Verbosity::Log,
        message: "Very small log".to_string(),
    };

    assert_eq!(parsed, expected);
}

#[test]
fn test_invalid_string() {
    let log_line = "This is not a log line";
    let parsed = LogEntry::parse(log_line);
    assert_eq!(parsed, Err(UnrealLogParserError::ParseError));
}

#[test]
fn test_invalid_timestamp() {
    let log_line = "[2024.04.27][  1]LogTemp: This is a log message.";
    let parsed = LogEntry::parse(log_line);
    assert_eq!(parsed, Err(UnrealLogParserError::ParseError));
}

#[test]
fn test_invalid_verbosity() {
    let log_line =
        "[2024.04.27-12.34.56:789][  1]LogTemp: InvalidVerbosity: This is a log message.";
    let parsed = LogEntry::parse(log_line);
    assert!(parsed.is_ok());
}

#[test]
fn test_file() {
    let text = "Log file open, 10/04/24 19:09:47\n\
                [2024.10.04-19.09.47:074][  0]LogAssetRegistry: Display: Triggering cache save on discovery complete\n\
                [2024.10.04-19.09.48:001][  0]LogInit: Engine is initialized.\n";
    let mut file = LogFile::new("SmallTestFile.log".to_string());

    let (parsed_result, rejected) = file.parse(Some(text));
    assert!(parsed_result.is_ok());
    assert_eq!(rejected, vec!["Log file open, 10/04/24 19:09:47".to_string()]);

    assert_eq!(
        file.entries[0],
        LogEntry {
            timestamp: Timestamp {
                year: 2024,
                month: 10,
                day: 4,
                hour: 19,
                minute: 09,
                second: 47,
                millisecond: 074,
            },
            frame_num: 0,
            category: "LogAssetRegistry".to_string(),
            verbosity: Verbosity::Display,
            message: "Triggering cache save on discovery complete".to_string(),
        }
    );
}

#[test]
fn test_no_file() {
    let mut file = LogFile::new("tests/Data/NonExistentFile.log".to_string());

    let (parsed_result, rejected) = file.parse(None);
    assert_eq!(parsed_result, Err(UnrealLogParserError::NoSuchFile));
    assert!(rejected.is_empty());
}

#[test]
fn test_empty_file() {
    let mut file = LogFile::new("tests/Data/EmptyFile.log".to_string());

    let (parsed_result, _) = file.parse(Some(""));
    assert_eq!(parsed_result, Err(UnrealLogParserError::NoLogEntriesFound));
}

#[test]
fn gibberish_file_has_no_entries() {
    let mut file = LogFile::new("noise.log".to_string());
    let (parsed_result, rejected) = file.parse(Some("just words\nmore words\n\n"));
    assert_eq!(parsed_result, Err(UnrealLogParserError::NoLogEntriesFound));
    assert_eq!(rejected, vec!["just words".to_string(), "more words".to_string(), "".to_string()]);
    assert!(file.entries.is_empty());
}

#[test]
fn crlf_lines_and_last_line_without_newline() {
    let mut file = LogFile::new("a.log".to_string());
    let (parsed_result, rejected) = file.parse(Some("A: one\r\nB: Error: two"));
    assert_eq!(parsed_result, Ok(()));
    assert!(rejected.is_empty());
    assert_eq!(file.entries.len(), 2);
    assert_eq!(file.entries[0].message, "one");
    assert_eq!(file.entries[1].category, "B");
    assert_eq!(file.entries[1].verbosity, Verbosity::Error);
    assert_eq!(file.entries[1].message, "two");
}

#[test]
fn frame_with_interior_spaces_reads_same_number() {
    let a = LogEntry::parse("[2024.04.27-12.34.56:789][ 4 2]Cat: x").unwrap();
    let b = LogEntry::parse("[2024.04.27-12.34.56:789][42]Cat: x").unwrap();
    assert_eq!(a.frame_num, 42);
    assert_eq!(a, b);
}

#[test]
fn unpadded_timestamp_renders_padded() {
    let e = LogEntry::parse("[7.4.2-1.5.9:8][1]LogTemp: Fatal: boom").unwrap();
    assert_eq!(e.timestamp, stamp(7, 4, 2, 1, 5, 9, 8));
    assert_eq!(e.timestamp.to_string(), "Date: 0007.04.02 Time: 01.05.09 008ms");
    assert_eq!(e.verbosity, Verbosity::Fatal);
    assert_eq!(e.message, "boom");
}

#[test]
fn timestamp_rendering_of_wide_values() {
    let t = stamp(123456, 13, 45, 99, 0, 60, 1234);
    assert_eq!(t.to_string(), "Date: 123456.13.45 Time: 99.00.60 1234ms");
    assert_eq!(Timestamp::new().to_string(), "Date: 0000.00.00 Time: 00.00.00 000ms");
}

#[test]
fn entry_rendering() {
    let e = LogEntry::parse("[2024.04.27-12.34.56:789][  1]LogTemp: Warning: This is a warning message.").unwrap();
    assert_eq!(
        e.to_string(),
        "Timestamp: Date: 2024.04.27 Time: 12.34.56 789ms \nFrame: 1 \nCategory: LogTemp \nVerbosity: Warning \nMessage: This is a warning message."
    );
}

#[test]
fn verbosity_names_round_trip() {
    let all = [
        Verbosity::Verbose,
        Verbosity::VeryVerbose,
        Verbosity::Display,
        Verbosity::Log,
        Verbosity::Warning,
        Verbosity::Error,
        Verbosity::Fatal,
    ];
    for v in all {
        assert_eq!(Verbosity::from_str(&v.to_string()), Ok(v));
    }
    assert_eq!(Verbosity::VeryVerbose.to_string(), "VeryVerbose");
    assert_eq!(Verbosity::from_str("warning"), Err(UnrealLogParserError::InvalidVerbosity));
    assert_eq!(Verbosity::from_str(""), Err(UnrealLogParserError::InvalidVerbosity));
}

#[test]
fn unknown_verbosity_word_starts_message() {
    let e = LogEntry::parse("LogTemp: Warn: careful").unwrap();
    assert_eq!(e.verbosity, Verbosity::Log);
    assert_eq!(e.message, "Warn: careful");
    let e = LogEntry::parse("LogTemp: Warning:no space").unwrap();
    assert_eq!(e.verbosity, Verbosity::Log);
    assert_eq!(e.message, "Warning:no space");
}

#[test]
fn every_verbosity_tag_is_recognised() {
    let e = LogEntry::parse("C: VeryVerbose: a").unwrap();
    assert_eq!(e.verbosity, Verbosity::VeryVerbose);
    assert_eq!(e.message, "a");
    let e = LogEntry::parse("C: Verbose: ").unwrap();
    assert_eq!(e.verbosity, Verbosity::Verbose);
    assert_eq!(e.message, "");
}

#[test]
fn frame_without_timestamp() {
    let e = LogEntry::parse("[ 12]LogNet: Display: hi").unwrap();
    assert_eq!(e.timestamp, Timestamp::new());
    assert_eq!(e.frame_num, 12);
    assert_eq!(e.verbosity, Verbosity::Display);
}

#[test]
fn message_keeps_surrounding_spaces() {
    let e = LogEntry::parse("Cat:   padded  ").unwrap();
    assert_eq!(e.message, "  padded  ");
}

#[test]
fn malformed_prefixes_fail() {
    assert_eq!(LogEntry::parse("[2024.04.27-12.34.56:789][ab]Cat: x"), Err(UnrealLogParserError::ParseError));
    assert_eq!(LogEntry::parse("Cat:x"), Err(UnrealLogParserError::ParseError));
    assert_eq!(LogEntry::parse(""), Err(UnrealLogParserError::ParseError));
    assert_eq!(LogEntry::parse(": x"), Err(UnrealLogParserError::ParseError));
    assert_eq!(LogEntry::parse("Two words: x"), Err(UnrealLogParserError::ParseError));
}

#[test]
fn out_of_range_numbers() {
    assert_eq!(
        LogEntry::parse("[4294967296.01.01-00.00.00:000]Cat: x"),
        Err(UnrealLogParserError::InvalidTimestamp)
    );
    assert_eq!(
        LogEntry::parse("[4294967295.01.01-00.00.00:000]Cat: x").unwrap().timestamp.year,
        4294967295
    );
    assert_eq!(LogEntry::parse("[   ]Cat: x"), Err(UnrealLogParserError::InvalidFrameNumber));
    assert_eq!(LogEntry::parse("[99999999999]Cat: x"), Err(UnrealLogParserError::InvalidFrameNumber));
    assert_eq!(
        LogEntry::parse("[99999999999.01.01-00.00.00:000][99999999999]Cat: x"),
        Err(UnrealLogParserError::InvalidTimestamp)
    );
}

#[test]
fn new_entry_and_file_are_empty() {
    let e = LogEntry::new();
    assert_eq!(e.timestamp, Timestamp::new());
    assert_eq!(e.frame_num, 0);
    assert_eq!(e.category, "");
    assert_eq!(e.verbosity, Verbosity::Log);
    assert_eq!(e.message, "");
    let f = LogFile::new("x.log".to_string());
    assert!(f.entries.is_empty());
    assert_eq!(f.path, "x.log");
}

#[test]
fn filters_select_matching_entries() {
    let mut file = LogFile::new("f.log".to_string());
    let text = "A: Warning: one\nB: Warning: two\nA: three\n";
    let _ = file.parse(Some(text));
    assert_eq!(select_entries(&file.entries, None, None), vec![0, 1, 2]);
    assert_eq!(select_entries(&file.entries, Some("Warning"), None), vec![0, 1]);
    assert_eq!(select_entries(&file.entries, Some("Warning"), Some("A")), vec![0]);
    assert_eq!(select_entries(&file.entries, None, Some("A")), vec![0, 2]);
    assert!(select_entries(&file.entries, Some("Fatal"), None).is_empty());
}

fn digit_runs(s: &str) -> Vec<u64> {
    let mut out = Vec::new();
    let mut cur: Option<u64> = None;
    for c in s.chars() {
        if let Some(d) = c.to_digit(10) {
            cur = Some(cur.unwrap_or(0) * 10 + d as u64);
        } else if let Some(v) = cur.take() {
            out.push(v);
        }
    }
    if let Some(v) = cur {
        out.push(v);
    }
    out
}

#[test]
fn rendered_numbers_read_back() {
    let t = stamp(2024, 4, 27, 12, 34, 56, 7);
    assert_eq!(digit_runs(&t.to_string()), vec![2024, 4, 27, 12, 34, 56, 7]);
    let e = LogEntry {
        timestamp: stamp(4294967295, 0, 9, 10, 0, 1, 999),
        frame_num: 305,
        category: "Cat".to_string(),
        verbosity: Verbosity::Error,
        message: "text".to_string(),
    };
    assert_eq!(digit_runs(&e.to_string()), vec![4294967295, 0, 9, 10, 0, 1, 999, 305]);
}

use agent_orchestrator::logs::{
    lines_of, timestamp_line, timestamp_line_at, timestamp_log_string, timestamp_log_string_at,
    StreamDrain,
};
use regex::Regex;

#[test]
fn test_timestamp_line_format() {
    let result = timestamp_line("hello world");
    let re = Regex::new(r"^\[\d{4}-\d{2}-\d{2} \d{2}:\d{2}:\d{2} UTC\] hello world$").unwrap();
    assert!(
        re.is_match(&result),
        "timestamp_line output did not match expected format: {result}"
    );
}

#[test]
fn test_timestamp_line_empty() {
    let result = timestamp_line("");
    let re = Regex::new(r"^\[\d{4}-\d{2}-\d{2} \d{2}:\d{2}:\d{2} UTC\] $").unwrap();
    assert!(
        re.is_match(&result),
        "timestamp_line with empty input did not match: {result}"
    );
}

#[test]
fn test_timestamp_line_preserves_content() {
    let content = "some log output with special chars: !@#$%^&*()";
    let result = timestamp_line(content);
    assert!(
        result.ends_with(content),
        "timestamp_line should preserve the original content at the end: {result}"
    );
}

#[test]
fn a_line_is_stamped_with_the_given_time() {
    assert_eq!(timestamp_line_at(0, "x"), "[1970-01-01 00:00:00 UTC] x");
    assert_eq!(timestamp_line_at(1746475200, "x"), "[2025-05-05 20:00:00 UTC] x");
    assert_eq!(
        timestamp_line_at(8210266876799, "x"),
        "[+262142-12-31 23:59:59 UTC] x"
    );
}

#[test]
fn every_line_of_a_text_is_stamped() {
    assert_eq!(
        timestamp_log_string_at(0, "a\n\nb"),
        "[1970-01-01 00:00:00 UTC] a\n[1970-01-01 00:00:00 UTC] \n[1970-01-01 00:00:00 UTC] b\n"
    );
    assert_eq!(timestamp_log_string_at(0, ""), "");
    let re = Regex::new(r"^\[\d{4}-\d{2}-\d{2} \d{2}:\d{2}:\d{2} UTC\] a\n$").unwrap();
    assert!(re.is_match(&timestamp_log_string("a\n")));
}

#[test]
fn lines_are_those_of_the_standard_library() {
    for text in ["", "a", "a\n", "a\nb", "a\r\nb\r", "\n\n", "a\r\n", "\r\n", "a\rb\n"] {
        let expected: Vec<String> = text.lines().map(|l| l.to_string()).collect();
        // A carriage return at the very end, without a newline, is kept.
        assert_eq!(lines_of(text), expected, "{:?}", text);
    }
}

#[test]
fn lines_do_not_depend_on_portions() {
    let text = "first line\nsecond\n\nlast without end";
    for cut in 0..text.len() {
        let mut drain = StreamDrain::new(true);
        let mut lines = drain.feed(&text.as_bytes()[..cut]);
        lines.extend(drain.feed(&text.as_bytes()[cut..]));
        assert_eq!(lines, vec!["first line", "second", ""]);
        assert_eq!(drain.finish(), Some("last without end".to_string()));
        assert_eq!(drain.capture, Some(text.to_string()));
    }
}

#[test]
fn test_log_capture_stdout_and_stderr() {
    let mut stdout = StreamDrain::new(false);
    let mut stderr = StreamDrain::new(true);
    let mut log_contents: Vec<String> = Vec::new();
    log_contents.extend(stdout.feed(b"stdout message\n"));
    log_contents.extend(stderr.feed(b"stderr message\n"));
    assert!(
        log_contents.contains(&"stdout message".to_string()),
        "log is missing stdout output"
    );
    assert!(
        log_contents.contains(&"stderr message".to_string()),
        "log is missing stderr output"
    );
    assert_eq!(stdout.capture, None);
    assert_eq!(stderr.capture, Some("stderr message\n".to_string()));
}

#[test]
fn test_log_capture_completeness() {
    let mut drain = StreamDrain::new(false);
    let mut lines: Vec<String> = Vec::new();
    let text: String = (1..=1000).map(|i| format!("LINE {:03}\n", i)).collect();
    for chunk in text.as_bytes().chunks(97) {
        lines.extend(drain.feed(chunk));
    }
    assert_eq!(lines.len(), 1000);
    assert_eq!(lines[0], "LINE 001");
    assert_eq!(lines[999], "LINE 1000");
    assert_eq!(drain.finish(), None);
    assert_eq!(drain.capture, None);
}

#[test]
fn cuts_within_characters_do_no_harm() {
    let text = "gr\u{fc}n \u{20ac}5\n\u{1f600}\u{e4}\r\n\u{4e2d}";
    let bytes = text.as_bytes();
    for first in 0..=bytes.len() {
        for second in first..=bytes.len() {
            let mut drain = StreamDrain::new(true);
            let mut lines = drain.feed(&bytes[..first]);
            lines.extend(drain.feed(&bytes[first..second]));
            lines.extend(drain.feed(&bytes[second..]));
            assert_eq!(drain.pending, Vec::<u8>::new());
            lines.extend(drain.finish());
            assert_eq!(lines, text.lines().collect::<Vec<&str>>());
            assert_eq!(drain.capture, Some(text.to_string()));
        }
    }
    let mut drain = StreamDrain::new(true);
    let mut lines: Vec<String> = Vec::new();
    for byte in bytes {
        lines.extend(drain.feed(&[*byte]));
    }
    lines.extend(drain.finish());
    assert_eq!(lines, text.lines().collect::<Vec<&str>>());
    assert_eq!(drain.capture, Some(text.to_string()));
}

#[test]
fn an_unfinished_character_at_the_end_is_replaced() {
    let mut drain = StreamDrain::new(true);
    assert_eq!(drain.feed(&[b'a', 0xe2, 0x82]), Vec::<String>::new());
    assert_eq!(drain.pending, vec![0xe2, 0x82]);
    assert_eq!(drain.capture, Some("a".to_string()));
    assert_eq!(drain.finish(), Some("a\u{fffd}".to_string()));
    assert_eq!(drain.capture, Some("a\u{fffd}".to_string()));
    assert_eq!(drain.finish(), None);
}

#[test]
fn invalid_bytes_are_replaced() {
    let mut drain = StreamDrain::new(true);
    let lines = drain.feed(&[b'a', 0xff, b'b', b'\n']);
    assert_eq!(lines, vec!["a\u{fffd}b"]);
    let mut other = StreamDrain::new(false);
    assert_eq!(other.feed_text("x\r\ny"), vec!["x"]);
    assert_eq!(other.finish(), Some("y".to_string()));
}

use markdown::engine::MarkdownParser;
use markdown::matcher::ByteRange;

fn digits() -> ByteRange {
    ByteRange { lo: b'0', hi: b'9' }
}

#[test]
fn scan_and_capture_takes_the_maximal_run() {
    let buf = b"123abc";
    let mut p = MarkdownParser::new(buf);
    let r = p.parse(&digits());
    assert_eq!(r.to_option(), Some(&b"123"[..]));
    assert_eq!(p.position(), 3);
}

#[test]
fn scan_and_capture_no_match_consumes_nothing() {
    let buf = b"abc";
    let mut p = MarkdownParser::new(buf);
    let r = p.parse(&digits());
    assert!(!r.is_success() && !r.is_end());
    assert_eq!(p.position(), 0);
}

#[test]
fn scan_and_capture_exhausted_at_entry() {
    let buf = b"";
    let mut p = MarkdownParser::new(buf);
    assert!(p.parse(&digits()).is_end());
}

#[test]
fn scan_and_discard_succeeds_on_zero_run() {
    let buf = b"abc";
    let mut p = MarkdownParser::new(buf);
    assert!(p.skip(&digits()).is_success());
    assert_eq!(p.position(), 0);
}

#[test]
fn skip_spaces_consumes_the_run() {
    let buf = b"   x";
    let mut p = MarkdownParser::new(buf);
    assert!(p.skip_spaces().is_success());
    assert_eq!(p.position(), 3);
}

#[test]
fn skip_spaces_and_newlines_consumes_both() {
    let buf = b" \n \nx";
    let mut p = MarkdownParser::new(buf);
    assert!(p.skip_spaces_and_newlines().is_success());
    assert_eq!(p.position(), 4);
}

#[test]
fn blank_line_consumes_through_newline() {
    let buf = b"   \nX";
    let mut p = MarkdownParser::new(buf);
    assert!(p.try_parse_empty_line().is_success());
    assert_eq!(p.position(), 4);
}

#[test]
fn blank_line_rolls_back_on_content() {
    let buf = b"  X\n";
    let mut p = MarkdownParser::new(buf);
    let r = p.try_parse_empty_line();
    assert!(!r.is_success() && !r.is_end());
    assert_eq!(p.position(), 0);
}

#[test]
fn blank_line_trailing_spaces_are_no_match() {
    // spaces running to the end of the buffer are not a blank line, and
    // bytes remained at entry, so the outcome is a non-match, not exhaustion
    let buf = b"  ";
    let mut p = MarkdownParser::new(buf);
    let r = p.try_parse_empty_line();
    assert!(!r.is_success() && !r.is_end());
    assert_eq!(p.position(), 0);
}

#[test]
fn blank_line_is_exhausted_only_on_empty_input() {
    let buf = b"";
    let mut p = MarkdownParser::new(buf);
    assert!(p.try_parse_empty_line().is_end());
}

#[test]
fn indent_skip_accepts_up_to_three_spaces() {
    for k in 0..4usize {
        let mut line = vec![b' '; k];
        line.push(b'x');
        let mut p = MarkdownParser::new(line.as_slice());
        assert!(p.try_skip_initial_spaces().is_success());
        assert_eq!(p.position(), k);
    }
}

#[test]
fn indent_skip_accepts_a_short_all_space_tail() {
    // up to three spaces running to the end of the buffer are still an
    // accepted indent; exhaustion is reserved for an empty remainder
    for k in 1..4usize {
        let line = vec![b' '; k];
        let mut p = MarkdownParser::new(line.as_slice());
        assert!(p.try_skip_initial_spaces().is_success());
        assert_eq!(p.position(), k);
    }
    let buf = b"";
    let mut p = MarkdownParser::new(buf);
    assert!(p.try_skip_initial_spaces().is_end());
}

#[test]
fn indent_skip_rejects_a_long_all_space_tail() {
    let line = vec![b' '; 4];
    let mut p = MarkdownParser::new(line.as_slice());
    let r = p.try_skip_initial_spaces();
    assert!(!r.is_success() && !r.is_end());
    assert_eq!(p.position(), 0);
}

#[test]
fn indent_skip_rejects_four_or_more_with_rollback() {
    for k in 4..7usize {
        let mut line = vec![b' '; k];
        line.push(b'x');
        let mut p = MarkdownParser::new(line.as_slice());
        let r = p.try_skip_initial_spaces();
        assert!(!r.is_success() && !r.is_end());
        assert_eq!(p.position(), 0);
    }
}

#[test]
fn read_char_matches_consumes_and_mismatches_roll_back() {
    let buf = b"ab";
    let mut p = MarkdownParser::new(buf);
    assert!(p.try_read_char(b'a').is_success());
    assert_eq!(p.position(), 1);
    let r = p.try_read_char(b'x');
    assert!(!r.is_success() && !r.is_end());
    assert_eq!(p.position(), 1);
    assert!(p.try_read_char(b'b').is_success());
    assert!(p.try_read_char(b'b').is_end());
}

#[test]
fn lookahead_never_moves_the_cursor() {
    let buf = b"***a";
    let mut p = MarkdownParser::new(buf);
    assert!(p.lookahead_chars(3, b'*'));
    assert_eq!(p.position(), 0);
    assert!(!p.lookahead_chars(4, b'*'));
    assert_eq!(p.position(), 0);
    assert!(p.lookahead_chars(0, b'*'));
    assert_eq!(p.position(), 0);
}

#[test]
fn read_line_includes_the_newline() {
    let buf = b"ab\ncd";
    let mut p = MarkdownParser::new(buf);
    assert!(p.read_line().is_success());
    assert_eq!(p.position(), 3);
    assert!(p.read_line().is_success());
    assert_eq!(p.position(), 5);
    assert!(p.read_line().is_end());
}

#[test]
fn read_line_to_collects_the_bytes() {
    let buf = b"ab\ncd";
    let mut p = MarkdownParser::new(buf);
    let mut dest = Vec::new();
    assert!(p.read_line_to(&mut dest).is_success());
    assert_eq!(dest, b"ab\n".to_vec());
    assert!(p.read_line_to(&mut dest).is_success());
    assert_eq!(dest, b"ab\ncd".to_vec());
    assert!(p.read_line_to(&mut dest).is_end());
    assert_eq!(dest, b"ab\ncd".to_vec());
}

#[test]
fn parser_marks_roll_back_speculative_consumption() {
    let buf = b"abcdef";
    let mut p = MarkdownParser::new(buf);
    let m = p.mark();
    assert!(p.try_read_char(b'a').is_success());
    assert!(p.try_read_char(b'b').is_success());
    p.reset(m);
    assert_eq!(p.position(), 0);
}

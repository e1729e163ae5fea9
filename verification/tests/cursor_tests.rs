use markdown::cursor::Cursor;
use markdown::links::{ascii_lowercase, bytes_eq, LinkDef, LinkMap};
use markdown::matcher::{ByteMatcher, ByteRange, CodeByte, EmphasisByte, NoneOf, SpaceOrNewline};

#[test]
fn cursor_moves_and_reads() {
    let buf = b"abc";
    let mut c = Cursor::new(buf);
    assert!(c.available());
    assert_eq!(c.current_byte(), Some(b'a'));
    assert_eq!(c.next_byte(), Some(b'a'));
    assert_eq!(c.position(), 1);
    assert_eq!(c.peek_prev(), b'a');
    assert!(c.next());
    assert_eq!(c.peek_before_prev(), b'a');
    assert_eq!(c.peek_before_prev_opt(), Some(b'a'));
    assert!(c.next());
    assert!(!c.next());
    assert_eq!(c.position(), 3);
    assert!(!c.available());
    assert_eq!(c.current_byte(), None);
    assert_eq!(c.next_byte(), None);
}

#[test]
fn retract_saturates_at_zero() {
    let buf = b"ab";
    let mut c = Cursor::new(buf);
    c.advance(2);
    c.retract(5);
    assert_eq!(c.position(), 0);
    assert_eq!(c.peek_before_prev_opt(), None);
}

#[test]
fn prev_byte_steps_back_and_reads() {
    let buf = b"xy";
    let mut c = Cursor::new(buf);
    c.advance(2);
    assert_eq!(c.prev_byte(), b'y');
    assert_eq!(c.position(), 1);
    c.prev();
    assert_eq!(c.position(), 0);
}

#[test]
fn mark_reset_rolls_back_and_cancel_commits() {
    let buf = b"hello";
    let mut c = Cursor::new(buf);
    let m = c.mark();
    c.advance(3);
    c.reset(m);
    assert_eq!(c.position(), 0);
    let m2 = c.mark();
    c.advance(2);
    m2.cancel();
    assert_eq!(c.position(), 2);
}

#[test]
fn phantom_marks_delimit_slices() {
    let buf = b"hello";
    let mut c = Cursor::new(buf);
    c.advance(1);
    let left = c.phantom_mark();
    c.advance(3);
    let right = c.phantom_mark();
    assert_eq!(c.slice(left, right), b"ell");
    assert_eq!(c.slice_to_now_from(left), b"ell");
    assert_eq!(c.slice_until_now_from(left), b"el");
    let at_prev = c.phantom_mark_at_prev();
    assert_eq!(at_prev.pos, 3);
    assert!(c.valid(left));
    assert!(c.valid(right));
}

#[test]
fn matchers_accept_what_they_describe() {
    assert!(b'a'.matches(b'a'));
    assert!(!b'a'.matches(b'b'));
    let set: &[u8] = b" \n";
    assert!(set.matches(b' ') && set.matches(b'\n') && !set.matches(b'x'));
    let digits = ByteRange { lo: b'0', hi: b'9' };
    assert!(digits.matches(b'5') && !digits.matches(b'a'));
    assert!(SpaceOrNewline.matches(b' ') && SpaceOrNewline.matches(b'\n'));
    assert!(!SpaceOrNewline.matches(b'x'));
    let not_bracket = NoneOf { excluded: b"]\n" };
    assert!(not_bracket.matches(b'a') && !not_bracket.matches(b']'));
    assert!(EmphasisByte.matches(b'*') && EmphasisByte.matches(b'_'));
    assert!(!EmphasisByte.matches(b'a'));
    assert!(CodeByte.matches(b'`') && !CodeByte.matches(b'*'));
}

#[test]
fn lowercase_folds_ascii_only() {
    assert_eq!(ascii_lowercase(b"FoO-9["), b"foo-9[".to_vec());
    assert_eq!(ascii_lowercase(b""), Vec::<u8>::new());
}

#[test]
fn bytes_eq_compares_content() {
    assert!(bytes_eq(b"abc", b"abc"));
    assert!(!bytes_eq(b"abc", b"abd"));
    assert!(!bytes_eq(b"abc", b"ab"));
    assert!(bytes_eq(b"", b""));
}

#[test]
fn link_map_is_case_insensitive_and_last_wins() {
    let mut m = LinkMap::new();
    assert!(m.lookup(b"foo").is_none());
    m.insert(b"Foo", LinkDef { dest: b"/a".to_vec(), title: None });
    let d = m.lookup(b"fOO").expect("definition should be found");
    assert_eq!(d.dest, b"/a".to_vec());
    assert_eq!(d.title, None);
    m.insert(b"FOO", LinkDef { dest: b"/b".to_vec(), title: Some(b"t".to_vec()) });
    let d2 = m.lookup(b"foo").expect("definition should be found");
    assert_eq!(d2.dest, b"/b".to_vec());
    assert_eq!(d2.title, Some(b"t".to_vec()));
    assert!(m.lookup(b"bar").is_none());
}

#[test]
fn link_def_duplicate_keeps_content() {
    let d = LinkDef { dest: b"/x".to_vec(), title: Some(b"y".to_vec()) };
    let c = d.duplicate();
    assert_eq!(c, d);
}

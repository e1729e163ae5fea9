use markdown::config::MarkdownConfig;
use markdown::engine::MarkdownParser;
use markdown::tokens::{Block, Inline};

fn text(s: &[u8]) -> Inline {
    Inline::Text(s.to_vec())
}

#[test]
fn forward_reference_resolves_after_full_pass() {
    let buf = b"[foo]\n\n[foo]: /url \"t\"\n";
    let doc = MarkdownParser::new(buf).read_all();
    assert_eq!(doc.len(), 1);
    let Block::Paragraph(inls) = &doc[0];
    assert_eq!(inls.len(), 2);
    assert_eq!(
        inls[0],
        Inline::Link { dest: b"/url".to_vec(), title: Some(b"t".to_vec()), text: b"foo".to_vec() }
    );
    assert_eq!(inls[1], text(b"\n"));
}

#[test]
fn backward_reference_resolves_too() {
    let buf = b"[foo]: /url \"t\"\n\n[foo]\n";
    let doc = MarkdownParser::new(buf).read_all();
    assert_eq!(doc.len(), 1);
    let Block::Paragraph(inls) = &doc[0];
    assert_eq!(
        inls[0],
        Inline::Link { dest: b"/url".to_vec(), title: Some(b"t".to_vec()), text: b"foo".to_vec() }
    );
}

#[test]
fn reference_labels_fold_case() {
    let buf = b"[FOO]\n\n[foo]: /url\n";
    let doc = MarkdownParser::new(buf).read_all();
    let Block::Paragraph(inls) = &doc[0];
    assert_eq!(
        inls[0],
        Inline::Link { dest: b"/url".to_vec(), title: None, text: b"FOO".to_vec() }
    );
}

#[test]
fn unresolved_reference_degrades_to_literal_text() {
    let buf = b"see [bar]\n";
    let doc = MarkdownParser::new(buf).read_all();
    assert_eq!(doc.len(), 1);
    let Block::Paragraph(inls) = &doc[0];
    assert_eq!(inls.as_slice(), &[text(b"see "), text(b"[bar]"), text(b"\n")]);
}

#[test]
fn later_definition_supersedes_earlier() {
    let buf = b"[a]: /one\n[a]: /two\n\n[a]\n";
    let doc = MarkdownParser::new(buf).read_all();
    assert_eq!(doc.len(), 1);
    let Block::Paragraph(inls) = &doc[0];
    assert_eq!(
        inls[0],
        Inline::Link { dest: b"/two".to_vec(), title: None, text: b"a".to_vec() }
    );
}

#[test]
fn forked_engine_over_empty_region_is_exhausted_once_and_stays_so() {
    let buf = b"whatever";
    let root = MarkdownParser::new(buf);
    let mut f = root.fork(b"");
    assert_eq!(f.next(), None);
    assert_eq!(f.next(), None);
}

#[test]
fn forked_engine_lets_references_flow_out_unresolved() {
    let buf = b"[foo]: /url\n";
    let mut root = MarkdownParser::new(buf);
    let raw = root.parse_to_end();
    assert!(raw.is_empty());
    // the root now knows the label, but a fork must not resolve with it
    let region = b"[foo]\n";
    let mut f = root.fork(region);
    let b = f.next().expect("a paragraph should be produced");
    let Block::Paragraph(inls) = &b;
    assert_eq!(
        inls[0],
        Inline::RefLink { label: b"foo".to_vec(), text: b"foo".to_vec() }
    );
}

#[test]
fn full_parse_consumes_the_whole_buffer() {
    let cases: [&[u8]; 5] = [
        b"",
        b"plain text\n",
        b"a\n\n   \n\nb",
        b"[x]: /y \"z\"\n\ntail",
        b"   \n \n  ",
    ];
    for buf in cases {
        let mut p = MarkdownParser::new(buf);
        let _ = p.parse_to_end();
        assert_eq!(p.position(), p.buffer_len());
    }
}

#[test]
fn lazy_sequence_drains_the_queue_first() {
    let buf = b"later\n";
    let mut p = MarkdownParser::new(buf);
    p.enqueue_event(Block::Paragraph(vec![text(b"first")]));
    p.enqueue_event(Block::Paragraph(vec![text(b"second")]));
    assert_eq!(p.next(), Some(Block::Paragraph(vec![text(b"first")])));
    assert_eq!(p.next(), Some(Block::Paragraph(vec![text(b"second")])));
    assert_eq!(p.next(), Some(Block::Paragraph(vec![text(b"later\n")])));
    assert_eq!(p.next(), None);
    assert_eq!(p.position(), p.buffer_len());
}

#[test]
fn configuration_is_shared_with_forks() {
    let cfg = MarkdownConfig { tables: true, strikethrough: false };
    let buf = b"x";
    let p = MarkdownParser::new(buf).with_config(cfg);
    assert_eq!(p.config(), cfg);
    let f = p.fork(b"sub");
    assert_eq!(f.config(), cfg);
    assert_eq!(MarkdownParser::new(buf).config(), MarkdownConfig::default());
}

#[test]
fn paragraphs_split_on_blank_lines() {
    let buf = b"one\ntwo\n\nthree\n";
    let doc = MarkdownParser::new(buf).read_all();
    assert_eq!(doc.len(), 2);
    let Block::Paragraph(first) = &doc[0];
    assert_eq!(first.as_slice(), &[text(b"one\ntwo\n")]);
    let Block::Paragraph(second) = &doc[1];
    assert_eq!(second.as_slice(), &[text(b"three\n")]);
}

#[test]
fn indented_definition_still_counts_but_deep_indent_does_not() {
    let buf = b"   [a]: /ok\n\n[a]\n";
    let doc = MarkdownParser::new(buf).read_all();
    assert_eq!(doc.len(), 1);
    let Block::Paragraph(inls) = &doc[0];
    assert_eq!(
        inls[0],
        Inline::Link { dest: b"/ok".to_vec(), title: None, text: b"a".to_vec() }
    );

    // four spaces: reserved for a different rule, so it stays literal text
    let buf2 = b"    [b]: /no\n\n[b]\n";
    let doc2 = MarkdownParser::new(buf2).read_all();
    assert_eq!(doc2.len(), 2);
    let Block::Paragraph(inls2) = &doc2[1];
    assert_eq!(inls2[0], text(b"[b]"));
}

#[test]
fn trailing_spaces_become_literal_text() {
    // spaces running to the end of the buffer are no blank line, so they
    // degrade permissively into paragraph content
    let buf = b"a\n\n  ";
    let doc = MarkdownParser::new(buf).read_all();
    assert_eq!(doc.len(), 2);
    let Block::Paragraph(first) = &doc[0];
    assert_eq!(first.as_slice(), &[text(b"a\n")]);
    let Block::Paragraph(second) = &doc[1];
    assert_eq!(second.as_slice(), &[text(b"  ")]);
}

#[test]
fn next_produces_the_grammar_block_then_ends() {
    let buf = b"one\n\ntwo\n";
    let mut p = MarkdownParser::new(buf);
    assert_eq!(p.next(), Some(Block::Paragraph(vec![text(b"one\n")])));
    assert_eq!(p.next(), Some(Block::Paragraph(vec![text(b"two\n")])));
    assert_eq!(p.next(), None);
    assert_eq!(p.next(), None);
    assert_eq!(p.position(), p.buffer_len());
}

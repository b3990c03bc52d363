use udon::driver::StreamingParser;
use udon::event::Event;

fn whole(input: &[u8]) -> Vec<Event> {
    StreamingParser::parse_all(input).0
}

fn split_at(input: &[u8], cut: usize) -> Vec<Event> {
    let mut p = StreamingParser::new(4);
    p.feed(&input[..cut]);
    p.feed(&input[cut..]);
    p.finish();
    let mut out = Vec::new();
    while let Some(e) = p.read() {
        out.push(e);
    }
    out
}

#[test]
fn every_split_point_yields_the_same_events() {
    let input: &[u8] = b"div#id.c1{a: 1, b: \"x\\ny\"} tail\n  child\n; note\n[1, 2.5]\n";
    let expected = whole(input);
    for cut in 0..=input.len() {
        assert_eq!(split_at(input, cut), expected, "split at {}", cut);
    }
}

#[test]
fn single_byte_feeds_yield_the_same_events() {
    let input: &[u8] = b"@ns:name\n  '''\nraw\n";
    let expected = whole(input);
    let mut p = StreamingParser::new(1);
    for b in input {
        p.feed(std::slice::from_ref(b));
    }
    p.finish();
    let mut out = Vec::new();
    while let Some(e) = p.read() {
        out.push(e);
    }
    assert_eq!(out, expected);
}

#[test]
fn feed_after_finish_changes_nothing() {
    let mut p = StreamingParser::new(4);
    p.feed(b"div\n");
    p.finish();
    p.feed(b"more\n");
    let mut n = 0;
    while p.read().is_some() {
        n += 1;
    }
    assert_eq!(n, 2);
}

#[test]
fn interleaved_read_and_feed_preserves_document_order() {
    let mut p = StreamingParser::new(4);
    p.feed(b"a\n");
    let first = p.read().expect("ElementStart available after its line");
    assert!(matches!(first, Event::ElementStart { .. }));
    p.feed(b"b\n");
    p.finish();
    let mut rest = Vec::new();
    while let Some(e) = p.read() {
        rest.push(e);
    }
    let all = whole(b"a\nb\n");
    assert_eq!(all[0], first);
    assert_eq!(&all[1..], &rest[..]);
}

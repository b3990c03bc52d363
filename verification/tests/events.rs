use udon::arena::{ChunkArena, ChunkSlice, Span};
use udon::driver::StreamingParser;
use udon::event::{ErrorCode, Event};

fn parse(input: &[u8]) -> (Vec<Event>, ChunkArena) {
    StreamingParser::parse_all(input)
}

fn bytes_of(arena: &ChunkArena, s: ChunkSlice) -> Vec<u8> {
    arena.resolve(s).expect("slice must resolve").to_vec()
}

#[test]
fn element_with_id_classes_attr_and_text() {
    let input = b"div#id.class1.class2{attr: 1}text";
    let (events, arena) = parse(input);
    assert_eq!(events.len(), 5);
    match events[0] {
        Event::ElementStart { name, id, classes, suffix, span } => {
            assert_eq!(bytes_of(&arena, name.unwrap()), b"div");
            assert_eq!(bytes_of(&arena, id.unwrap()), b"id");
            assert_eq!(bytes_of(&arena, classes.unwrap()), b"class1.class2");
            assert!(suffix.is_none());
            assert_eq!(span, Span { start: 0, end: 20 });
        }
        _ => panic!("expected ElementStart, got {:?}", events[0]),
    }
    match events[1] {
        Event::Attribute { key, span } => {
            assert_eq!(bytes_of(&arena, key), b"attr");
            assert_eq!(span, Span { start: 21, end: 25 });
        }
        _ => panic!("expected Attribute, got {:?}", events[1]),
    }
    match events[2] {
        Event::IntegerValue { value, span } => {
            assert_eq!(value, 1);
            assert_eq!(span, Span { start: 27, end: 28 });
        }
        _ => panic!("expected IntegerValue, got {:?}", events[2]),
    }
    match events[3] {
        Event::Text { content, span } => {
            assert_eq!(bytes_of(&arena, content), b"text");
            assert_eq!(span, Span { start: 29, end: 33 });
        }
        _ => panic!("expected Text, got {:?}", events[3]),
    }
    match events[4] {
        Event::ElementEnd { span } => {
            assert_eq!(span, Span { start: 33, end: 33 });
        }
        _ => panic!("expected ElementEnd, got {:?}", events[4]),
    }
}

#[test]
fn tab_in_indentation_is_a_terminal_policy_fault() {
    let (events, _) = parse(b"\tdiv\nmore\n");
    assert_eq!(events.len(), 1);
    match events[0] {
        Event::Error { code, span } => {
            assert_eq!(code, ErrorCode::NoTabs);
            assert_eq!(code.wire_name(), "no_tabs");
            assert_eq!(span, Span { start: 0, end: 1 });
        }
        _ => panic!("expected Error, got {:?}", events[0]),
    }
}

#[test]
fn input_ending_mid_quoted_string_faults_on_finish() {
    let mut p = StreamingParser::new(8);
    p.feed(b"\"12");
    assert!(p.read().is_none(), "no event before finish");
    p.finish();
    match p.read() {
        Some(Event::Error { code, .. }) => {
            assert_eq!(code, ErrorCode::UnclosedStringValue);
            assert_eq!(code.wire_name(), "unclosed_string_value");
        }
        other => panic!("expected unclosed string error, got {:?}", other),
    }
    assert!(p.read().is_none());
}

#[test]
fn quoted_string_split_across_feeds_matches_single_feed() {
    let mut split = StreamingParser::new(8);
    split.feed(b"\"12");
    split.feed(b"3\"");
    split.finish();
    let (whole_events, whole_arena) = parse(b"\"123\"");
    let mut split_events = Vec::new();
    while let Some(e) = split.read() {
        split_events.push(e);
    }
    assert_eq!(split_events, whole_events);
    assert_eq!(whole_events.len(), 1);
    match whole_events[0] {
        Event::QuotedStringValue { value, span } => {
            assert_eq!(bytes_of(&whole_arena, value), b"123");
            assert_eq!(bytes_of(split.arena(), value), b"123");
            assert_eq!(span, Span { start: 0, end: 5 });
        }
        _ => panic!("expected QuotedStringValue, got {:?}", whole_events[0]),
    }
}

#[test]
fn read_after_empty_queue_returns_none_forever() {
    let mut p = StreamingParser::new(4);
    p.feed(b"div\n");
    p.finish();
    let mut n = 0;
    while p.read().is_some() {
        n += 1;
    }
    assert_eq!(n, 2);
    for _ in 0..5 {
        assert!(p.read().is_none());
    }
}

#[test]
fn indentation_nests_and_dedent_closes_in_lifo_order() {
    let (events, arena) = parse(b"a\n  b\nc\n");
    let kinds: Vec<&str> = events
        .iter()
        .map(|e| match e {
            Event::ElementStart { .. } => "start",
            Event::ElementEnd { .. } => "end",
            _ => "other",
        })
        .collect();
    assert_eq!(kinds, vec!["start", "start", "end", "end", "start", "end"]);
    match events[1] {
        Event::ElementStart { name, .. } => assert_eq!(bytes_of(&arena, name.unwrap()), b"b"),
        _ => panic!("expected ElementStart"),
    }
}

#[test]
fn array_values_classify_in_priority_order() {
    let (events, arena) = parse(b"[1, 2.5, 3/4, 1+2i, \"q\", nil, true, false, bare]");
    assert!(matches!(events[0], Event::ArrayStart { .. }));
    assert!(matches!(events[1], Event::IntegerValue { value: 1, .. }));
    match events[2] {
        Event::FloatValue { value, .. } => assert_eq!(bytes_of(&arena, value), b"2.5"),
        _ => panic!("expected FloatValue, got {:?}", events[2]),
    }
    assert!(matches!(
        events[3],
        Event::RationalValue { numerator: 3, denominator: 4, .. }
    ));
    match events[4] {
        Event::ComplexValue { real, imag, .. } => {
            assert_eq!(bytes_of(&arena, real), b"1");
            assert_eq!(bytes_of(&arena, imag), b"+2");
        }
        _ => panic!("expected ComplexValue, got {:?}", events[4]),
    }
    match events[5] {
        Event::QuotedStringValue { value, .. } => assert_eq!(bytes_of(&arena, value), b"q"),
        _ => panic!("expected QuotedStringValue, got {:?}", events[5]),
    }
    assert!(matches!(events[6], Event::NilValue { .. }));
    assert!(matches!(events[7], Event::BoolValue { value: true, .. }));
    assert!(matches!(events[8], Event::BoolValue { value: false, .. }));
    match events[9] {
        Event::StringValue { value, .. } => assert_eq!(bytes_of(&arena, value), b"bare"),
        _ => panic!("expected StringValue, got {:?}", events[9]),
    }
    assert!(matches!(events[10], Event::ArrayEnd { .. }));
    assert_eq!(events.len(), 11);
}

#[test]
fn oversized_integer_literal_falls_back_to_bare_string() {
    let (events, arena) = parse(b"1234567890123456789012");
    match events[0] {
        Event::StringValue { value, .. } => {
            assert_eq!(bytes_of(&arena, value), b"1234567890123456789012");
        }
        _ => panic!("expected StringValue fallback, got {:?}", events[0]),
    }
    let (events2, _) = parse(b"123456789012345678");
    assert!(matches!(
        events2[0],
        Event::IntegerValue { value: 123456789012345678, .. }
    ));
}

#[test]
fn negative_integer_and_exponent_float() {
    let (events, arena) = parse(b"-42\n");
    assert!(matches!(events[0], Event::IntegerValue { value: -42, .. }));
    let (events2, arena2) = parse(b"-2.5e-3\n");
    match events2[0] {
        Event::FloatValue { value, .. } => assert_eq!(bytes_of(&arena2, value), b"-2.5e-3"),
        _ => panic!("expected FloatValue, got {:?}", events2[0]),
    }
    drop(arena);
}

#[test]
fn comment_line_carries_raw_content() {
    let (events, arena) = parse(b"; hello world\n");
    match events[0] {
        Event::Comment { content, span } => {
            assert_eq!(bytes_of(&arena, content), b" hello world");
            assert_eq!(span, Span { start: 0, end: 13 });
        }
        _ => panic!("expected Comment, got {:?}", events[0]),
    }
}

#[test]
fn block_directive_with_namespace_nests() {
    let (events, arena) = parse(b"@ns:name\n  child\n");
    match events[0] {
        Event::DirectiveStart { name, namespace, .. } => {
            assert_eq!(bytes_of(&arena, name), b"name");
            assert_eq!(bytes_of(&arena, namespace.unwrap()), b"ns");
        }
        _ => panic!("expected DirectiveStart, got {:?}", events[0]),
    }
    assert!(matches!(events[1], Event::ElementStart { .. }));
    assert!(matches!(events[2], Event::ElementEnd { .. }));
    assert!(matches!(events[3], Event::DirectiveEnd { .. }));
}

#[test]
fn inline_directive_plain_and_raw() {
    let (events, arena) = parse(b"@x(body text)\n");
    match events[0] {
        Event::InlineDirective { name, namespace, raw, content, span } => {
            assert_eq!(bytes_of(&arena, name), b"x");
            assert!(namespace.is_none());
            assert!(!raw);
            assert_eq!(bytes_of(&arena, content), b"body text");
            assert_eq!(span, Span { start: 0, end: 13 });
        }
        _ => panic!("expected InlineDirective, got {:?}", events[0]),
    }
    let (events2, arena2) = parse(b"@!x(raw body)\n");
    match events2[0] {
        Event::InlineDirective { raw, content, .. } => {
            assert!(raw);
            assert_eq!(bytes_of(&arena2, content), b"raw body");
        }
        _ => panic!("expected raw InlineDirective, got {:?}", events2[0]),
    }
}

#[test]
fn id_reference_and_attribute_merge() {
    let (events, arena) = parse(b"*target\n&mixin\n");
    match events[0] {
        Event::IdReference { id, .. } => assert_eq!(bytes_of(&arena, id), b"target"),
        _ => panic!("expected IdReference, got {:?}", events[0]),
    }
    match events[1] {
        Event::AttributeMerge { id, .. } => assert_eq!(bytes_of(&arena, id), b"mixin"),
        _ => panic!("expected AttributeMerge, got {:?}", events[1]),
    }
}

#[test]
fn embedded_block_with_and_without_name() {
    let (events, arena) = parse(b"!media\n");
    match events[0] {
        Event::EmbeddedStart { name, .. } => {
            assert_eq!(bytes_of(&arena, name.unwrap()), b"media");
        }
        _ => panic!("expected EmbeddedStart, got {:?}", events[0]),
    }
    assert!(matches!(events[1], Event::EmbeddedEnd { .. }));
    let (events2, _) = parse(b"!\n");
    assert!(matches!(events2[0], Event::EmbeddedStart { name: None, .. }));
}

#[test]
fn interpolation_line_and_unclosed_interpolation() {
    let (events, arena) = parse(b"$(a + b)\n");
    match events[0] {
        Event::Interpolation { expression, span } => {
            assert_eq!(bytes_of(&arena, expression), b"a + b");
            assert_eq!(span, Span { start: 0, end: 8 });
        }
        _ => panic!("expected Interpolation, got {:?}", events[0]),
    }
    let (events2, _) = parse(b"$(oops\n");
    assert!(matches!(
        events2[0],
        Event::Error { code: ErrorCode::UnclosedInterpolation, .. }
    ));
}

#[test]
fn freeform_block_is_raw_and_tab_tolerant() {
    let (events, arena) = parse(b"'''\nraw \t {line}\n'''\n");
    assert!(matches!(events[0], Event::FreeformStart { .. }));
    match events[1] {
        Event::RawContent { content, .. } => {
            assert_eq!(bytes_of(&arena, content), b"raw \t {line}");
        }
        _ => panic!("expected RawContent, got {:?}", events[1]),
    }
    assert!(matches!(events[2], Event::FreeformEnd { .. }));
    assert_eq!(events.len(), 3);
}

#[test]
fn unclosed_freeform_faults_on_finish() {
    let (events, _) = parse(b"'''\nstill open\n");
    assert!(matches!(events[0], Event::FreeformStart { .. }));
    assert!(matches!(events[1], Event::RawContent { .. }));
    assert!(matches!(
        events[2],
        Event::Error { code: ErrorCode::UnclosedFreeform, .. }
    ));
    assert_eq!(events.len(), 3);
}

#[test]
fn unexpected_char_stops_the_stream() {
    let (events, _) = parse(b"(\nx\n");
    assert_eq!(events.len(), 1);
    match events[0] {
        Event::Error { code, span } => {
            assert_eq!(code, ErrorCode::UnexpectedChar);
            assert_eq!(span, Span { start: 0, end: 1 });
        }
        _ => panic!("expected Error, got {:?}", events[0]),
    }
}

#[test]
fn unexpected_eof_after_bare_id_marker() {
    let (events, _) = parse(b"div#");
    assert_eq!(events.len(), 1);
    assert!(matches!(
        events[0],
        Event::Error { code: ErrorCode::UnexpectedEof, .. }
    ));
}

#[test]
fn unclosed_attribute_group() {
    let (events, _) = parse(b"div{a: 1");
    assert!(matches!(events[0], Event::ElementStart { .. }));
    assert!(matches!(events[1], Event::Attribute { .. }));
    assert!(matches!(events[2], Event::IntegerValue { value: 1, .. }));
    assert!(matches!(
        events[3],
        Event::Error { code: ErrorCode::Unclosed, .. }
    ));
    assert_eq!(events.len(), 4);
}

#[test]
fn unclosed_array() {
    let (events, _) = parse(b"[1, 2");
    assert!(matches!(events[0], Event::ArrayStart { .. }));
    assert!(matches!(events[1], Event::IntegerValue { value: 1, .. }));
    assert!(matches!(events[2], Event::IntegerValue { value: 2, .. }));
    assert!(matches!(
        events[3],
        Event::Error { code: ErrorCode::UnclosedArray, .. }
    ));
}

#[test]
fn presence_only_attribute_and_nested_array_value() {
    let (events, arena) = parse(b"e{flag, xs: [1, [2]]}\n");
    assert!(matches!(events[0], Event::ElementStart { .. }));
    match events[1] {
        Event::Attribute { key, .. } => assert_eq!(bytes_of(&arena, key), b"flag"),
        _ => panic!("expected Attribute, got {:?}", events[1]),
    }
    match events[2] {
        Event::Attribute { key, .. } => assert_eq!(bytes_of(&arena, key), b"xs"),
        _ => panic!("expected Attribute, got {:?}", events[2]),
    }
    assert!(matches!(events[3], Event::ArrayStart { .. }));
    assert!(matches!(events[4], Event::IntegerValue { value: 1, .. }));
    assert!(matches!(events[5], Event::ArrayStart { .. }));
    assert!(matches!(events[6], Event::IntegerValue { value: 2, .. }));
    assert!(matches!(events[7], Event::ArrayEnd { .. }));
    assert!(matches!(events[8], Event::ArrayEnd { .. }));
    assert!(matches!(events[9], Event::ElementEnd { .. }));
}

#[test]
fn escaped_quoted_string_resolves_unescaped_via_copy_region() {
    let (events, arena) = parse(b"\"a\\nb\\\"c\"");
    match events[0] {
        Event::QuotedStringValue { value, span } => {
            assert!(value.in_copies);
            assert_eq!(bytes_of(&arena, value), b"a\nb\"c");
            assert_eq!(span, Span { start: 0, end: 9 });
        }
        _ => panic!("expected QuotedStringValue, got {:?}", events[0]),
    }
}

#[test]
fn plain_quoted_string_is_zero_copy_at_its_span_interior() {
    let input = b"\"hello\"";
    let (events, arena) = parse(input);
    match events[0] {
        Event::QuotedStringValue { value, span } => {
            assert!(!value.in_copies);
            assert_eq!(value.start, span.start + 1);
            assert_eq!(value.start + value.len, span.end - 1);
            assert_eq!(bytes_of(&arena, value), &input[span.start + 1..span.end - 1]);
        }
        _ => panic!("expected QuotedStringValue, got {:?}", events[0]),
    }
}

#[test]
fn stale_or_oversized_slice_resolves_to_none() {
    let (_, arena) = parse(b"div\n");
    let bad = ChunkSlice { in_copies: false, start: 3, len: 100 };
    assert!(arena.resolve(bad).is_none());
    let bad2 = ChunkSlice { in_copies: true, start: 0, len: 1 };
    assert!(arena.resolve(bad2).is_none());
}

#[test]
fn element_suffix_and_anonymous_forms() {
    let (events, arena) = parse(b"btn!\n#only-id\n.c1.c2\n");
    match events[0] {
        Event::ElementStart { name, suffix, .. } => {
            assert_eq!(bytes_of(&arena, name.unwrap()), b"btn");
            assert_eq!(bytes_of(&arena, suffix.unwrap()), b"!");
        }
        _ => panic!("expected ElementStart, got {:?}", events[0]),
    }
    match events[2] {
        Event::ElementStart { name, id, .. } => {
            assert!(name.is_none());
            assert_eq!(bytes_of(&arena, id.unwrap()), b"only-id");
        }
        _ => panic!("expected ElementStart, got {:?}", events[2]),
    }
    match events[4] {
        Event::ElementStart { name, classes, .. } => {
            assert!(name.is_none());
            assert_eq!(bytes_of(&arena, classes.unwrap()), b"c1.c2");
        }
        _ => panic!("expected ElementStart, got {:?}", events[4]),
    }
}

#[test]
fn spans_are_ordered_and_well_formed() {
    let (events, _) = parse(b"a#i.c{k: [1, \"s\"]} tail\n  b\nc\n");
    let mut prev_start = 0usize;
    for e in &events {
        let span = match e {
            Event::ElementStart { span, .. } => span,
            Event::ElementEnd { span } => span,
            Event::Attribute { span, .. } => span,
            Event::ArrayStart { span } => span,
            Event::ArrayEnd { span } => span,
            Event::IntegerValue { span, .. } => span,
            Event::QuotedStringValue { span, .. } => span,
            Event::Text { span, .. } => span,
            other => panic!("unexpected event {:?}", other),
        };
        assert!(span.end >= span.start);
        assert!(span.start >= prev_start, "spans must be non-decreasing");
        prev_start = span.start;
    }
}

#[test]
fn events_before_a_fault_remain_a_valid_prefix() {
    let (events, arena) = parse(b"a\n  b\n\tc\n");
    assert!(matches!(events[0], Event::ElementStart { .. }));
    assert!(matches!(events[1], Event::ElementStart { .. }));
    assert!(matches!(events[2], Event::Error { code: ErrorCode::NoTabs, .. }));
    assert_eq!(events.len(), 3);
    match events[1] {
        Event::ElementStart { name, .. } => assert_eq!(bytes_of(&arena, name.unwrap()), b"b"),
        _ => panic!("expected ElementStart"),
    }
}

#[test]
fn attribute_key_must_be_a_name() {
    let (events, _) = parse(b"div{1: x}\n");
    assert!(matches!(events[0], Event::ElementStart { .. }));
    assert!(matches!(
        events[1],
        Event::Error { code: ErrorCode::UnexpectedChar, .. }
    ));
    assert_eq!(events.len(), 2);
}

#[test]
fn directive_missing_name_is_a_fault() {
    let (events, _) = parse(b"@:x\n");
    assert!(matches!(
        events[0],
        Event::Error { code: ErrorCode::UnexpectedChar, .. }
    ));
    assert_eq!(events.len(), 1);
}

#[test]
fn freeform_split_across_feeds_matches_whole() {
    let input: &[u8] = b"'''\nline one\n'''\n";
    let whole = parse(input).0;
    let mut p = StreamingParser::new(2);
    p.feed(&input[..5]);
    p.feed(&input[5..]);
    p.finish();
    let mut out = Vec::new();
    while let Some(e) = p.read() {
        out.push(e);
    }
    assert_eq!(out, whole);
}

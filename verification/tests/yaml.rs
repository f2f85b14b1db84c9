//! Parsing YAML documents.
use anthelion::yaml::error::ParseError;
use anthelion::yaml::failsafe::{parse_steps, FailsafeParser};
use anthelion::yaml::parse::{error_positions, parse_schema, parse_value, YamlSchema};
use anthelion::yaml::position::{
    char_offset_to_byte, is_valid_range, marker_byte_offset, source_position, Location, Mark,
    SourcePosition, SourceRange, Span,
};
use anthelion::yaml::scan::{scan, EventKind, FaultKind, ScanFault, ScanStep};
use anthelion::yaml::typed::{CoreFault, CoreFaultKind};
use anthelion::yaml::value::{stringify_key, YamlValue};

fn text(s: &str) -> YamlValue {
    YamlValue::String(s.to_owned())
}

fn object(entries: Vec<(&str, YamlValue)>) -> YamlValue {
    let mut entries: Vec<(String, YamlValue)> =
        entries.into_iter().map(|(key, value)| (key.to_owned(), value)).collect();
    entries.sort_by(|a, b| a.0.cmp(&b.0));
    YamlValue::Object(entries)
}

#[test]
fn parses_core_schema_scalars() {
    assert_eq!(
        parse_value("enabled: true\ncount: 3\n", None).unwrap(),
        object(vec![("enabled", YamlValue::Bool(true)), ("count", YamlValue::Number("3".to_owned()))]),
    );
}

#[test]
fn preserves_failsafe_scalars() {
    assert_eq!(
        parse_value(
            "null: null\ntilde: ~\nbool: true\nfloat: 1.0\nleading: 001\nempty:\n",
            Some(YamlSchema::Failsafe),
        )
        .unwrap(),
        object(vec![
            ("null", text("null")),
            ("tilde", text("~")),
            ("bool", text("true")),
            ("float", text("1.0")),
            ("leading", text("001")),
            ("empty", text("")),
        ]),
    );
}

#[test]
fn rejects_duplicate_keys() {
    let input = "key: first\nkey: second\n";
    let expected_range = Some(SourceRange { start: 11, end: 14 });

    let core_error = parse_value(input, None).unwrap_err();
    assert_eq!(core_error.code, "DUPLICATE_KEY");
    assert_eq!(core_error.range, expected_range);

    let failsafe_error = parse_value(input, Some(YamlSchema::Failsafe)).unwrap_err();
    assert_eq!(failsafe_error.code, "DUPLICATE_KEY");
    assert_eq!(failsafe_error.range, expected_range);
}

#[test]
fn resolves_failsafe_aliases() {
    assert_eq!(
        parse_value(
            "base: &base\n  version: 1.0\ncopy: *base\n",
            Some(YamlSchema::Failsafe),
        )
        .unwrap(),
        object(vec![
            ("base", object(vec![("version", text("1.0"))])),
            ("copy", object(vec![("version", text("1.0"))])),
        ]),
    );
}

#[test]
fn handles_empty_failsafe_documents() {
    assert_eq!(parse_value("", Some(YamlSchema::Failsafe)).unwrap(), YamlValue::Null);
    assert_eq!(parse_value("---", Some(YamlSchema::Failsafe)).unwrap(), text(""));
}

#[test]
fn rejects_multiple_documents() {
    let input = "---\na: 1\n---\nb: 2\n";

    let core_error = parse_value(input, None).unwrap_err();
    assert_eq!(core_error.code, "MULTIPLE_DOCS");
    assert!(core_error.range.is_some());

    let failsafe_error = parse_value(input, Some(YamlSchema::Failsafe)).unwrap_err();
    assert_eq!(failsafe_error.code, "MULTIPLE_DOCS");
    assert!(failsafe_error.range.is_some());
}

#[test]
fn reports_javascript_source_positions() {
    let input = "😀: value\r\nkey";

    assert_eq!(
        source_position(input, input.find("key").unwrap()),
        SourcePosition { offset: 11, line: 2, column: 1 },
    );
}

fn failsafe(input: &str) -> YamlValue {
    parse_value(input, Some(YamlSchema::Failsafe)).unwrap()
}

fn failsafe_code(input: &str) -> &'static str {
    parse_value(input, Some(YamlSchema::Failsafe)).unwrap_err().code
}

#[test]
fn names_schemas() {
    assert_eq!(parse_schema(&None).unwrap(), YamlSchema::Core);
    assert_eq!(parse_schema(&Some("core".to_owned())).unwrap(), YamlSchema::Core);
    assert_eq!(parse_schema(&Some("failsafe".to_owned())).unwrap(), YamlSchema::Failsafe);
    assert_eq!(
        parse_schema(&Some("json".to_owned())).unwrap_err().message(),
        "[INVALID_ARGUMENT] Invalid YAML schema \"json\""
    );
}

#[test]
fn the_core_schema_resolves_scalars() {
    assert_eq!(
        parse_value("[null, false, -2, 1.5, text, {b: [], a: x}]", Some(YamlSchema::Core)).unwrap(),
        YamlValue::Array(vec![
            YamlValue::Null,
            YamlValue::Bool(false),
            YamlValue::Number("-2".to_owned()),
            YamlValue::Number("1.5".to_owned()),
            text("text"),
            object(vec![("a", text("x")), ("b", YamlValue::Array(Vec::new()))]),
        ])
    );
}

#[test]
fn the_core_schema_tells_faults() {
    let fault = |input: &str| parse_value(input, None).unwrap_err();
    assert_eq!(fault("a: *unknown").code, "BAD_ALIAS");
    assert_eq!(fault("a: [1").code, "UNEXPECTED_TOKEN");
    assert!(!fault("a: [1").message.is_empty());
}

#[test]
fn every_fault_of_the_core_schema_has_a_place() {
    let place = |input: &str, location: Option<Location>| {
        let fault = CoreFault {
            kind: CoreFaultKind::Other,
            location,
            message: "wrong".to_owned(),
        };
        let error = ParseError::from_core_fault(input, fault);
        assert!(error_positions(input, &error).is_some());
        error.range.map(|range| (range.start, range.end))
    };
    let at = |byte_offset: u64, byte_len: u64| {
        Some(Location { byte_offset: Some(byte_offset), byte_len: Some(byte_len), offset: 0, len: 0 })
    };
    assert_eq!(place("äbc", at(2, 1)), Some((2, 3)));
    assert_eq!(place("äbc", None), Some((4, 4)));
    // Outside the text, or within a character.
    assert_eq!(place("äbc", at(2, 3)), Some((4, 4)));
    assert_eq!(place("äbc", at(1, 1)), Some((4, 4)));
    for input in vec!["a: [1", "a: *unknown", "a: 1\n---\nb: 2\n", "a: 1\na: 2\n", "'", "{", "a: b: c"] {
        for schema in vec![None, Some(YamlSchema::Core), Some(YamlSchema::Failsafe)] {
            let error = parse_value(input, schema).unwrap_err();
            assert!(error_positions(input, &error).is_some(), "{input:?}");
        }
    }
}

#[test]
fn nodes_are_read_one_by_one() {
    let steps = scan("[a, b]").into_iter().skip(2).collect();
    let mut parser = FailsafeParser::from_steps("[a, b]", steps);
    let (value, _) = parser.parse_node(0).unwrap();
    assert_eq!(value, YamlValue::Array(vec![text("a"), text("b")]));

    for (input, depth) in vec![("a", 128), ("a", usize::MAX), ("[a]", 127)] {
        let steps = scan(input).into_iter().skip(2).collect();
        let error = FailsafeParser::from_steps(input, steps).parse_node(depth).unwrap_err();
        assert_eq!(error.code, "RESOURCE_EXHAUSTION", "{input} {depth}");
    }
}

#[test]
fn failsafe_documents_nest() {
    assert_eq!(
        failsafe("# comment\n- [a, 'b']\n- {c: \"d\"}\n- |\n  e\n# end\n"),
        YamlValue::Array(vec![
            YamlValue::Array(vec![text("a"), text("b")]),
            object(vec![("c", text("d"))]),
            text("e\n"),
        ])
    );
    assert_eq!(failsafe("'~'"), text("~"));
    assert_eq!(failsafe("# nothing but a comment"), YamlValue::Null);
}

#[test]
fn failsafe_keys_become_texts() {
    assert_eq!(failsafe("? [a, b]\n: c\n"), object(vec![("[ a, b ]", text("c"))]));
    assert_eq!(failsafe("? {b: x, a: [y]}\n: c\n"), object(vec![("{ a: [ y ], b: x }", text("c"))]));
    assert_eq!(failsafe(": c\n"), object(vec![("", text("c"))]));
    assert_eq!(failsafe_code("? [a]\n: 1\n'[ a ]': 2\n"), "DUPLICATE_KEY");
}

#[test]
fn keys_show_every_value() {
    assert_eq!(stringify_key(&YamlValue::Null), "");
    assert_eq!(stringify_key(&YamlValue::Bool(true)), "true");
    assert_eq!(stringify_key(&YamlValue::Bool(false)), "false");
    assert_eq!(stringify_key(&YamlValue::Number("1.5".to_owned())), "1.5");
    assert_eq!(stringify_key(&YamlValue::Array(Vec::new())), "[  ]");
    assert_eq!(stringify_key(&object(Vec::new())), "{  }");
    assert_eq!(stringify_key(&object(vec![("a", text("b")), ("c", text("d"))])), "{ a: b, c: d }");
}

#[test]
fn duplicate_keys_say_where_they_are() {
    let error = parse_value("a:\n  ä: 1\n  ä: 2\n", Some(YamlSchema::Failsafe)).unwrap_err();
    assert_eq!(error.message, "duplicate mapping key: ä at line 3 column 3");
    assert_eq!(error.range, Some(SourceRange { start: 13, end: 15 }));
}

#[test]
fn failsafe_faults_have_their_codes() {
    assert_eq!(failsafe_code("a: *unknown"), "BAD_ALIAS");
    assert_eq!(failsafe_code("a: [1"), "UNEXPECTED_TOKEN");
    assert_eq!(failsafe_code("a: 1\n---\nb: 2\n"), "MULTIPLE_DOCS");
    let error = parse_value("a\n---\nb", Some(YamlSchema::Failsafe)).unwrap_err();
    assert_eq!(error.message, "source contains multiple YAML documents");
}

#[test]
fn failsafe_documents_nest_so_far() {
    let nested = |depth: usize| format!("{}x{}", "[".repeat(depth), "]".repeat(depth));
    assert!(parse_value(&nested(127), Some(YamlSchema::Failsafe)).is_ok());
    let error = parse_value(&nested(128), Some(YamlSchema::Failsafe)).unwrap_err();
    assert_eq!(error.code, "RESOURCE_EXHAUSTION");
    assert_eq!(error.message, "YAML nesting exceeds the limit of 128");
    assert_eq!(error.range, Some(SourceRange { start: 128, end: 129 }));
}

#[test]
fn aliases_count_as_what_they_stand_for() {
    // Each level holds ten times what the one before holds.
    let mut input = "a0: &a0 [x, x, x, x, x, x, x, x, x]\n".to_owned();
    for level in 1..7 {
        let before = level - 1;
        let aliases = vec![format!("*a{before}"); 10].join(", ");
        input.push_str(&format!("a{level}: &a{level} [{aliases}]\n"));
    }
    let error = parse_value(&input, Some(YamlSchema::Failsafe)).unwrap_err();
    assert_eq!(error.code, "RESOURCE_EXHAUSTION");
    assert_eq!(error.message, "YAML node count exceeds the limit of 1000000");
}

#[test]
fn positions_count_lines() {
    let at = |input: &str, offset: usize| {
        let position = source_position(input, offset);
        (position.offset, position.line, position.column)
    };
    assert_eq!(at("", 0), (0, 1, 1));
    assert_eq!(at("ab", 2), (2, 1, 3));
    assert_eq!(at("a\nb", 2), (2, 2, 1));
    assert_eq!(at("a\r\nb", 3), (3, 2, 1));
    assert_eq!(at("a\rb", 2), (2, 2, 1));
    assert_eq!(at("a\n\rb", 3), (3, 3, 1));
    assert_eq!(at("ä😀b", 6), (3, 1, 4));
}

#[test]
fn offsets_are_found_in_bytes() {
    assert_eq!(char_offset_to_byte("ä😀b", 0), Some(0));
    assert_eq!(char_offset_to_byte("ä😀b", 1), Some(2));
    assert_eq!(char_offset_to_byte("ä😀b", 2), Some(6));
    assert_eq!(char_offset_to_byte("ä😀b", 3), Some(7));
    assert_eq!(char_offset_to_byte("ä😀b", 4), None);

    let mark = |byte_offset: Option<usize>, index: usize| Mark::new(byte_offset, index, 1, 0);
    assert_eq!(marker_byte_offset("äb", &mark(Some(2), 0)), 2);
    // A place inside a character is none.
    assert_eq!(marker_byte_offset("äb", &mark(Some(1), 2)), 3);
    assert_eq!(marker_byte_offset("äb", &mark(Some(9), 1)), 2);
    assert_eq!(marker_byte_offset("äb", &mark(None, 9)), 3);
    assert_eq!(
        SourceRange::at_marker("äb", &mark(None, 0)),
        SourceRange { start: 0, end: 2 }
    );
    assert_eq!(
        SourceRange::at_marker("äb", &mark(None, 2)),
        SourceRange { start: 3, end: 3 }
    );
}

#[test]
fn locations_skip_a_byte_order_mark() {
    let range = |input: &str, byte_offset: Option<u64>, byte_len: Option<u64>, offset: u64, len: u64| {
        SourceRange::from_location(input, Location { byte_offset, byte_len, offset, len })
            .map(|range| (range.start, range.end))
    };
    assert_eq!(range("abc", Some(1), Some(2), 9, 9), Some((1, 3)));
    assert_eq!(range("\u{feff}abc", Some(1), Some(2), 9, 9), Some((4, 6)));
    assert_eq!(range("äbc", None, Some(2), 1, 1), Some((2, 3)));
    assert_eq!(range("\u{feff}äbc", None, None, 1, 2), Some((5, 7)));
    assert_eq!(range("abc", Some(1), Some(3), 0, 0), None);
    assert_eq!(range("abc", None, None, 4, 0), None);
    assert_eq!(range("abc", None, None, u64::MAX, 1), None);
    assert_eq!(range("abc", Some(u64::MAX), Some(1), 0, 0), None);
}

#[test]
fn errors_have_positions() {
    let input = "key: 1\n😀: 1\n😀: 2\n";
    let error = parse_value(input, Some(YamlSchema::Failsafe)).unwrap_err();
    let range = error.range.unwrap();
    assert_eq!(range, SourceRange { start: 15, end: 19 });
    assert!(is_valid_range(input, range));
    assert!(!is_valid_range(input, SourceRange { start: 16, end: 19 }));
    assert!(!is_valid_range(input, SourceRange { start: 0, end: 99 }));
    let (start, end) = error_positions(input, &error).unwrap();
    assert_eq!(start, SourcePosition { offset: 13, line: 3, column: 1 });
    assert_eq!(end, SourcePosition { offset: 15, line: 3, column: 3 });
}

fn step(kind: EventKind<String>, from: usize, to: usize) -> ScanStep {
    ScanStep::Event {
        kind,
        span: Span { start: Mark::new(None, from, 1, from), end: Mark::new(None, to, 1, to) },
        shown: "Shown".to_owned(),
    }
}

fn scalar(s: &str, anchor: usize) -> EventKind<String> {
    EventKind::Scalar(s.to_owned(), true, anchor)
}

/// The steps of a document around those of its value.
fn document(value: Vec<ScanStep>) -> Vec<ScanStep> {
    let mut steps = vec![step(EventKind::StreamStart, 0, 0), step(EventKind::DocumentStart, 0, 0)];
    steps.extend(value);
    steps.push(step(EventKind::DocumentEnd, 9, 9));
    steps.push(step(EventKind::StreamEnd, 9, 9));
    steps
}

#[test]
fn parses_given_steps() {
    let steps = document(vec![
        step(EventKind::Comment, 0, 1),
        step(EventKind::MappingStart(2), 0, 1),
        step(scalar("b", 7), 1, 2),
        step(EventKind::SequenceStart(0), 2, 3),
        step(EventKind::Alias(7), 3, 4),
        step(scalar("~", 0), 4, 4),
        step(scalar("~", 0), 4, 5),
        step(EventKind::SequenceEnd, 5, 6),
        step(EventKind::Comment, 6, 7),
        step(scalar("a", 0), 6, 7),
        step(scalar("x", 0), 7, 8),
        step(EventKind::MappingEnd, 8, 9),
    ]);
    assert_eq!(
        parse_steps("0123456789", steps).unwrap(),
        object(vec![
            ("b", YamlValue::Array(vec![text("b"), text(""), text("~")])),
            ("a", text("x")),
        ])
    );
}

#[test]
fn faults_of_given_steps() {
    let input = "0123456789";
    let fault = |steps: Vec<ScanStep>| {
        let error = parse_steps(input, steps).unwrap_err();
        (error.code, error.message, error.range.map(|range| (range.start, range.end)))
    };
    assert_eq!(
        fault(Vec::new()),
        ("UNEXPECTED_TOKEN", "unexpected end of YAML input".to_owned(), Some((10, 10)))
    );
    assert_eq!(
        fault(vec![step(EventKind::StreamEnd, 1, 2)]),
        ("UNEXPECTED_TOKEN", "expected stream start, found Shown".to_owned(), Some((1, 2)))
    );
    assert_eq!(
        fault(vec![step(EventKind::StreamStart, 0, 0), step(EventKind::Other, 3, 4)]),
        ("UNEXPECTED_TOKEN", "expected document start, found Shown".to_owned(), Some((3, 4)))
    );
    assert_eq!(
        fault(document(vec![step(EventKind::SequenceEnd, 2, 3)])),
        ("UNEXPECTED_TOKEN", "expected YAML value, found Shown".to_owned(), Some((2, 3)))
    );
    assert_eq!(
        fault(document(vec![step(EventKind::Alias(4), 2, 5)])),
        ("BAD_ALIAS", "alias refers to unknown anchor 4".to_owned(), Some((2, 5)))
    );
    assert_eq!(
        fault(document(vec![step(scalar("a", 0), 1, 2), step(scalar("b", 0), 3, 4)])),
        ("UNEXPECTED_TOKEN", "expected document end, found Shown".to_owned(), Some((3, 4)))
    );
    let mut more = document(vec![step(scalar("a", 0), 1, 2)]);
    more.push(step(EventKind::Other, 9, 9));
    assert_eq!(
        fault(more),
        (
            "UNEXPECTED_TOKEN",
            "unexpected events after the YAML stream ended".to_owned(),
            Some((10, 10))
        )
    );
    let codes = vec![
        (FaultKind::UnknownAnchor, "BAD_ALIAS"),
        (FaultKind::MultipleDocumentsUnsupported, "MULTIPLE_DOCS"),
        (FaultKind::TooManyComments, "RESOURCE_EXHAUSTION"),
        (FaultKind::AnchorCountOverflow, "RESOURCE_EXHAUSTION"),
        (FaultKind::Other, "UNEXPECTED_TOKEN"),
    ];
    for (kind, code) in codes {
        let fault_step = ScanStep::Fault(ScanFault {
            kind,
            at: Mark::new(None, 4, 1, 4),
            message: "why".to_owned(),
        });
        assert_eq!(
            fault(vec![step(EventKind::StreamStart, 0, 0), fault_step]),
            (code, "why".to_owned(), Some((4, 5)))
        );
    }
}

#[test]
fn scans_every_step() {
    assert_eq!(scan("a: [b]").len(), 10);
    assert!(matches!(scan("[").last(), Some(ScanStep::Fault(_))));
}

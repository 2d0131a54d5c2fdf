use amont::check::Severity;
use amont::finding::{line_col, to_json, Finding};

#[test]
fn offsets_become_one_based_positions() {
    let src = "abc\ndef\nghi";
    assert_eq!(line_col(src, 0), (1, 1));
    assert_eq!(line_col(src, 2), (1, 3));
    assert_eq!(line_col(src, 4), (2, 1));
    assert_eq!(line_col(src, 8), (3, 1));
}

#[test]
fn the_column_counts_characters_not_bytes() {
    let src = "let café = dbg!(1);";
    let at = src.find("dbg!").unwrap();
    assert_eq!(at, 12);
    assert_eq!(line_col(src, at), (1, 12));
}

#[test]
fn an_offset_past_the_end_clamps() {
    let src = "abc";
    assert_eq!(line_col(src, 99), (1, 4));
    assert_eq!(line_col("", 5), (1, 1));
}

#[test]
fn render_degrades_when_there_is_no_position() {
    let whole = Finding::new("large-files", "big.bin", Severity::Block, "12 MB");
    assert_eq!(whole.render(), "big.bin: error: 12 MB [large-files]");
    let placed = Finding::new("ban-terms", "app.js", Severity::Block, "'debugger'")
        .at_offset("a\nb\ndebugger;", 4);
    assert_eq!(placed.render(), "app.js:3:1: error: 'debugger' [ban-terms]");
    let lined = Finding::new("secrets", "k.pem", Severity::Warn, "a private key").at_line(7);
    assert_eq!(lined.render(), "k.pem:7: warning: a private key [secrets]");
}

#[test]
fn json_is_versioned_and_escapes_its_input() {
    assert_eq!(to_json(&[]), "{\"format\":\"amont-check-v1\",\"findings\":[]}");
    let f = Finding::new("ban-terms", "a\"b.js", Severity::Block, "x").at_line(2);
    let json = to_json(&[f]);
    assert!(json.contains(r#""file":"a\"b.js""#), "{json}");
    assert!(json.contains(r#""line":2,"column":null"#), "{json}");
}

#[test]
fn json_carries_every_field_in_order() {
    let f = Finding::new("secrets", "k\n.pem", Severity::Warn, "a\\b")
        .at_offset("ab\ncd", 4);
    assert_eq!(
        to_json(&[f]),
        "{\"format\":\"amont-check-v1\",\"findings\":[{\"check\":\"secrets\",\"file\":\"k\\n.pem\",\"line\":2,\"column\":2,\"severity\":\"warning\",\"message\":\"a\\\\b\"}]}"
    );
}

#[test]
fn location_is_as_precise_as_the_finding() {
    let f = Finding::new("c", "f.rs", Severity::Block, "m");
    assert_eq!(f.location(), "f.rs");
    assert_eq!(f.clone().at_line(3).location(), "f.rs:3");
    assert_eq!(f.at_offset("é\nx", 3).location(), "f.rs:2:1");
}

#[test]
fn an_offset_inside_a_character_counts_from_its_start() {
    // `é` takes bytes 1..3 of "aé\nb"; byte 2 falls inside it.
    assert_eq!(line_col("aé\nb", 2), (1, 2));
    assert_eq!(line_col("aé\nb", 3), (1, 3));
    assert_eq!(line_col("é\nx", 1), (1, 1));
}

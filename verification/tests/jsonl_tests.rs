use md_tui::jsonl::{inject_buttons, prettify};
use md_tui::style::{Color, Line, Span, Style};
use std::collections::HashSet;

fn pre_row(content: &str) -> Line {
    Line {
        spans: vec![
            Span::styled("  ".to_string(), Style::plain()),
            Span::raw(content.to_string()),
        ],
    }
}

#[test]
fn long_lines_get_collapse_button() {
    let long = "x".repeat(200);
    let mut lines = vec![pre_row("short"), pre_row(&long)];
    let raw: Vec<&str> = vec!["short", &long];
    let map = vec![0usize, 1];
    let expanded: HashSet<usize> = HashSet::new();
    let overlay = inject_buttons(&mut lines, &raw, &map, &expanded, 0, 80, Color::Reset);
    assert_eq!(overlay.buttons.len(), 1);
    assert_eq!(overlay.buttons[0].source_line, 1);
    assert_eq!(lines[0].spans[0].content, "  ");
    assert_eq!(lines[1].spans[0].content, "▶");
}

#[test]
fn expanded_lines_show_guide_on_continuation() {
    let mut lines = vec![pre_row("{"), pre_row("  k: 1"), pre_row("}")];
    let raw: Vec<&str> = vec![r#"{"k":1}"#];
    let map = vec![0usize, 0, 0];
    let mut expanded: HashSet<usize> = HashSet::new();
    expanded.insert(0);
    let overlay = inject_buttons(&mut lines, &raw, &map, &expanded, 0, 80, Color::Reset);
    assert_eq!(overlay.buttons.len(), 3);
    assert_eq!(lines[0].spans[0].content, "▼");
    assert_eq!(lines[1].spans[0].content, "│");
    assert_eq!(lines[2].spans[0].content, "│");
}

#[test]
fn prettify_flat_object() {
    let out = prettify(r#"{"a":1,"b":"two"}"#).unwrap();
    assert_eq!(out, vec!["{", "  \"a\": 1,", "  \"b\": \"two\"", "}"]);
}

#[test]
fn prettify_nested() {
    let out = prettify(r#"{"a":{"b":[1,2]}}"#).unwrap();
    assert_eq!(
        out,
        vec!["{", "  \"a\": {", "    \"b\": [", "      1,", "      2", "    ]", "  }", "}"]
    );
}

#[test]
fn prettify_empty_containers() {
    assert_eq!(prettify("{}"), Some(vec!["{}".to_string()]));
    assert_eq!(prettify("[]"), Some(vec!["[]".to_string()]));
}

#[test]
fn prettify_scalars() {
    assert_eq!(prettify("42"), Some(vec!["42".to_string()]));
    assert_eq!(prettify("true"), Some(vec!["true".to_string()]));
    assert_eq!(prettify("null"), Some(vec!["null".to_string()]));
    assert_eq!(prettify("\"hello\""), Some(vec!["\"hello\"".to_string()]));
}

#[test]
fn prettify_rejects_garbage() {
    assert_eq!(prettify("not json"), None);
    assert_eq!(prettify("{unquoted: 1}"), None);
    assert_eq!(prettify("{\"a\": 1,}"), None);
    assert_eq!(prettify("{\"a\": 1} extra"), None);
    assert_eq!(prettify(""), None);
}

#[test]
fn prettify_preserves_string_escapes() {
    let out = prettify(r#"{"k":"a\"b\\c"}"#).unwrap();
    assert_eq!(out, vec!["{", "  \"k\": \"a\\\"b\\\\c\"", "}"]);
}

#[test]
fn prettifying_again_changes_nothing() {
    for src in [
        r#"{"a":1,"b":[true,null,{"c":"d, e: f"}],"e":{}}"#,
        "[ 1 , -2.5e3 , \"x\\u00e9\" ]",
        " \"only\" ",
    ] {
        let once = prettify(src).unwrap();
        assert_eq!(prettify(&once.join("\n")), Some(once.clone()), "for {:?}", src);
    }
}

#[test]
fn prettify_rejects_broken_strings_lists_and_words() {
    for bad in ["-", "\"open", "[1 2]", "{\"a\" 1}", "tru", "nul", "[1", "{", ","] {
        assert_eq!(prettify(bad), None, "accepted {:?}", bad);
    }
}

#[test]
fn buttons_are_found_by_place() {
    let long = "x".repeat(200);
    let mut lines = vec![pre_row("short"), pre_row(&long)];
    let raw: Vec<&str> = vec!["short", &long];
    let overlay =
        inject_buttons(&mut lines, &raw, &[0usize, 1], &HashSet::new(), 0, 80, Color::Reset);
    let b = overlay.buttons[0];
    assert_eq!(overlay.at(b.line, b.col_start), Some(0));
    assert_eq!(overlay.at(b.line, b.col_end), None);
    assert_eq!(overlay.at(b.line + 1, b.col_start), None);
}

#[test]
fn prettify_takes_numbers_and_escapes_of_the_language_only() {
    for good in [
        "0", "-0", "10", "-1.5", "0.25", "1e9", "1E+9", "12.5e-3", r#""\u00e9""#, r#""\b\/\n""#,
    ] {
        assert_eq!(prettify(good), Some(vec![good.to_string()]), "for {:?}", good);
    }
    for bad in [
        "1-2", "01", "1.", ".5", "+1", "1e", "1e+", "--1", "1.2.3", "[1-2]", "[01]", r#""\q""#,
        r#""\u12g4""#, r#""\u12""#,
    ] {
        assert_eq!(prettify(bad), None, "accepted {:?}", bad);
    }
}

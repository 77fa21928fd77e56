use md_tui::actions::toggle_marker;
use md_tui::links::LinkTarget;
use md_tui::markdown::{render, Rendered};
use md_tui::palette::ColorDepth;
use md_tui::style::Line;
use md_tui::syntax::Highlighter;
use md_tui::theme::Theme;
use unicode_width::UnicodeWidthStr;

fn shown(src: &str, width: u16) -> Rendered {
    render(src, None, width, &Theme::dark(), &Highlighter::new(ColorDepth::TrueColor))
}

fn text(line: &Line) -> String {
    line.spans.iter().map(|sp| sp.content.as_str()).collect()
}

#[test]
fn renders_paragraph_and_link() {
    let r = shown("hello [there](https://example.com) world", 80);
    assert!(!r.lines.is_empty());
    assert_eq!(r.link_map.links.len(), 1);
    let link = &r.link_map.links[0];
    assert_eq!(link.target, LinkTarget::Url("https://example.com".to_string()));
    assert!(link.col_end > link.col_start);
}

#[test]
fn records_heading_anchors() {
    let r = shown("# Hello World\n\nbody", 80);
    assert_eq!(r.link_map.anchors.get("hello-world"), Some(&1));
}

#[test]
fn wraps_long_paragraph() {
    let r = shown("one two three four five six seven eight nine ten", 12);
    assert!(r.lines.len() > 2);
}

#[test]
fn renders_aligned_table() {
    let src = "\
| A | Bee |\n\
| --- | --- |\n\
| 1 | one |\n\
| 22 | two |\n";
    let r = shown(src, 80);
    let mut frame_lines: Vec<String> = Vec::new();
    for line in &r.lines {
        let s = text(line);
        if s.starts_with('│') || s.starts_with('┌') || s.starts_with('├') || s.starts_with('└') {
            frame_lines.push(s);
        }
    }
    assert!(frame_lines.len() >= 6, "expected ≥6 framed lines, got {}", frame_lines.len());
    let widths: Vec<usize> = frame_lines.iter().map(|s| s.as_str().width()).collect();
    assert!(
        widths.windows(2).all(|w| w[0] == w[1]),
        "table frame widths not equal: {:?}\nlines:\n{}",
        widths,
        frame_lines.join("\n"),
    );
}

#[test]
fn link_span_split_across_wrapped_lines() {
    let r = shown("[long link text that spans multiple wrapped output lines](https://x)", 16);
    assert!(r.link_map.links.len() >= 2);
    for l in &r.link_map.links {
        assert_eq!(l.target, LinkTarget::Url("https://x".to_string()));
    }
}

#[test]
fn renders_unchecked_task_marker() {
    let src = "- [ ] task one\n";
    let r = shown(src, 80);
    assert_eq!(r.checkbox_map.items.len(), 1);
    let cb = &r.checkbox_map.items[0];
    assert!(!cb.checked);
    assert_eq!(&src[cb.source_offset..cb.source_offset + 3], "[ ]");
}

#[test]
fn renders_checked_task_marker() {
    let src = "- [x] done\n";
    let r = shown(src, 80);
    assert_eq!(r.checkbox_map.items.len(), 1);
    let cb = &r.checkbox_map.items[0];
    assert!(cb.checked);
    assert_eq!(&src[cb.source_offset..cb.source_offset + 3], "[x]");
}

#[test]
fn checkbox_lookup_by_line_col() {
    let r = shown("- [ ] task\n", 80);
    let cb = r.checkbox_map.items[0];
    assert_eq!(r.checkbox_map.at(cb.line, cb.col_start), Some(0));
    assert_eq!(r.checkbox_map.at(cb.line, cb.col_end - 1), Some(0));
    assert_eq!(r.checkbox_map.at(cb.line, cb.col_end), None);
}

#[test]
fn multiple_checkboxes_indexed_in_order() {
    let src = "- [ ] one\n- [x] two\n- [ ] three\n";
    let r = shown(src, 80);
    assert_eq!(r.checkbox_map.items.len(), 3);
    let states: Vec<bool> = r.checkbox_map.items.iter().map(|c| c.checked).collect();
    assert_eq!(states, vec![false, true, false]);
    for cb in &r.checkbox_map.items {
        assert_eq!(&src[cb.source_offset..cb.source_offset + 1], "[");
    }
}

#[test]
fn task_markers_are_located_behind_tabs_and_in_any_case() {
    for (src, checked) in [
        ("- [ ] a\n", false),
        ("-\t[x] a\n", true),
        ("-\t\t[ ] a\n", false),
        ("-   \t[X] a\n", true),
        ("1.  [ ] ü\n", false),
        ("> - [x] quoted\n", true),
    ] {
        let r = shown(src, 80);
        assert_eq!(r.checkbox_map.items.len(), 1, "no marker in {:?}", src);
        let c = r.checkbox_map.items[0];
        assert_eq!(c.checked, checked);
        let marker = &src[c.source_offset..c.source_offset + 3];
        assert!(marker.starts_with('[') && marker.ends_with(']'), "{:?} in {:?}", marker, src);
    }
}

#[test]
fn a_flipped_marker_leaves_the_rest_alone() {
    let src = "-\t\t[ ] ä\n- [X] b\n";
    let r = shown(src, 80);
    let c = r.checkbox_map.items[0];
    let once = toggle_marker(src, c.source_offset, c.checked).unwrap();
    assert_eq!(once, "-\t\t[x] ä\n- [X] b\n");
    assert_eq!(toggle_marker(&once, c.source_offset, true).as_deref(), Some(src));
    let c = r.checkbox_map.items[1];
    assert_eq!(
        toggle_marker(src, c.source_offset, c.checked).as_deref(),
        Some("-\t\t[ ] ä\n- [ ] b\n")
    );
    assert_eq!(toggle_marker("ab", 0, false), None);
}

#[test]
fn links_and_images_come_from_the_source() {
    let r = render(
        "[a](b.md) ![pic](p.png)\n\n[[Wiki Note]]\n",
        Some("/d"),
        80,
        &Theme::dark(),
        &Highlighter::new(ColorDepth::TrueColor),
    );
    let targets: Vec<LinkTarget> = r.link_map.links.iter().map(|l| l.target.clone()).collect();
    assert!(targets.contains(&LinkTarget::LocalFile("/d/b.md".to_string())), "got {:?}", targets);
    assert!(targets.contains(&LinkTarget::LocalFile("/d/Wiki Note".to_string())), "got {:?}", targets);
    assert_eq!(r.images.len(), 1);
    assert_eq!(r.images[0].source, "/d/p.png");
    assert!(r.images[0].line < r.lines.len());
}

#[test]
fn constructs_are_laid_out_line_by_line() {
    let lines = |src: &str| -> Vec<String> { shown(src, 20).lines.iter().map(text).collect() };
    assert_eq!(lines("one\ntwo\n"), vec!["one two", ""]);
    assert_eq!(lines("a  \nb\n"), vec!["a", "b", ""]);
    assert_eq!(lines("> quoted\n"), vec!["│ quoted", ""]);
    assert_eq!(lines("- a\n- b\n"), vec!["• a", "• b", ""]);
    assert_eq!(lines("3. a\n4. b\n"), vec!["3. a", "4. b", ""]);
    assert_eq!(lines("- a\n\n  - b\n"), vec!["• a", "", "  • b", ""]);
    assert_eq!(lines("---\n"), vec!["─".repeat(20)]);
    assert_eq!(lines("# T\n\nx\n"), vec!["", "T", "", "x", ""]);
    assert_eq!(lines("a `c` b\n"), vec!["a  c  b", ""]);
    assert_eq!(lines("x[^1]\n\n[^1]: note\n")[0], "x[^1]");
}

#[test]
fn long_words_are_cut_and_quotes_repeat_their_bar() {
    let lines = |src: &str, w: u16| -> Vec<String> { shown(src, w).lines.iter().map(text).collect() };
    assert_eq!(lines("abcdefghij\n", 4), vec!["abcd", "efgh", "ij", ""]);
    let quoted: Vec<String> =
        lines("> ab cd ef\n", 6).iter().map(|l| l.trim_end().to_string()).collect();
    assert_eq!(quoted, vec!["│ ab", "│ cd", "│ ef", ""]);
}

#[test]
fn shrunk_tables_are_aligned() {
    let src = "| a | b |\n|---|---|\n| abcdefghij klm | nopqrstuvw xyz |\n";
    let widths: Vec<usize> = shown(src, 20)
        .lines
        .iter()
        .map(text)
        .filter(|l| !l.is_empty())
        .map(|l| l.chars().count())
        .collect();
    assert!(widths.len() >= 5);
    assert!(widths.iter().all(|w| *w == widths[0]), "got {:?}", widths);
    assert!(shown(src, 20).lines.iter().any(|l| text(l).contains('…')));
}

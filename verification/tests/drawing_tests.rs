use md_tui::app::{App, EntryKind, GitLensState, Options, Rect, Selection, View};
use md_tui::browser::{BrowserEntry, BrowserEntryKind};
use md_tui::clipboard::osc52_copy;
use md_tui::diff::{parse_unified_diff, DiffRowKind};
use md_tui::double::shrink;
use md_tui::frame::{place_image, reader_frame};
use md_tui::links::LinkTarget;
use md_tui::markdown::{render, Rendered};
use md_tui::paint::{paint, scroll_thumb, scrollbar, Mark};
use md_tui::palette::ColorDepth;
use md_tui::panels;
use md_tui::raw::{cursor_cell, render_raw_pane};
use md_tui::reader::Reader;
use md_tui::search::SearchResult;
use md_tui::selection::extract_selection_text;
use md_tui::statusline::{compute_middle, describe_target, truncate_mid, Mid};
use md_tui::style::{Color, Line, Modifier, Span, Style};
use md_tui::syntax::Highlighter;
use md_tui::theme::Theme;
use unicode_width::UnicodeWidthStr;

fn highlighter() -> Highlighter {
    Highlighter::new(ColorDepth::TrueColor)
}

fn rendered(src: &str, width: u16) -> Rendered {
    render(src, None, width, &Theme::dark(), &highlighter())
}

fn words(l: &Line) -> String {
    l.spans.iter().map(|s| s.content.as_str()).collect()
}

fn area(width: u16, height: u16) -> Rect {
    Rect { x: 0, y: 0, width, height }
}

fn show(raw: &str, numbers: bool, width: u16, height: u16) -> App {
    let opts = Options { width: 0, line_numbers: numbers, theme: Theme::dark() };
    let view = View::Reader(Reader::from_string(raw.to_string()));
    let mut app = App::new(view, "/r".to_string(), opts);
    app.prepare(
        area(width, height),
        Rect { x: 0, y: height, width, height: 1 },
        &highlighter(),
    );
    app
}

fn many(n: usize) -> String {
    (0..n).map(|i| format!("para {}\n\n", i)).collect()
}

#[test]
fn wrapped_text_fits_and_keeps_its_words() {
    let src = "the quick brown fox jumps over the lazy dog near the riverbank";
    let r = rendered(src, 14);
    let mut seen: Vec<String> = Vec::new();
    for l in &r.lines {
        let t = words(l);
        assert!(t.width() <= 14, "{:?} is too wide", t);
        seen.extend(t.split_whitespace().map(|w| w.to_string()));
    }
    let want: Vec<String> = src.split_whitespace().map(|w| w.to_string()).collect();
    assert_eq!(seen, want);
}

#[test]
fn wide_characters_count_two_columns() {
    let r = rendered("[日本](https://x.y)", 40);
    let l = &r.link_map.links[0];
    assert_eq!(l.col_end - l.col_start, 4);
    assert_eq!(l.target, LinkTarget::Url("https://x.y".to_string()));
}

#[test]
fn narrow_tables_stay_within_the_width() {
    let src = "\
| Name | Description |\n\
| --- | --- |\n\
| first | a rather long description that does not fit |\n";
    let r = rendered(src, 30);
    assert!(!r.lines.is_empty());
    for l in &r.lines {
        assert!(words(l).width() <= 30, "{:?} is too wide", words(l));
    }
    assert!(r.lines.iter().any(|l| words(l).contains('…')));
}

#[test]
fn layout_places_links_anchors_and_blocks_on_lines() {
    let r = rendered("# Top\n\nsee [a](b.md) and\n\n- [ ] t\n\n## Next\n", 40);
    for l in &r.link_map.links {
        assert!(l.line < r.lines.len());
        assert!(l.col_start < l.col_end);
        assert!(l.col_end <= words(&r.lines[l.line]).width());
    }
    for c in &r.checkbox_map.items {
        assert_eq!(c.col_end - c.col_start, 3);
        assert!(c.line < r.lines.len());
    }
    for w in r.blocks.windows(2) {
        assert!(w[0].display_end <= w[1].display_start);
    }
    let (top, next) =
        (r.link_map.anchors.get("top").unwrap(), r.link_map.anchors.get("next").unwrap());
    assert!(top < next && *next < r.lines.len());
}

#[test]
fn code_is_highlighted_without_losing_text() {
    let code = "fn main() {\n    let x = 1;\n}\n";
    let lines = highlighter().highlight(code, Some("rust"), "base16-ocean.dark");
    let text: Vec<String> = lines
        .iter()
        .map(|l| l.spans.iter().map(|s| s.content.as_str()).collect::<String>())
        .collect();
    assert_eq!(text, vec!["fn main() {", "    let x = 1;", "}"]);
    let keyword = &lines[0].spans[0];
    assert_eq!(keyword.content, "fn");
    let colors: Vec<Option<Color>> = lines[0].spans.iter().map(|s| s.style.fg).collect();
    assert!(colors.iter().any(|c| *c != keyword.style.fg), "one color only: {:?}", colors);
    let indexed = Highlighter::new(ColorDepth::Indexed256);
    let lines = indexed.highlight(code, Some("rust"), "base16-ocean.dark");
    assert!(matches!(lines[0].spans[0].style.fg, Some(Color::Indexed(_))));
}

#[test]
fn an_unknown_language_is_plain_and_an_unknown_theme_is_replaced() {
    let lines = highlighter().highlight("just words", Some("no-such-language"), "no-such-theme");
    assert_eq!(lines.len(), 1);
    assert_eq!(lines[0].spans.iter().map(|s| s.content.as_str()).collect::<String>(), "just words");
}

#[test]
fn thumbs_are_proportional_and_reach_both_ends() {
    assert_eq!(scroll_thumb(0, 5, 10, 10), (0, 10));
    assert_eq!(scroll_thumb(0, 0, 0, 10), (0, 10));
    assert_eq!(scroll_thumb(0, 100, 10, 10), (0, 1));
    assert_eq!(scroll_thumb(45, 100, 10, 10), (5, 1));
    assert_eq!(scroll_thumb(90, 100, 10, 10), (9, 1));
    assert_eq!(scroll_thumb(10, 20, 10, 10), (5, 5));
    // A scroll past the end does not leave the track.
    assert_eq!(scroll_thumb(500, 20, 10, 10), (5, 5));
}

#[test]
fn the_scrollbar_draws_thumb_and_track() {
    let bar = scrollbar(10, 20, 10, 4, &Theme::dark());
    let text: Vec<String> = bar.iter().map(words).collect();
    assert_eq!(text, vec!["│", "│", "█", "█"]);
}

#[test]
fn painting_marks_whole_spans_inside_the_range() {
    let theme = Theme::dark();
    let mut l = Line {
        spans: vec![
            Span::raw("ab".to_string()),
            Span::raw("cd".to_string()),
            Span::raw("ef".to_string()),
        ],
    };
    paint(&mut l, 2, 5, Mark::Link, &theme);
    assert_eq!(l.spans[0].style, Style::plain());
    assert_eq!(
        l.spans[1].style,
        Style::plain().fg(theme.link_focused).add_modifier(Modifier::reversed())
    );
    assert_eq!(l.spans[2].style, Style::plain());
    assert_eq!(words(&l), "abcdef");
}

#[test]
fn matches_have_the_background_of_code_but_for_the_current_one() {
    let theme = Theme::dark();
    let mut l = Line { spans: vec![Span::raw("ab".to_string()), Span::raw("cd".to_string())] };
    paint(&mut l, 0, 2, Mark::Match, &theme);
    paint(&mut l, 2, 4, Mark::CurrentMatch, &theme);
    assert_eq!(l.spans[0].style, Style::plain().bg_opt(theme.code_bg));
    assert_eq!(
        l.spans[1].style,
        Style::plain()
            .fg(theme.link_focused)
            .add_modifier(Modifier::reversed())
            .add_modifier(Modifier::bold())
    );
}

#[test]
fn a_frame_shows_numbers_body_and_bar() {
    let mut app = show(&many(30), true, 40, 5);
    let total = match &app.view {
        View::Reader(r) => r.rendered.as_ref().unwrap().lines.len(),
        View::Browser(_) => panic!("expected a document"),
    };
    app.scroll_to(3);
    let f = reader_frame(&app, area(40, 5)).unwrap();
    let digits = total.to_string().len() as u16;
    assert_eq!(f.number_area.width, digits + 1);
    assert_eq!(f.body_area.x, digits + 1);
    assert_eq!(f.body_area.width, 40 - (digits + 1) - 1);
    assert_eq!(f.bar_area.x, 39);
    assert_eq!((f.lines.len(), f.numbers.len(), f.bar.len()), (5, 5, 5));
    assert_eq!(words(&f.numbers[0]), " 4 ");
    assert!(f.cursor.is_none());
}

#[test]
fn an_edit_has_a_cursor_cell() {
    let mut app = show("x", false, 40, 5);
    let reader = Reader::from_file("/r/a.md".to_string(), "abc".to_string(), None);
    app.view = View::Reader(reader);
    app.enter_edit();
    app.edit_move_horizontal(1);
    app.edit_move_horizontal(1);
    app.prepare(area(40, 5), area(40, 1), &highlighter());
    let f = reader_frame(&app, area(40, 5)).unwrap();
    assert_eq!(f.cursor.map(|c| c.0), Some(2));
}

#[test]
fn images_are_clipped_to_the_body() {
    let body = Rect { x: 1, y: 2, width: 80, height: 10 };
    assert_eq!(place_image(2, 3, body), None);
    assert_eq!(place_image(13, 3, body), None);
    assert_eq!(
        place_image(5, 3, body),
        Some(Rect { x: 1, y: 4, width: 79, height: 8 })
    );
    let tall = Rect { x: 0, y: 0, width: 80, height: 30 };
    assert_eq!(place_image(0, 0, tall).map(|r| r.height), Some(12));
}

#[test]
fn the_status_line_fills_its_row() {
    let app = show("x", false, 100, 10);
    let t = words(&app.status_line(100, None));
    assert_eq!(t.width(), 100);
    assert!(t.starts_with(" <stdin>  j/k  d/u"), "got {:?}", t);
    assert!(t.ends_with(" All "), "got {:?}", t);
}

#[test]
fn the_status_line_tells_the_position() {
    let mut app = show(&many(30), false, 100, 10);
    app.scroll_to(u16::MAX);
    assert!(words(&app.status_line(100, None)).ends_with(" 100% "));
    app.scroll_to(0);
    assert!(words(&app.status_line(100, None)).ends_with(" 0% "));
    let _ = app.navigate_to(EntryKind::Stdin("y".to_string()), 0);
    assert!(words(&app.status_line(100, None)).starts_with(" ‹ Back  <stdin>"));
}

#[test]
fn the_middle_of_the_status_line_has_priorities() {
    let mut app = show("x", false, 80, 10);
    assert!(matches!(compute_middle(&app), Mid::Hint(_)));
    app.status = "Mouse on".to_string();
    assert!(matches!(compute_middle(&app), Mid::Status(t) if t == "Mouse on"));
    app.open_doc_search();
    app.status = "Mouse on".to_string();
    assert!(matches!(compute_middle(&app), Mid::Search(t) if t == "/_"));
    app.close_doc_search();

    let mut app = show("[a](https://a.b)", false, 80, 10);
    app.status = "Mouse on".to_string();
    if let View::Reader(r) = &mut app.view {
        r.hover_link = Some(0);
    }
    assert!(matches!(compute_middle(&app), Mid::Url { text, .. } if text == "https://a.b"));
    app.view = View::Reader(Reader::from_file("/r/a.md".to_string(), "abc".to_string(), None));
    app.enter_edit();
    assert!(matches!(compute_middle(&app), Mid::Hint(t) if t.starts_with("type to edit")));
    app.status = "Saved".to_string();
    assert!(matches!(compute_middle(&app), Mid::Status(t) if t == "Saved"));
    if let View::Reader(r) = &mut app.view {
        r.edit.as_mut().unwrap().discard_pending = true;
    }
    assert!(matches!(compute_middle(&app), Mid::Status(t) if t.starts_with("Press Esc again")));
}

#[test]
fn a_split_edit_has_a_cursor_cell_in_view_only() {
    let rows = render_raw_pane("ab\ncdef\n", 3);
    let pane = Rect { x: 5, y: 2, width: 3, height: 2 };
    assert_eq!(cursor_cell(&rows, 0, 0, pane), Some((5, 2)));
    assert_eq!(cursor_cell(&rows, 4, 0, pane), Some((6, 3)));
    assert_eq!(cursor_cell(&rows, 4, 1, pane), Some((6, 2)));
    assert_eq!(cursor_cell(&rows, 0, 1, pane), None);
    assert_eq!(cursor_cell(&rows, 6, 0, pane), None);
    assert_eq!(cursor_cell(&[], 0, 0, pane), None);
}

#[test]
fn cut_text_ends_in_an_ellipsis() {
    assert_eq!(truncate_mid("short", 10), "short");
    assert_eq!(truncate_mid("exactly10!", 10), "exactly10!");
    assert_eq!(truncate_mid("a longer text", 8), "a longe…");
    assert_eq!(truncate_mid("日本語", 5), "日本…");
    assert_eq!(truncate_mid("abc", 0), "");
}

#[test]
fn targets_are_described() {
    let s = |t: &str| t.to_string();
    assert_eq!(describe_target(&LinkTarget::Url(s("https://a"))), "https://a");
    assert_eq!(describe_target(&LinkTarget::LocalFile(s("/a.md"))), "/a.md");
    assert_eq!(describe_target(&LinkTarget::Anchor(s("top"))), "#top");
    assert_eq!(describe_target(&LinkTarget::FileAnchor(s("/a.md"), s("top"))), "/a.md#top");
}

#[test]
fn entries_and_results_have_their_looks() {
    let theme = Theme::dark();
    let e = |kind| BrowserEntry { path: "/p".to_string(), display: "n".to_string(), kind };
    assert_eq!(words(&panels::entry_line(&e(BrowserEntryKind::Dir), true, &theme)), "n [unread]");
    assert_eq!(words(&panels::entry_line(&e(BrowserEntryKind::ParentDir), true, &theme)), "n");
    assert_eq!(words(&panels::entry_line(&e(BrowserEntryKind::Markdown), false, &theme)), "n");
    let r = |path: &str, is_dir| SearchResult {
        path: path.to_string(),
        display: "d".to_string(),
        score: 0,
        is_dir,
    };
    assert_eq!(panels::result_line(&r("/x", true), &theme).content, "d/");
    assert_eq!(panels::result_line(&r("/x.md", false), &theme).style, Style::plain());
    assert_eq!(
        panels::result_line(&r("/x.png", false), &theme).style,
        Style::plain().fg(theme.muted)
    );
    assert_eq!(panels::browser_title("/d"), " /d ");
    assert_eq!(panels::search_title(3), " Search [3] ");
    assert_eq!(words(&panels::search_prompt("q", "/h/r", Some("/h"), &theme)), "▸ q█   ~/r");
}

#[test]
fn boxes_are_centered() {
    assert_eq!(
        panels::search_popup(area(120, 40)),
        Rect { x: 10, y: 2, width: 100, height: 36 }
    );
    assert_eq!(panels::search_popup(area(60, 10)), Rect { x: 4, y: 1, width: 52, height: 8 });
    assert_eq!(panels::help_popup(area(80, 40)), Rect { x: 10, y: 5, width: 60, height: 30 });
    assert_eq!(panels::help_popup(area(20, 10)), Rect { x: 2, y: 2, width: 16, height: 6 });
    assert_eq!(panels::help_lines().len(), 29);
}

#[test]
fn diff_rows_are_colored_and_clipped() {
    let theme = Theme::dark();
    let rows = parse_unified_diff("diff --git a b\n@@ x\n+new\n-old\n same\n");
    let g = GitLensState { rows, scroll: 1 };
    let lines = panels::lens_lines(&g, 3, &theme);
    let text: Vec<String> = lines.iter().map(words).collect();
    assert_eq!(text, vec!["@@ x", "+new", "-old"]);
    assert_eq!(lines[1].spans[0].style, Style::plain().bg(Color::Green));
    assert_eq!(lines[2].spans[0].style, Style::plain().bg(Color::Red));
    assert_eq!(
        panels::diff_row_style(DiffRowKind::Header, &theme),
        Style::plain().fg(theme.muted).add_modifier(Modifier::dim())
    );
    assert_eq!(panels::lens_lines(&g, 10, &theme).len(), 4);
}

#[test]
fn copies_are_base64_escape_sequences() {
    assert_eq!(osc52_copy("hello", false), "\x1b]52;c;aGVsbG8=\x1b\\");
    assert_eq!(osc52_copy("", false), "\x1b]52;c;\x1b\\");
    assert_eq!(osc52_copy("✓!", true), "\x1bPtmux;\x1b\x1b]52;c;4pyTIQ==\x07\x1b\\");
}

fn selection(a: (usize, u16), b: (usize, u16)) -> Selection {
    Selection {
        anchor_line: a.0,
        anchor_col: a.1,
        focus_line: b.0,
        focus_col: b.1,
        dragged: true,
    }
}

#[test]
fn a_drag_copies_the_same_text_in_both_directions() {
    let r = rendered("alpha beta\n\ngamma delta\n", 40);
    let first = r.lines.iter().position(|l| words(l).contains("alpha")).unwrap();
    let last = r.lines.iter().position(|l| words(l).contains("gamma")).unwrap();
    let there = extract_selection_text(&r, &selection((first, 6), (last, 4)));
    let back = extract_selection_text(&r, &selection((last, 4), (first, 6)));
    assert_eq!(there, back);
    assert!(there.starts_with("beta"), "got {:?}", there);
    assert!(there.contains("\n"), "got {:?}", there);
    assert_eq!(selection((2, 5), (1, 9)).normalized(), ((1, 9), (2, 5)));
    assert!(!selection((2, 5), (2, 5)).is_active());
}

#[test]
fn shrinking_rounds_like_doubles() {
    let want = |w: usize, a: usize, b: usize| ((w as f64) * (a as f64 / b as f64)).floor() as usize;
    for b in 2..=60usize {
        for a in 1..b {
            for w in 0..=80usize {
                assert_eq!(shrink(w, a, b), Some(want(w, a, b)), "{} * {} / {}", w, a, b);
            }
        }
    }
    // A quotient that is not exact falls just short of the whole number.
    assert_eq!(shrink(49, 1, 49), Some(0));
    for (w, a, b) in [
        (1_000_003, 999_983, 1_000_003),
        (usize::MAX >> 12, 3, 7),
        (9_007_199_254_740_993, 5, 11),
        (usize::MAX >> 1, usize::MAX >> 3, usize::MAX >> 1),
    ] {
        assert_eq!(shrink(w, a, b), Some(want(w, a, b)));
    }
}

#[test]
fn rows_of_an_edit_show_the_source() {
    let raw = "# Öne\n\nä long paragraph that is wrapped over several rows\n\nlast\n";
    let mut app = show("x", false, 20, 10);
    app.view = View::Reader(Reader::from_file("/r/a.md".to_string(), raw.to_string(), None));
    app.enter_edit();
    if let View::Reader(r) = &mut app.view {
        r.edit.as_mut().unwrap().cursor = raw.find("paragraph").unwrap();
    }
    app.prepare(area(20, 10), area(20, 1), &highlighter());
    let View::Reader(r) = &app.view else { panic!("expected a document") };
    let rd = r.rendered.as_ref().unwrap();
    let mut seen = 0;
    for (i, row) in rd.row_source.iter().enumerate() {
        if let Some((from, to)) = row {
            assert_eq!(words(&rd.lines[i]), &raw[*from..*to]);
            seen += 1;
        }
    }
    assert!(seen > 2, "only {} rows", seen);
}

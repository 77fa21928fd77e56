use md_tui::app::{App, Effect, EntryKind, Options, Rect, Selection, View, WriteCause};
use md_tui::browser::{Browser, DirItem};
use md_tui::keys::{KeyCode, KeyInput};
use md_tui::palette::ColorDepth;
use md_tui::pointer::{Button, MouseInput, MouseKind};
use md_tui::reader::{EditMode, FileMeta, Focus, Reader};
use md_tui::scroll::compute_dampened_scroll;
use md_tui::search::IndexedPath;
use md_tui::syntax::Highlighter;
use md_tui::theme::Theme;

fn plain(code: KeyCode) -> KeyInput {
    KeyInput { code, ctrl: false, alt: false }
}

fn ctrl(c: char) -> KeyInput {
    KeyInput { code: KeyCode::Char(c), ctrl: true, alt: false }
}

fn press(app: &mut App, keys: &str) -> Effect {
    let mut last = Effect::Nothing;
    for c in keys.chars() {
        last = app.handle_key(plain(KeyCode::Char(c)), 1_000);
    }
    last
}

fn mouse(app: &mut App, kind: MouseKind, column: u16, row: u16, now: u64) -> Effect {
    app.handle_mouse(MouseInput { kind, column, row }, now)
}

fn open(raw: &str, height: u16) -> App {
    let meta = FileMeta { secs: 1, nanos: 0, size: raw.len() as u64 };
    let reader = Reader::from_file("/d/doc.md".to_string(), raw.to_string(), Some(meta));
    let opts = Options { width: 0, line_numbers: false, theme: Theme::dark() };
    let mut app = App::new(View::Reader(reader), "/d".to_string(), opts);
    prepare(&mut app, height);
    app
}

fn prepare(app: &mut App, height: u16) {
    app.prepare(
        Rect { x: 0, y: 0, width: 80, height },
        Rect { x: 0, y: height, width: 80, height: 1 },
        &Highlighter::new(ColorDepth::TrueColor),
    );
}

fn long_doc() -> String {
    (0..40).map(|i| format!("paragraph {}\n\n", i)).collect()
}

fn list() -> App {
    let items: Vec<DirItem> = ["a.md", "b.md", "c.md"]
        .iter()
        .map(|n| DirItem {
            name: n.to_string(),
            path: format!("/d/{}", n),
            is_dir: false,
            is_file: true,
        })
        .collect();
    let opts = Options { width: 0, line_numbers: false, theme: Theme::dark() };
    let mut app = App::new(View::Browser(Browser::scan("/d", &items)), "/d".to_string(), opts);
    prepare(&mut app, 10);
    app
}

fn reader(app: &App) -> &Reader {
    match &app.view {
        View::Reader(r) => r,
        View::Browser(_) => panic!("expected a document"),
    }
}

fn selected(app: &App) -> usize {
    match &app.view {
        View::Browser(b) => b.selected,
        View::Reader(_) => panic!("expected a list"),
    }
}

fn scroll(app: &App) -> usize {
    reader(app).scroll as usize
}

fn total(app: &App) -> usize {
    reader(app).rendered.as_ref().unwrap().lines.len()
}

#[test]
fn motions_scroll_and_take_counts() {
    let mut app = open(&long_doc(), 10);
    let last = total(&app) - 10;
    assert!(last > 20);
    press(&mut app, "j");
    assert_eq!(scroll(&app), 1);
    press(&mut app, "5j");
    assert_eq!(scroll(&app), 6);
    press(&mut app, "2k");
    assert_eq!(scroll(&app), 4);
    press(&mut app, "d");
    assert_eq!(scroll(&app), 9);
    app.handle_key(ctrl('u'), 1_000);
    assert_eq!(scroll(&app), 4);
    app.handle_key(ctrl('f'), 1_000);
    assert_eq!(scroll(&app), 13);
    app.handle_key(plain(KeyCode::PageUp), 1_000);
    assert_eq!(scroll(&app), 4);
    press(&mut app, "G");
    assert_eq!(scroll(&app), last);
    press(&mut app, "gg");
    assert_eq!(scroll(&app), 0);
    press(&mut app, "10G");
    assert_eq!(scroll(&app), 9);
    press(&mut app, "1G");
    assert_eq!(scroll(&app), 0);
    press(&mut app, "k");
    assert_eq!(scroll(&app), 0);
    press(&mut app, "99999j");
    assert_eq!(scroll(&app), last);
}

#[test]
fn the_second_key_of_a_chord_has_to_come_in_time() {
    let mut app = open(&long_doc(), 10);
    press(&mut app, "7j");
    app.handle_key(plain(KeyCode::Char('g')), 1_000);
    app.handle_key(plain(KeyCode::Char('g')), 1_701);
    assert_eq!(scroll(&app), 7);
    app.handle_key(plain(KeyCode::Char('g')), 2_401);
    assert_eq!(scroll(&app), 0);
}

#[test]
fn counts_are_capped_and_escape_drops_them() {
    let mut app = open(&long_doc(), 10);
    press(&mut app, "0");
    assert_eq!(app.count_prefix, None);
    press(&mut app, "1234567");
    assert_eq!(app.count_prefix, Some(99_999));
    app.handle_key(plain(KeyCode::Esc), 1_000);
    assert_eq!(app.count_prefix, None);
    assert!(!app.should_quit);
    app.handle_key(plain(KeyCode::Esc), 1_000);
    assert!(app.should_quit);
}

#[test]
fn ctrl_c_quits_through_every_overlay() {
    let mut app = open("x", 10);
    app.help_open = true;
    app.handle_key(ctrl('c'), 0);
    assert!(app.should_quit);
    let mut app = open("x", 10);
    app.enter_edit();
    app.handle_key(ctrl('c'), 0);
    assert!(app.should_quit);
}

#[test]
fn help_swallows_keys_until_dismissed() {
    let mut app = open(&long_doc(), 10);
    press(&mut app, "?");
    assert!(app.help_open);
    press(&mut app, "jG");
    assert_eq!(scroll(&app), 0);
    press(&mut app, "q");
    assert!(!app.help_open);
    assert!(!app.should_quit);
}

#[test]
fn tab_walks_links_and_enter_follows() {
    let mut app = open("[a](https://a.b)\n\n- [ ] t\n", 10);
    app.handle_key(plain(KeyCode::Tab), 0);
    assert_eq!(reader(&app).focus, Some(Focus::Link(0)));
    match app.handle_key(plain(KeyCode::Enter), 0) {
        Effect::OpenUrl(u) => assert_eq!(u, "https://a.b"),
        e => panic!("unexpected {:?}", e),
    }
    assert_eq!(app.status, "Opened https://a.b");
    app.handle_key(plain(KeyCode::Tab), 0);
    assert_eq!(reader(&app).focus, Some(Focus::Checkbox(0)));
    match app.handle_key(plain(KeyCode::Enter), 0) {
        Effect::WriteFile { path, text, cause } => {
            assert_eq!(path, "/d/doc.md");
            assert_eq!(text, "[a](https://a.b)\n\n- [x] t\n");
            app.written(cause, true, None);
        }
        e => panic!("unexpected {:?}", e),
    }
    prepare(&mut app, 10);
    app.handle_key(plain(KeyCode::BackTab), 0);
    assert_eq!(reader(&app).focus, Some(Focus::Link(0)));
}

#[test]
fn local_links_ask_for_their_file() {
    let mut app = open("[a](b.md)", 10);
    app.handle_key(plain(KeyCode::Tab), 0);
    let path = match app.handle_key(plain(KeyCode::Enter), 0) {
        Effect::FindFile { path, anchor: None } => path,
        e => panic!("unexpected {:?}", e),
    };
    assert_eq!(path, "/d/b.md");
    assert!(matches!(app.found(&path, None, None), Effect::Nothing));
    assert_eq!(app.status, "Not found: /d/b.md");
    match app.found(&path, None, Some(("/d/b.md".to_string(), false))) {
        Effect::Load { kind: EntryKind::File(p), scroll, .. } => {
            assert_eq!((p.as_str(), scroll), ("/d/b.md", 0));
        }
        e => panic!("unexpected {:?}", e),
    }
    assert_eq!(app.history.len(), 1);
    match app.found(&path, None, Some(("/d/pic.png".to_string(), false))) {
        Effect::OpenPath(p) => assert_eq!(p, "/d/pic.png"),
        e => panic!("unexpected {:?}", e),
    }
    assert!(matches!(
        app.found(&path, None, Some(("/d/sub".to_string(), true))),
        Effect::Load { kind: EntryKind::Directory(_), .. }
    ));
}

#[test]
fn anchors_scroll_or_say_that_they_are_missing() {
    let text = format!("{}\n# Far Down\n\n[up](#far-down) [no](#nowhere)\n", long_doc());
    let mut app = open(&text, 10);
    app.handle_key(plain(KeyCode::Tab), 0);
    assert!(matches!(app.handle_key(plain(KeyCode::Enter), 0), Effect::Nothing));
    let line = *reader(&app).rendered.as_ref().unwrap().link_map.anchors.get("far-down").unwrap();
    assert_eq!(scroll(&app), line);
    assert_eq!(app.status, "→ #far-down");
    app.handle_key(plain(KeyCode::Tab), 0);
    app.handle_key(plain(KeyCode::Enter), 0);
    assert_eq!(app.status, "Anchor not found: #nowhere");
}

#[test]
fn document_search_finds_steps_and_closes() {
    let mut app = open("one two\n\ntwo three\n", 10);
    press(&mut app, "/TWO");
    let s = reader(&app).doc_search.as_ref().unwrap();
    assert!(s.editing);
    assert_eq!(s.matches.len(), 2);
    app.handle_key(plain(KeyCode::Enter), 0);
    assert!(!reader(&app).doc_search.as_ref().unwrap().editing);
    let before = reader(&app).doc_search.as_ref().unwrap().current;
    press(&mut app, "n");
    assert_eq!(reader(&app).doc_search.as_ref().unwrap().current, 1 - before);
    press(&mut app, "n");
    assert_eq!(reader(&app).doc_search.as_ref().unwrap().current, before);
    press(&mut app, "N");
    assert_eq!(reader(&app).doc_search.as_ref().unwrap().current, 1 - before);
    app.handle_key(plain(KeyCode::Esc), 0);
    assert!(reader(&app).doc_search.is_none());
    assert!(!app.should_quit);
}

#[test]
fn typing_edits_and_keys_undo() {
    let mut app = open("abc\n", 10);
    press(&mut app, "e");
    press(&mut app, "xy");
    assert_eq!(reader(&app).raw, "xyabc\n");
    app.handle_key(plain(KeyCode::Backspace), 0);
    assert_eq!(reader(&app).raw, "xabc\n");
    app.handle_key(ctrl('z'), 0);
    assert_eq!(reader(&app).raw, "xyabc\n");
    app.handle_key(ctrl('y'), 0);
    assert_eq!(reader(&app).raw, "xabc\n");
    app.handle_key(plain(KeyCode::End), 0);
    app.handle_key(plain(KeyCode::Enter), 0);
    assert_eq!(reader(&app).raw, "xabc\n\n");
    app.handle_key(plain(KeyCode::Tab), 0);
    assert_eq!(reader(&app).raw, "xabc\n  \n");
    match app.handle_key(ctrl('s'), 0) {
        Effect::WriteFile { path, text, cause } => {
            assert_eq!((path.as_str(), text.as_str()), ("/d/doc.md", "xabc\n  \n"));
            app.written(cause, true, None);
        }
        e => panic!("unexpected {:?}", e),
    }
    assert!(!reader(&app).edit.as_ref().unwrap().dirty);
    assert_eq!(app.status, "Saved /d/doc.md");
}

#[test]
fn a_save_settles_when_the_write_is_done() {
    let meta = FileMeta { secs: 9, nanos: 0, size: 5 };
    let mut app = open("abc\n", 10);
    press(&mut app, "ex");
    app.handle_key(plain(KeyCode::Esc), 0);
    app.status = "before".to_string();
    let cause = match app.save_edit() {
        Effect::WriteFile { text, cause, .. } => {
            assert_eq!(text, "xabc\n");
            cause
        }
        e => panic!("unexpected {:?}", e),
    };
    assert_eq!(cause, WriteCause::Save);
    let known = reader(&app).last_meta;
    app.written(cause, false, Some(meta));
    let e = reader(&app).edit.as_ref().unwrap();
    assert!(e.dirty && e.discard_pending);
    assert_eq!(e.cursor, 1);
    assert_eq!(reader(&app).last_meta, known);
    assert_eq!(reader(&app).raw, "xabc\n");
    assert_eq!(app.status, "before");
    app.written(cause, true, Some(meta));
    let e = reader(&app).edit.as_ref().unwrap();
    assert!(!e.dirty && !e.discard_pending);
    assert_eq!(e.cursor, 1);
    assert_eq!(reader(&app).last_meta, Some(meta));
    assert_eq!(app.status, "Saved /d/doc.md");
}

#[test]
fn a_flipped_marker_settles_when_the_write_is_done() {
    let mut app = open("- [ ] a\n- [x] b\n", 10);
    let cause = match app.toggle_checkbox(0) {
        Effect::WriteFile { text, cause, .. } => {
            assert_eq!(text, "- [x] a\n- [x] b\n");
            cause
        }
        e => panic!("unexpected {:?}", e),
    };
    assert_eq!(cause, WriteCause::Toggle { was_checked: false });
    assert_eq!(reader(&app).raw, "- [x] a\n- [x] b\n");
    assert!(reader(&app).rendered.is_some());
    assert_eq!(app.status, "");
    app.written(cause, false, None);
    assert!(reader(&app).rendered.is_some());
    assert_eq!(app.status, "");
    app.written(cause, true, None);
    assert!(reader(&app).rendered.is_none());
    assert_eq!(app.status, "Checked");
    prepare(&mut app, 10);
    match app.toggle_checkbox(1) {
        Effect::WriteFile { cause, .. } => app.written(cause, true, None),
        e => panic!("unexpected {:?}", e),
    }
    assert_eq!(app.status, "Unchecked");
    assert_eq!(reader(&app).raw, "- [x] a\n- [ ] b\n");
}

#[test]
fn tasks_from_standard_input_are_left_alone() {
    let mut app = open("x", 10);
    app.view = View::Reader(Reader::from_string("- [ ] a\n".to_string()));
    prepare(&mut app, 10);
    assert!(matches!(app.toggle_checkbox(0), Effect::Nothing));
    assert_eq!(reader(&app).raw, "- [ ] a\n");
    assert!(reader(&app).rendered.is_some());
    assert_eq!(app.status, "");
}

#[test]
fn a_file_link_ends_at_its_anchor() {
    let text = format!("{}\n# Far Down\n\nend\n", long_doc());
    let mut app = open("[a](b.md#far-down)", 10);
    app.handle_key(plain(KeyCode::Tab), 0);
    let (path, anchor) = match app.handle_key(plain(KeyCode::Enter), 0) {
        Effect::FindFile { path, anchor } => (path, anchor),
        e => panic!("unexpected {:?}", e),
    };
    assert_eq!(anchor.as_deref(), Some("far-down"));
    assert!(matches!(
        app.found(&path, anchor, Some(("/d/b.md".to_string(), false))),
        Effect::Load { scroll: 0, .. }
    ));
    app.show_file("/d/b.md".to_string(), text, None, 0);
    prepare(&mut app, 10);
    let line = *reader(&app).rendered.as_ref().unwrap().link_map.anchors.get("far-down").unwrap();
    assert!(line > 10);
    assert_eq!(scroll(&app), line);
    assert_eq!(app.status, "→ #far-down");
    assert!(app.pending_anchor.is_none());
}

#[test]
fn a_selection_ends_with_its_view() {
    let picked = Selection {
        anchor_line: 0,
        anchor_col: 0,
        focus_line: 0,
        focus_col: 3,
        dragged: true,
    };
    let mut app = open("abc", 10);
    app.selection = Some(picked);
    let _ = app.navigate_to(EntryKind::Stdin("one".to_string()), 0);
    assert!(app.selection.is_none());
    app.selection = Some(picked);
    let _ = app.go_back();
    assert!(app.selection.is_none());
    app.selection = Some(picked);
    let _ = app.go_forward();
    assert!(app.selection.is_none());
    app.selection = Some(picked);
    app.show_file("/d/c.md".to_string(), "# c".to_string(), None, 0);
    assert!(app.selection.is_none());
    app.selection = Some(picked);
    app.show_dir("/d", &[], 0, None);
    assert!(app.selection.is_none());
}

#[test]
fn the_body_ends_at_its_right_edge() {
    let mut app = open("x", 10);
    app.viewport = Rect { x: 0, y: 0, width: 10, height: 5 };
    assert_eq!(app.body_pos(9, 0), Some((0, 9)));
    assert_eq!(app.body_pos(10, 0), None);
    assert_eq!(app.body_pos(0, 5), None);
}

#[test]
fn two_escapes_discard_an_edit_and_another_key_does_not() {
    let mut app = open("abc\n", 10);
    press(&mut app, "ex");
    app.handle_key(plain(KeyCode::Esc), 0);
    assert!(reader(&app).edit.as_ref().unwrap().discard_pending);
    press(&mut app, "y");
    assert!(!reader(&app).edit.as_ref().unwrap().discard_pending);
    app.handle_key(plain(KeyCode::Esc), 0);
    match app.handle_key(plain(KeyCode::Esc), 0) {
        Effect::ReadBack { path } => assert_eq!(path, "/d/doc.md"),
        e => panic!("unexpected {:?}", e),
    }
    assert!(reader(&app).edit.is_none());
    app.restore("abc\n".to_string(), None);
    assert_eq!(reader(&app).raw, "abc\n");
}

#[test]
fn the_edit_cursor_moves_by_characters_lines_and_words() {
    let mut app = open("äb cd\nef\n", 10);
    app.enter_edit();
    let cursor = |a: &App| reader(a).edit.as_ref().unwrap().cursor;
    app.handle_key(plain(KeyCode::Right), 0);
    assert_eq!(cursor(&app), 2);
    app.handle_key(plain(KeyCode::Left), 0);
    assert_eq!(cursor(&app), 0);
    app.handle_key(plain(KeyCode::End), 0);
    assert_eq!(cursor(&app), 6);
    app.handle_key(plain(KeyCode::Down), 0);
    assert_eq!(cursor(&app), 9);
    app.handle_key(plain(KeyCode::Home), 0);
    assert_eq!(cursor(&app), 7);
    app.handle_key(plain(KeyCode::Up), 0);
    assert_eq!(cursor(&app), 0);
    app.handle_key(plain(KeyCode::Delete), 0);
    assert_eq!(reader(&app).raw, "b cd\nef\n");
    app.handle_key(KeyInput { code: KeyCode::Delete, ctrl: false, alt: true }, 0);
    assert!(reader(&app).raw.len() < "b cd\nef\n".len());
}

#[test]
fn standard_input_cannot_be_edited_or_diffed() {
    let opts = Options { width: 0, line_numbers: false, theme: Theme::dark() };
    let reader_view = View::Reader(Reader::from_string("x".to_string()));
    let mut app = App::new(reader_view, "/d".to_string(), opts);
    press(&mut app, "e");
    assert_eq!(app.status, "Cannot edit: source is stdin");
    assert!(reader(&app).edit.is_none());
    app.handle_key(ctrl('g'), 0);
    assert_eq!(app.status, "Git lens unavailable for stdin");
}

#[test]
fn the_diff_opens_scrolls_and_closes() {
    let mut app = open("x", 2);
    match app.handle_key(ctrl('g'), 0) {
        Effect::GitDiff { path } => assert_eq!(path, "/d/doc.md"),
        e => panic!("unexpected {:?}", e),
    }
    app.show_diff(true, "@@ -1 +1 @@\n-a\n+b\n c\n");
    press(&mut app, "jj");
    assert_eq!(app.git_lens.as_ref().unwrap().scroll, 2);
    press(&mut app, "j");
    assert_eq!(app.git_lens.as_ref().unwrap().scroll, 2);
    press(&mut app, "k");
    assert_eq!(app.git_lens.as_ref().unwrap().scroll, 1);
    app.handle_key(plain(KeyCode::Esc), 0);
    assert!(app.git_lens.is_none());
    app.show_diff(false, "not a repository");
    assert_eq!(app.status, "git diff: not a repository");
    assert!(app.git_lens.is_none());
}

#[test]
fn the_list_goes_around_and_opens_entries() {
    let mut app = list();
    assert_eq!(selected(&app), 1);
    press(&mut app, "jj");
    assert_eq!(selected(&app), 3);
    press(&mut app, "j");
    assert_eq!(selected(&app), 0);
    press(&mut app, "k");
    assert_eq!(selected(&app), 3);
    match app.handle_key(plain(KeyCode::Enter), 0) {
        Effect::Load { kind: EntryKind::File(p), .. } => assert_eq!(p, "/d/c.md"),
        e => panic!("unexpected {:?}", e),
    }
    app.show_file("/d/c.md".to_string(), "# c".to_string(), None, 0);
    match press(&mut app, "h") {
        Effect::Load { kind: EntryKind::Directory(d), selected, .. } => {
            assert_eq!((d.as_str(), selected), ("/d", Some(3)));
        }
        e => panic!("unexpected {:?}", e),
    }
    assert_eq!((app.history.len(), app.forward.len()), (0, 1));
}

#[test]
fn a_new_place_forgets_the_way_forward() {
    let mut app = open("x", 10);
    let _ = app.navigate_to(EntryKind::Stdin("one".to_string()), 0);
    let _ = app.go_back();
    assert_eq!(app.forward.len(), 1);
    let _ = app.navigate_to(EntryKind::Stdin("two".to_string()), 0);
    assert_eq!((app.forward.len(), app.history.len()), (0, 1));
    assert_eq!(reader(&app).raw, "two");
}

#[test]
fn r_marks_files_but_not_the_way_up() {
    let mut app = list();
    match press(&mut app, "r") {
        Effect::MarkRead { path, dir } => assert_eq!((path.as_str(), dir), ("/d/a.md", false)),
        e => panic!("unexpected {:?}", e),
    }
    press(&mut app, "k");
    assert!(matches!(press(&mut app, "r"), Effect::Nothing));
}

#[test]
fn file_search_takes_keys_and_opens_its_result() {
    let mut app = list();
    assert!(matches!(press(&mut app, "/"), Effect::BuildIndex));
    let path = |d: &str, is_dir: bool| IndexedPath {
        path: format!("/d/{}", d),
        display: d.to_string(),
        is_dir,
    };
    app.show_search(vec![path("a.md", false), path("sub", true), path("pic.png", false)]);
    press(&mut app, "pic");
    assert_eq!(app.search.as_ref().unwrap().results.len(), 1);
    match app.handle_key(plain(KeyCode::Enter), 0) {
        Effect::OpenPath(p) => assert_eq!(p, "/d/pic.png"),
        e => panic!("unexpected {:?}", e),
    }
    assert!(app.search.is_none());
    assert_eq!(app.status, "Opened externally: /d/pic.png");
    app.show_search(vec![path("sub", true)]);
    assert!(matches!(
        app.handle_key(plain(KeyCode::Enter), 0),
        Effect::Load { kind: EntryKind::Directory(_), .. }
    ));
}

#[test]
fn mouse_capture_toggles() {
    let mut app = open("x", 10);
    assert!(matches!(press(&mut app, "m"), Effect::MouseCapture(false)));
    assert!(!app.mouse_enabled);
    assert!(matches!(press(&mut app, "m"), Effect::MouseCapture(true)));
    assert_eq!(app.status, "Mouse on");
}

#[test]
fn a_click_follows_on_release_and_a_drag_copies() {
    let mut app = open("[link](https://a.b) tail\n", 10);
    let line = reader(&app).rendered.as_ref().unwrap().link_map.links[0].line as u16;
    let col = reader(&app).rendered.as_ref().unwrap().link_map.links[0].col_start as u16;
    let down = MouseKind::Down(Button::Left);
    let up = MouseKind::Up(Button::Left);
    assert!(matches!(mouse(&mut app, down, col, line, 1_000), Effect::Nothing));
    match mouse(&mut app, up, col, line, 1_010) {
        Effect::OpenUrl(u) => assert_eq!(u, "https://a.b"),
        e => panic!("unexpected {:?}", e),
    }
    let _ = mouse(&mut app, down, col, line, 5_000);
    let _ = mouse(&mut app, MouseKind::Drag(Button::Left), col + 3, line, 5_010);
    match mouse(&mut app, up, col + 3, line, 5_020) {
        Effect::Copy(t) => assert!("link".starts_with(&t), "copied {:?}", t),
        e => panic!("unexpected {:?}", e),
    }
    assert!(app.status.starts_with("Copied "));
}

#[test]
fn a_double_click_copies_the_word() {
    let mut app = open("alpha beta\n", 10);
    let rd = reader(&app).rendered.as_ref().unwrap();
    let row = rd.lines.iter().position(|l| l.spans.iter().any(|s| s.content.contains("beta")));
    let row = row.unwrap() as u16;
    let down = MouseKind::Down(Button::Left);
    let _ = mouse(&mut app, down, 7, row, 1_000);
    let _ = mouse(&mut app, MouseKind::Up(Button::Left), 7, row, 1_050);
    match mouse(&mut app, down, 7, row, 1_450) {
        Effect::Copy(w) => assert_eq!(w, "beta"),
        e => panic!("unexpected {:?}", e),
    }
    assert_eq!(app.status, "Copied: beta");
    // Too late for the next pair.
    assert!(matches!(mouse(&mut app, down, 7, row, 1_901), Effect::Nothing));
}

#[test]
fn hovering_a_link_marks_it() {
    let mut app = open("[link](https://a.b) tail\n", 10);
    let l = reader(&app).rendered.as_ref().unwrap().link_map.links[0].line as u16;
    let c = reader(&app).rendered.as_ref().unwrap().link_map.links[0].col_start as u16;
    let _ = mouse(&mut app, MouseKind::Moved, c, l, 0);
    assert_eq!(reader(&app).hover_link, Some(0));
    assert!(app.mouse_recent);
    let _ = mouse(&mut app, MouseKind::Moved, c + 30, l, 0);
    assert_eq!(reader(&app).hover_link, None);
    press(&mut app, "j");
    assert!(!app.mouse_recent);
}

#[test]
fn the_wheel_scrolls_slowly() {
    let mut app = open(&long_doc(), 10);
    let _ = mouse(&mut app, MouseKind::ScrollDown, 1, 1, 1_000);
    assert_eq!(scroll(&app), 1);
    let _ = mouse(&mut app, MouseKind::ScrollDown, 1, 1, 2_000);
    assert_eq!(scroll(&app), 2);
    let _ = mouse(&mut app, MouseKind::ScrollUp, 1, 1, 3_000);
    assert_eq!(scroll(&app), 1);
}

#[test]
fn a_burst_of_ticks_is_halved() {
    let (mut last, mut accum) = (Some(1_000u64), 0i32);
    let mut sum = 0;
    for i in 1..=8u64 {
        sum += compute_dampened_scroll(&mut last, &mut accum, -3, 1_000 + 10 * i);
    }
    assert_eq!((sum, accum), (-12, 0));
}

#[test]
fn the_back_button_of_the_status_line_goes_back() {
    let mut app = open("x", 10);
    let _ = app.navigate_to(EntryKind::Stdin("y".to_string()), 0);
    prepare(&mut app, 10);
    let _ = app.draw_statusline(Rect { x: 0, y: 10, width: 80, height: 1 }, None);
    assert_eq!(app.back_button_hit, Some((0, 8)));
    assert!(matches!(
        mouse(&mut app, MouseKind::Down(Button::Left), 3, 10, 0),
        Effect::Load { kind: EntryKind::File(_), .. }
    ));
    assert!(app.history.is_empty());
}

#[test]
fn a_split_edit_takes_clicks_in_both_panes() {
    let mut app = open("# One\n\ntext\n", 10);
    app.enter_edit();
    if let View::Reader(r) = &mut app.view {
        r.edit.as_mut().unwrap().mode = EditMode::Split;
    }
    app.edit_raw_area = Rect { x: 0, y: 0, width: 40, height: 10 };
    app.edit_preview_area = Rect { x: 40, y: 0, width: 40, height: 10 };
    prepare(&mut app, 10);
    let _ = mouse(&mut app, MouseKind::Down(Button::Left), 2, 2, 0);
    assert_eq!(reader(&app).edit.as_ref().unwrap().cursor, 9);
    prepare(&mut app, 10);
    let rd = reader(&app).rendered.as_ref().unwrap();
    let row = rd.lines.iter().position(|l| l.spans.iter().any(|s| s.content.contains("One")));
    let row = row.unwrap() as u16;
    let _ = mouse(&mut app, MouseKind::Down(Button::Left), 45, row, 0);
    assert_eq!(reader(&app).edit.as_ref().unwrap().cursor, 0);
}

#[test]
fn short_documents_are_finished_at_once() {
    let mut app = open("x\n", 10);
    assert_eq!(app.finished_path().map(|p| p.as_str()), Some("/d/doc.md"));
    app.enter_edit();
    assert!(app.finished_path().is_none());
    let mut app = open(&long_doc(), 10);
    assert!(app.finished_path().is_none());
    press(&mut app, "G");
    assert!(app.finished_path().is_some());
}

#[test]
fn an_edited_file_is_not_reloaded_under_the_edit() {
    let mut app = open("x\n", 10);
    let other = FileMeta { secs: 9, nanos: 0, size: 2 };
    assert!(app.needs_reload(other));
    app.enter_edit();
    assert!(app.watched_path().is_none());
    assert!(!app.needs_reload(other));
    assert!(!app.poll_external_change(other, "y\n".to_string()));
    assert_eq!(reader(&app).raw, "x\n");
}

#[test]
fn leaving_an_edit_keeps_the_buffer() {
    let mut app = open("abc\n", 10);
    app.enter_edit();
    app.edit_insert("x");
    app.exit_edit();
    assert!(reader(&app).edit.is_none());
    assert_eq!(reader(&app).raw, "xabc\n");
}

#[test]
fn any_other_key_takes_the_discard_question_back() {
    let keys = [
        plain(KeyCode::Backspace),
        plain(KeyCode::Left),
        plain(KeyCode::Home),
        plain(KeyCode::PageDown),
        ctrl('z'),
        ctrl('y'),
        ctrl('q'),
        ctrl('g'),
        KeyInput { code: KeyCode::Backspace, ctrl: false, alt: true },
    ];
    for k in keys {
        let mut app = open("abc\n", 10);
        press(&mut app, "e");
        app.handle_key(plain(KeyCode::Esc), 0);
        assert!(reader(&app).edit.as_ref().unwrap().discard_pending);
        app.handle_key(k, 0);
        assert!(!reader(&app).edit.as_ref().unwrap().discard_pending, "after {:?}", k);
        assert_eq!(reader(&app).raw, "abc\n");
        assert!(matches!(app.handle_key(plain(KeyCode::Esc), 0), Effect::Nothing));
        assert!(reader(&app).edit.is_some());
    }
    let mut app = open("abc", 10);
    press(&mut app, "e");
    app.handle_key(plain(KeyCode::End), 0);
    app.handle_key(plain(KeyCode::Esc), 0);
    app.handle_key(plain(KeyCode::Delete), 0);
    assert!(!reader(&app).edit.as_ref().unwrap().discard_pending);
}

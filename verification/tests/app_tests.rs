use md_tui::actions::derive_root;
use md_tui::app::{App, Effect, EntryKind, Options, Rect, Source, View};
use md_tui::browser::{Browser, BrowserEntry, BrowserEntryKind, DirItem};
use md_tui::diff::{parse_unified_diff, DiffRowKind};
use md_tui::palette::ColorDepth;
use md_tui::paths::{is_markdown_file, join};
use md_tui::reader::{FileMeta, Focus, Reader};
use md_tui::style::Line;
use md_tui::syntax::Highlighter;
use md_tui::theme::Theme;
use std::collections::BTreeMap;

/// Files in memory, with the time of their last write.
struct Disk {
    files: BTreeMap<String, (String, u64)>,
    dirs: Vec<String>,
    clock: u64,
}

impl Disk {
    fn new() -> Disk {
        Disk { files: BTreeMap::new(), dirs: Vec::new(), clock: 1 }
    }

    fn write(&mut self, path: &str, text: &str) {
        self.clock += 2;
        self.files.insert(path.to_string(), (text.to_string(), self.clock));
    }

    fn mkdir(&mut self, path: &str) {
        self.dirs.push(path.to_string());
    }

    fn read(&self, path: &str) -> String {
        self.files[path].0.clone()
    }

    fn meta(&self, path: &str) -> FileMeta {
        let (text, secs) = &self.files[path];
        FileMeta { secs: *secs as i64, nanos: 0, size: text.len() as u64 }
    }

    /// What a listing of one level without dotfiles gives.
    fn items(&self, dir: &str) -> Vec<DirItem> {
        let mut out = Vec::new();
        let inside = |p: &str| -> Option<String> {
            let rest = p.strip_prefix(dir)?.strip_prefix('/')?;
            if rest.contains('/') || rest.starts_with('.') {
                None
            } else {
                Some(rest.to_string())
            }
        };
        for p in self.files.keys() {
            if let Some(name) = inside(p) {
                out.push(DirItem { name, path: p.clone(), is_dir: false, is_file: true });
            }
        }
        for p in &self.dirs {
            if let Some(name) = inside(p) {
                out.push(DirItem { name, path: p.clone(), is_dir: true, is_file: false });
            }
        }
        out
    }

    fn scan(&self, dir: &str) -> Browser {
        Browser::scan(dir, &self.items(dir))
    }

    fn open(&self, source: Source, opts: Options) -> App {
        let root = derive_root(&source, "/");
        let view = match source {
            Source::File(p) => {
                let meta = self.meta(&p);
                let text = self.read(&p);
                View::Reader(Reader::from_file(p, text, Some(meta)))
            }
            Source::Directory(d) => View::Browser(self.scan(&d)),
            Source::Stdin(t) => View::Reader(Reader::from_string(t)),
        };
        App::new(view, root, opts)
    }

    fn perform(&mut self, app: &mut App, e: Effect) {
        match e {
            Effect::Load { kind: EntryKind::File(p), scroll, .. } => {
                let (text, meta) = (self.read(&p), self.meta(&p));
                app.show_file(p, text, Some(meta), scroll);
            }
            Effect::Load { kind: EntryKind::Directory(d), scroll, selected } => {
                app.show_dir(&d, &self.items(&d), scroll, selected);
            }
            Effect::WriteFile { path, text, cause } => {
                self.write(&path, &text);
                app.written(cause, true, Some(self.meta(&path)));
            }
            Effect::ReadBack { path } => {
                app.restore(self.read(&path), Some(self.meta(&path)));
            }
            _ => {}
        }
    }

    fn poll(&self, app: &mut App) -> bool {
        let Some(p) = app.watched_path().cloned() else { return false };
        let meta = self.meta(&p);
        if !app.needs_reload(meta) {
            return false;
        }
        app.poll_external_change(meta, self.read(&p))
    }
}

fn opts() -> Options {
    Options { width: 80, line_numbers: false, theme: Theme::dark() }
}

fn hl() -> Highlighter {
    Highlighter::new(ColorDepth::TrueColor)
}

fn reader(app: &App) -> &Reader {
    match &app.view {
        View::Reader(r) => r,
        View::Browser(_) => panic!("expected reader"),
    }
}

fn browser(app: &App) -> &Browser {
    match &app.view {
        View::Browser(b) => b,
        View::Reader(_) => panic!("expected browser"),
    }
}

fn text(l: &Line) -> String {
    l.spans.iter().map(|sp| sp.content.as_str()).collect()
}

#[test]
fn browser_lists_only_dirs_and_markdown() {
    let mut disk = Disk::new();
    disk.mkdir("/d/subdir");
    disk.write("/d/a.md", "# a");
    disk.write("/d/b.markdown", "# b");
    disk.write("/d/note.txt", "ignored");
    disk.write("/d/Cargo.toml", "ignored");
    disk.write("/d/.hidden.md", "hidden");

    let b = disk.scan("/d");
    let names: Vec<&str> = b.entries.iter().map(|e| e.display.as_str()).collect();

    assert!(names.contains(&"subdir/"), "missing subdir, got {:?}", names);
    assert!(names.contains(&"a.md"), "missing a.md, got {:?}", names);
    assert!(names.contains(&"b.markdown"), "missing b.markdown, got {:?}", names);
    assert!(!names.contains(&"note.txt"));
    assert!(!names.contains(&"Cargo.toml"));
    assert!(names.iter().all(|n| !n.contains(".hidden")));
}

#[test]
fn checkbox_toggle_writes_back_to_file() {
    let mut disk = Disk::new();
    let path = "/d/tasks.md";
    disk.write(path, "- [ ] alpha\n- [x] beta\n");
    let mut app = disk.open(Source::File(path.to_string()), opts());
    let h = hl();
    app.ensure_rendered(80, &h);

    let e = app.toggle_checkbox(0);
    disk.perform(&mut app, e);
    assert_eq!(disk.read(path), "- [x] alpha\n- [x] beta\n");

    app.ensure_rendered(80, &h);
    let e = app.toggle_checkbox(1);
    disk.perform(&mut app, e);
    assert_eq!(disk.read(path), "- [x] alpha\n- [ ] beta\n");
}

#[test]
fn poll_external_change_reloads_when_file_edited() {
    let mut disk = Disk::new();
    let path = "/d/doc.md";
    disk.write(path, "# original\n");
    let mut app = disk.open(Source::File(path.to_string()), opts());
    app.ensure_rendered(80, &hl());
    assert!(!disk.poll(&mut app));

    disk.write(path, "# updated content\n");

    assert!(disk.poll(&mut app), "expected reload after edit");
    match &app.view {
        View::Reader(r) => assert_eq!(r.raw, "# updated content\n"),
        _ => panic!("expected reader view"),
    }
    assert!(!disk.poll(&mut app));
}

#[test]
fn poll_external_change_ignores_byte_identical_touches() {
    let mut disk = Disk::new();
    let path = "/d/doc.md";
    disk.write(path, "# same\n");
    let mut app = disk.open(Source::File(path.to_string()), opts());
    disk.write(path, "# same\n");
    assert!(!disk.poll(&mut app), "no-op rewrite must not signal a reload");
}

#[test]
fn checkbox_toggle_does_not_self_trigger_reload() {
    let mut disk = Disk::new();
    let path = "/d/t.md";
    disk.write(path, "- [ ] task\n");
    let mut app = disk.open(Source::File(path.to_string()), opts());
    app.ensure_rendered(80, &hl());
    let e = app.toggle_checkbox(0);
    disk.perform(&mut app, e);
    assert!(!disk.poll(&mut app));
}

#[test]
fn checkbox_toggle_is_idempotent_round_trip() {
    let mut disk = Disk::new();
    let path = "/d/t.md";
    disk.write(path, "- [ ] task\n");
    let mut app = disk.open(Source::File(path.to_string()), opts());
    let h = hl();
    app.ensure_rendered(80, &h);
    let e = app.toggle_checkbox(0);
    disk.perform(&mut app, e);
    app.ensure_rendered(80, &h);
    let e = app.toggle_checkbox(0);
    disk.perform(&mut app, e);
    assert_eq!(disk.read(path), "- [ ] task\n");
}

#[test]
fn go_back_restores_browser_selected_index() {
    let mut disk = Disk::new();
    disk.write("/d/a.md", "# A");
    disk.write("/d/b.md", "# B");
    disk.write("/d/c.md", "# C");
    let mut app = disk.open(Source::Directory("/d".to_string()), opts());

    let target_idx = match &mut app.view {
        View::Browser(b) => {
            let idx =
                b.entries.iter().position(|e| e.display == "b.md").expect("b.md must be listed");
            b.selected = idx;
            idx
        }
        _ => panic!("expected browser at startup"),
    };
    let target_path = browser(&app).entries[target_idx].path.clone();
    let e = app.navigate_to(EntryKind::File(target_path), 0);
    disk.perform(&mut app, e);
    let e = app.go_back();
    disk.perform(&mut app, e);

    match &app.view {
        View::Browser(b) => assert_eq!(b.selected, target_idx),
        _ => panic!("expected to land back in browser"),
    }
}

#[test]
fn reader_scroll_preserved_across_back_forward() {
    let mut disk = Disk::new();
    disk.write("/d/a.md", "# A\n\nbody\n");
    disk.write("/d/b.md", "# B");
    let mut app = disk.open(Source::File("/d/a.md".to_string()), opts());
    if let View::Reader(r) = &mut app.view {
        r.scroll = 1;
    }
    let e = app.navigate_to(EntryKind::File("/d/b.md".to_string()), 0);
    disk.perform(&mut app, e);
    let e = app.go_back();
    disk.perform(&mut app, e);
    assert_eq!(reader(&app).scroll, 1, "scroll should be restored");
    let e = app.go_forward();
    disk.perform(&mut app, e);
    assert_eq!(reader(&app).raw, "# B");
}

#[test]
fn browser_navigate_into_subdir_and_back() {
    let mut disk = Disk::new();
    disk.mkdir("/d/inner");
    disk.write("/d/inner/note.md", "# note");
    let mut app = disk.open(Source::Directory("/d".to_string()), opts());
    let e = app.navigate_to(EntryKind::Directory(join("/d", "inner")), 0);
    disk.perform(&mut app, e);
    assert_eq!(browser(&app).dir, "/d/inner");
    let e = app.go_back();
    disk.perform(&mut app, e);
    assert_eq!(browser(&app).dir, "/d");
}

#[test]
fn browser_lists_one_level_only() {
    let mut disk = Disk::new();
    disk.mkdir("/d/sub");
    disk.write("/d/top.md", "# top");
    disk.write("/d/sub/inner.md", "# inner");

    let b = disk.scan("/d");
    assert!(b.entries.iter().any(|e| e.display == "sub/"));
    assert!(b.entries.iter().any(|e| e.display == "top.md"));
    assert!(!b.entries.iter().any(|e| e.display == "inner.md"));

    let sub = disk.scan("/d/sub");
    assert!(sub.entries.iter().any(|e| e.display == "inner.md"));
}

#[test]
fn go_back_walks_up_nested_browser_history() {
    let mut disk = Disk::new();
    disk.mkdir("/d/a");
    disk.mkdir("/d/a/b");
    disk.mkdir("/d/a/b/c");
    let mut app = disk.open(Source::Directory("/d".to_string()), opts());
    for dir in ["/d/a", "/d/a/b", "/d/a/b/c"] {
        let e = app.navigate_to(EntryKind::Directory(dir.to_string()), 0);
        disk.perform(&mut app, e);
    }
    let e = app.go_back();
    disk.perform(&mut app, e);
    assert_eq!(browser(&app).dir, "/d/a/b");
    let e = app.go_back();
    disk.perform(&mut app, e);
    assert_eq!(browser(&app).dir, "/d/a");
    assert!(!app.history.is_empty());
}

#[test]
fn edit_mode_insert_marks_dirty_and_advances_cursor() {
    let mut disk = Disk::new();
    disk.write("/d/doc.md", "hello\n");
    let mut app = disk.open(Source::File("/d/doc.md".to_string()), opts());
    app.ensure_rendered(80, &hl());
    app.enter_edit();
    app.edit_insert("X");

    let r = reader(&app);
    assert_eq!(r.raw, "Xhello\n");
    let e = r.edit.as_ref().unwrap();
    assert!(e.dirty);
    assert_eq!(e.cursor, 1);
}

#[test]
fn edit_save_persists_to_disk_and_clears_dirty() {
    let mut disk = Disk::new();
    disk.write("/d/doc.md", "first\n");
    let mut app = disk.open(Source::File("/d/doc.md".to_string()), opts());
    app.ensure_rendered(80, &hl());
    app.enter_edit();
    app.edit_insert("X");
    let e = app.save_edit();
    disk.perform(&mut app, e);

    assert_eq!(disk.read("/d/doc.md"), "Xfirst\n");
    assert!(!reader(&app).edit.as_ref().unwrap().dirty);
}

#[test]
fn edit_discard_reloads_from_disk_and_exits_edit_mode() {
    let mut disk = Disk::new();
    disk.write("/d/doc.md", "original\n");
    let mut app = disk.open(Source::File("/d/doc.md".to_string()), opts());
    app.ensure_rendered(80, &hl());
    app.enter_edit();
    app.edit_insert("XYZ");
    assert_eq!(reader(&app).raw, "XYZoriginal\n");
    let e = app.exit_edit_discard();
    disk.perform(&mut app, e);

    let r = reader(&app);
    assert!(r.edit.is_none(), "should be back in view mode");
    assert_eq!(r.raw, "original\n", "buffer should match disk");
}

#[test]
fn undo_restores_prior_buffer_and_cursor() {
    let mut disk = Disk::new();
    disk.write("/d/u.md", "abc\n");
    let mut app = disk.open(Source::File("/d/u.md".to_string()), opts());
    app.ensure_rendered(80, &hl());
    app.enter_edit();
    app.edit_insert("X");
    app.edit_insert("Y");
    assert_eq!(reader(&app).raw, "XYabc\n");
    app.edit_undo();
    assert_eq!(reader(&app).raw, "Xabc\n");
    app.edit_undo();
    assert_eq!(reader(&app).raw, "abc\n");
    app.edit_redo();
    assert_eq!(reader(&app).raw, "Xabc\n");
}

#[test]
fn redo_stack_clears_on_new_mutation() {
    let mut disk = Disk::new();
    disk.write("/d/r.md", "a\n");
    let mut app = disk.open(Source::File("/d/r.md".to_string()), opts());
    app.ensure_rendered(80, &hl());
    app.enter_edit();
    app.edit_insert("X");
    app.edit_undo();
    app.edit_insert("Y");
    let r = reader(&app);
    assert_eq!(r.raw, "Ya\n");
    let e = r.edit.as_ref().unwrap();
    assert!(e.redo.is_empty(), "redo should be cleared after diverging edit");
}

#[test]
fn parse_unified_diff_classifies_row_kinds() {
    let diff = "\
diff --git a/x.md b/x.md\n\
index abc..def 100644\n\
--- a/x.md\n\
+++ b/x.md\n\
@@ -1,3 +1,4 @@\n\
 context line\n\
-removed\n\
+added\n\
+another added\n\
 trailer\n";
    let rows = parse_unified_diff(diff);
    let kinds: Vec<DiffRowKind> = rows.iter().map(|r| r.kind).collect();
    assert_eq!(
        kinds,
        vec![
            DiffRowKind::Header,
            DiffRowKind::Header,
            DiffRowKind::Header,
            DiffRowKind::Header,
            DiffRowKind::Hunk,
            DiffRowKind::Context,
            DiffRowKind::Removed,
            DiffRowKind::Added,
            DiffRowKind::Added,
            DiffRowKind::Context,
        ],
    );
}

#[test]
fn long_paragraph_wraps_in_edit_mode_with_cursor_on_correct_row() {
    let mut disk = Disk::new();
    let body = "alpha beta gamma delta epsilon zeta eta theta iota kappa lambda mu nu xi omicron pi rho sigma tau upsilon";
    disk.write("/d/long.md", body);
    let mut o = opts();
    o.width = 40;
    let mut app = disk.open(Source::File("/d/long.md".to_string()), o);
    app.viewport = Rect { x: 0, y: 0, width: 40, height: 24 };
    let h = hl();
    app.ensure_rendered(40, &h);
    app.enter_edit();
    if let View::Reader(r) = &mut app.view {
        r.edit.as_mut().unwrap().cursor = body.len() - 5;
    }
    app.ensure_rendered(40, &h);

    let rd = reader(&app).rendered.as_ref().unwrap();
    let xy = rd.cursor_xy.expect("cursor should have a display position");
    assert!(xy.1 > 0, "expected cursor on wrapped row, got {:?}", xy);
    assert!(xy.0 < 40, "cursor col should fit within render width, got {:?}", xy);
}

#[test]
fn block_level_raw_toggle_substitutes_only_cursor_block() {
    let mut disk = Disk::new();
    disk.write("/d/doc.md", "# Heading\n\nSecond paragraph.\n");
    let mut app = disk.open(Source::File("/d/doc.md".to_string()), opts());
    let h = hl();
    app.ensure_rendered(80, &h);
    app.enter_edit();
    app.ensure_rendered(80, &h);

    let rd = reader(&app).rendered.as_ref().unwrap();
    let any_raw_heading = rd.lines.iter().any(|l| text(l).contains("# Heading"));
    assert!(any_raw_heading, "expected raw heading line in rendered output");
    let any_raw_para_marker = rd.lines.iter().any(|l| text(l).contains("# Second"));
    assert!(!any_raw_para_marker, "second paragraph should stay formatted");
}

#[test]
fn fresh_browser_skips_parent_dir_default_selection() {
    let mut disk = Disk::new();
    disk.mkdir("/d/sub");
    disk.write("/d/a.md", "# a");
    disk.write("/d/b.md", "# b");
    let b = disk.scan("/d");
    assert!(matches!(b.entries[0].kind, BrowserEntryKind::ParentDir));
    assert!(b.selected > 0, "expected to skip ../, got selected={}", b.selected);
    assert!(!matches!(b.entries[b.selected].kind, BrowserEntryKind::ParentDir));
}

#[test]
fn root_directory_with_no_parent_starts_at_zero() {
    let mut disk = Disk::new();
    disk.write("/d/a.md", "# a");
    let mut b = Browser {
        dir: "/d".to_string(),
        entries: vec![BrowserEntry {
            path: "/d/a.md".to_string(),
            display: "a.md".to_string(),
            kind: BrowserEntryKind::Markdown,
        }],
        selected: 0,
        scroll: 0,
    };
    b.rebuild(&disk.items("/d"));
    assert!(b.selected < b.entries.len());
    assert_eq!(b.entries[b.selected].display, "a.md");

    let mut top = Disk::new();
    top.write("/x.md", "# x");
    let root = Browser::scan("/", &[DirItem {
        name: "x.md".to_string(),
        path: "/x.md".to_string(),
        is_dir: false,
        is_file: true,
    }]);
    assert_eq!(root.entries.len(), 1);
    assert_eq!(root.selected, 0);
}

#[test]
fn focus_targets_interleaves_links_and_checkboxes_in_document_order() {
    let mut disk = Disk::new();
    let src = "\
- [ ] task one with [link a](https://a)\n\
\n\
[link b](https://b)\n\
\n\
- [x] task two\n";
    disk.write("/d/doc.md", src);
    let mut app = disk.open(Source::File("/d/doc.md".to_string()), opts());
    app.ensure_rendered(80, &hl());
    let r = reader(&app);

    let targets = r.focus_targets();
    assert_eq!(targets.len(), 4, "got {:?}", targets);
    let kinds: Vec<&'static str> = targets
        .iter()
        .map(|(f, _, _)| match f {
            Focus::Link(_) => "link",
            Focus::Checkbox(_) => "cb",
        })
        .collect();
    assert_eq!(kinds, vec!["cb", "link", "link", "cb"], "ordering: {:?}", targets);
    for w in targets.windows(2) {
        assert!(w[0].1 <= w[1].1, "lines not in order: {:?}", targets);
    }
}

#[test]
fn is_markdown_file_recognises_extensions() {
    assert!(is_markdown_file("foo.md"));
    assert!(is_markdown_file("foo.MD"));
    assert!(is_markdown_file("foo.markdown"));
    assert!(is_markdown_file("foo.mdown"));
    assert!(!is_markdown_file("foo.txt"));
    assert!(!is_markdown_file("foo"));
}

use md_tui::browser::{Browser, BrowserEntryKind, DirItem};
use md_tui::diff::{lens_rows, parse_unified_diff, split_lines, DiffRowKind};
use md_tui::read_state::{FileStamp, ReadState};
use md_tui::search::{
    find_doc_matches, score_substring, wrap_index, IndexedPath, Search,
};
use md_tui::style::{Line, Span};

fn stamp(path: &str, mtime: Option<u64>) -> FileStamp {
    FileStamp { path: path.to_string(), mtime }
}

#[test]
fn a_file_is_unread_until_marked_and_again_once_changed() {
    let mut s = ReadState::empty();
    assert!(s.is_unread("/a.md", Some(5)));
    s.mark_read("/a.md", Some(5));
    assert!(!s.is_unread("/a.md", Some(5)));
    assert!(s.is_unread("/a.md", Some(6)));
    // A time that cannot be told does not nag.
    assert!(!s.is_unread("/a.md", None));
    assert!(s.is_unread("/b.md", Some(5)));
}

#[test]
fn marking_without_a_time_records_nothing() {
    let mut s = ReadState::empty();
    s.mark_read("/a.md", None);
    assert!(s.is_unread("/a.md", None));
}

#[test]
fn a_directory_is_unread_with_any_of_its_files() {
    let mut s = ReadState::empty();
    let files = vec![stamp("/d/a.md", Some(1)), stamp("/d/e/b.md", Some(2))];
    assert!(s.dir_has_unread(&files));
    s.mark_read("/d/a.md", Some(1));
    assert!(s.dir_has_unread(&files));
    s.mark_read_recursive(&files);
    assert!(!s.dir_has_unread(&files));
    assert!(!s.dir_has_unread(&[]));
}

#[test]
fn the_first_run_takes_what_is_there_as_read() {
    let s = ReadState::load(None, &[stamp("/old.md", Some(9))]);
    assert!(!s.is_unread("/old.md", Some(9)));
    assert!(s.is_unread("/new.md", Some(9)));
}

#[test]
fn the_state_file_round_trips() {
    let mut s = ReadState::empty();
    s.mark_read("/a b.md", Some(12));
    s.mark_read("/ü.md", Some(0));
    let text = s.flush();
    assert!(text.contains("12\t/a b.md\n"), "got {:?}", text);
    let t = ReadState::load(Some(&text), &[]);
    assert!(!t.is_unread("/a b.md", Some(12)));
    assert!(!t.is_unread("/ü.md", Some(0)));
    assert!(t.is_unread("/c.md", Some(0)));
}

#[test]
fn bad_lines_of_the_state_file_are_skipped() {
    let s = ReadState::load(Some("x\t/a.md\n7 /b.md\n\n8\t/c.md\r\n"), &[]);
    assert!(s.is_unread("/a.md", None));
    assert!(s.is_unread("/b.md", None));
    assert!(!s.is_unread("/c.md", Some(8)));
}

fn item(name: &str, is_dir: bool) -> DirItem {
    DirItem { name: name.to_string(), path: format!("/d/{}", name), is_dir, is_file: !is_dir }
}

#[test]
fn listings_put_directories_first_and_ignore_case() {
    let items = vec![item("b.md", false), item("Z", true), item("A.md", false), item("y", true)];
    let b = Browser::scan("/d", &items);
    let names: Vec<&str> = b.entries.iter().map(|e| e.display.as_str()).collect();
    assert_eq!(names, vec!["../", "y/", "Z/", "A.md", "b.md"]);
    assert_eq!(b.selected, 1);
    assert_eq!(b.selected_entry().map(|e| e.kind), Some(BrowserEntryKind::Dir));
}

#[test]
fn a_rebuilt_listing_keeps_the_selection() {
    let mut b = Browser::scan("/d", &[item("a.md", false), item("c.md", false)]);
    b.selected = 2;
    b.rebuild(&[item("a.md", false), item("b.md", false), item("c.md", false)]);
    assert_eq!(b.selected_entry().map(|e| e.display.as_str()), Some("c.md"));
    b.rebuild(&[item("a.md", false)]);
    assert_eq!(b.selected_entry().map(|e| e.display.as_str()), Some("a.md"));
}

#[test]
fn scores_favour_starts_boundaries_and_names() {
    assert_eq!(score_substring("readme.md", "read"), Some(1598));
    assert_eq!(score_substring("docs/readme.md", "read"), Some(1342));
    // Within a word, and not in the last component.
    assert_eq!(score_substring("spread/x.md", "read"), Some(996));
    assert_eq!(score_substring("readme.md", "xyz"), None);
}

fn path(display: &str, is_dir: bool) -> IndexedPath {
    IndexedPath { path: format!("/r/{}", display), display: display.to_string(), is_dir }
}

#[test]
fn file_search_ranks_and_moves_around() {
    let mut s = Search::build(vec![
        path("docs/readme.md", false),
        path("README.md", false),
        path("docs", true),
        path("other.txt", false),
    ]);
    let shown: Vec<String> = s.results.iter().map(|r| r.display.clone()).collect();
    assert_eq!(shown, vec!["docs", "docs/readme.md", "other.txt", "README.md"]);
    s.query = "ReAd".to_string();
    s.refresh();
    let shown: Vec<String> = s.results.iter().map(|r| r.display.clone()).collect();
    assert_eq!(shown, vec!["README.md", "docs/readme.md"]);
    assert_eq!(s.results[0].score, 1598);
    s.move_selection(1);
    assert_eq!(s.selected, 1);
    s.move_selection(1);
    assert_eq!(s.selected, 0);
    s.move_selection(-1);
    assert_eq!(s.selected, 1);
    s.query = "readme.md".to_string();
    s.refresh();
    s.query = "nothing like it".to_string();
    s.refresh();
    assert_eq!((s.results.len(), s.selected), (0, 0));
    s.move_selection(3);
    assert_eq!(s.selected, 0);
}

#[test]
fn indices_wrap_around() {
    assert_eq!(wrap_index(0, -1, 5), 4);
    assert_eq!(wrap_index(4, 1, 5), 0);
    assert_eq!(wrap_index(2, -12, 5), 0);
    assert_eq!(wrap_index(1, 7, 5), 3);
}

fn plain(s: &str) -> Line {
    Line { spans: vec![Span::raw(s.to_string())] }
}

#[test]
fn document_matches_are_placed_in_columns() {
    let lines = vec![plain("Foo bar foo"), plain("日本 FOO"), plain("none")];
    let m = find_doc_matches(&lines, "foo");
    let at: Vec<(usize, usize, usize)> =
        m.iter().map(|x| (x.line, x.col_start, x.col_end)).collect();
    assert_eq!(at, vec![(0, 0, 3), (0, 8, 11), (1, 5, 8)]);
    assert!(find_doc_matches(&lines, "").is_empty());
    assert!(find_doc_matches(&lines, "zzz").is_empty());
}

#[test]
fn lines_split_without_their_ends() {
    assert_eq!(split_lines("a\r\nb\n\nc"), vec!["a", "b", "", "c"]);
    assert!(split_lines("").is_empty());
    assert_eq!(split_lines("a\n"), vec!["a"]);
}

#[test]
fn a_clean_diff_says_so() {
    let rows = lens_rows("");
    assert_eq!(rows.len(), 1);
    assert_eq!(rows[0].kind, DiffRowKind::Info);
    assert_eq!(rows[0].text, "✓ No uncommitted changes");
    let rows = lens_rows("diff --git a/x b/x\n@@ -1 +1 @@\n-a\n+b\n");
    assert_eq!(rows.len(), 4);
    assert_eq!(rows[2].kind, DiffRowKind::Removed);
    assert_eq!(parse_unified_diff("+x")[0].kind, DiffRowKind::Added);
}

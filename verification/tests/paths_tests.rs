use md_tui::actions::derive_root;
use md_tui::app::Source;
use md_tui::browser::DirItem;
use md_tui::config::Config;
use md_tui::numbers::parse_within;
use md_tui::paths::{
    extension, file_name, join, parent, resolve_local_path, with_md_extension,
};
use md_tui::style::Color;
use md_tui::text::{decimal_text, to_chars};
use md_tui::theme::resolve;
use md_tui::vault::{display_path, indexed, short_root, strip_prefix, vault_lookup, walks_into};

fn some(s: &str) -> Option<String> {
    Some(s.to_string())
}

#[test]
fn paths_join_and_come_apart() {
    assert_eq!(join("/a/b", "c.md"), "/a/b/c.md");
    assert_eq!(join("/a/", "c.md"), "/a/c.md");
    assert_eq!(join("/a", "/c.md"), "/c.md");
    assert_eq!(file_name("/a/b/c.md"), some("c.md"));
    assert_eq!(parent("/a/b/c.md"), some("/a/b"));
    assert_eq!(file_name("/a/b/"), some("b"));
    assert_eq!(parent("/a"), some("/"));
    assert_eq!(parent("/"), None);
    assert_eq!(parent("a"), some(""));
    assert_eq!(file_name(".."), None);
    assert_eq!(extension("x.tar.gz"), some("gz"));
    assert_eq!(extension(".hidden"), None);
    assert_eq!(extension("plain"), None);
}

#[test]
fn local_links_fall_back_to_md() {
    assert_eq!(with_md_extension("/n/Note"), "/n/Note.md");
    assert_eq!(resolve_local_path("/n/Note", true, true), some("/n/Note"));
    assert_eq!(resolve_local_path("/n/Note", false, true), some("/n/Note.md"));
    assert_eq!(resolve_local_path("/n/a.txt", false, true), None);
    assert_eq!(resolve_local_path("/n/Note", false, false), None);
}

fn file(path: &str, name: &str) -> DirItem {
    DirItem { name: name.to_string(), path: path.to_string(), is_dir: false, is_file: true }
}

#[test]
fn a_link_finds_the_first_file_of_its_name() {
    let items = vec![
        DirItem {
            name: "Note.md".to_string(),
            path: "/v/Note.md".to_string(),
            is_dir: true,
            is_file: false,
        },
        file("/v/x/Note.md", "Note.md"),
        file("/v/y/Note.md", "Note.md"),
    ];
    assert_eq!(vault_lookup("sub/Note", &items), some("/v/x/Note.md"));
    assert_eq!(vault_lookup("Note.md", &items), some("/v/x/Note.md"));
    assert_eq!(vault_lookup("Note.txt", &items), None);
    assert_eq!(vault_lookup("..", &items), None);
}

#[test]
fn walks_for_links_skip_dotfiles() {
    assert!(walks_into("docs"));
    assert!(walks_into("."));
    assert!(walks_into(".."));
    assert!(!walks_into(".git"));
}

#[test]
fn paths_are_shown_short() {
    assert_eq!(strip_prefix("/r/a/b", "/r"), some("a/b"));
    assert_eq!(strip_prefix("/rest", "/r"), None);
    assert_eq!(strip_prefix("/r", "/r"), some(""));
    assert_eq!(strip_prefix("/r//a//b/", "/r/"), some("a//b"));
    assert_eq!(strip_prefix("/r/./a/.", "/./r"), some("a"));
    assert_eq!(strip_prefix("/r/..", "/r"), some(".."));
    assert_eq!(strip_prefix("./a", "a"), None);
    assert_eq!(strip_prefix("./a", "."), some("a"));
    assert_eq!(strip_prefix("a/.", ""), some("a"));
    assert_eq!(strip_prefix("/", ""), some("/"));
    assert_eq!(strip_prefix("a", "/"), None);
    assert_eq!(strip_prefix("", "a"), None);
    assert_eq!(display_path("/d//f.md", "/d", None), "f.md");
    assert_eq!(display_path("/r", "/r", None), ".");
    assert_eq!(display_path("/r/a.md", "/r", None), "a.md");
    assert_eq!(display_path("/h/me/a.md", "/r", Some("/h/me")), "~/a.md");
    assert_eq!(display_path("/x/a.md", "/r", Some("/h/me")), "/x/a.md");
    assert_eq!(short_root("/h/me/notes", Some("/h/me")), "~/notes");
    assert_eq!(short_root("/h/me/notes", None), "/h/me/notes");
    assert_eq!(indexed("/r", "/r/d/e.md", false).display, "d/e.md");
}

#[test]
fn joining_then_stripping_gives_the_path_back() {
    for p in ["a.md", "d/e", "ü/✓"] {
        assert_eq!(strip_prefix(&join("/base", p), "/base"), some(p));
    }
}

#[test]
fn searches_start_beside_what_is_open() {
    assert_eq!(derive_root(&Source::File("/a/b.md".to_string()), "/cwd"), "/a");
    assert_eq!(derive_root(&Source::Directory("/d".to_string()), "/cwd"), "/d");
    assert_eq!(derive_root(&Source::Stdin("x".to_string()), "/cwd"), "/cwd");
}

#[test]
fn configuration_is_read_line_by_line() {
    let cfg = Config::read(
        "# settings\ntheme = \"light\"   # or \"dark\"\nwidth=72\nline_numbers = true\nother = 1\n",
    );
    assert_eq!(cfg.theme.as_deref(), Some("light"));
    assert_eq!(cfg.width, Some(72));
    assert_eq!(cfg.line_numbers, Some(true));
}

#[test]
fn configuration_of_another_kind_sets_nothing() {
    let cfg = Config::read("theme = dark\nwidth = 70000\nline_numbers = yes\nnothing\n");
    assert_eq!(cfg.theme, None);
    assert_eq!(cfg.width, None);
    assert_eq!(cfg.line_numbers, None);
}

#[test]
fn flags_override_the_configuration() {
    let cfg = Config::read("width = 60\nline_numbers = false\n");
    assert_eq!(cfg.effective_width(0), 60);
    assert_eq!(cfg.effective_width(100), 100);
    assert!(cfg.effective_line_numbers(true));
    assert!(!cfg.effective_line_numbers(false));
    assert_eq!(Config::default().effective_width(0), 0);
}

#[test]
fn themes_resolve_by_name_configuration_and_background() {
    let none = Config::default();
    let light = Config::read("theme = \"light\"");
    assert_eq!(resolve("dark", &light, Some("0;15")).name, "dark");
    assert_eq!(resolve("light", &none, None).name, "light");
    assert_eq!(resolve("auto", &light, None).name, "light");
    assert_eq!(resolve("auto", &none, Some("0;15")).name, "light");
    assert_eq!(resolve("auto", &none, Some("15;0")).name, "dark");
    assert_eq!(resolve("auto", &none, None).name, "dark");
    assert_eq!(resolve("auto", &none, None).muted, Color::DarkGray);
}

#[test]
fn numbers_are_written_and_read_back() {
    for n in [0u64, 7, 10, 65535, u64::MAX] {
        assert_eq!(decimal_text(n), n.to_string());
        assert_eq!(parse_within(&to_chars(&decimal_text(n)), u64::MAX), Some(n));
    }
    assert_eq!(parse_within(&to_chars("256"), 255), None);
    assert_eq!(parse_within(&to_chars(""), 255), None);
    assert_eq!(parse_within(&to_chars("1a"), 255), None);
}

#[test]
fn body_text_has_the_terminals_color() {
    let t = resolve("dark", &Config::default(), None);
    assert_eq!(t.style_text().fg, Some(Color::Reset));
    assert_eq!(t.style_text().bg, None);
}

#[test]
fn stripping_agrees_with_paths_of_the_standard_library() {
    let parts = ["", "/", ".", "./", "a", "/a", "a/", "./a", "a/b", "/a//b", "/a/./b/", "a/..", "/.", "..", ".a"];
    for p in parts {
        for base in parts {
            let want = std::path::Path::new(p)
                .strip_prefix(base)
                .ok()
                .map(|r| r.to_str().unwrap().to_string());
            assert_eq!(strip_prefix(p, base), want, "{:?} below {:?}", p, base);
        }
    }
}

use md_tui::links::{
    hex_val, percent_decode, resolve, slugify, LinkMap, LinkSpan, LinkTarget, TableExpand,
    TableHit, TableMap, TableRegion,
};

#[test]
fn percent_escapes_are_decoded() {
    assert_eq!(percent_decode("my%20notes.md"), "my notes.md");
    assert_eq!(percent_decode("%E2%9C%93"), "✓");
    assert_eq!(percent_decode("a%2fb"), "a/b");
}

#[test]
fn what_is_no_escape_stays() {
    assert_eq!(percent_decode("100%"), "100%");
    assert_eq!(percent_decode("%4"), "%4");
    assert_eq!(percent_decode("%zz"), "%zz");
    assert_eq!(percent_decode("plain/päth.md"), "plain/päth.md");
}

#[test]
fn decoded_bytes_that_are_no_text_leave_the_path_alone() {
    assert_eq!(percent_decode("%FF%20x"), "%FF%20x");
}

#[test]
fn hex_digits_have_values() {
    assert_eq!(hex_val(b'0'), Some(0));
    assert_eq!(hex_val(b'9'), Some(9));
    assert_eq!(hex_val(b'a'), Some(10));
    assert_eq!(hex_val(b'F'), Some(15));
    assert_eq!(hex_val(b'g'), None);
    assert_eq!(hex_val(b'/'), None);
}

#[test]
fn slugs_are_lowercase_and_dashed() {
    assert_eq!(slugify("Hello, World!"), "hello-world");
    assert_eq!(slugify("  a -- b_c "), "a-b-c");
    assert_eq!(slugify("Größe ÄÖ"), "größe-äö");
    assert_eq!(slugify("end---"), "end");
    assert_eq!(slugify("!?"), "");
}

#[test]
fn destinations_resolve_to_targets() {
    assert_eq!(resolve("#My Part", None), LinkTarget::Anchor("my-part".to_string()));
    assert_eq!(
        resolve("https://a.b/c#d", Some("/docs")),
        LinkTarget::Url("https://a.b/c#d".to_string())
    );
    assert_eq!(resolve("mailto:a@b", None), LinkTarget::Url("mailto:a@b".to_string()));
    assert_eq!(resolve("tel:123", None), LinkTarget::Url("tel:123".to_string()));
    assert_eq!(
        resolve("a%20b.md", Some("/docs")),
        LinkTarget::LocalFile("/docs/a b.md".to_string())
    );
    assert_eq!(resolve("/abs.md", Some("/docs")), LinkTarget::LocalFile("/abs.md".to_string()));
    assert_eq!(
        resolve("x.md#Top Part", None),
        LinkTarget::FileAnchor("x.md".to_string(), "top-part".to_string())
    );
    // An empty scheme is none.
    assert_eq!(resolve("://x", None), LinkTarget::LocalFile("://x".to_string()));
}

fn link(line: usize, col_start: usize, col_end: usize) -> LinkSpan {
    LinkSpan { line, col_start, col_end, target: LinkTarget::Anchor("a".to_string()) }
}

#[test]
fn links_are_found_by_place() {
    let mut map = LinkMap::default();
    map.links = vec![link(0, 2, 5), link(0, 8, 9), link(3, 0, 4)];
    assert_eq!(map.at(0, 2), Some(0));
    assert_eq!(map.at(0, 5), None);
    assert_eq!(map.at(3, 3), Some(2));
    assert_eq!(map.next_from(0, 2), Some(0));
    assert_eq!(map.next_from(0, 3), Some(1));
    assert_eq!(map.next_from(0, 9), Some(2));
    assert_eq!(map.next_from(3, 0), Some(2));
    assert_eq!(map.next_from(3, 1), None);
    assert_eq!(map.prev_from(3, 0), Some(1));
    assert_eq!(map.prev_from(0, 8), Some(0));
    assert_eq!(map.prev_from(0, 4), None);
}

#[test]
fn overlapping_links_give_the_first() {
    let mut map = LinkMap::default();
    map.links = vec![link(1, 0, 6), link(1, 3, 9)];
    assert_eq!(map.at(1, 4), Some(0));
    assert_eq!(map.at(1, 7), Some(1));
}

#[test]
fn table_clicks_tell_borders_headers_and_cells() {
    let map = TableMap {
        regions: vec![TableRegion {
            id: 7,
            line_start: 2,
            line_end: 8,
            border_lines: vec![2, 4, 7],
            header_start: 3,
            header_end: 4,
            col_x: vec![(1, 5), (6, 10)],
            border_x: vec![0, 5, 10],
            body_rows: vec![(5, 6), (6, 7)],
        }],
    };
    assert_eq!(map.hit(1, 2), None);
    assert_eq!(map.hit(8, 2), None);
    assert_eq!(map.hit(4, 2), Some((7, TableHit::All)));
    assert_eq!(map.hit(5, 5), Some((7, TableHit::All)));
    assert_eq!(map.hit(3, 7), Some((7, TableHit::Column(1))));
    assert_eq!(map.hit(6, 1), Some((7, TableHit::Cell(1, 0))));
    assert_eq!(map.hit(6, 40), Some((7, TableHit::All)));
}

#[test]
fn an_expansion_is_empty_until_something_is_expanded() {
    let mut e = TableExpand::default();
    assert!(e.is_empty());
    e.cells.insert((0, 1));
    assert!(!e.is_empty());
    e.cells.remove(&(0, 1));
    e.cols.insert(3);
    assert!(!e.is_empty());
    e.cols.remove(&3);
    e.all = true;
    assert!(!e.is_empty());
}

#[test]
fn slugs_are_clean() {
    for (text, slug) in [
        ("  Hello,  World_! ", "hello-world"),
        ("--a--B__c--", "a-b-c"),
        ("v1.2 (beta)", "v12-beta"),
        ("!?", ""),
        ("Ünïcode Ok", "ünïcode-ok"),
    ] {
        assert_eq!(slugify(text), slug);
        assert_eq!(slugify(slug), slug);
    }
}

use serve_dir::listing::{breadcrumbs, directory_link, entry_row, listing_page, EntryInfo, EntryKind, Link};
use serve_dir::resolve::split_request_path;

fn pairs(links: &[Link]) -> Vec<(String, String)> {
    links.iter().map(|l| (l.href.clone(), l.text.clone())).collect()
}

#[test]
fn listing_of_root_with_file_and_directory() {
    let segs = split_request_path("/").unwrap();
    let entries = vec![
        EntryInfo { name: Some("a.txt".to_string()), kind: EntryKind::File(3) },
        EntryInfo { name: Some("b".to_string()), kind: EntryKind::Directory },
    ];
    let page = listing_page(&segs, &entries);
    assert_eq!(page.title, "Directory contents");
    assert_eq!(page.rows.len(), 2);
    assert_eq!(page.rows[0].href, "/a.txt");
    assert_eq!(page.rows[0].name, "a.txt");
    assert_eq!(page.rows[0].size, "3 B");
    assert_eq!(page.rows[1].href, "/b/");
    assert_eq!(page.rows[1].name, "b");
    assert_eq!(page.rows[1].size, "");
    assert_eq!(pairs(&page.crumbs), vec![("/".to_string(), "/".to_string())]);
}

#[test]
fn breadcrumbs_of_nested_directory() {
    let segs = split_request_path("/x/y/").unwrap();
    let crumbs = pairs(&breadcrumbs(&segs));
    assert_eq!(
        crumbs,
        vec![
            ("/".to_string(), "/".to_string()),
            ("/x".to_string(), "x".to_string()),
            ("/x/y".to_string(), "y".to_string()),
        ]
    );
}

#[test]
fn unnamed_entries_are_skipped_and_order_kept() {
    let segs = split_request_path("/docs").unwrap();
    let entries = vec![
        EntryInfo { name: Some("z.bin".to_string()), kind: EntryKind::File(2_000) },
        EntryInfo { name: None, kind: EntryKind::File(1) },
        EntryInfo { name: Some("link".to_string()), kind: EntryKind::Unknown },
    ];
    let page = listing_page(&segs, &entries);
    assert_eq!(page.rows.len(), 2);
    assert_eq!(page.rows[0].href, "/docs/z.bin");
    assert_eq!(page.rows[0].size, "2.0 kB");
    assert_eq!(page.rows[1].href, "/docs/link");
    assert_eq!(page.rows[1].size, "");
}

#[test]
fn empty_directory_has_no_rows() {
    let segs = split_request_path("/empty/").unwrap();
    let page = listing_page(&segs, &Vec::new());
    assert!(page.rows.is_empty());
    assert_eq!(pairs(&page.crumbs).len(), 2);
}

#[test]
fn entry_row_under_base() {
    let e = EntryInfo { name: Some("sub".to_string()), kind: EntryKind::Directory };
    let row = entry_row("/a/b", &e).unwrap();
    assert_eq!(row.href, "/a/b/sub/");
    assert!(entry_row("/a", &EntryInfo { name: None, kind: EntryKind::Directory }).is_none());
}

#[test]
fn links_are_percent_encoded() {
    let segs = split_request_path("/my docs/").unwrap();
    assert_eq!(segs, vec!["my docs".to_string()]);
    let entries = vec![
        EntryInfo { name: Some("50% #1?.txt".to_string()), kind: EntryKind::File(1_234) },
        EntryInfo { name: Some("caf\u{e9}".to_string()), kind: EntryKind::Directory },
    ];
    let page = listing_page(&segs, &entries);
    assert_eq!(page.rows[0].href, "/my%20docs/50%25%20%231%3F.txt");
    assert_eq!(page.rows[0].name, "50% #1?.txt");
    assert_eq!(page.rows[0].size, "1.2 kB");
    assert_eq!(page.rows[1].href, "/my%20docs/caf%C3%A9/");
    assert_eq!(
        pairs(&page.crumbs),
        vec![
            ("/".to_string(), "/".to_string()),
            ("/my%20docs".to_string(), "my docs".to_string()),
        ]
    );
}

#[test]
fn directory_link_of_root_is_empty() {
    assert_eq!(directory_link(&Vec::new()), "");
    assert_eq!(directory_link(&vec!["a".to_string(), "b c".to_string()]), "/a/b%20c");
}

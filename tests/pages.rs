use mdbook_server::listing::{page_entry, sort_pages, static_listing, timestamp_of, title_of};
use mdbook_server::nav::{get_nav_links, html_file_name, is_markdown_name, page_nav_links, to_static_links};
use mdbook_server::page::page_filename;

fn names(v: &[&str]) -> Vec<String> {
    v.iter().map(|s| s.to_string()).collect()
}

fn dir() -> Vec<String> {
    names(&["c@2024-03-01.md", "SUMMARY.md", "a@2024-01-01.md", "notes.txt", "b@2024-06-01.md"])
}

fn some(s: &str) -> Option<String> {
    Some(s.to_string())
}

#[test]
fn timestamp_follows_the_at_sign() {
    assert_eq!(timestamp_of("a@2024-01-01.md"), "2024-01-01");
    assert_eq!(timestamp_of("x@2024.01.md"), "2024");
    assert_eq!(timestamp_of("plain.md"), "Invalid Date");
    assert_eq!(timestamp_of("a@b@c.md"), "b@c");
}

#[test]
fn title_drops_marks_and_space() {
    assert_eq!(title_of("## Hello World  \n"), "Hello World");
    assert_eq!(title_of("#"), "");
    assert_eq!(title_of("Plain"), "Plain");
    assert_eq!(title_of("  # not a mark"), "# not a mark");
}

#[test]
fn unreadable_file_is_titled_by_name() {
    let p = page_entry("a@2024-01-01.md", None);
    assert_eq!(p.title, "a@2024-01-01.md");
    assert_eq!(p.datetime, "2024-01-01");
    let q = page_entry("a@2024-01-01.md", Some("# Alpha\n".to_string()));
    assert_eq!(q.title, "Alpha");
    assert_eq!(q.filename, "a@2024-01-01.md");
}

#[test]
fn listing_is_most_recent_first() {
    let pages = vec![
        page_entry("a@2024-01-01.md", Some("# A".to_string())),
        page_entry("b@2024-06-01.md", Some("# B".to_string())),
        page_entry("c@2024-03-01.md", Some("# C".to_string())),
    ];
    let sorted = sort_pages(pages);
    let order: Vec<&str> = sorted.iter().map(|p| p.title.as_str()).collect();
    assert_eq!(order, vec!["B", "C", "A"]);
}

#[test]
fn equal_timestamps_sort_by_name() {
    let pages = vec![
        page_entry("z.md", None),
        page_entry("m@2024-01-01.md", None),
        page_entry("b.md", None),
    ];
    let sorted = sort_pages(pages);
    let order: Vec<&str> = sorted.iter().map(|p| p.filename.as_str()).collect();
    assert_eq!(order, vec!["b.md", "z.md", "m@2024-01-01.md"]);
    assert!(sort_pages(Vec::new()).is_empty());
}

#[test]
fn navigation_follows_file_names() {
    let files = dir();
    assert_eq!(get_nav_links(&files, "b@2024-06-01.md"), (some("a@2024-01-01.md"), some("c@2024-03-01.md")));
    assert_eq!(get_nav_links(&files, "a@2024-01-01.md"), (some("."), some("b@2024-06-01.md")));
    assert_eq!(get_nav_links(&files, "c@2024-03-01.md"), (some("b@2024-06-01.md"), None));
}

#[test]
fn navigation_of_unknown_or_summary_is_empty() {
    let files = dir();
    assert_eq!(get_nav_links(&files, "missing.md"), (None, None));
    assert_eq!(get_nav_links(&files, "SUMMARY.md"), (None, None));
    assert_eq!(get_nav_links(&files, "notes.txt"), (None, None));
    assert_eq!(get_nav_links(&names(&["only.md"]), "only.md"), (some("."), None));
}

#[test]
fn static_export_links_to_generated_files() {
    let files = dir();
    assert_eq!(
        page_nav_links(&files, "a@2024-01-01.md", true, true),
        (some("index.html"), some("b@2024-06-01.html"))
    );
    assert_eq!(
        page_nav_links(&files, "b@2024-06-01.md", true, true),
        (some("a@2024-01-01.html"), some("c@2024-03-01.html"))
    );
    assert_eq!(
        page_nav_links(&files, "a@2024-01-01.md", true, false),
        (some("."), some("b@2024-06-01.md"))
    );
    assert_eq!(page_nav_links(&files, "a@2024-01-01.md", false, true), (None, None));
    assert_eq!(to_static_links(some("."), None), (some("index.html"), None));
    assert_eq!(html_file_name("x.md"), "x.html");
    assert_eq!(html_file_name("a.md.md"), "a.md.html");
    assert_eq!(html_file_name("notes.txt"), "notes.txt");
}

#[test]
fn markdown_names_have_the_extension() {
    assert!(is_markdown_name("a.md"));
    assert!(is_markdown_name("a@2024-01-01.md"));
    assert!(!is_markdown_name(".md"));
    assert!(!is_markdown_name("md"));
    assert!(!is_markdown_name("a.txt"));
}

#[test]
fn static_listing_renames_files() {
    let pages = vec![page_entry("a@2024-01-01.md", Some("# A".to_string()))];
    let out = static_listing(pages);
    assert_eq!(out.len(), 1);
    assert_eq!(out[0].filename, "a@2024-01-01.html");
    assert_eq!(out[0].title, "A");
    assert_eq!(out[0].datetime, "2024-01-01");
}

#[test]
fn extension_is_optional_in_requests() {
    assert_eq!(page_filename("foo"), "foo.md");
    assert_eq!(page_filename("foo.md"), "foo.md");
    assert_eq!(page_filename("foo"), page_filename("foo.md"));
    assert_eq!(page_filename(""), ".md");
}

use second_brain_tools::{
    encode_name, encode_path_preserving_slashes, extract_bookmark_files,
    extract_title_from_bookmarks, generate_bookmark_html, merge_bookmarks,
    parse_existing_bookmarks, scan_directory, system_time_to_unix_timestamp, BookmarkEntry,
    BookmarkFile, BookmarkFolder, BookmarkItem, DirEntry, EntryKind, ScannedDir, ScannedFile,
};
use std::time::{Duration, SystemTime};

fn file(name: &str, add: u64, lm: u64) -> ScannedFile {
    ScannedFile { name: name.to_string(), add_date: add, last_modified: lm }
}

fn link(name: &str, href: &str, add: u64, lm: u64, desc: Option<&str>) -> BookmarkItem {
    BookmarkItem::Link(BookmarkEntry {
        name: name.to_string(),
        href: href.to_string(),
        add_date: add,
        last_modified: lm,
        description: desc.map(|d| d.to_string()),
    })
}

fn entry(name: &str, href: &str, add: u64, lm: u64, desc: Option<&str>) -> BookmarkEntry {
    BookmarkEntry {
        name: name.to_string(),
        href: href.to_string(),
        add_date: add,
        last_modified: lm,
        description: desc.map(|d| d.to_string()),
    }
}

const PREAMBLE: &str = "<!DOCTYPE NETSCAPE-Bookmark-file-1>\n<META HTTP-EQUIV=\"Content-Type\" CONTENT=\"text/html; charset=UTF-8\">\n<!-- This is an automatically generated file. It will be read and modified by automated tools. Edit only if you understand the risks -->\n<TITLE>Bookmarks</TITLE>\n";

#[test]
fn empty_folder_gives_empty_index() {
    let merged = merge_bookmarks(Vec::new(), &Vec::new(), &Vec::new());
    assert!(merged.is_empty());
    let html = generate_bookmark_html("photos", &merged);
    assert_eq!(html, format!("{}<H1>photos</H1>\n<DL><p>\n</DL><p>\n", PREAMBLE));
    assert!(parse_existing_bookmarks(&html).is_empty());
}

#[test]
fn new_files_become_links_in_order() {
    let files = vec![file("a.jpg", 10, 11), file("b.jpg", 20, 21)];
    let merged = merge_bookmarks(Vec::new(), &files, &Vec::new());
    assert_eq!(
        merged,
        vec![link("a.jpg", "a.jpg", 10, 11, None), link("b.jpg", "b.jpg", 20, 21, None)]
    );
}

#[test]
fn caption_is_kept_and_new_file_appended() {
    let text = format!(
        "{}<H1>photos</H1>\n<DL><p>\n    <DT><A HREF=\"a.jpg\" ADD_DATE=\"1\" LAST_MODIFIED=\"2\">a.jpg</A>\n    <DD>sunset\n</DL><p>\n",
        PREAMBLE
    );
    let existing = parse_existing_bookmarks(&text);
    assert_eq!(existing, vec![link("a.jpg", "a.jpg", 1, 2, Some("sunset"))]);
    let files = vec![file("a.jpg", 5, 6), file("b.jpg", 7, 8)];
    let merged = merge_bookmarks(existing, &files, &Vec::new());
    assert_eq!(
        merged,
        vec![link("a.jpg", "a.jpg", 1, 2, Some("sunset")), link("b.jpg", "b.jpg", 7, 8, None)]
    );
}

#[test]
fn existing_folder_is_extended_in_place() {
    let existing = vec![BookmarkItem::Folder(BookmarkFolder {
        name: "2023".to_string(),
        last_modified: 1700,
        entries: vec![entry("a.jpg", "2023/a.jpg", 1, 2, Some("old"))],
    })];
    let dirs = vec![ScannedDir {
        name: "2023".to_string(),
        last_modified: 9999,
        files: vec![file("a.jpg", 3, 4), file("c.jpg", 5, 6)],
    }];
    let merged = merge_bookmarks(existing, &Vec::new(), &dirs);
    assert_eq!(
        merged,
        vec![BookmarkItem::Folder(BookmarkFolder {
            name: "2023".to_string(),
            last_modified: 1700,
            entries: vec![
                entry("a.jpg", "2023/a.jpg", 1, 2, Some("old")),
                entry("c.jpg", "2023/c.jpg", 5, 6, None),
            ],
        })]
    );
}

#[test]
fn new_subdirectory_becomes_folder() {
    let dirs = vec![ScannedDir {
        name: "my trip".to_string(),
        last_modified: 42,
        files: vec![file("x y.jpg", 1, 2)],
    }];
    let merged = merge_bookmarks(vec![link("a.jpg", "a.jpg", 1, 1, None)], &Vec::new(), &dirs);
    assert_eq!(
        merged,
        vec![
            link("a.jpg", "a.jpg", 1, 1, None),
            BookmarkItem::Folder(BookmarkFolder {
                name: "my trip".to_string(),
                last_modified: 42,
                entries: vec![entry("x y.jpg", "my%20trip/x%20y.jpg", 1, 2, None)],
            }),
        ]
    );
}

#[test]
fn bare_ampersand_line_is_skipped() {
    let text = format!(
        "{}<H1>t</H1>\n<DL><p>\n    <DT><A HREF=\"a&b.jpg\" ADD_DATE=\"1\" LAST_MODIFIED=\"2\">a&b.jpg</A>\n    <DT><A HREF=\"ok.jpg\" ADD_DATE=\"3\" LAST_MODIFIED=\"4\">ok.jpg</A>\n    <DT><A HREF=\"q?x=1&amp;y=2\">q</A>\n    <DT><A HREF=\"\">empty</A>\n    <DT><A HREF=\"c.jpg\">c.jpg\n</DL><p>\n",
        PREAMBLE
    );
    let items = parse_existing_bookmarks(&text);
    assert_eq!(
        items,
        vec![link("ok.jpg", "ok.jpg", 3, 4, None), link("q", "q?x=1&amp;y=2", 0, 0, None)]
    );
}

#[test]
fn unparseable_text_gives_no_items() {
    assert!(parse_existing_bookmarks("").is_empty());
    assert!(parse_existing_bookmarks("<html><body>hello</body></html>").is_empty());
    let no_close = format!("{}<H1>t</H1>\n<DL><p>\n    <DT><A HREF=\"a\">a</A>\n", PREAMBLE);
    assert!(parse_existing_bookmarks(&no_close).is_empty());
}

#[test]
fn missing_and_oversized_dates_read_as_zero() {
    let text = "<H1>t</H1>\n<DL><p>\n<DT><A HREF=\"a\" LAST_MODIFIED=\"7\">a</A>\n<DT><A HREF=\"b\" ADD_DATE=\"99999999999999999999\">b</A>\n</DL><p>";
    let items = parse_existing_bookmarks(text);
    assert_eq!(items, vec![link("a", "a", 0, 7, None), link("b", "b", 0, 0, None)]);
}

#[test]
fn round_trip_of_mixed_items() {
    let items = vec![
        link("a.jpg", "a.jpg", 1700000000, 1700000001, Some("a caption")),
        BookmarkItem::Folder(BookmarkFolder {
            name: "2023".to_string(),
            last_modified: 18446744073709551615,
            entries: vec![
                entry("b.jpg", "2023/b.jpg", 0, 5, None),
                entry("c d.jpg", "2023/c%20d.jpg", 6, 7, Some("")),
            ],
        }),
        link("e & f", "e%20%26%20f", 8, 9, None),
        BookmarkItem::Folder(BookmarkFolder {
            name: "empty".to_string(),
            last_modified: 3,
            entries: Vec::new(),
        }),
    ];
    let html = generate_bookmark_html("My Photos", &items);
    assert_eq!(parse_existing_bookmarks(&html), items);
}

#[test]
fn rendered_lines_have_expected_shape() {
    let items = vec![
        link("a.jpg", "a.jpg", 1, 2, Some("sunset")),
        BookmarkItem::Folder(BookmarkFolder {
            name: "2023".to_string(),
            last_modified: 3,
            entries: vec![entry("c.jpg", "2023/c.jpg", 4, 5, None)],
        }),
    ];
    let html = generate_bookmark_html("f", &items);
    let expected = format!(
        "{}<H1>f</H1>\n<DL><p>\n    <DT><A HREF=\"a.jpg\" ADD_DATE=\"1\" LAST_MODIFIED=\"2\">a.jpg</A>\n    <DD>sunset\n    <DT><H3 LAST_MODIFIED=\"3\">2023</H3>\n    <DL><p>\n        <DT><A HREF=\"2023/c.jpg\" ADD_DATE=\"4\" LAST_MODIFIED=\"5\">c.jpg</A>\n    </DL><p>\n</DL><p>\n",
        PREAMBLE
    );
    assert_eq!(html, expected);
}

#[test]
fn merge_twice_through_the_file_is_stable() {
    let files = vec![file("a.jpg", 1, 2), file("b c.jpg", 3, 4)];
    let dirs = vec![ScannedDir {
        name: "2023".to_string(),
        last_modified: 5,
        files: vec![file("d.jpg", 6, 7)],
    }];
    let first = merge_bookmarks(Vec::new(), &files, &dirs);
    let html = generate_bookmark_html("folder", &first);
    let second = merge_bookmarks(parse_existing_bookmarks(&html), &files, &dirs);
    assert_eq!(first, second);
    assert_eq!(generate_bookmark_html("folder", &second), html);
}

#[test]
fn merge_never_duplicates_hrefs() {
    let existing = vec![link("a.jpg", "a.jpg", 1, 1, Some("keep"))];
    let files = vec![file("a.jpg", 2, 2), file("a.jpg", 3, 3), file("b.jpg", 4, 4)];
    let merged = merge_bookmarks(existing, &files, &Vec::new());
    assert_eq!(
        merged,
        vec![link("a.jpg", "a.jpg", 1, 1, Some("keep")), link("b.jpg", "b.jpg", 4, 4, None)]
    );
}

#[test]
fn folder_heading_without_list_has_no_entries() {
    let text = "<H1>t</H1>\n<DL><p>\n<DT><H3 ADD_DATE=\"1\" LAST_MODIFIED=\"2\">x</H3>\n<DT><A HREF=\"a\">a</A>\n<DT><H3>y</H3>\n<DL><p>\n<DT><H3>nested</H3>\n<DT><A HREF=\"b\">b</A>\n<DD>  cap  \n</DL><p>\n</DL><p>\n";
    let items = parse_existing_bookmarks(text);
    assert_eq!(
        items,
        vec![
            BookmarkItem::Folder(BookmarkFolder {
                name: "x".to_string(),
                last_modified: 2,
                entries: Vec::new(),
            }),
            link("a", "a", 0, 0, None),
            BookmarkItem::Folder(BookmarkFolder {
                name: "y".to_string(),
                last_modified: 0,
                entries: vec![entry("b", "b", 0, 0, Some("cap"))],
            }),
        ]
    );
}

#[test]
fn scan_filters_and_sorts() {
    let entries = vec![
        DirEntry { name: "b.jpg".to_string(), kind: EntryKind::File },
        DirEntry { name: ".hidden".to_string(), kind: EntryKind::File },
        DirEntry { name: "index.html".to_string(), kind: EntryKind::File },
        DirEntry { name: "Z.jpg".to_string(), kind: EntryKind::File },
        DirEntry { name: "a.jpg".to_string(), kind: EntryKind::File },
        DirEntry { name: "2024".to_string(), kind: EntryKind::Dir },
        DirEntry { name: ".git".to_string(), kind: EntryKind::Dir },
        DirEntry { name: "2023".to_string(), kind: EntryKind::Dir },
        DirEntry { name: "socket".to_string(), kind: EntryKind::Other },
    ];
    let (files, dirs) = scan_directory(&entries, "index.html", true);
    assert_eq!(files, vec!["Z.jpg", "a.jpg", "b.jpg"]);
    assert_eq!(dirs, vec!["2023", "2024"]);
    let (files2, dirs2) = scan_directory(&entries, "index.html", false);
    assert_eq!(files2, files);
    assert!(dirs2.is_empty());
}

#[test]
fn encoding_escapes_reserved_bytes() {
    assert_eq!(encode_name(&"a b&c.jpg".to_string()), "a%20b%26c.jpg");
    assert_eq!(encode_name(&"é-_.~".to_string()), "%C3%A9-_.~");
    let segs = vec!["my dir".to_string(), "c d.jpg".to_string()];
    assert_eq!(encode_path_preserving_slashes(&segs), "my%20dir/c%20d.jpg");
    assert_eq!(encode_path_preserving_slashes(&Vec::new()), "");
}

#[test]
fn title_is_first_one_line_heading() {
    assert_eq!(extract_title_from_bookmarks("x<H1>Photos 2023</H1>y<H1>b</H1>"), "Photos 2023");
    assert_eq!(extract_title_from_bookmarks("<H1>a\nb</H1><H1>c</H1>"), "c");
    assert_eq!(extract_title_from_bookmarks("no heading"), "Untitled");
    assert_eq!(extract_title_from_bookmarks("<H1></H1>"), "");
}

#[test]
fn flatten_inlines_folders() {
    let items = vec![
        link("a", "a.jpg", 0, 0, Some("cap")),
        BookmarkItem::Folder(BookmarkFolder {
            name: "f".to_string(),
            last_modified: 0,
            entries: vec![entry("b", "f/b.jpg", 0, 0, None)],
        }),
        link("c", "c.jpg", 0, 0, None),
    ];
    let files = extract_bookmark_files(&items);
    assert_eq!(
        files,
        vec![
            BookmarkFile { href: "a.jpg".into(), name: "a".into(), caption: Some("cap".into()) },
            BookmarkFile { href: "f/b.jpg".into(), name: "b".into(), caption: None },
            BookmarkFile { href: "c.jpg".into(), name: "c".into(), caption: None },
        ]
    );
}

#[test]
fn timestamps_count_whole_seconds() {
    let t = SystemTime::UNIX_EPOCH + Duration::from_millis(5_900);
    assert_eq!(system_time_to_unix_timestamp(t), 5);
    let before = SystemTime::UNIX_EPOCH - Duration::from_secs(10);
    assert_eq!(system_time_to_unix_timestamp(before), 0);
}

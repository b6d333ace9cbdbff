use second_brain_tools::{
    build_album_index, folder_depth_error, is_hidden, parse_image_sizes, photo_record,
    should_descend, tree_rows, BookmarkFile, ImageSize, PhotoRecord, SizeRecord, TreeNode,
};

fn size(name: &str, w: u32, h: u32) -> ImageSize {
    ImageSize { filename: name.to_string(), width: w, height: h }
}

#[test]
fn identify_output_is_read_line_by_line() {
    let out = "a.jpg,800,600\nbad line\nb.rs.jpg,+20,0010\r\nc.jpg,1,2,3\nd.jpg,,5\ne.jpg,4294967295,1\nf.jpg,4294967296,1\ng.jpg,-1,2\nh.jpg,3,4\r";
    assert_eq!(
        parse_image_sizes(out),
        vec![size("a.jpg", 800, 600), size("b.rs.jpg", 20, 10), size("e.jpg", 4294967295, 1)]
    );
    assert!(parse_image_sizes("").is_empty());
    assert_eq!(parse_image_sizes(",1,2\n"), vec![size("", 1, 2)]);
}

#[test]
fn folder_depth_is_bounded() {
    assert_eq!(folder_depth_error(None), None);
    assert_eq!(folder_depth_error(Some(0)), None);
    assert_eq!(folder_depth_error(Some(64)), None);
    assert_eq!(folder_depth_error(Some(65)), Some(65));
}

#[test]
fn album_search_depth_rule() {
    assert!(should_descend(0, None));
    assert!(should_descend(1000, None));
    assert!(should_descend(1, Some(2)));
    assert!(!should_descend(2, Some(2)));
    assert!(!should_descend(0, Some(0)));
}

#[test]
fn hidden_names_start_with_a_dot() {
    assert!(is_hidden(".git"));
    assert!(is_hidden("."));
    assert!(!is_hidden("a.b"));
    assert!(!is_hidden(""));
}

fn node(name: &str, size: u64, time: &str, contents: Option<Vec<TreeNode>>) -> TreeNode {
    TreeNode {
        node_type: "directory".to_string(),
        name: name.to_string(),
        size,
        time: time.to_string(),
        contents,
    }
}

#[test]
fn tree_rows_list_full_paths() {
    let tree = node(
        "/Users/ojas/GDrive",
        99984167157,
        "2023-08-23",
        Some(vec![
            node("2021-06 IG Posts.gsheet", 168, "2021-07-07", None),
            node(
                "Archive",
                577632,
                "2019-02-08",
                Some(vec![node("XÚÖ.gsite", 157, "2018-05-10", None)]),
            ),
            node("Empty", 0, "2020-01-01", Some(Vec::new())),
        ]),
    );
    assert_eq!(
        tree_rows(&tree, &String::new()),
        vec![
            "/Users/ojas/GDrive\t99984167157\t2023-08-23",
            "/Users/ojas/GDrive/2021-06 IG Posts.gsheet\t168\t2021-07-07",
            "/Users/ojas/GDrive/Archive\t577632\t2019-02-08",
            "/Users/ojas/GDrive/Archive/XÚÖ.gsite\t157\t2018-05-10",
            "/Users/ojas/GDrive/Empty\t0\t2020-01-01",
        ]
    );
}

fn sized(suffix: &str, name: &str, w: Option<u32>, h: Option<u32>) -> SizeRecord {
    SizeRecord { suffix: suffix.to_string(), filename: name.to_string(), width: w, height: h }
}

#[test]
fn photo_record_names_resized_copies() {
    let dims = vec![size("a.jpg", 1, 2), size("a.rs.jpg", 3, 4), size("a.jpg", 5, 6)];
    let suffixes = vec!["rs".to_string(), "thumb".to_string()];
    let rec = photo_record(
        "a.jpg".to_string(),
        &"a".to_string(),
        &"jpg".to_string(),
        Some("cap".to_string()),
        &dims,
        &suffixes,
    );
    assert_eq!(
        rec,
        PhotoRecord {
            filename: "a.jpg".to_string(),
            width: Some(5),
            height: Some(6),
            caption: Some("cap".to_string()),
            sizes: vec![
                sized("rs", "a.rs.jpg", Some(3), Some(4)),
                sized("thumb", "a.thumb.jpg", None, None),
            ],
        }
    );
}

#[test]
fn album_index_decodes_hrefs_to_file_names() {
    let files = vec![
        BookmarkFile { href: "2023/c%20d.jpg".into(), name: "c d.jpg".into(), caption: Some("x".into()) },
        BookmarkFile { href: "%FF".into(), name: "odd".into(), caption: None },
        BookmarkFile { href: "README".into(), name: "README".into(), caption: None },
    ];
    let dims = vec![size("c d.jpg", 10, 20), size("c d.s.jpg", 1, 2)];
    let suffixes = vec!["s".to_string()];
    let recs = build_album_index(&files, &dims, &suffixes);
    assert_eq!(
        recs,
        vec![
            PhotoRecord {
                filename: "c d.jpg".into(),
                width: Some(10),
                height: Some(20),
                caption: Some("x".into()),
                sizes: vec![sized("s", "c d.s.jpg", Some(1), Some(2))],
            },
            PhotoRecord {
                filename: "%FF".into(),
                width: None,
                height: None,
                caption: None,
                sizes: vec![sized("s", "%FF.s.", None, None)],
            },
            PhotoRecord {
                filename: "README".into(),
                width: None,
                height: None,
                caption: None,
                sizes: vec![sized("s", "README.s.", None, None)],
            },
        ]
    );
}

#[test]
fn album_index_splits_stems_at_the_last_dot() {
    let files = vec![
        BookmarkFile { href: ".bashrc".into(), name: "b".into(), caption: None },
        BookmarkFile { href: "a.tar.gz".into(), name: "a".into(), caption: None },
    ];
    let suffixes = vec!["s".to_string()];
    let recs = build_album_index(&files, &Vec::new(), &suffixes);
    assert_eq!(recs[0].filename, ".bashrc");
    assert_eq!(recs[0].sizes, vec![sized("s", ".bashrc.s.", None, None)]);
    assert_eq!(recs[1].filename, "a.tar.gz");
    assert_eq!(recs[1].sizes, vec![sized("s", "a.tar.s.gz", None, None)]);
}

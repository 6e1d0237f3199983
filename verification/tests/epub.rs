use epub_translator::epub::{
    archive_plan, get_xhtml_paths, path_has_extension, path_is_xhtml, unpacked_kind,
    ArchiveEntry, Compression, FolderEntry, Unpacked, ENTRY_PERMISSIONS, MIMETYPE_PERMISSIONS,
};

fn file(name: &str) -> FolderEntry {
    FolderEntry { name: name.to_string(), is_file: true }
}

fn dir(name: &str) -> FolderEntry {
    FolderEntry { name: name.to_string(), is_file: false }
}

fn shape(e: &ArchiveEntry) -> (&str, bool, Compression, u32) {
    (e.name.as_str(), e.is_file, e.compression, e.unix_permissions)
}

#[test]
fn test_get_xhtml_paths() {
    // What a walk through the folder of an unpacked book finds.
    let mut files = vec![
        "tests/data/epub_folder/mimetype".to_string(),
        "tests/data/epub_folder/META-INF/container.xml".to_string(),
        "tests/data/epub_folder/OEBPS/content.opf".to_string(),
        "tests/data/epub_folder/OEBPS/toc.ncx".to_string(),
        "tests/data/epub_folder/OEBPS/styles/main.css".to_string(),
        "tests/data/epub_folder/OEBPS/images/cover.jpg".to_string(),
    ];
    for chapter in 1..=9 {
        files.push(format!("tests/data/epub_folder/OEBPS/text/chapter{}.xhtml", chapter));
    }
    files.push("tests/data/epub_folder/OEBPS/text/nav.html".to_string());
    let xhtml_files = get_xhtml_paths(&files);
    assert_eq!(xhtml_files.len(), 10);
}

#[test]
fn xhtml_paths_keep_their_order() {
    let files = vec![
        "b/z.xhtml".to_string(),
        "b/readme.txt".to_string(),
        "a/y.html".to_string(),
        "a/x.XHTML".to_string(),
        "a/x.xhtml".to_string(),
    ];
    assert_eq!(get_xhtml_paths(&files), vec!["b/z.xhtml", "a/y.html", "a/x.xhtml"]);
    assert!(get_xhtml_paths(&Vec::new()).is_empty());
}

#[test]
fn extension_is_matched_exactly() {
    assert!(path_is_xhtml("chapter.xhtml"));
    assert!(path_is_xhtml("dir/chapter.html"));
    assert!(path_is_xhtml("dir.d/a.b.xhtml"));
    assert!(path_is_xhtml("a..html"));
    assert!(!path_is_xhtml("chapter.XHTML"));
    assert!(!path_is_xhtml("chapter.Html"));
    assert!(!path_is_xhtml("chapter.htm"));
    assert!(!path_is_xhtml("chapter.xhtml.bak"));
    assert!(!path_is_xhtml("chapterxhtml"));
    assert!(!path_is_xhtml(".xhtml"));
    assert!(!path_is_xhtml("dir/.html"));
    assert!(!path_is_xhtml("xhtml"));
    assert!(!path_is_xhtml(""));
    assert!(!path_is_xhtml("dir.xhtml/file"));
}

#[test]
fn has_extension_on_characters() {
    let path: Vec<char> = "é/ü.epub".chars().collect();
    let epub: Vec<char> = "epub".chars().collect();
    let empty: Vec<char> = Vec::new();
    assert!(path_has_extension(&path, &epub));
    assert!(!path_has_extension(&epub, &epub));
    assert!(!path_has_extension(&empty, &epub));
    assert!(!path_has_extension(&path, &empty));
    let dotted: Vec<char> = "name.".chars().collect();
    assert!(path_has_extension(&dotted, &empty));
}

#[test]
fn archive_starts_with_stored_mimetype() {
    let found = vec![
        dir(""),
        dir("META-INF"),
        file("META-INF/container.xml"),
        file("mimetype"),
        dir("OEBPS"),
        file("OEBPS/chapter1.xhtml"),
    ];
    let plan = archive_plan(&found);
    let shapes: Vec<_> = plan.iter().map(shape).collect();
    assert_eq!(
        shapes,
        vec![
            ("mimetype", true, Compression::Stored, 0o644),
            ("META-INF", false, Compression::Deflated, 0o755),
            ("META-INF/container.xml", true, Compression::Deflated, 0o755),
            ("OEBPS", false, Compression::Deflated, 0o755),
            ("OEBPS/chapter1.xhtml", true, Compression::Deflated, 0o755),
        ]
    );
    assert_eq!(MIMETYPE_PERMISSIONS, 0o644);
    assert_eq!(ENTRY_PERMISSIONS, 0o755);
}

#[test]
fn archive_without_mimetype_has_no_stored_entry() {
    let plan = archive_plan(&vec![dir(""), file("a.txt"), dir("d"), file("d/mimetype")]);
    let shapes: Vec<_> = plan.iter().map(shape).collect();
    assert_eq!(
        shapes,
        vec![
            ("a.txt", true, Compression::Deflated, 0o755),
            ("d", false, Compression::Deflated, 0o755),
            ("d/mimetype", true, Compression::Deflated, 0o755),
        ]
    );
    assert!(archive_plan(&Vec::new()).is_empty());
    assert!(archive_plan(&vec![dir("")]).is_empty());
}

#[test]
fn archive_has_mimetype_once() {
    let plan = archive_plan(&vec![file("mimetype"), file("z"), file("mimetype")]);
    let shapes: Vec<_> = plan.iter().map(shape).collect();
    assert_eq!(
        shapes,
        vec![
            ("mimetype", true, Compression::Stored, 0o644),
            ("z", true, Compression::Deflated, 0o755),
        ]
    );
}

#[test]
fn entries_ending_in_a_slash_are_directories() {
    assert_eq!(unpacked_kind("OEBPS/"), Unpacked::Directory);
    assert_eq!(unpacked_kind("/"), Unpacked::Directory);
    assert_eq!(unpacked_kind("OEBPS/chapter1.xhtml"), Unpacked::File);
    assert_eq!(unpacked_kind("mimetype"), Unpacked::File);
    assert_eq!(unpacked_kind(""), Unpacked::File);
    assert_eq!(unpacked_kind("a/b\\"), Unpacked::File);
}

use media_catalog::catalog::{media_extension, EntryMetadata};
use media_catalog::index::{build_index, ScannedEntry};
use media_catalog::listing::{list_media_files, ListParams, SortDirection};
use media_catalog::order::SortField;

fn meta(is_file: bool, size: u64, modified: Option<i128>) -> Option<EntryMetadata> {
    Some(EntryMetadata { is_file, size, modified, created: None })
}

fn entry(path: &[&str], metadata: Option<EntryMetadata>) -> ScannedEntry {
    ScannedEntry { relative: path.iter().map(|s| s.to_string()).collect(), metadata }
}

#[test]
fn index_keeps_allowed_extensions_case_insensitively() {
    let entries = vec![
        entry(&["a.mp4"], meta(true, 100, Some(1))),
        entry(&["B.MKV"], meta(true, 200, Some(2))),
        entry(&["skip.txt"], meta(true, 300, Some(3))),
    ];
    let index = build_index(&entries);
    assert_eq!(index.len(), 2);
    assert_eq!(index[0].name, "a.mp4");
    assert_eq!(index[0].path, "/media/a.mp4");
    assert_eq!(index[0].extension, "mp4");
    assert_eq!(index[0].size, 100);
    assert_eq!(index[0].modified, Some(1));
    assert_eq!(index[1].name, "B.MKV");
    assert_eq!(index[1].path, "/media/B.MKV");
    assert_eq!(index[1].extension, "mkv");
    assert_eq!(index[1].size, 200);
}

#[test]
fn index_skips_directories_and_unreadable_entries() {
    let entries = vec![
        entry(&["movies.mp4"], meta(false, 0, None)),
        entry(&["broken.webm"], None),
        entry(&["ok.webm"], meta(true, 5, None)),
    ];
    let index = build_index(&entries);
    assert_eq!(index.len(), 1);
    assert_eq!(index[0].name, "ok.webm");
}

#[test]
fn index_builds_nested_url_paths() {
    let entries = vec![entry(&["shows", "s01", "Ep1.Avi"], meta(true, 7, None))];
    let index = build_index(&entries);
    assert_eq!(index.len(), 1);
    assert_eq!(index[0].path, "/media/shows/s01/Ep1.Avi");
    assert_eq!(index[0].name, "Ep1.Avi");
    assert_eq!(index[0].extension, "avi");
}

#[test]
fn index_refuses_improper_components() {
    let entries = vec![
        entry(&["..", "secret.mp4"], meta(true, 1, None)),
        entry(&[".", "x.mp4"], meta(true, 1, None)),
        entry(&[], meta(true, 1, None)),
    ];
    assert!(build_index(&entries).is_empty());
}

#[test]
fn index_of_empty_walk_is_empty() {
    assert!(build_index(&Vec::new()).is_empty());
}

#[test]
fn extension_rules() {
    assert_eq!(media_extension("clip.MoV"), Some("mov".to_string()));
    assert_eq!(media_extension("archive.tar.webm"), Some("webm".to_string()));
    assert_eq!(media_extension(".mp4"), None);
    assert_eq!(media_extension("mp4"), None);
    assert_eq!(media_extension("movie."), None);
    assert_eq!(media_extension("notes.txt"), None);
}

#[test]
fn url_paths_are_percent_encoded() {
    let entries = vec![
        entry(&["my clips", "a b#1?.mp4"], meta(true, 1, None)),
        entry(&["été.webm"], meta(true, 1, None)),
        entry(&["x~y_z-1.2.mov"], meta(true, 1, None)),
    ];
    let index = build_index(&entries);
    assert_eq!(index.len(), 3);
    assert_eq!(index[0].path, "/media/my%20clips/a%20b%231%3F.mp4");
    assert_eq!(index[0].name, "a b#1?.mp4");
    assert_eq!(index[1].path, "/media/%C3%A9t%C3%A9.webm");
    assert_eq!(index[2].path, "/media/x~y_z-1.2.mov");
}

#[test]
fn end_to_end_scenario() {
    let entries = vec![
        entry(&["skip.txt"], meta(true, 50, Some(0))),
        entry(&["B.MKV"], meta(true, 200, Some(2))),
        entry(&["a.mp4"], meta(true, 100, Some(1))),
    ];
    let index = build_index(&entries);
    assert_eq!(index.len(), 2);
    let mut params = ListParams {
        page: 1,
        page_size: 1,
        sort: SortField::Name,
        dir: SortDirection::Asc,
        query: String::new(),
    };
    let first = list_media_files(&index, &params);
    assert_eq!((first.total, first.total_pages, first.page), (2, 2, 1));
    assert_eq!(first.files.len(), 1);
    assert_eq!(first.files[0].name, "a.mp4");
    params.page = 2;
    let second = list_media_files(&index, &params);
    assert_eq!((second.total, second.total_pages, second.page), (2, 2, 2));
    assert_eq!(second.files.len(), 1);
    assert_eq!(second.files[0].name, "B.MKV");
}

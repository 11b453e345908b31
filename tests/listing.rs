use media_catalog::catalog::MediaFile;
use media_catalog::listing::{
    default_page, default_page_size, list_media_files, ListParams, SortDirection,
};
use media_catalog::order::SortField;

fn file(name: &str, size: u64, modified: Option<i128>, created: Option<i128>) -> MediaFile {
    MediaFile {
        name: name.to_string(),
        path: format!("/media/{}", name),
        size,
        modified,
        created,
        extension: name.rsplit('.').next().unwrap().to_lowercase(),
    }
}

fn params(sort: SortField, dir: SortDirection, page: u32, page_size: u32, query: &str) -> ListParams {
    ListParams { page, page_size, sort, dir, query: query.to_string() }
}

fn names(files: &[MediaFile]) -> Vec<String> {
    files.iter().map(|f| f.name.clone()).collect()
}

fn scenario() -> Vec<MediaFile> {
    vec![file("a.mp4", 100, Some(1), Some(10)), file("B.MKV", 200, Some(2), None)]
}

#[test]
fn name_ascending_first_page() {
    let r = list_media_files(&scenario(), &params(SortField::Name, SortDirection::Asc, 1, 1, ""));
    assert_eq!(r.total, 2);
    assert_eq!(r.total_pages, 2);
    assert_eq!(r.page, 1);
    assert_eq!(names(&r.files), vec!["a.mp4"]);
}

#[test]
fn name_ascending_second_page_keeps_casing() {
    let r = list_media_files(&scenario(), &params(SortField::Name, SortDirection::Asc, 2, 1, ""));
    assert_eq!(r.page, 2);
    assert_eq!(names(&r.files), vec!["B.MKV"]);
}

#[test]
fn empty_index_gives_one_empty_page() {
    for sort in [SortField::Name, SortField::Size, SortField::Created, SortField::LastModified] {
        for dir in [SortDirection::Asc, SortDirection::Desc] {
            let r = list_media_files(&[], &params(sort, dir, 9, 0, "x"));
            assert_eq!(r.total, 0);
            assert_eq!(r.total_pages, 1);
            assert_eq!(r.page, 1);
            assert!(r.files.is_empty());
        }
    }
}

#[test]
fn query_filters_case_insensitively() {
    let all = vec![
        file("Holiday.mp4", 1, None, None),
        file("work.mkv", 2, None, None),
        file("HOLIDAY-2.webm", 3, None, None),
    ];
    let r = list_media_files(&all, &params(SortField::Size, SortDirection::Asc, 1, 10, "holi"));
    assert_eq!(r.total, 2);
    assert_eq!(names(&r.files), vec!["Holiday.mp4", "HOLIDAY-2.webm"]);
    let r = list_media_files(&all, &params(SortField::Size, SortDirection::Asc, 1, 10, "WORK"));
    assert_eq!(names(&r.files), vec!["work.mkv"]);
    let r = list_media_files(&all, &params(SortField::Size, SortDirection::Asc, 1, 10, "zzz"));
    assert_eq!(r.total, 0);
    assert_eq!(r.total_pages, 1);
}

#[test]
fn size_descending_reverses_stable_order() {
    let all = vec![
        file("x.mp4", 5, None, None),
        file("y.mp4", 1, None, None),
        file("z.mp4", 5, None, None),
    ];
    let r = list_media_files(&all, &params(SortField::Size, SortDirection::Asc, 1, 10, ""));
    assert_eq!(names(&r.files), vec!["y.mp4", "x.mp4", "z.mp4"]);
    let r = list_media_files(&all, &params(SortField::Size, SortDirection::Desc, 1, 10, ""));
    assert_eq!(names(&r.files), vec!["z.mp4", "x.mp4", "y.mp4"]);
}

#[test]
fn last_modified_newest_first_absent_last() {
    let all = vec![
        file("old.mp4", 1, Some(10), None),
        file("none.mp4", 1, None, None),
        file("new.mp4", 1, Some(20), None),
    ];
    let r = list_media_files(&all, &params(SortField::LastModified, SortDirection::Asc, 1, 10, ""));
    assert_eq!(names(&r.files), vec!["new.mp4", "old.mp4", "none.mp4"]);
    let r = list_media_files(&all, &params(SortField::LastModified, SortDirection::Desc, 1, 10, ""));
    assert_eq!(names(&r.files), vec!["none.mp4", "old.mp4", "new.mp4"]);
}

#[test]
fn created_absent_first() {
    let all = vec![
        file("late.mp4", 1, None, Some(-5)),
        file("unknown.mp4", 1, None, None),
        file("early.mp4", 1, None, Some(-50)),
    ];
    let r = list_media_files(&all, &params(SortField::Created, SortDirection::Asc, 1, 10, ""));
    assert_eq!(names(&r.files), vec!["unknown.mp4", "early.mp4", "late.mp4"]);
}

#[test]
fn name_order_ignores_case() {
    let all = vec![
        file("banana.mp4", 1, None, None),
        file("Apple.mp4", 1, None, None),
        file("cherry.mp4", 1, None, None),
        file("apple.mov", 1, None, None),
    ];
    let r = list_media_files(&all, &params(SortField::Name, SortDirection::Asc, 1, 10, ""));
    assert_eq!(names(&r.files), vec!["apple.mov", "Apple.mp4", "banana.mp4", "cherry.mp4"]);
    for w in r.files.windows(2) {
        assert!(w[0].name.to_lowercase() <= w[1].name.to_lowercase());
    }
}

#[test]
fn page_is_clamped_into_range() {
    let all: Vec<MediaFile> = (0..7).map(|i| file(&format!("f{}.mp4", i), i, None, None)).collect();
    let r = list_media_files(&all, &params(SortField::Size, SortDirection::Asc, 99, 3, ""));
    assert_eq!(r.total, 7);
    assert_eq!(r.total_pages, 3);
    assert_eq!(r.page, 3);
    assert_eq!(names(&r.files), vec!["f6.mp4"]);
    let r = list_media_files(&all, &params(SortField::Size, SortDirection::Asc, 0, 3, ""));
    assert_eq!(r.page, 1);
    assert_eq!(names(&r.files), vec!["f0.mp4", "f1.mp4", "f2.mp4"]);
}

#[test]
fn pagination_arithmetic_holds_for_small_sizes() {
    for total in 0u64..12 {
        let all: Vec<MediaFile> = (0..total).map(|i| file(&format!("f{}.mp4", i), i, None, None)).collect();
        for page_size in 0u32..6 {
            for page in 0u32..8 {
                let r = list_media_files(&all, &params(SortField::Size, SortDirection::Asc, page, page_size, ""));
                let ps = page_size.max(1) as usize;
                let expected_pages = ((total as usize + ps - 1) / ps).max(1);
                assert_eq!(r.total_pages, expected_pages);
                assert!(r.files.len() <= ps);
                assert!(1 <= r.page && r.page <= r.total_pages);
            }
        }
    }
}

#[test]
fn zero_page_size_means_one() {
    let r = list_media_files(&scenario(), &params(SortField::Name, SortDirection::Asc, 1, 0, ""));
    assert_eq!(r.total_pages, 2);
    assert_eq!(r.files.len(), 1);
}

#[test]
fn defaults() {
    assert_eq!(default_page(), 1);
    assert_eq!(default_page_size(), 50);
    let p = ListParams::default();
    assert_eq!(p.page, 1);
    assert_eq!(p.page_size, 50);
    assert!(p.sort.is_last_modified());
    assert_eq!(p.dir, SortDirection::Asc);
    assert!(p.query.is_empty());
    assert!(SortField::Name.is_name());
    assert!(SortField::Size.is_size());
    assert!(!SortField::Created.is_name());
    assert!(!SortField::Created.is_size());
    assert!(!SortField::Created.is_last_modified());
}

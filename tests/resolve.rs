use media_catalog::catalog::EntryMetadata;
use media_catalog::resolve::{classify_request, resolve_media_file, Rejection};

fn path(parts: &[&str]) -> Vec<String> {
    parts.iter().map(|s| s.to_string()).collect()
}

fn file_meta() -> Option<EntryMetadata> {
    Some(EntryMetadata { is_file: true, size: 42, modified: Some(7), created: None })
}

fn base() -> Vec<String> {
    path(&["srv", "media"])
}

#[test]
fn resolves_file_in_root() {
    let resolved = Some(path(&["srv", "media", "Movie.MP4"]));
    let f = resolve_media_file("Movie.MP4", &base(), &resolved, file_meta()).unwrap();
    assert_eq!(f.name, "Movie.MP4");
    assert_eq!(f.path, "/media/Movie.MP4");
    assert_eq!(f.extension, "mp4");
    assert_eq!(f.size, 42);
    assert_eq!(f.modified, Some(7));
}

#[test]
fn symlink_inside_root_resolves_to_target() {
    let resolved = Some(path(&["srv", "media", "real", "film.mkv"]));
    let f = resolve_media_file("link.mkv", &base(), &resolved, file_meta()).unwrap();
    assert_eq!(f.name, "film.mkv");
    assert_eq!(f.path, "/media/real/film.mkv");
}

#[test]
fn rejects_parent_traversal() {
    let resolved = Some(path(&["srv", "secret.mp4"]));
    assert!(resolve_media_file("../secret.mp4", &base(), &resolved, file_meta()).is_none());
}

#[test]
fn rejects_paths_with_separators() {
    let resolved = Some(path(&["srv", "media", "a", "b.mp4"]));
    assert!(resolve_media_file("a/b.mp4", &base(), &resolved, file_meta()).is_none());
    assert!(resolve_media_file("a\\b.mp4", &base(), &resolved, file_meta()).is_none());
    assert_eq!(
        classify_request("a/b.mp4", &base(), &resolved, file_meta()).unwrap_err(),
        Rejection::InvalidName
    );
}

#[test]
fn rejects_symlink_escaping_root() {
    let resolved = Some(path(&["etc", "secret.mp4"]));
    assert!(resolve_media_file("secret.mp4", &base(), &resolved, file_meta()).is_none());
    assert_eq!(classify_request("x.mp4", &base(), &resolved, file_meta()).unwrap_err(), Rejection::Escaped);
    // a sibling directory sharing the root's name as a prefix is outside it
    let sibling = Some(path(&["srv", "media2", "x.mp4"]));
    assert_eq!(classify_request("x.mp4", &base(), &sibling, file_meta()).unwrap_err(), Rejection::Escaped);
}

#[test]
fn rejects_wrong_extension() {
    let resolved = Some(path(&["srv", "media", "notes.txt"]));
    assert!(resolve_media_file("notes.txt", &base(), &resolved, file_meta()).is_none());
    assert_eq!(
        classify_request("x.mp4", &base(), &resolved, file_meta()).unwrap_err(),
        Rejection::WrongExtension
    );
}

#[test]
fn rejects_missing_file() {
    assert!(resolve_media_file("gone.mp4", &base(), &None, None).is_none());
    assert_eq!(classify_request("x.mp4", &base(), &None, None).unwrap_err(), Rejection::DoesNotExist);
    let resolved = Some(path(&["srv", "media", "gone.mp4"]));
    assert_eq!(classify_request("x.mp4", &base(), &resolved, None).unwrap_err(), Rejection::DoesNotExist);
}

#[test]
fn rejects_directory() {
    let resolved = Some(path(&["srv", "media", "clips.mp4"]));
    let dir = Some(EntryMetadata { is_file: false, size: 0, modified: None, created: None });
    assert!(resolve_media_file("clips.mp4", &base(), &resolved, dir).is_none());
    assert_eq!(classify_request("x.mp4", &base(), &resolved, dir).unwrap_err(), Rejection::NotAFile);
}

#[test]
fn rejects_root_itself() {
    let resolved = Some(base());
    assert!(resolve_media_file(".", &base(), &resolved, file_meta()).is_none());
}

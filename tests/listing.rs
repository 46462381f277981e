use file_renamer::{
    check_directory, extension, is_listed, is_listed_folded, list_directory_files, order_by_keys,
    sort_listing, text_less, DirectoryError, EntryMeta, FileInfo, InfoError,
};

fn info(name: &str, is_directory: bool) -> FileInfo {
    FileInfo::new(
        format!("id-{}", name),
        name.to_string(),
        format!("/d/{}", name),
        is_directory,
        1,
        2,
    )
}

fn entry(name: Option<&str>, is_directory: bool) -> EntryMeta {
    EntryMeta {
        path: format!("/d/{}", name.unwrap_or("")),
        name: name.map(|n| n.to_string()),
        is_directory,
        size: 10,
        last_modified: 1_700_000_000,
    }
}

fn names(files: &[FileInfo]) -> Vec<&str> {
    files.iter().map(|f| f.name.as_str()).collect()
}

fn is_uuid_v4(s: &str) -> bool {
    let c: Vec<char> = s.chars().collect();
    c.len() == 36
        && c.iter().enumerate().all(|(i, ch)| {
            if i == 8 || i == 13 || i == 18 || i == 23 {
                *ch == '-'
            } else {
                ch.is_ascii_digit() || ('a'..='f').contains(ch)
            }
        })
        && c[14] == '4'
        && matches!(c[19], '8' | '9' | 'a' | 'b')
}

#[test]
fn extension_takes_text_after_last_dot() {
    assert_eq!(extension("report.txt"), "txt");
    assert_eq!(extension("archive.tar.gz"), "gz");
    assert_eq!(extension("trailing."), "");
    assert_eq!(extension("..x"), "x");
}

#[test]
fn extension_empty_without_inner_dot() {
    assert_eq!(extension("README"), "");
    assert_eq!(extension(".bashrc"), "");
    assert_eq!(extension(""), "");
    assert_eq!(extension(".."), "");
    assert_eq!(extension("."), "");
}

#[test]
fn new_record_fields() {
    let f = FileInfo::new("x".to_string(), "photo.JPG".to_string(), "/p/photo.JPG".to_string(), false, 42, 99);
    assert_eq!(f.id, "x");
    assert_eq!(f.name, "photo.JPG");
    assert_eq!(f.original_name, "photo.JPG");
    assert_eq!(f.path, "/p/photo.JPG");
    assert_eq!(f.new_name, None);
    assert!(!f.is_directory);
    assert_eq!(f.size, 42);
    assert_eq!(f.last_modified, 99);
    assert_eq!(f.file_type, "JPG");
}

#[test]
fn record_from_entry_gets_fresh_uuid() {
    let e = entry(Some("notes.md"), false);
    let a = FileInfo::from_entry(&e).unwrap();
    let b = FileInfo::from_entry(&e).unwrap();
    assert!(is_uuid_v4(&a.id), "{}", a.id);
    assert!(is_uuid_v4(&b.id), "{}", b.id);
    assert_ne!(a.id, b.id);
    assert_eq!(a.name, "notes.md");
    assert_eq!(a.path, "/d/notes.md");
    assert_eq!(a.file_type, "md");
    assert_eq!(a.size, 10);
    assert_eq!(a.last_modified, 1_700_000_000);
}

#[test]
fn record_from_entry_without_name_fails() {
    let e = entry(None, true);
    assert_eq!(FileInfo::from_entry(&e).err(), Some(InfoError::NoFileName));
}

#[test]
fn hidden_names_only_off_windows() {
    assert!(!is_listed(".git", true, None, false));
    assert!(is_listed(".git", true, None, true));
    assert!(is_listed("src", true, None, false));
}

#[test]
fn desktop_ini_hidden_on_windows_any_case() {
    assert!(!is_listed("Desktop.INI", false, None, true));
    assert!(!is_listed("desktop.ini", false, Some(false), true));
    assert!(is_listed("Desktop.INI", false, None, false));
    assert!(is_listed("desktop.txt", false, None, true));
}

#[test]
fn folded_form_decides_desktop_ini() {
    assert!(!is_listed_folded("X", "desktop.ini", false, None, true));
    assert!(is_listed_folded("Desktop.INI", "Desktop.INI", false, None, true));
}

#[test]
fn files_only_drops_directories() {
    assert!(!is_listed("dir", true, Some(true), false));
    assert!(is_listed("dir", true, Some(false), false));
    assert!(is_listed("dir", true, None, false));
    assert!(is_listed("file", false, Some(true), false));
}

#[test]
fn text_order() {
    assert!(text_less("ab", "b"));
    assert!(text_less("a", "ab"));
    assert!(!text_less("ab", "ab"));
    assert!(!text_less("b", "ab"));
    assert!(text_less("", "a"));
    assert!(!text_less("", ""));
    assert!(text_less("B", "a"));
}

#[test]
fn order_by_keys_directories_first_then_key() {
    let files = vec![info("f2", false), info("d1", true), info("f1", false), info("d0", true)];
    let keys = vec!["b".to_string(), "z".to_string(), "a".to_string(), "y".to_string()];
    let r = order_by_keys(files, keys);
    assert_eq!(names(&r), vec!["d0", "d1", "f1", "f2"]);
}

#[test]
fn order_by_keys_is_stable() {
    let files = vec![info("first", false), info("second", false), info("third", false), info("dir", true)];
    let keys = vec!["k".to_string(), "k".to_string(), "a".to_string(), "k".to_string()];
    let r = order_by_keys(files, keys);
    assert_eq!(names(&r), vec!["dir", "third", "first", "second"]);
}

#[test]
fn order_by_keys_empty() {
    let r = order_by_keys(Vec::new(), Vec::new());
    assert!(r.is_empty());
}

#[test]
fn sort_listing_ignores_case() {
    let files = vec![info("B", false), info("a", false), info("C", true), info("c", false)];
    let r = sort_listing(files);
    assert_eq!(names(&r), vec!["C", "a", "B", "c"]);
}

#[test]
fn sort_listing_equal_lowercase_keeps_order() {
    let files = vec![info("Readme", false), info("README", false), info("readme", false)];
    let r = sort_listing(files);
    assert_eq!(names(&r), vec!["Readme", "README", "readme"]);
}

#[test]
fn listing_filters_and_sorts() {
    let entries = vec![
        entry(Some("zeta.txt"), false),
        entry(Some(".hidden"), false),
        entry(Some("Alpha"), true),
        entry(None, false),
        entry(Some("beta.rs"), false),
        entry(Some("docs"), true),
    ];
    let r = list_directory_files(&entries, None, false);
    assert_eq!(names(&r), vec!["Alpha", "docs", "beta.rs", "zeta.txt"]);
    assert_eq!(r[2].file_type, "rs");
    assert!(r.iter().all(|f| is_uuid_v4(&f.id)));
    let only = list_directory_files(&entries, Some(true), false);
    assert_eq!(names(&only), vec!["beta.rs", "zeta.txt"]);
}

#[test]
fn listing_on_windows_keeps_dot_names_drops_desktop_ini() {
    let entries = vec![
        entry(Some("Desktop.ini"), false),
        entry(Some(".config"), true),
        entry(Some("a.txt"), false),
    ];
    let r = list_directory_files(&entries, None, true);
    assert_eq!(names(&r), vec![".config", "a.txt"]);
}

#[test]
fn listing_of_empty_directory() {
    assert!(list_directory_files(&Vec::new(), Some(true), false).is_empty());
}

#[test]
fn directory_checks() {
    assert_eq!(check_directory(false, false), Err(DirectoryError::Missing));
    assert_eq!(check_directory(true, false), Err(DirectoryError::NotDirectory));
    assert_eq!(check_directory(true, true), Ok(()));
}

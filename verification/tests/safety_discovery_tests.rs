use naudit::discovery::{discover_packages, list_file_labels, relative_label};
use naudit::safety::{remove_dir_tree_check, remove_file_check};
use naudit::MainError;

#[test]
fn rejects_unmarked_directory_path() {
    let r = remove_dir_tree_check("/home/user/documents", true);
    assert_eq!(
        r,
        Err(MainError::PathNotSafeToDelete("/home/user/documents".to_string()))
    );
}

#[test]
fn accepts_cache_directory_path() {
    assert_eq!(remove_dir_tree_check("/proj/node_modules", true), Ok(true));
    assert_eq!(remove_dir_tree_check("/proj/node_modules", false), Ok(false));
}

#[test]
fn accepts_audit_directory_path() {
    assert_eq!(remove_dir_tree_check("/proj/.audit/D-AUDIT", true), Ok(true));
}

#[test]
fn rejects_unmarked_file_path() {
    let r = remove_file_check("/proj/readme.txt", true);
    assert_eq!(
        r,
        Err(MainError::PathNotSafeToDelete("/proj/readme.txt".to_string()))
    );
}

#[test]
fn accepts_lock_file_path() {
    assert_eq!(remove_file_check("/proj/package-lock.json", true), Ok(true));
    assert_eq!(remove_file_check("/proj/package-lock.json", false), Ok(false));
}

#[test]
fn discovery_lists_root_first_and_skips_excluded_dirs() {
    let candidates = vec![
        "/r/pkgA".to_string(),
        "/r/node_modules/dep".to_string(),
        "/r/sub/pkgB".to_string(),
        "/r/.git/hooks".to_string(),
    ];
    let entries = discover_packages("/r", &candidates);
    assert_eq!(entries.len(), 3);
    assert_eq!(entries[0].directory, "/r");
    assert_eq!(entries[0].label, "_root_");
    assert_eq!(entries[1].directory, "/r/pkgA");
    assert_eq!(entries[1].label, "pkgA");
    assert_eq!(entries[2].directory, "/r/sub/pkgB");
    assert_eq!(entries[2].label, "sub/pkgB");
}

#[test]
fn discovery_keeps_dirs_that_merely_mention_excluded_names() {
    let candidates = vec!["/r/node_modules_fork".to_string(), "/r/gitter".to_string()];
    let entries = discover_packages("/r", &candidates);
    assert_eq!(entries.len(), 3);
    assert_eq!(entries[1].label, "node_modules_fork");
    assert_eq!(entries[2].label, "gitter");
}

#[test]
fn labels_reconstruct_paths_when_joined_to_root() {
    let candidates = vec!["/r/a".to_string(), "/r/b/c".to_string()];
    let entries = discover_packages("/r", &candidates);
    for e in entries.iter().skip(1) {
        assert_eq!(format!("/r/{}", e.label), e.directory);
    }
}

#[test]
fn relative_label_requires_path_below_root() {
    assert_eq!(relative_label("/r", "/r/x/y"), Some("x/y".to_string()));
    assert_eq!(relative_label("/r", "/r"), None);
    assert_eq!(relative_label("/r", "/other/x"), None);
    assert_eq!(relative_label("/r", "/r/"), None);
}

#[test]
fn file_labels_keep_order_and_strip_the_root() {
    let files = vec![
        "/r/.audit/D-AUDIT/_audit.txt".to_string(),
        "/r/.audit/D-AUDIT/sub/b.txt".to_string(),
    ];
    let labeled = list_file_labels("/r/.audit/D-AUDIT", &files);
    assert_eq!(labeled.len(), 2);
    assert_eq!(labeled[0].0, "/r/.audit/D-AUDIT/_audit.txt");
    assert_eq!(labeled[0].1, "_audit.txt");
    assert_eq!(labeled[1].1, "sub/b.txt");
}

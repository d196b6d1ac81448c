use graphoria_core::guard::{is_safe_relative_path, normalize_repo_key};

#[test]
fn repo_keys_normalise_slashes_and_case() {
    assert_eq!(normalize_repo_key(" C:\\Work\\Repo\\ ", true), "c:/work/repo");
    assert_eq!(normalize_repo_key("/home/u/Repo//", false), "/home/u/Repo");
    assert_eq!(normalize_repo_key("/", false), "/");
    assert_eq!(normalize_repo_key("/A", true), normalize_repo_key("/a/", true));
}

#[test]
fn relative_paths_stay_inside() {
    assert!(is_safe_relative_path("src/main.rs"));
    assert!(is_safe_relative_path("a..b/c"));
    assert!(!is_safe_relative_path("../etc/passwd"));
    assert!(!is_safe_relative_path("a\\..\\b"));
    assert!(!is_safe_relative_path("/etc/passwd"));
    assert!(!is_safe_relative_path("C:\\x"));
}

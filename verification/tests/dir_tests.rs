use rnm::Error;
use rnm::extract_directory;
use rnm::get;
use rnm::get_rec;

#[test]
fn test_get_non_existing_dir() {
    let mut dir = String::new();
    dir.push_str("/some/directory");

    assert!(get(&dir).is_err());
}

#[test]
fn test_test_get_non_existing_dir() {
    let mut dir = String::new();
    dir.push_str("/some/directory");

    assert!(get(&dir).is_err());
}

#[test]
fn test_get_rec_non_existing_dir() {
    let mut dir = String::new();
    dir.push_str("/some/directory");

    let result = get_rec(&dir);
    assert!(result.first().is_none());
}

#[test]
fn test_test_get_rec_non_existing_dir() {
    let mut dir = String::new();
    dir.push_str("/some/directory");

    let result = get_rec(&dir);
    assert!(result.first().is_none());
}

#[test]
fn test_extract_some_non_existing_directory() {
    let cwd = String::from("/");
    assert!(extract_directory(Some("/some/directory"), &cwd).is_err());
}

#[test]
fn test_test_extract_some_non_existing_directory() {
    let cwd = String::from("/");
    assert!(extract_directory(Some("/some/directory"), &cwd).is_err());
}

#[test]
fn test_extract_none_resolves_to_cwd() {
    let cwd = String::from("/some/working/directory");
    assert_eq!(extract_directory(None, &cwd), Ok(cwd.clone()));
}

#[test]
fn test_extract_existing_directory_argument() {
    let cwd = String::from("/");
    assert_eq!(extract_directory(Some("/"), &cwd), Ok(String::from("/")));
}

#[test]
fn test_extract_not_found_error_carries_path() {
    let cwd = String::from("/");
    assert_eq!(
        extract_directory(Some("/some/directory"), &cwd),
        Err(Error::DirectoryNotFound { path: String::from("/some/directory") })
    );
}

#[test]
fn test_get_not_found_error_carries_candidate() {
    let dir = String::from("/some/directory");
    assert_eq!(
        get(&dir),
        Err(Error::DirectoryNotFound { path: String::from("/some/directory/node_modules") })
    );
}

#[test]
fn test_locate_non_recursive_is_single_check() {
    let dir = String::from("/some/directory");
    let results = rnm::locate(&dir, false);
    assert_eq!(results.len(), 1);
    assert!(results[0].is_err());
}

#[test]
fn test_locate_recursive_missing_root_is_empty() {
    let dir = String::from("/some/directory");
    assert!(rnm::locate(&dir, true).is_empty());
}

#[test]
fn test_successful_paths_keeps_only_successes_in_order() {
    let results: Vec<Result<String, Error>> = vec![
        Ok(String::from("/a/node_modules")),
        Err(Error::DirectoryNotFound { path: String::from("/b/node_modules") }),
        Ok(String::from("/c/node_modules")),
    ];
    assert_eq!(
        rnm::successful_paths(&results),
        vec![String::from("/a/node_modules"), String::from("/c/node_modules")]
    );
}

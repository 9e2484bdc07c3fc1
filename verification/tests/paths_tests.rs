use hito_core::paths::{
    destination_path, extension_component, file_name_component, get_hito_file_path,
    get_parent_directory, join_path_str,
};
use hito_core::records::ImagePath;
use hito_core::sort::sort_records_by_path;

#[test]
fn test_sort_records_by_path_orders_listing() {
    let records = vec![
        ImagePath { path: "/d/b.png".to_string(), size: None, created_at: None },
        ImagePath { path: "/d/a.png".to_string(), size: Some(7), created_at: None },
        ImagePath { path: "/c/z.png".to_string(), size: None, created_at: None },
    ];
    let sorted = sort_records_by_path(records);
    assert_eq!(sorted[0].path, "/c/z.png");
    assert_eq!(sorted[1].path, "/d/a.png");
    assert_eq!(sorted[2].path, "/d/b.png");
}

#[test]
fn test_get_parent_directory() {
    assert_eq!(
        get_parent_directory("/tmp/project/src/main.rs").unwrap(),
        "/tmp/project/src"
    );

    assert!(get_parent_directory("/").is_err());

    assert!(get_parent_directory("file.txt").is_ok());
}

#[test]
fn test_get_parent_directory_valid_utf8_path() {
    let result = get_parent_directory("/valid/path/file.txt");
    assert!(result.is_ok());
    assert_eq!(result.unwrap(), "/valid/path");
}

#[test]
fn test_get_parent_directory_single_component() {
    assert_eq!(get_parent_directory("file.txt").unwrap(), "");
    assert_eq!(get_parent_directory("/a").unwrap(), "/");
    assert!(get_parent_directory("").is_err());
    assert_eq!(
        get_parent_directory("/").unwrap_err(),
        "File has no parent directory"
    );
}

#[test]
fn test_file_name_component_cases() {
    assert_eq!(file_name_component("/test/apple.jpg"), "apple.jpg");
    assert_eq!(file_name_component("apple.jpg"), "apple.jpg");
    assert_eq!(file_name_component("/test/dir/"), "");
    assert_eq!(file_name_component(""), "");
}

#[test]
fn test_join_path_variants() {
    assert_eq!(join_path_str("/a/b", "c.json"), "/a/b/c.json");
    assert_eq!(join_path_str("/a/b/", "c.json"), "/a/b/c.json");
    assert_eq!(join_path_str("", "c.json"), "c.json");
    assert_eq!(join_path_str("/a/b", "/abs/c.json"), "/abs/c.json");
}

#[test]
fn test_get_hito_file_path_default() {
    assert_eq!(get_hito_file_path("/work/photos", None), "/work/photos/.hito.json");
}

#[test]
fn test_get_hito_file_path_custom() {
    assert_eq!(
        get_hito_file_path("/work/photos", Some("custom.json")),
        "/work/photos/custom.json"
    );
}

#[test]
fn test_extension_component_cases() {
    assert_eq!(extension_component("/test/a.jpg"), Some("jpg".to_string()));
    assert_eq!(extension_component("/test/archive.tar.gz"), Some("gz".to_string()));
    assert_eq!(extension_component("/test/.hito.json"), Some("json".to_string()));
    assert_eq!(extension_component("/test/.gitignore"), None);
    assert_eq!(extension_component("/test/noextension"), None);
    assert_eq!(extension_component("/test/trailingdot."), Some("".to_string()));
}

#[test]
fn test_destination_path_preserves_filename() {
    assert_eq!(
        destination_path("/src/original_name.jpg", "/dest").unwrap(),
        "/dest/original_name.jpg"
    );
}

#[test]
fn test_destination_path_no_filename() {
    let result = destination_path("/src/dir/", "/dest");
    assert!(result.is_err());
    assert_eq!(
        result.unwrap_err(),
        "Failed to get filename from: /src/dir/"
    );
}

use hito_core::store::{
    apply_op, get_app_data_mutex, get_data_file_path, load_decide, mutate_decide, AppData,
    CategoryData, ConfigOp, HotkeyData, LoadOutcome,
};

fn cat(id: &str, name: &str, color: &str) -> CategoryData {
    CategoryData {
        id: id.to_string(),
        name: name.to_string(),
        color: color.to_string(),
    }
}

fn hotkey(id: &str, key: &str, action: &str) -> HotkeyData {
    HotkeyData {
        id: id.to_string(),
        key: key.to_string(),
        modifiers: vec!["Control".to_string()],
        action: action.to_string(),
    }
}

#[test]
fn test_load_decide_missing_yields_default() {
    let doc = load_decide(LoadOutcome::Missing).unwrap();
    assert_eq!(doc.categories.len(), 0);
    assert_eq!(doc.hotkeys.len(), 0);
    assert!(doc.data_file_paths.is_none());
}

#[test]
fn test_load_decide_parsed_passes_through() {
    let doc = AppData {
        categories: vec![cat("cat1", "Test Category", "#FF0000")],
        hotkeys: vec![hotkey("hotkey1", "j", "next")],
        data_file_paths: None,
    };
    let loaded = load_decide(LoadOutcome::Parsed(doc)).unwrap();
    assert_eq!(loaded.categories.len(), 1);
    assert_eq!(loaded.categories[0].id, "cat1");
    assert_eq!(loaded.hotkeys[0].key, "j");
}

#[test]
fn test_load_decide_corrupt_fails() {
    let result = load_decide(LoadOutcome::Corrupt("expected value at line 1".to_string()));
    assert!(result.is_err());
    let msg = result.unwrap_err();
    assert_eq!(
        msg,
        "Failed to parse app data file: expected value at line 1"
    );
}

#[test]
fn test_mutate_decide_corrupt_writes_nothing() {
    let result = mutate_decide(
        LoadOutcome::Corrupt("bad json".to_string()),
        ConfigOp::AddCategory { category: cat("c", "C", "#000000") },
    );
    assert!(result.is_err());
    assert!(result.unwrap_err().starts_with("Failed to parse"));
}

#[test]
fn test_mutate_decide_missing_applies_to_default() {
    let result = mutate_decide(
        LoadOutcome::Missing,
        ConfigOp::SetDataFilePath {
            directory: "/test/dir".to_string(),
            data_file_path: "/custom/path.json".to_string(),
        },
    )
    .unwrap();
    assert_eq!(result.categories.len(), 0);
    assert_eq!(result.hotkeys.len(), 0);
    assert_eq!(
        get_data_file_path(&result, "/test/dir"),
        Some("/custom/path.json".to_string())
    );
}

#[test]
fn test_set_data_file_path_preserves_categories() {
    let doc = AppData {
        categories: vec![cat("cat1", "Test Category", "#FF0000"), cat("cat2", "Other", "#00FF00")],
        hotkeys: vec![hotkey("hotkey1", "j", "next")],
        data_file_paths: None,
    };

    let result = mutate_decide(
        LoadOutcome::Parsed(doc),
        ConfigOp::SetDataFilePath {
            directory: "/test/dir".to_string(),
            data_file_path: "/custom/path.json".to_string(),
        },
    )
    .unwrap();

    assert_eq!(result.categories.len(), 2);
    assert_eq!(result.categories[0].id, "cat1");
    assert_eq!(result.categories[0].name, "Test Category");
    assert_eq!(result.categories[0].color, "#FF0000");
    assert_eq!(result.categories[1].id, "cat2");
    assert_eq!(result.hotkeys.len(), 1);
    assert_eq!(result.hotkeys[0].id, "hotkey1");
    assert_eq!(
        get_data_file_path(&result, "/test/dir"),
        Some("/custom/path.json".to_string())
    );
}

#[test]
fn test_set_categories_preserves_path_mapping() {
    let base = mutate_decide(
        LoadOutcome::Missing,
        ConfigOp::SetDataFilePath {
            directory: "/test/dir".to_string(),
            data_file_path: "/custom/path.json".to_string(),
        },
    )
    .unwrap();

    let result = mutate_decide(
        LoadOutcome::Parsed(base),
        ConfigOp::SetCategoriesHotkeys {
            categories: vec![cat("cat1", "Test Category", "#FF0000")],
            hotkeys: vec![hotkey("hotkey1", "j", "next")],
        },
    )
    .unwrap();

    assert_eq!(result.categories.len(), 1);
    assert_eq!(result.hotkeys.len(), 1);
    assert_eq!(
        get_data_file_path(&result, "/test/dir"),
        Some("/custom/path.json".to_string())
    );
}

#[test]
fn test_set_data_file_path_overwrites_same_directory() {
    let first = mutate_decide(
        LoadOutcome::Missing,
        ConfigOp::SetDataFilePath {
            directory: "/test/dir".to_string(),
            data_file_path: "/old.json".to_string(),
        },
    )
    .unwrap();

    let second = mutate_decide(
        LoadOutcome::Parsed(first),
        ConfigOp::SetDataFilePath {
            directory: "/test/dir".to_string(),
            data_file_path: "/new.json".to_string(),
        },
    )
    .unwrap();

    let entries = second.data_file_paths.as_ref().unwrap();
    assert_eq!(entries.len(), 1);
    assert_eq!(
        get_data_file_path(&second, "/test/dir"),
        Some("/new.json".to_string())
    );
}

#[test]
fn test_set_data_file_path_keeps_other_directories() {
    let first = mutate_decide(
        LoadOutcome::Missing,
        ConfigOp::SetDataFilePath {
            directory: "/dir/a".to_string(),
            data_file_path: "/a.json".to_string(),
        },
    )
    .unwrap();

    let second = mutate_decide(
        LoadOutcome::Parsed(first),
        ConfigOp::SetDataFilePath {
            directory: "/dir/b".to_string(),
            data_file_path: "/b.json".to_string(),
        },
    )
    .unwrap();

    assert_eq!(get_data_file_path(&second, "/dir/a"), Some("/a.json".to_string()));
    assert_eq!(get_data_file_path(&second, "/dir/b"), Some("/b.json".to_string()));
    assert_eq!(get_data_file_path(&second, "/dir/c"), None);
}

#[test]
fn test_sequential_mutations_lose_no_category() {
    let mut doc = load_decide(LoadOutcome::Missing).unwrap();
    for i in 0..10 {
        let id = format!("cat{}", i);
        doc = mutate_decide(
            LoadOutcome::Parsed(doc),
            ConfigOp::AddCategory { category: cat(&id, &id, "#123456") },
        )
        .unwrap();
    }
    assert_eq!(doc.categories.len(), 10);
    for i in 0..10 {
        let id = format!("cat{}", i);
        assert!(doc.categories.iter().any(|c| c.id == id));
    }
}

#[test]
fn test_apply_op_add_category_appends_in_order() {
    let doc = AppData {
        categories: vec![cat("first", "First", "#111111")],
        hotkeys: Vec::new(),
        data_file_paths: None,
    };
    let result = apply_op(doc, ConfigOp::AddCategory { category: cat("second", "Second", "#222222") });
    assert_eq!(result.categories.len(), 2);
    assert_eq!(result.categories[0].id, "first");
    assert_eq!(result.categories[1].id, "second");
}

#[test]
fn test_get_app_data_mutex_serializes_access() {
    let lock = get_app_data_mutex();
    let guard = lock.raw().lock().unwrap();
    drop(guard);
    let again = lock.raw().lock().unwrap();
    drop(again);
}

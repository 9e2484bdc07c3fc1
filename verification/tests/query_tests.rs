use hito_core::filter::FilterOptions;
use hito_core::query::sort_images;
use hito_core::records::{CategoryAssignment, ImagePath};

fn img(path: &str, size: Option<u64>, created_at: Option<&str>) -> ImagePath {
    ImagePath {
        path: path.to_string(),
        size,
        created_at: created_at.map(|s| s.to_string()),
    }
}

fn no_filter() -> FilterOptions {
    FilterOptions {
        category_id: None,
        name_pattern: None,
        name_operator: None,
        size_operator: None,
        size_value: None,
        size_value2: None,
    }
}

#[test]
fn test_sort_images_by_name() {
    let images = vec![
        img("/test/zebra.jpg", Some(1000), None),
        img("/test/apple.jpg", Some(2000), None),
        img("/test/banana.jpg", Some(1500), None),
    ];

    let result = sort_images(
        images.clone(),
        "name".to_string(),
        "ascending".to_string(),
        Vec::new(),
        None,
    )
    .unwrap();

    assert_eq!(result[0].path, "/test/apple.jpg");
    assert_eq!(result[1].path, "/test/banana.jpg");
    assert_eq!(result[2].path, "/test/zebra.jpg");

    let result = sort_images(
        images,
        "name".to_string(),
        "descending".to_string(),
        Vec::new(),
        None,
    )
    .unwrap();

    assert_eq!(result[0].path, "/test/zebra.jpg");
    assert_eq!(result[1].path, "/test/banana.jpg");
    assert_eq!(result[2].path, "/test/apple.jpg");
}

#[test]
fn test_sort_images_by_size() {
    let images = vec![
        img("/test/large.jpg", Some(3000), None),
        img("/test/small.jpg", Some(1000), None),
        img("/test/medium.jpg", Some(2000), None),
    ];

    let result = sort_images(
        images.clone(),
        "size".to_string(),
        "ascending".to_string(),
        Vec::new(),
        None,
    )
    .unwrap();

    assert_eq!(result[0].size, Some(1000));
    assert_eq!(result[1].size, Some(2000));
    assert_eq!(result[2].size, Some(3000));

    let result = sort_images(
        images,
        "size".to_string(),
        "descending".to_string(),
        Vec::new(),
        None,
    )
    .unwrap();

    assert_eq!(result[0].size, Some(3000));
    assert_eq!(result[1].size, Some(2000));
    assert_eq!(result[2].size, Some(1000));
}

#[test]
fn test_sort_images_by_date_created() {
    let images = vec![
        img("/test/new.jpg", Some(1000), Some("2024-01-03T00:00:00Z")),
        img("/test/old.jpg", Some(2000), Some("2024-01-01T00:00:00Z")),
        img("/test/middle.jpg", Some(1500), Some("2024-01-02T00:00:00Z")),
    ];

    let result = sort_images(
        images.clone(),
        "dateCreated".to_string(),
        "ascending".to_string(),
        Vec::new(),
        None,
    )
    .unwrap();

    assert_eq!(result[0].path, "/test/old.jpg");
    assert_eq!(result[1].path, "/test/middle.jpg");
    assert_eq!(result[2].path, "/test/new.jpg");

    let result = sort_images(
        images,
        "dateCreated".to_string(),
        "descending".to_string(),
        Vec::new(),
        None,
    )
    .unwrap();

    assert_eq!(result[0].path, "/test/new.jpg");
    assert_eq!(result[1].path, "/test/middle.jpg");
    assert_eq!(result[2].path, "/test/old.jpg");
}

#[test]
fn test_sort_images_by_last_categorized() {
    let images = vec![
        img("/test/img1.jpg", Some(1000), None),
        img("/test/img2.jpg", Some(2000), None),
        img("/test/img3.jpg", Some(1500), None),
    ];

    let image_categories = vec![
        (
            "/test/img1.jpg".to_string(),
            vec![CategoryAssignment {
                category_id: "cat1".to_string(),
                assigned_at: "2024-01-03T00:00:00Z".to_string(),
            }],
        ),
        (
            "/test/img2.jpg".to_string(),
            vec![CategoryAssignment {
                category_id: "cat1".to_string(),
                assigned_at: "2024-01-01T00:00:00Z".to_string(),
            }],
        ),
    ];

    let result = sort_images(
        images.clone(),
        "lastCategorized".to_string(),
        "ascending".to_string(),
        image_categories.clone(),
        None,
    )
    .unwrap();

    assert_eq!(result[0].path, "/test/img3.jpg");
    assert_eq!(result[1].path, "/test/img2.jpg");
    assert_eq!(result[2].path, "/test/img1.jpg");

    let result = sort_images(
        images,
        "lastCategorized".to_string(),
        "descending".to_string(),
        image_categories,
        None,
    )
    .unwrap();

    assert_eq!(result[0].path, "/test/img1.jpg");
    assert_eq!(result[1].path, "/test/img2.jpg");
    assert_eq!(result[2].path, "/test/img3.jpg");
}

#[test]
fn test_filter_by_category() {
    let images = vec![
        img("/test/img1.jpg", Some(1000), None),
        img("/test/img2.jpg", Some(2000), None),
        img("/test/img3.jpg", Some(1500), None),
    ];

    let image_categories = vec![
        (
            "/test/img1.jpg".to_string(),
            vec![CategoryAssignment {
                category_id: "cat1".to_string(),
                assigned_at: "2024-01-01T00:00:00Z".to_string(),
            }],
        ),
        (
            "/test/img2.jpg".to_string(),
            vec![CategoryAssignment {
                category_id: "cat2".to_string(),
                assigned_at: "2024-01-01T00:00:00Z".to_string(),
            }],
        ),
    ];

    let filter_options = FilterOptions {
        category_id: Some("cat1".to_string()),
        ..no_filter()
    };

    let result = sort_images(
        images.clone(),
        "name".to_string(),
        "ascending".to_string(),
        image_categories.clone(),
        Some(filter_options),
    )
    .unwrap();

    assert_eq!(result.len(), 1);
    assert_eq!(result[0].path, "/test/img1.jpg");

    let filter_options = FilterOptions {
        category_id: Some("uncategorized".to_string()),
        ..no_filter()
    };

    let result = sort_images(
        images,
        "name".to_string(),
        "ascending".to_string(),
        image_categories,
        Some(filter_options),
    )
    .unwrap();

    assert_eq!(result.len(), 1);
    assert_eq!(result[0].path, "/test/img3.jpg");
}

#[test]
fn test_filter_by_name() {
    let images = vec![
        img("/test/apple.jpg", Some(1000), None),
        img("/test/banana.jpg", Some(2000), None),
        img("/test/grape.jpg", Some(1500), None),
    ];

    let filter_options = FilterOptions {
        name_pattern: Some("an".to_string()),
        name_operator: Some("contains".to_string()),
        ..no_filter()
    };

    let result = sort_images(
        images.clone(),
        "name".to_string(),
        "ascending".to_string(),
        Vec::new(),
        Some(filter_options),
    )
    .unwrap();

    assert_eq!(result.len(), 1);
    assert_eq!(result[0].path, "/test/banana.jpg");

    let filter_options = FilterOptions {
        name_pattern: Some("app".to_string()),
        name_operator: Some("startsWith".to_string()),
        ..no_filter()
    };

    let result = sort_images(
        images.clone(),
        "name".to_string(),
        "ascending".to_string(),
        Vec::new(),
        Some(filter_options),
    )
    .unwrap();

    assert_eq!(result.len(), 1);
    assert_eq!(result[0].path, "/test/apple.jpg");

    let filter_options = FilterOptions {
        name_pattern: Some("ana.jpg".to_string()),
        name_operator: Some("endsWith".to_string()),
        ..no_filter()
    };

    let result = sort_images(
        images.clone(),
        "name".to_string(),
        "ascending".to_string(),
        Vec::new(),
        Some(filter_options),
    )
    .unwrap();

    assert_eq!(result.len(), 1);
    assert_eq!(result[0].path, "/test/banana.jpg");

    let filter_options = FilterOptions {
        name_pattern: Some("grape.jpg".to_string()),
        name_operator: Some("exact".to_string()),
        ..no_filter()
    };

    let result = sort_images(
        images,
        "name".to_string(),
        "ascending".to_string(),
        Vec::new(),
        Some(filter_options),
    )
    .unwrap();

    assert_eq!(result.len(), 1);
    assert_eq!(result[0].path, "/test/grape.jpg");
}

#[test]
fn test_filter_by_size() {
    let images = vec![
        img("/test/small.jpg", Some(1024), None),
        img("/test/medium.jpg", Some(5120), None),
        img("/test/large.jpg", Some(10240), None),
    ];

    let filter_options = FilterOptions {
        size_operator: Some("largerThan".to_string()),
        size_value: Some("3".to_string()),
        ..no_filter()
    };

    let result = sort_images(
        images.clone(),
        "name".to_string(),
        "ascending".to_string(),
        Vec::new(),
        Some(filter_options),
    )
    .unwrap();

    assert_eq!(result.len(), 2);
    assert!(result.iter().any(|img| img.path == "/test/medium.jpg"));
    assert!(result.iter().any(|img| img.path == "/test/large.jpg"));

    let filter_options = FilterOptions {
        size_operator: Some("lessThan".to_string()),
        size_value: Some("3".to_string()),
        ..no_filter()
    };

    let result = sort_images(
        images.clone(),
        "name".to_string(),
        "ascending".to_string(),
        Vec::new(),
        Some(filter_options),
    )
    .unwrap();

    assert_eq!(result.len(), 1);
    assert_eq!(result[0].path, "/test/small.jpg");

    let filter_options = FilterOptions {
        size_operator: Some("between".to_string()),
        size_value: Some("2".to_string()),
        size_value2: Some("8".to_string()),
        ..no_filter()
    };

    let result = sort_images(
        images,
        "name".to_string(),
        "ascending".to_string(),
        Vec::new(),
        Some(filter_options),
    )
    .unwrap();

    assert_eq!(result.len(), 1);
    assert_eq!(result[0].path, "/test/medium.jpg");
}

#[test]
fn test_combined_filters() {
    let images = vec![
        img("/test/apple.jpg", Some(1024), None),
        img("/test/banana.jpg", Some(5120), None),
        img("/test/grape.jpg", Some(10240), None),
    ];

    let image_categories = vec![(
        "/test/apple.jpg".to_string(),
        vec![CategoryAssignment {
            category_id: "fruit".to_string(),
            assigned_at: "2024-01-01T00:00:00Z".to_string(),
        }],
    )];

    let filter_options = FilterOptions {
        category_id: Some("fruit".to_string()),
        size_operator: Some("lessThan".to_string()),
        size_value: Some("5".to_string()),
        ..no_filter()
    };

    let result = sort_images(
        images,
        "name".to_string(),
        "ascending".to_string(),
        image_categories,
        Some(filter_options),
    )
    .unwrap();

    assert_eq!(result.len(), 1);
    assert_eq!(result[0].path, "/test/apple.jpg");
}

#[test]
fn test_sort_images_unknown_option() {
    let images = vec![img("/test/img1.jpg", Some(1000), None)];

    let result = sort_images(
        images.clone(),
        "unknown".to_string(),
        "ascending".to_string(),
        Vec::new(),
        None,
    )
    .unwrap();

    assert_eq!(result.len(), 1);
    assert_eq!(result[0].path, "/test/img1.jpg");
}

#[test]
fn test_filter_empty_name_pattern() {
    let images = vec![img("/test/image.jpg", Some(1000), None)];

    let filter_options = FilterOptions {
        name_pattern: Some("".to_string()),
        name_operator: Some("contains".to_string()),
        ..no_filter()
    };

    let result = sort_images(
        images,
        "name".to_string(),
        "ascending".to_string(),
        Vec::new(),
        Some(filter_options),
    )
    .unwrap();

    assert_eq!(result.len(), 1);
}

#[test]
fn test_filter_empty_category_id() {
    let images = vec![img("/test/image.jpg", Some(1000), None)];

    let filter_options = FilterOptions {
        category_id: Some("".to_string()),
        ..no_filter()
    };

    let result = sort_images(
        images,
        "name".to_string(),
        "ascending".to_string(),
        Vec::new(),
        Some(filter_options),
    )
    .unwrap();

    assert_eq!(result.len(), 1);
}

#[test]
fn test_filter_empty_size_value() {
    let images = vec![img("/test/image.jpg", Some(1000), None)];

    let filter_options = FilterOptions {
        size_operator: Some("largerThan".to_string()),
        size_value: Some("".to_string()),
        ..no_filter()
    };

    let result = sort_images(
        images,
        "name".to_string(),
        "ascending".to_string(),
        Vec::new(),
        Some(filter_options),
    )
    .unwrap();

    assert_eq!(result.len(), 1);
}

#[test]
fn test_filter_between_with_empty_size_value2() {
    let images = vec![img("/test/image.jpg", Some(1000), None)];

    let filter_options = FilterOptions {
        size_operator: Some("between".to_string()),
        size_value: Some("2".to_string()),
        size_value2: Some("".to_string()),
        ..no_filter()
    };

    let result = sort_images(
        images,
        "name".to_string(),
        "ascending".to_string(),
        Vec::new(),
        Some(filter_options),
    )
    .unwrap();

    assert_eq!(result.len(), 1);
}

#[test]
fn test_filter_between_with_invalid_size_value2() {
    let images = vec![img("/test/image.jpg", Some(1000), None)];

    let filter_options = FilterOptions {
        size_operator: Some("between".to_string()),
        size_value: Some("2".to_string()),
        size_value2: Some("invalid".to_string()),
        ..no_filter()
    };

    let result = sort_images(
        images,
        "name".to_string(),
        "ascending".to_string(),
        Vec::new(),
        Some(filter_options),
    )
    .unwrap();

    assert_eq!(result.len(), 1);
}

#[test]
fn test_sort_images_with_none_size() {
    let images = vec![
        img("/test/img1.jpg", None, None),
        img("/test/img2.jpg", Some(1000), None),
    ];

    let result = sort_images(
        images,
        "size".to_string(),
        "ascending".to_string(),
        Vec::new(),
        None,
    )
    .unwrap();

    assert_eq!(result[0].size, None);
    assert_eq!(result[1].size, Some(1000));
}

#[test]
fn test_sort_images_date_created_with_none() {
    let images = vec![
        img("/test/img1.jpg", Some(1000), None),
        img("/test/img2.jpg", Some(2000), Some("2024-01-01T00:00:00Z")),
    ];

    let result = sort_images(
        images,
        "dateCreated".to_string(),
        "ascending".to_string(),
        Vec::new(),
        None,
    )
    .unwrap();

    assert_eq!(result[0].path, "/test/img2.jpg");
    assert_eq!(result[1].path, "/test/img1.jpg");
}

#[test]
fn test_filter_between_reversed_thresholds() {
    let images = vec![
        img("/test/small.jpg", Some(1024), None),
        img("/test/medium.jpg", Some(5120), None),
        img("/test/large.jpg", Some(10240), None),
    ];

    let filter_options = FilterOptions {
        size_operator: Some("between".to_string()),
        size_value: Some("8".to_string()),
        size_value2: Some("2".to_string()),
        ..no_filter()
    };

    let result = sort_images(
        images,
        "name".to_string(),
        "ascending".to_string(),
        Vec::new(),
        Some(filter_options),
    )
    .unwrap();

    assert_eq!(result.len(), 1);
    assert_eq!(result[0].path, "/test/medium.jpg");
}

#[test]
fn test_query_identity_preserves_order() {
    let images = vec![
        img("/test/c.jpg", Some(3), None),
        img("/test/a.jpg", Some(1), None),
        img("/test/b.jpg", Some(2), None),
    ];

    let result = sort_images(
        images.clone(),
        "nosuchkey".to_string(),
        "descending".to_string(),
        Vec::new(),
        None,
    )
    .unwrap();

    assert_eq!(result.len(), 3);
    for (got, expected) in result.iter().zip(images.iter()) {
        assert_eq!(got.path, expected.path);
    }
}

#[test]
fn test_sort_name_case_insensitive() {
    let images = vec![
        img("/test/Banana.jpg", Some(1), None),
        img("/test/apple.jpg", Some(2), None),
    ];

    let result = sort_images(
        images,
        "name".to_string(),
        "ascending".to_string(),
        Vec::new(),
        None,
    )
    .unwrap();

    assert_eq!(result[0].path, "/test/apple.jpg");
    assert_eq!(result[1].path, "/test/Banana.jpg");
}

#[test]
fn test_sort_stable_on_equal_sizes() {
    let images = vec![
        img("/test/first.jpg", Some(100), None),
        img("/test/second.jpg", Some(100), None),
    ];

    let result = sort_images(
        images,
        "size".to_string(),
        "ascending".to_string(),
        Vec::new(),
        None,
    )
    .unwrap();

    assert_eq!(result[0].path, "/test/first.jpg");
    assert_eq!(result[1].path, "/test/second.jpg");
}

#[test]
fn test_filter_name_case_insensitive() {
    let images = vec![
        img("/test/Apple.JPG", Some(1000), None),
        img("/test/banana.jpg", Some(2000), None),
    ];

    let filter_options = FilterOptions {
        name_pattern: Some("APP".to_string()),
        name_operator: Some("contains".to_string()),
        ..no_filter()
    };

    let result = sort_images(
        images,
        "name".to_string(),
        "ascending".to_string(),
        Vec::new(),
        Some(filter_options),
    )
    .unwrap();

    assert_eq!(result.len(), 1);
    assert_eq!(result[0].path, "/test/Apple.JPG");
}

#[test]
fn test_last_categorized_unparsable_stamp_counts_as_never() {
    let images = vec![
        img("/test/img1.jpg", Some(1), None),
        img("/test/img2.jpg", Some(2), None),
    ];

    let image_categories = vec![
        (
            "/test/img1.jpg".to_string(),
            vec![CategoryAssignment {
                category_id: "cat1".to_string(),
                assigned_at: "2024-01-01T00:00:00Z".to_string(),
            }],
        ),
        (
            "/test/img2.jpg".to_string(),
            vec![CategoryAssignment {
                category_id: "cat1".to_string(),
                assigned_at: "not a timestamp".to_string(),
            }],
        ),
    ];

    let result = sort_images(
        images,
        "lastCategorized".to_string(),
        "ascending".to_string(),
        image_categories,
        None,
    )
    .unwrap();

    assert_eq!(result[0].path, "/test/img2.jpg");
    assert_eq!(result[1].path, "/test/img1.jpg");
}

#[test]
fn test_assignment_map_last_entry_wins() {
    let images = vec![img("/test/img1.jpg", Some(1000), None)];

    // Two entries share a key: the later one is authoritative, as when the
    // pair list is collected into a map.
    let image_categories = vec![
        (
            "/test/img1.jpg".to_string(),
            vec![CategoryAssignment {
                category_id: "cat1".to_string(),
                assigned_at: "2024-01-01T00:00:00Z".to_string(),
            }],
        ),
        ("/test/img1.jpg".to_string(), Vec::new()),
    ];

    let filter_options = FilterOptions {
        category_id: Some("uncategorized".to_string()),
        ..no_filter()
    };

    let result = sort_images(
        images,
        "name".to_string(),
        "ascending".to_string(),
        image_categories,
        Some(filter_options),
    )
    .unwrap();

    assert_eq!(result.len(), 1);
}

#[test]
fn test_filter_size_nonnumeric_value_is_noop() {
    let images = vec![img("/test/image.jpg", Some(1000), None)];

    let filter_options = FilterOptions {
        size_operator: Some("largerThan".to_string()),
        size_value: Some("abc".to_string()),
        ..no_filter()
    };

    let result = sort_images(
        images,
        "name".to_string(),
        "ascending".to_string(),
        Vec::new(),
        Some(filter_options),
    )
    .unwrap();

    assert_eq!(result.len(), 1);
}

#[test]
fn test_filter_size_missing_size_counts_as_zero() {
    let images = vec![
        img("/test/nosize.jpg", None, None),
        img("/test/big.jpg", Some(4096), None),
    ];

    let filter_options = FilterOptions {
        size_operator: Some("lessThan".to_string()),
        size_value: Some("2".to_string()),
        ..no_filter()
    };

    let result = sort_images(
        images,
        "name".to_string(),
        "ascending".to_string(),
        Vec::new(),
        Some(filter_options),
    )
    .unwrap();

    assert_eq!(result.len(), 1);
    assert_eq!(result[0].path, "/test/nosize.jpg");
}

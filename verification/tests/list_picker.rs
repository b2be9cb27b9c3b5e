use ezllama::list_picker::{PickerItem, filter_items};

#[test]
fn filter_items_matches_case_insensitive_substrings() {
    let items = vec![
        PickerItem {
            display: "Llama-3".to_string(),
            value: "llama-3".to_string(),
            color: None,
        },
        PickerItem {
            display: "Mistral".to_string(),
            value: "mistral".to_string(),
            color: None,
        },
        PickerItem {
            display: "Phi".to_string(),
            value: "phi".to_string(),
            color: None,
        },
    ];

    let filtered = filter_items(&items, "ll");

    assert_eq!(filtered, vec![0]);
}

#[test]
fn filter_items_returns_all_items_for_empty_query() {
    let items = vec![
        PickerItem {
            display: "Llama-3".to_string(),
            value: "llama-3".to_string(),
            color: None,
        },
        PickerItem {
            display: "Mistral".to_string(),
            value: "mistral".to_string(),
            color: None,
        },
        PickerItem {
            display: "Phi".to_string(),
            value: "phi".to_string(),
            color: None,
        },
    ];

    let filtered = filter_items(&items, "");

    assert_eq!(filtered, vec![0, 1, 2]);
}

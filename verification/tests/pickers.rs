use ezllama::list_picker::{
    ListPicker, PickerAction, PickerItem, PickerKey, filter_items, format_line, list_picker_frame,
    list_picker_step, truncate_to_width, visible_rows,
};
use ezllama::model_picker::{
    LineStyle, ModelPicker, cache_roots_of, format_model_line, model_picker_frame,
    model_picker_step, path_join, repo_cache_dir_name, snapshot_dirs,
};

fn item(display: &str, value: &str) -> PickerItem {
    PickerItem {
        display: display.to_string(),
        value: value.to_string(),
        color: None,
    }
}

fn items(n: usize) -> Vec<PickerItem> {
    (0..n)
        .map(|i| item(&format!("Item {i}"), &format!("value-{i}")))
        .collect()
}

#[test]
fn truncation_keeps_fitting_text_and_marks_cuts() {
    assert_eq!(truncate_to_width("hello", 0), "");
    assert_eq!(truncate_to_width("hello", 5), "hello");
    assert_eq!(truncate_to_width("hello", 9), "hello");
    assert_eq!(truncate_to_width("hello", 1), "…");
    assert_eq!(truncate_to_width("hello", 4), "hel…");
    assert_eq!(truncate_to_width("모델이름", 3), "모델…");
}

#[test]
fn lines_fit_the_width() {
    assert_eq!(format_line("> ", "Mistral", 20), "> Mistral");
    assert_eq!(format_line("> ", "Mistral", 6), "> Mis…");
    assert_eq!(format_line("> ", "Mistral", 2), "> ");
    assert_eq!(format_line("> ", "Mistral", 1), "…");
    for width in 0..12 {
        assert!(format_line("  ", "Mixtral-8x7B", width).chars().count() <= width);
    }
}

#[test]
fn model_lines_keep_room_for_the_suffix() {
    assert_eq!(
        format_model_line("> ", "org/model", " (installed)", 30),
        "> org/model (installed)"
    );
    assert_eq!(
        format_model_line("> ", "org/model", " (installed)", 18),
        "> org… (installed)"
    );
    assert_eq!(format_model_line("> ", "org/model", " (installed)", 14), "> ");
    assert_eq!(format_model_line("  ", "org/model", "", 5), "  or…");
    for width in 0..30 {
        assert!(
            format_model_line("> ", "org/model", " (installed)", width)
                .chars()
                .count()
                <= width
        );
    }
}

#[test]
fn filter_ignores_case_of_query_and_text() {
    let list = vec![item("Llama-3", "a"), item("MISTRAL", "b"), item("phi", "c")];
    assert_eq!(filter_items(&list, "LL"), vec![0]);
    assert_eq!(filter_items(&list, "mist"), vec![1]);
    assert_eq!(filter_items(&list, "I"), vec![1, 2]);
    assert_eq!(filter_items(&list, "zzz"), Vec::<usize>::new());
    let accented = vec![item("ÉCOLE", "e")];
    assert_eq!(filter_items(&accented, "éc"), vec![0]);
}

#[test]
fn visible_rows_leave_room_for_header_and_footer() {
    assert_eq!(visible_rows(0), 1);
    assert_eq!(visible_rows(2), 1);
    assert_eq!(visible_rows(3), 1);
    assert_eq!(visible_rows(24), 22);
}

#[test]
fn picker_moves_and_keeps_selection_in_view() {
    let list = items(10);
    let mut picker = ListPicker::new(&list);
    assert!(matches!(
        list_picker_step(&mut picker, &list, PickerKey::Up, 3),
        PickerAction::Unchanged
    ));
    for expected in 1..=4 {
        assert!(matches!(
            list_picker_step(&mut picker, &list, PickerKey::Down, 3),
            PickerAction::Redraw
        ));
        assert_eq!(picker.selected, expected);
        assert!(picker.offset <= picker.selected && picker.selected < picker.offset + 3);
    }
    assert_eq!(picker.offset, 2);
    list_picker_step(&mut picker, &list, PickerKey::PageDown, 3);
    assert_eq!((picker.selected, picker.offset), (7, 5));
    list_picker_step(&mut picker, &list, PickerKey::PageDown, 3);
    assert_eq!((picker.selected, picker.offset), (9, 7));
    assert!(matches!(
        list_picker_step(&mut picker, &list, PickerKey::PageDown, 3),
        PickerAction::Unchanged
    ));
    list_picker_step(&mut picker, &list, PickerKey::PageUp, 3);
    assert_eq!((picker.selected, picker.offset), (6, 4));
    list_picker_step(&mut picker, &list, PickerKey::PageUp, 3);
    list_picker_step(&mut picker, &list, PickerKey::PageUp, 3);
    assert_eq!((picker.selected, picker.offset), (0, 0));
    match list_picker_step(&mut picker, &list, PickerKey::Enter, 3) {
        PickerAction::Chosen(value) => assert_eq!(value, "value-0"),
        _ => panic!("enter chooses the selected item"),
    }
    assert!(matches!(
        list_picker_step(&mut picker, &list, PickerKey::Esc, 3),
        PickerAction::Cancelled
    ));
    assert!(matches!(
        list_picker_step(&mut picker, &list, PickerKey::Other, 3),
        PickerAction::Unchanged
    ));
}

#[test]
fn typing_filters_and_erasing_restores() {
    let list = vec![item("Llama-3", "llama"), item("Mistral", "mistral"), item("Phi", "phi")];
    let mut picker = ListPicker::new(&list);
    list_picker_step(&mut picker, &list, PickerKey::Down, 5);
    assert_eq!(picker.selected, 1);
    assert!(matches!(
        list_picker_step(&mut picker, &list, PickerKey::Char('i'), 5),
        PickerAction::Redraw
    ));
    assert_eq!(picker.filtered, vec![1, 2]);
    assert_eq!((picker.selected, picker.offset), (0, 0));
    list_picker_step(&mut picker, &list, PickerKey::Char('s'), 5);
    assert_eq!(picker.filtered, vec![1]);
    match list_picker_step(&mut picker, &list, PickerKey::Enter, 5) {
        PickerAction::Chosen(value) => assert_eq!(value, "mistral"),
        _ => panic!("enter chooses the filtered item"),
    }
    list_picker_step(&mut picker, &list, PickerKey::Backspace, 5);
    assert_eq!(picker.filtered, vec![1, 2]);
    list_picker_step(&mut picker, &list, PickerKey::Backspace, 5);
    assert_eq!(picker.filtered, vec![0, 1, 2]);
    assert!(picker.query.is_empty());
    assert!(matches!(
        list_picker_step(&mut picker, &list, PickerKey::Backspace, 5),
        PickerAction::Unchanged
    ));
}

#[test]
fn nothing_to_choose_when_no_item_matches() {
    let list = vec![item("Llama-3", "llama")];
    let mut picker = ListPicker::new(&list);
    list_picker_step(&mut picker, &list, PickerKey::Char('x'), 5);
    assert!(picker.filtered.is_empty());
    assert!(matches!(
        list_picker_step(&mut picker, &list, PickerKey::Enter, 5),
        PickerAction::Unchanged
    ));
    assert!(matches!(
        list_picker_step(&mut picker, &list, PickerKey::PageDown, 5),
        PickerAction::Unchanged
    ));
}

#[test]
fn picker_frame_shows_window_and_header() {
    let list = items(10);
    let mut picker = ListPicker::new(&list);
    for _ in 0..4 {
        list_picker_step(&mut picker, &list, PickerKey::Down, 3);
    }
    let frame = list_picker_frame(&picker, &list, "Pick:", 40, 5);
    assert_eq!(frame.header, "Pick: ");
    assert_eq!(frame.visible_rows, 3);
    assert!(frame.footer);
    let shown: Vec<(String, bool, usize)> = frame
        .lines
        .iter()
        .map(|l| (l.text.clone(), l.selected, l.item))
        .collect();
    assert_eq!(
        shown,
        vec![
            ("  Item 2".to_string(), false, 2),
            ("  Item 3".to_string(), false, 3),
            ("> Item 4".to_string(), true, 4),
        ]
    );
    let narrow = list_picker_frame(&picker, &list, "A long title", 6, 1);
    assert_eq!(narrow.header, "A lon…");
    assert!(!narrow.footer);
    assert_eq!(narrow.lines.len(), 1);
}

#[test]
fn model_picker_moves_within_the_list() {
    let models: Vec<String> = (0..6).map(|i| format!("org/m{i}")).collect();
    let mut picker = ModelPicker::new();
    assert!(matches!(
        model_picker_step(&mut picker, &models, PickerKey::Up, 2),
        PickerAction::Redraw
    ));
    assert_eq!((picker.selected, picker.offset), (0, 0));
    model_picker_step(&mut picker, &models, PickerKey::Down, 2);
    model_picker_step(&mut picker, &models, PickerKey::Down, 2);
    assert_eq!((picker.selected, picker.offset), (2, 1));
    model_picker_step(&mut picker, &models, PickerKey::PageDown, 2);
    assert_eq!((picker.selected, picker.offset), (4, 3));
    model_picker_step(&mut picker, &models, PickerKey::PageDown, 2);
    assert_eq!((picker.selected, picker.offset), (5, 4));
    model_picker_step(&mut picker, &models, PickerKey::Down, 2);
    assert_eq!((picker.selected, picker.offset), (5, 4));
    model_picker_step(&mut picker, &models, PickerKey::PageUp, 2);
    assert_eq!((picker.selected, picker.offset), (3, 2));
    match model_picker_step(&mut picker, &models, PickerKey::Enter, 2) {
        PickerAction::Chosen(model) => assert_eq!(model, "org/m3"),
        _ => panic!("enter chooses the selected model"),
    }
    assert!(matches!(
        model_picker_step(&mut picker, &models, PickerKey::Esc, 2),
        PickerAction::Cancelled
    ));
}

#[test]
fn model_frame_marks_installed_models() {
    let models: Vec<String> = vec!["a/x".to_string(), "b/y".to_string(), "c/z".to_string()];
    let picker = ModelPicker::new();
    let frame = model_picker_frame(&picker, &models, &[true, false], 40, 10);
    assert!(frame.footer);
    let shown: Vec<(String, LineStyle)> = frame
        .lines
        .iter()
        .map(|l| (l.text.clone(), l.style))
        .collect();
    assert_eq!(shown.len(), 3);
    assert_eq!(shown[0].0, "> a/x (installed)");
    assert!(shown[0].1 == LineStyle::SelectedInstalled);
    assert_eq!(shown[1].0, "  b/y");
    assert!(shown[1].1 == LineStyle::Plain);
    assert_eq!(shown[2].0, "  c/z");
    assert!(shown[2].1 == LineStyle::Plain);
    let frame = model_picker_frame(&picker, &models, &[false, true, true], 40, 3);
    assert_eq!(frame.lines.len(), 1);
    assert!(frame.lines[0].style == LineStyle::Selected);
    let mut second = ModelPicker::new();
    model_picker_step(&mut second, &models, PickerKey::Down, 5);
    let frame = model_picker_frame(&second, &models, &[true, false, true], 40, 10);
    assert!(frame.lines[0].style == LineStyle::Installed);
    assert!(frame.lines[1].style == LineStyle::Selected);
}

#[test]
fn cache_directory_names_replace_slashes() {
    assert_eq!(repo_cache_dir_name("Qwen/Qwen3-4B-GGUF"), "models--Qwen--Qwen3-4B-GGUF");
    assert_eq!(repo_cache_dir_name("a/b/c"), "models--a--b--c");
    assert_eq!(repo_cache_dir_name(""), "models--");
    assert!(!repo_cache_dir_name("x/y/z").contains('/'));
}

#[test]
fn cache_roots_follow_the_environment() {
    let some = |s: &str| Some(s.to_string());
    assert_eq!(
        cache_roots_of(some("/hub"), some("/hf/"), some("/xdg"), some("/home/u")),
        vec![
            "/hub".to_string(),
            "/hf/hub".to_string(),
            "/xdg/huggingface/hub".to_string(),
            "/home/u/.cache/huggingface/hub".to_string(),
        ]
    );
    assert_eq!(
        cache_roots_of(None, None, None, some("/root")),
        vec!["/root/.cache/huggingface/hub".to_string()]
    );
    assert!(cache_roots_of(None, None, None, None).is_empty());
    assert_eq!(path_join("", "hub"), "hub");
    assert_eq!(path_join("a", "b"), "a/b");
    assert_eq!(path_join("a/", "b"), "a/b");
    let roots = vec!["/c".to_string(), "/d/".to_string()];
    assert_eq!(
        snapshot_dirs(&roots, "org/model"),
        vec![
            "/c/models--org--model/snapshots".to_string(),
            "/d/models--org--model/snapshots".to_string(),
        ]
    );
}

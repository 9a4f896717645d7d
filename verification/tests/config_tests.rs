use dtfterminal::diff_types::KeyDiff;
use dtfterminal::dtfterminal_types::{ConfigBuilder, SavedConfig, SavedContext};
use dtfterminal::file_handler::FileHandler;

#[test]
fn builder_carries_every_option_into_the_config() {
    let config = ConfigBuilder::new()
        .check_for_key_diffs(true)
        .check_for_type_diffs(false)
        .check_for_value_diffs(true)
        .check_for_array_diffs(true)
        .render_key_diffs(true)
        .render_value_diffs(true)
        .read_from_file("saved.json".to_owned())
        .write_to_file(Some("out.json".to_owned()))
        .file_a(Some("a.json".to_owned()))
        .file_b(Some("b.json".to_owned()))
        .array_same_order(true)
        .browser_view(Some("view.html".to_owned()))
        .printer_friendly(true)
        .no_browser_show(true)
        .build();

    assert!(config.check_for_key_diffs);
    assert!(!config.check_for_type_diffs);
    assert!(config.check_for_value_diffs);
    assert!(config.check_for_array_diffs);
    assert!(config.render_key_diffs);
    assert!(!config.render_type_diffs);
    assert!(config.render_value_diffs);
    assert!(!config.render_array_diffs);
    assert_eq!(config.read_from_file, "saved.json");
    assert_eq!(config.write_to_file.as_deref(), Some("out.json"));
    assert_eq!(config.file_a.as_deref(), Some("a.json"));
    assert_eq!(config.file_b.as_deref(), Some("b.json"));
    assert!(config.array_same_order);
    assert_eq!(config.browser_view.as_deref(), Some("view.html"));
    assert!(config.printer_friendly);
    assert!(config.no_browser_show);
}

#[test]
fn loaded_results_rebuild_the_saved_context() {
    let user_config = ConfigBuilder::new()
        .render_key_diffs(true)
        .read_from_file("saved.json".to_owned())
        .build();
    let mut handler = FileHandler::new(user_config, None);

    let saved = SavedContext::new(
        vec![KeyDiff::new(
            "nested.k".to_owned(),
            "a.json".to_owned(),
            "b.json".to_owned(),
        )],
        vec![],
        vec![],
        vec![],
        SavedConfig::new(
            true,
            false,
            false,
            false,
            "a.json".to_owned(),
            "b.json".to_owned(),
            true,
        ),
    );

    let (diffs, context) = handler.load_saved_results(saved);

    let keys = diffs.0.unwrap();
    assert_eq!(keys.len(), 1);
    assert_eq!(keys[0].key, "nested.k");
    assert_eq!(diffs.1.unwrap().len(), 0);
    assert_eq!(diffs.2.unwrap().len(), 0);
    assert_eq!(diffs.3.unwrap().len(), 0);

    let (file_a, file_b) = context.get_file_names();
    assert_eq!(file_a, "a.json");
    assert_eq!(file_b, "b.json");
    assert!(context.lib_working_context.config.array_same_order);
    assert!(context.config.check_for_key_diffs);
    assert!(!context.config.check_for_type_diffs);
    assert!(context.config.render_key_diffs);
    assert_eq!(context.config.read_from_file, "saved.json");
}

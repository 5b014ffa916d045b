use toolbox_menu::display::{FileViewer, ScriptExecutor};
use toolbox_menu::effective_order;
use toolbox_menu::models::{MenuCategory, MenuState, Script};

#[test]
fn executor_feature_detection_covers_display_patterns() {
    let ex = ScriptExecutor::new("/opt/toolbox".to_string());
    let f = ex.detect_script_features("curl https://example.test | more \n");
    assert!(f.has_network_ops);
    assert!(f.has_file_output);
    assert!(!f.is_dangerous);
    let f = ex.detect_script_features("dd if=/dev/zero of=/dev/sda\n");
    assert!(f.is_dangerous);
    let f = ex.detect_script_features("whiptail --msgbox hi 10 20\n");
    assert!(f.is_interactive);
}

#[test]
fn file_viewer_steps_between_matches_case_insensitively() {
    let lines: Vec<String> = vec![
        "Error: first".to_string(),
        "all good".to_string(),
        "ERROR: second".to_string(),
        "still fine".to_string(),
        "error: third".to_string(),
    ];
    let mut v = FileViewer::new();
    // without a file and a term nothing moves
    assert_eq!(v.next_match(&lines), None);
    v.view_file("/var/log/app.log".to_string());
    v.search_in_file("error".to_string());
    // stepping starts after the current line, so line zero is skipped
    assert_eq!(v.next_match(&lines), Some(2));
    assert_eq!(v.next_match(&lines), Some(4));
    assert_eq!(v.next_match(&lines), None);
    assert_eq!(v.previous_match(&lines), Some(2));
    assert_eq!(v.previous_match(&lines), Some(0));
    assert_eq!(v.previous_match(&lines), None);
}

#[test]
fn file_viewer_finds_nothing_without_matches() {
    let lines: Vec<String> = vec!["aaa".to_string(), "bbb".to_string()];
    let mut v = FileViewer::new();
    v.view_file("/tmp/f".to_string());
    v.search_in_file("zzz".to_string());
    assert_eq!(v.next_match(&lines), None);
    assert_eq!(v.previous_match(&lines), None);
}

#[test]
fn script_display_helpers_fall_back() {
    let mut s = Script::new(
        "raw-name".to_string(),
        "/opt/toolbox/a/raw-name.sh".to_string(),
        "a".to_string(),
    );
    assert_eq!(s.display_name(), "raw-name");
    assert_eq!(s.display_description(), "No description");
    assert_eq!(s.display_icon(), "\u{1F4DD}");
    assert!(!s.has_parameters());
    s.menu_name = Some("Pretty".to_string());
    s.description = Some("does things".to_string());
    s.icon = Some("I".to_string());
    s.parameters = Some("   ".to_string());
    assert_eq!(s.display_name(), "Pretty");
    assert_eq!(s.display_description(), "does things");
    assert_eq!(s.display_icon(), "I");
    // a blank parameter block does not count
    assert!(!s.has_parameters());
    s.parameters = Some("[]".to_string());
    assert!(s.has_parameters());
}

#[test]
fn menu_category_counts_its_scripts() {
    let mut c = MenuCategory::new("tools".to_string(), "tools".to_string());
    assert!(c.is_empty());
    assert_eq!(c.total_items(), 0);
    c.scripts.push(Script::new(
        "a".to_string(),
        "/opt/toolbox/tools/a.sh".to_string(),
        "tools".to_string(),
    ));
    assert!(!c.is_empty());
    assert_eq!(c.total_items(), 1);
}

#[test]
fn fresh_menu_state_is_at_the_root() {
    let st = MenuState::default();
    assert_eq!(st.current_category, "root");
    assert_eq!(st.breadcrumb, vec!["Home".to_string()]);
    assert_eq!(st.selected_index, 0);
    assert!(!st.search_mode);
    assert_eq!(st.search_query, "");
    assert!(st.filtered_items.is_empty());
}

#[test]
fn effective_order_defaults_to_the_sentinel() {
    assert_eq!(effective_order(None), 999);
    assert_eq!(effective_order(Some(3)), 3);
}

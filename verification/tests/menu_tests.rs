use toolbox_menu::menu::{KeyInput, MenuAction, MenuSystem};
use toolbox_menu::models::{MenuItem, MenuState, Script};
use toolbox_menu::store::Catalog;

fn script(name: &str, category: &str) -> Script {
    Script::new(
        name.to_string(),
        format!("/opt/toolbox/{}/{}.sh", category, name),
        category.to_string(),
    )
}

fn sample_menu() -> MenuSystem {
    let mut cat = Catalog::new();
    let top = script("welcome", "TopLevel");
    let mut a1 = script("first", "alpha");
    a1.separator = Some("Group A".to_string());
    let mut a2 = script("second", "alpha");
    a2.separator = Some("Group A".to_string());
    let mut a3 = script("third", "alpha");
    a3.separator = Some("Group B".to_string());
    let b1 = script("lonely", "bravo");
    cat.update_scripts(vec![top, a1, a2, a3, b1]);
    MenuSystem::new(cat, "/opt/toolbox".to_string(), false)
}

fn item_names(state: &MenuState) -> Vec<String> {
    state
        .filtered_items
        .iter()
        .map(|it| match it {
            MenuItem::Script(s) => format!("script:{}", s.name),
            MenuItem::Category(c) => format!("category:{}", c.name),
            MenuItem::Separator(t) => format!("separator:{}", t),
            MenuItem::Back => "back".to_string(),
            MenuItem::Home => "home".to_string(),
            MenuItem::Search => "search".to_string(),
            MenuItem::Exit => "exit".to_string(),
        })
        .collect()
}

#[test]
fn root_view_lists_top_scripts_then_categories() {
    let mut menu = sample_menu();
    menu.update_menu_items();
    assert_eq!(
        item_names(menu.current_state()),
        vec![
            "script:welcome",
            "separator:Categories",
            "category:alpha",
            "category:bravo",
            "search",
            "exit",
        ]
    );
}

#[test]
fn category_view_groups_by_separator() {
    let mut menu = sample_menu();
    menu.update_menu_items();
    // entry 3 is the alpha category
    let action = menu.handle_key_event(KeyInput::Char('3'));
    assert!(matches!(action, MenuAction::Continue));
    menu.update_menu_items();
    assert_eq!(
        item_names(menu.current_state()),
        vec![
            "separator:Group A",
            "script:first",
            "script:second",
            "separator:Group B",
            "script:third",
            "back",
            "home",
            "search",
        ]
    );
}

#[test]
fn entering_a_category_pushes_one_breadcrumb_and_two_backs_return_home() {
    let mut menu = sample_menu();
    menu.update_menu_items();
    menu.handle_key_event(KeyInput::Char('3'));
    {
        let st = menu.current_state();
        assert_eq!(st.breadcrumb, vec!["Home".to_string(), "alpha".to_string()]);
        assert_eq!(st.current_category, "alpha");
    }
    menu.handle_key_event(KeyInput::Char('x'));
    {
        let st = menu.current_state();
        assert_eq!(st.breadcrumb, vec!["Home".to_string()]);
        assert_eq!(st.current_category, "root");
    }
    menu.handle_key_event(KeyInput::Char('x'));
    {
        let st = menu.current_state();
        assert_eq!(st.breadcrumb, vec!["Home".to_string()]);
        assert_eq!(st.current_category, "root");
    }
}

#[test]
fn selection_movement_skips_separators_and_stays_in_bounds() {
    let mut menu = sample_menu();
    menu.update_menu_items();
    menu.handle_key_event(KeyInput::Char('3'));
    menu.update_menu_items();
    // layout: 0 sep, 1 first, 2 second, 3 sep, 4 third, 5 back, 6 home, 7 search
    // fresh category view starts at index 0; move down from the separator
    menu.handle_key_event(KeyInput::Down);
    assert_eq!(menu.current_state().selected_index, 1);
    menu.handle_key_event(KeyInput::Down);
    assert_eq!(menu.current_state().selected_index, 2);
    // moving onto the separator at 3 advances one more step
    menu.handle_key_event(KeyInput::Down);
    assert_eq!(menu.current_state().selected_index, 4);
    // moving back up over it likewise
    menu.handle_key_event(KeyInput::Up);
    assert_eq!(menu.current_state().selected_index, 2);
    // a large jump clamps at the end, never beyond
    menu.handle_key_event(KeyInput::PageDown);
    assert_eq!(menu.current_state().selected_index, 7);
    menu.handle_key_event(KeyInput::Down);
    assert_eq!(menu.current_state().selected_index, 7);
    // a jump that would land on the leading separator stays put
    menu.handle_key_event(KeyInput::PageUp);
    assert_eq!(menu.current_state().selected_index, 7);
    // stepping up walks over the separator without resting on it
    menu.handle_key_event(KeyInput::Up);
    assert_eq!(menu.current_state().selected_index, 6);
    menu.handle_key_event(KeyInput::Up);
    assert_eq!(menu.current_state().selected_index, 5);
    menu.handle_key_event(KeyInput::Up);
    assert_eq!(menu.current_state().selected_index, 4);
    menu.handle_key_event(KeyInput::Up);
    assert_eq!(menu.current_state().selected_index, 2);
}

#[test]
fn search_mode_starts_empty_and_requeries_per_keystroke() {
    let mut menu = sample_menu();
    menu.update_menu_items();
    menu.handle_key_event(KeyInput::Char('s'));
    {
        let st = menu.current_state();
        assert!(st.search_mode);
        assert_eq!(st.search_query, "");
        assert!(st.filtered_items.is_empty());
    }
    menu.handle_key_event(KeyInput::Char('f'));
    {
        let st = menu.current_state();
        assert_eq!(st.search_query, "f");
        // "first" matches, plus the trailing back entry
        assert_eq!(
            item_names(st),
            vec!["script:first", "back"]
        );
        assert_eq!(st.selected_index, 0);
    }
    menu.handle_key_event(KeyInput::Backspace);
    {
        let st = menu.current_state();
        assert_eq!(st.search_query, "");
        assert!(st.filtered_items.is_empty());
    }
    menu.handle_key_event(KeyInput::Esc);
    assert!(!menu.current_state().search_mode);
}

#[test]
fn enter_on_a_script_hands_it_out_for_execution() {
    let mut menu = sample_menu();
    menu.update_menu_items();
    // index 0 is the top-level script
    let action = menu.handle_key_event(KeyInput::Enter);
    match action {
        MenuAction::Execute(s) => assert_eq!(s.name, "welcome"),
        _ => panic!("expected an execute action"),
    }
}

#[test]
fn exit_paths_end_the_session() {
    let mut menu = sample_menu();
    menu.update_menu_items();
    assert!(matches!(menu.handle_key_event(KeyInput::Esc), MenuAction::Exit));
    assert!(matches!(
        menu.handle_key_event(KeyInput::CtrlChar('q')),
        MenuAction::Exit
    ));
    // plain q does nothing
    assert!(matches!(
        menu.handle_key_event(KeyInput::Char('q')),
        MenuAction::Continue
    ));
    // the exit entry, activated, ends the session too
    let len = menu.current_state().filtered_items.len();
    let action = menu.handle_key_event(KeyInput::Char('6'));
    assert_eq!(len, 6);
    assert!(matches!(action, MenuAction::Exit));
}

#[test]
fn help_is_offered_outside_search() {
    let mut menu = sample_menu();
    menu.update_menu_items();
    assert!(matches!(
        menu.handle_key_event(KeyInput::Help),
        MenuAction::ShowHelp
    ));
    assert!(matches!(
        menu.handle_key_event(KeyInput::Char('?')),
        MenuAction::ShowHelp
    ));
    // while searching, the question mark is typed into the query
    menu.handle_key_event(KeyInput::Char('s'));
    assert!(matches!(
        menu.handle_key_event(KeyInput::Char('?')),
        MenuAction::Continue
    ));
    assert_eq!(menu.current_state().search_query, "?");
}

#[test]
fn go_home_resets_view_and_search() {
    let mut menu = sample_menu();
    menu.update_menu_items();
    menu.handle_key_event(KeyInput::Char('3'));
    menu.update_menu_items();
    menu.handle_key_event(KeyInput::Char('h'));
    let st = menu.current_state();
    assert_eq!(st.current_category, "root");
    assert_eq!(st.breadcrumb, vec!["Home".to_string()]);
    assert!(!st.search_mode);
    assert_eq!(st.search_query, "");
}

#[test]
fn quick_select_digit_zero_names_the_tenth_entry() {
    let mut menu = sample_menu();
    menu.update_menu_items();
    // the root view holds six entries, so entry ten does nothing
    assert!(matches!(
        menu.handle_key_event(KeyInput::Char('0')),
        MenuAction::Continue
    ));
    assert_eq!(menu.current_state().selected_index, 0);
    // an in-range digit activates: '5' names the search entry
    menu.handle_key_event(KeyInput::Char('5'));
    assert!(menu.current_state().search_mode);
}

#[test]
fn end_key_jumps_to_the_last_search_result() {
    let mut menu = sample_menu();
    menu.update_menu_items();
    menu.handle_key_event(KeyInput::Char('s'));
    menu.handle_key_event(KeyInput::Char('e'));
    // "welcome", "second" and "lonely" all hold an e; plus the back entry
    let len = menu.current_state().filtered_items.len();
    assert!(len > 1);
    menu.handle_key_event(KeyInput::End);
    assert_eq!(menu.current_state().selected_index, len - 1);
}

#[test]
fn record_execution_flows_to_the_store() {
    let mut menu = sample_menu();
    menu.update_menu_items();
    menu.record_execution(1, 0, 42, None);
    // the entries are unaffected by history writes
    assert_eq!(item_names(menu.current_state()).len(), 6);
}

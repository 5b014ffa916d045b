use toolbox_menu::models::Script;
use toolbox_menu::scanner::{sort_scripts, DependencyProbes, ScriptScanner};
use toolbox_menu::store::Catalog;

fn script(name: &str, category: &str) -> Script {
    Script::new(
        name.to_string(),
        format!("/opt/toolbox/{}/{}.sh", category, name),
        category.to_string(),
    )
}

fn names(v: &[Script]) -> Vec<String> {
    v.iter().map(|s| s.name.clone()).collect()
}

#[test]
fn canonical_order_is_category_order_name() {
    let mut a = script("zeta", "alpha");
    a.order = Some(1);
    let b = script("beta", "alpha"); // no order: defaults to 999
    let mut c = script("apple", "alpha");
    c.order = Some(5);
    let d = script("delta", "aaa");
    let mut v = vec![b.clone(), a.clone(), c.clone(), d.clone()];
    sort_scripts(&mut v);
    assert_eq!(names(&v), vec!["delta", "zeta", "apple", "beta"]);
}

#[test]
fn unordered_entries_sort_after_order_999_peers() {
    let mut a = script("aaa", "x");
    a.order = None;
    let mut b = script("zzz", "x");
    b.order = Some(999);
    let mut v = vec![a, b];
    sort_scripts(&mut v);
    // both carry effective order 999, so the name decides
    assert_eq!(names(&v), vec!["aaa", "zzz"]);
}

#[test]
fn sorting_is_canonical_and_idempotent() {
    let a = script("a", "one");
    let b = script("b", "one");
    let c = script("c", "two");
    let mut v1 = vec![c.clone(), a.clone(), b.clone()];
    let mut v2 = vec![b.clone(), c.clone(), a.clone()];
    sort_scripts(&mut v1);
    sort_scripts(&mut v2);
    assert_eq!(names(&v1), names(&v2));
    let before = names(&v1);
    sort_scripts(&mut v1);
    assert_eq!(names(&v1), before);
}

#[test]
fn replace_all_is_a_full_swap() {
    let mut cat = Catalog::new();
    assert!(cat.is_empty());
    cat.update_scripts(vec![script("one", "a"), script("two", "a")]);
    assert!(!cat.is_empty());
    assert_eq!(names(&cat.get_scripts_by_category("a")), vec!["one", "two"]);
    cat.update_scripts(vec![script("three", "a")]);
    let now = cat.get_scripts_by_category("a");
    assert_eq!(names(&now), vec!["three"]);
    assert!(cat.get_script_by_path("/opt/toolbox/a/one.sh").is_none());
    assert!(cat.get_script_by_path("/opt/toolbox/a/three.sh").is_some());
}

#[test]
fn by_category_resorts_by_order_then_name() {
    let mut cat = Catalog::new();
    let mut x = script("xavier", "tools");
    x.order = Some(1);
    let y = script("anna", "tools");
    let z = script("zorro", "other");
    cat.update_scripts(vec![y.clone(), z.clone(), x.clone()]);
    assert_eq!(
        names(&cat.get_scripts_by_category("tools")),
        vec!["xavier", "anna"]
    );
    assert_eq!(names(&cat.get_scripts_by_category("missing")), Vec::<String>::new());
}

#[test]
fn categories_are_distinct_and_alphabetical() {
    let mut cat = Catalog::new();
    cat.update_scripts(vec![
        script("a", "zulu"),
        script("b", "alpha"),
        script("c", "zulu"),
        script("d", "mike"),
    ]);
    assert_eq!(cat.get_all_categories(), vec!["alpha", "mike", "zulu"]);
}

#[test]
fn substring_search_ranks_name_over_other_fields() {
    let mut cat = Catalog::new();
    let by_name = script("backup-db", "tools");
    let mut by_menu = script("aardvark", "tools");
    by_menu.menu_name = Some("Backup Files".to_string());
    let mut by_desc = script("mango", "tools");
    by_desc.description = Some("runs a backup".to_string());
    let mut by_tag = script("kiwi", "tools");
    by_tag.tags = vec!["backup".to_string()];
    let unrelated = script("unrelated", "tools");
    cat.update_scripts(vec![
        by_tag.clone(),
        by_desc.clone(),
        by_menu.clone(),
        by_name.clone(),
        unrelated.clone(),
    ]);
    let hits = cat.search_scripts("backup");
    assert_eq!(names(&hits), vec!["backup-db", "aardvark", "mango", "kiwi"]);
}

#[test]
fn substring_search_matches_the_serialized_tag_text() {
    let mut cat = Catalog::new();
    let mut s = script("multi", "tools");
    s.tags = vec!["alpha".to_string(), "beta".to_string()];
    cat.update_scripts(vec![s]);
    // tags are searched in their serialized form, so a query may span
    // two tags across the serialization punctuation
    assert_eq!(names(&cat.search_scripts("alpha\",\"beta")), vec!["multi"]);
    assert_eq!(
        names(&cat.search_scripts("beta\",\"alpha")),
        Vec::<String>::new()
    );
}

#[test]
fn substring_search_is_case_insensitive() {
    let mut cat = Catalog::new();
    cat.update_scripts(vec![script("backup-db", "tools")]);
    assert_eq!(names(&cat.search_scripts("BACKUP")), vec!["backup-db"]);
    assert_eq!(names(&cat.search_scripts("nothing")), Vec::<String>::new());
}

#[test]
fn search_matches_detailed_description() {
    let mut cat = Catalog::new();
    let mut s = script("quiet", "tools");
    s.detailed_description = Some("a Lengthy Story".to_string());
    cat.update_scripts(vec![s]);
    assert_eq!(names(&cat.search_scripts("lengthy")), vec!["quiet"]);
}

#[test]
fn path_lookup_finds_exactly_one() {
    let mut cat = Catalog::new();
    cat.update_scripts(vec![script("one", "a"), script("two", "b")]);
    let hit = cat.get_script_by_path("/opt/toolbox/b/two.sh").unwrap();
    assert_eq!(hit.name, "two");
    assert!(cat.get_script_by_path("/opt/toolbox/b/two").is_none());
}

#[test]
fn record_execution_leaves_entries_alone() {
    let mut cat = Catalog::new();
    cat.update_scripts(vec![script("one", "a")]);
    cat.record_execution(1, 0, 125, None);
    cat.record_execution(1, 2, 13, Some("{}".to_string()));
    assert_eq!(names(&cat.get_scripts_by_category("a")), vec!["one"]);
}

#[test]
fn availability_for_absolute_path_follows_existence_alone() {
    let sc = ScriptScanner::new("/opt/toolbox".to_string());
    let mut s = script("needs-tool", "a");
    s.integration = Some("/usr/bin/some-tool".to_string());
    let exists = DependencyProbes {
        path_exists: true,
        found_on_path: false,
        dpkg_reports_installed: false,
        rpm_reports_installed: false,
    };
    let missing = DependencyProbes {
        path_exists: false,
        found_on_path: true,
        dpkg_reports_installed: true,
        rpm_reports_installed: true,
    };
    assert!(sc.check_dependency_available(&s, &exists));
    assert!(!sc.check_dependency_available(&s, &missing));
}

#[test]
fn availability_defaults_are_asymmetric() {
    let sc = ScriptScanner::new("/opt/toolbox".to_string());
    let nothing = DependencyProbes {
        path_exists: false,
        found_on_path: false,
        dpkg_reports_installed: false,
        rpm_reports_installed: false,
    };
    // no dependency declared: available
    let s = script("plain", "a");
    assert!(sc.check_dependency_available(&s, &nothing));
    // a command nothing confirms: not available
    let mut cmd = script("needs-cmd", "a");
    cmd.integration = Some("some-command".to_string());
    assert!(!sc.check_dependency_available(&cmd, &nothing));
    // a package query can confirm it
    let dpkg = DependencyProbes {
        dpkg_reports_installed: true,
        ..nothing
    };
    assert!(sc.check_dependency_available(&cmd, &dpkg));
    // skip-listed pseudo-categories count as available
    let mut skip = script("core", "a");
    skip.integration = Some("ToolboxCore".to_string());
    assert!(sc.check_dependency_available(&skip, &nothing));
}

#[test]
fn apply_availability_records_the_decision() {
    let sc = ScriptScanner::new("/opt/toolbox".to_string());
    let mut s = script("needs-cmd", "a");
    s.integration = Some("some-command".to_string());
    let nothing = DependencyProbes {
        path_exists: false,
        found_on_path: false,
        dpkg_reports_installed: false,
        rpm_reports_installed: false,
    };
    sc.apply_availability(&mut s, &nothing);
    assert!(!s.dependency_available);
}

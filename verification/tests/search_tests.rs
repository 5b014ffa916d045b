use toolbox_menu::models::Script;
use toolbox_menu::search::SearchEngine;

fn script(name: &str, category: &str) -> Script {
    Script::new(
        name.to_string(),
        format!("/opt/toolbox/{}/{}.sh", category, name),
        category.to_string(),
    )
}

fn names(v: &[Script]) -> Vec<String> {
    v.iter().map(|s| s.name.clone()).collect()
}

#[test]
fn name_match_outranks_long_description_match() {
    let engine = SearchEngine::new();
    let by_name = script("backup-db", "tools");
    let mut by_long = script("archiver", "tools");
    by_long.detailed_description = Some("makes a backup of everything".to_string());
    let scripts = vec![by_long.clone(), by_name.clone()];
    let ranked = engine.fuzzy_search(&scripts, "backup");
    assert_eq!(ranked.first().map(|s| s.name.clone()), Some("backup-db".to_string()));
    assert_eq!(ranked.len(), 2);
}

#[test]
fn empty_query_yields_no_results() {
    let engine = SearchEngine::new();
    let scripts = vec![script("anything", "tools")];
    assert!(engine.fuzzy_search(&scripts, "").is_empty());
}

#[test]
fn non_matching_entries_are_excluded() {
    let engine = SearchEngine::new();
    let scripts = vec![script("alpha", "tools"), script("bravo", "tools")];
    let ranked = engine.fuzzy_search(&scripts, "alpha");
    assert_eq!(names(&ranked), vec!["alpha"]);
}

#[test]
fn search_by_category_is_a_case_insensitive_filter() {
    let engine = SearchEngine::new();
    let scripts = vec![
        script("one", "NetworkUtils"),
        script("two", "BackupUtilities"),
        script("three", "NetworkUtils"),
    ];
    let hits = engine.search_by_category(&scripts, "network");
    assert_eq!(names(&hits), vec!["one", "three"]);
}

#[test]
fn search_by_tags_matches_any_query_tag() {
    let engine = SearchEngine::new();
    let mut a = script("a", "t");
    a.tags = vec!["Network".to_string()];
    let mut b = script("b", "t");
    b.tags = vec!["disk".to_string()];
    let scripts = vec![a, b];
    let hits = engine.search_by_tags(&scripts, &vec!["net".to_string()]);
    assert_eq!(names(&hits), vec!["a"]);
    let none = engine.search_by_tags(&scripts, &vec!["gpu".to_string()]);
    assert!(none.is_empty());
}

#[test]
fn suggestions_are_sorted_distinct_and_capped() {
    let engine = SearchEngine::new();
    let mut scripts = Vec::new();
    let mut a = script("backup-db", "backups");
    a.tags = vec!["backup".to_string()];
    a.menu_name = Some("Backup Database".to_string());
    scripts.push(a);
    scripts.push(script("backup-files", "backups"));
    let sugg = engine.get_suggestions(&scripts, "ba");
    assert_eq!(
        sugg,
        vec![
            "Backup Database".to_string(),
            "backup".to_string(),
            "backup-db".to_string(),
            "backup-files".to_string(),
            "backups".to_string(),
        ]
    );
    // too short a prefix suggests nothing
    assert!(engine.get_suggestions(&scripts, "b").is_empty());
    // the list is capped at ten entries
    let mut many = Vec::new();
    for i in 0..15 {
        many.push(script(&format!("prefix-{:02}", i), "cat"));
    }
    assert_eq!(engine.get_suggestions(&many, "pre").len(), 10);
}

#[test]
fn highlight_matches_marks_single_characters() {
    let engine = SearchEngine::new();
    let text = "backup-db";
    let ranges = engine.highlight_matches(text, "bdb");
    assert!(!ranges.is_empty());
    for (a, b) in &ranges {
        assert_eq!(b - a, 1);
        assert!(*a < text.chars().count());
    }
    // the marked positions rise strictly
    for pair in ranges.windows(2) {
        assert!(pair[0].0 < pair[1].0);
    }
    assert!(engine.highlight_matches(text, "zzz").is_empty());
}

#[test]
fn advanced_search_agrees_with_plain_ranking() {
    let engine = SearchEngine::new();
    let by_name = script("backup-db", "tools");
    let mut by_long = script("archiver", "tools");
    by_long.detailed_description = Some("makes a backup of everything".to_string());
    let mut tagged = script("mango", "tools");
    tagged.tags = vec!["backup".to_string()];
    let scripts = vec![by_long.clone(), tagged.clone(), by_name.clone()];
    let plain = engine.fuzzy_search(&scripts, "backup");
    let detailed = engine.advanced_search(&scripts, "backup");
    assert_eq!(plain.len(), detailed.len());
    for (p, d) in plain.iter().zip(detailed.iter()) {
        assert_eq!(p.name, d.script.name);
    }
}

#[test]
fn advanced_search_reports_matched_fields() {
    let engine = SearchEngine::new();
    let mut s = script("backup-db", "tools");
    s.tags = vec!["backup".to_string()];
    let results = engine.advanced_search(&vec![s], "backup");
    assert_eq!(results.len(), 1);
    let r = &results[0];
    assert!(r.score > 0);
    assert!(r.matched_fields.contains(&"name".to_string()));
    assert!(r.matched_fields.contains(&"tag_0".to_string()));
    let keys: Vec<String> = r.highlight_ranges.iter().map(|p| p.0.clone()).collect();
    assert_eq!(keys, r.matched_fields);
}

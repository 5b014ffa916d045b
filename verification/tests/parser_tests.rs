use toolbox_menu::scanner::ScriptScanner;

fn scanner() -> ScriptScanner {
    ScriptScanner::new(String::from("/opt/toolbox"))
}

#[test]
fn directives_populate_fields() {
    let content = "#!/bin/bash\n\
                   #MN Backup Database\n\
                   #MD Dumps the database\n\
                   #MDD Dumps the database to a tarball\n\
                   #MI pg_dump\n\
                   #INFO https://example.test/backup\n\
                   #MICON X\n\
                   #MCOLOR Z1\n\
                   #MORDER 7\n\
                   #MDEFAULT true\n\
                   #MSEPARATOR Maintenance\n\
                   #MTAGS db, backup\n\
                   #MAUTHOR Sam\n";
    let s = scanner().parse_script("/opt/toolbox/ops/backup-db.sh", content);
    assert_eq!(s.name, "backup-db");
    assert_eq!(s.category, "ops");
    assert_eq!(s.menu_name.as_deref(), Some("Backup Database"));
    assert_eq!(s.description.as_deref(), Some("Dumps the database"));
    assert_eq!(
        s.detailed_description.as_deref(),
        Some("Dumps the database to a tarball")
    );
    assert_eq!(s.integration.as_deref(), Some("pg_dump"));
    assert_eq!(s.info_url.as_deref(), Some("https://example.test/backup"));
    assert_eq!(s.icon.as_deref(), Some("X"));
    assert_eq!(s.color.as_deref(), Some("Z1"));
    assert_eq!(s.order, Some(7));
    assert!(s.is_default);
    assert_eq!(s.separator.as_deref(), Some("Maintenance"));
    assert_eq!(s.tags, vec!["db".to_string(), "backup".to_string()]);
    assert_eq!(s.author.as_deref(), Some("Sam"));
    assert!(s.dependency_available);
    assert_eq!(s.created_at, s.updated_at);
}

#[test]
fn later_directive_wins_within_window() {
    let content = "#!/bin/bash\n#MORDER 5\n# a comment\n#MORDER 10\n";
    let s = scanner().parse_script("/opt/toolbox/a.sh", content);
    assert_eq!(s.order, Some(10));
}

#[test]
fn directives_beyond_line_fifty_are_ignored() {
    let mut content = String::new();
    for _ in 0..50 {
        content.push_str("# filler\n");
    }
    content.push_str("#MN Too Late\n");
    let s = scanner().parse_script("/opt/toolbox/a.sh", &content);
    assert_eq!(s.menu_name, None);

    let mut content2 = String::new();
    for _ in 0..49 {
        content2.push_str("# filler\n");
    }
    content2.push_str("#MN Just In Time\n");
    let s2 = scanner().parse_script("/opt/toolbox/a.sh", &content2);
    assert_eq!(s2.menu_name.as_deref(), Some("Just In Time"));
}

#[test]
fn non_numeric_order_is_ignored() {
    let content = "#MORDER abc\n";
    let s = scanner().parse_script("/opt/toolbox/a.sh", content);
    assert_eq!(s.order, None);
}

#[test]
fn huge_order_is_ignored() {
    let content = "#MORDER 99999999999999999999\n";
    let s = scanner().parse_script("/opt/toolbox/a.sh", content);
    assert_eq!(s.order, None);
}

#[test]
fn default_directive_accepts_only_booleans() {
    let s = scanner().parse_script("/opt/toolbox/a.sh", "#MDEFAULT maybe\n");
    assert!(!s.is_default);
    let s = scanner().parse_script("/opt/toolbox/a.sh", "#MDEFAULT false\n");
    assert!(!s.is_default);
    let s = scanner().parse_script("/opt/toolbox/a.sh", "#MDEFAULT true\n");
    assert!(s.is_default);
}

#[test]
fn carriage_return_line_endings_are_handled() {
    let content = "#MN Windows Style\r\n#MORDER 4\r\n";
    let s = scanner().parse_script("/opt/toolbox/a.sh", content);
    assert_eq!(s.menu_name.as_deref(), Some("Windows Style"));
    assert_eq!(s.order, Some(4));
}

#[test]
fn repeated_parses_agree_except_clock_stamps() {
    let sc = scanner();
    let content = "#MN One\n#MORDER 3\n#MTAGS a,b\n";
    let a = sc.parse_script("/opt/toolbox/x/a.sh", content);
    let b = sc.parse_script("/opt/toolbox/x/a.sh", content);
    assert_eq!(a.name, b.name);
    assert_eq!(a.path, b.path);
    assert_eq!(a.category, b.category);
    assert_eq!(a.menu_name, b.menu_name);
    assert_eq!(a.order, b.order);
    assert_eq!(a.tags, b.tags);
    assert_eq!(a.parameters, b.parameters);
    assert_eq!(a.dependency_available, b.dependency_available);
}

#[test]
fn unknown_directives_are_ignored() {
    let s = scanner().parse_script("/opt/toolbox/a.sh", "#MX whatever\n#MNX nope\n");
    assert_eq!(s.menu_name, None);
    assert_eq!(s.description, None);
}

#[test]
fn directive_values_are_trimmed() {
    let s = scanner().parse_script("/opt/toolbox/a.sh", "   #MN   Spaced Out   \n");
    assert_eq!(s.menu_name.as_deref(), Some("Spaced Out"));
}

#[test]
fn tags_split_trims_and_drops_empties() {
    let s = scanner().parse_script("/opt/toolbox/a.sh", "#MTAGS  a , b,, c ,\n");
    assert_eq!(
        s.tags,
        vec!["a".to_string(), "b".to_string(), "c".to_string()]
    );
}

#[test]
fn duplicate_tags_are_kept() {
    let s = scanner().parse_script("/opt/toolbox/a.sh", "#MTAGS a,a\n");
    assert_eq!(s.tags, vec!["a".to_string(), "a".to_string()]);
}

#[test]
fn category_is_top_level_for_files_under_root() {
    let sc = scanner();
    assert_eq!(sc.determine_category("c.sh"), "TopLevel");
    assert_eq!(sc.determine_category("a/c.sh"), "a");
    assert_eq!(sc.determine_category("a/b/c.sh"), "a::b");
    // a path led by its only separator has the root separator as its
    // parent; the category is never empty
    assert_eq!(sc.determine_category("/c.sh"), "::");
}

#[test]
fn parse_derives_category_relative_to_root() {
    let sc = scanner();
    let s = sc.parse_script("/opt/toolbox/net/dns/probe.sh", "\n");
    assert_eq!(s.category, "net::dns");
    let s = sc.parse_script("/opt/toolbox/top.sh", "\n");
    assert_eq!(s.category, "TopLevel");
}

#[test]
fn json_parameter_block_is_extracted() {
    let content = "#!/bin/bash\n\
                   #JSON_PARAMS_START\n\
                   # [{\"name\": \"host\",\n\
                   #  \"type\": \"text\"}]\n\
                   #JSON_PARAMS_END\n";
    let s = scanner().parse_script("/opt/toolbox/a.sh", content);
    let params = s.parameters.expect("block should be kept");
    assert_eq!(params, " [{\"name\": \"host\",\n  \"type\": \"text\"}]");
}

#[test]
fn invalid_json_block_is_dropped_but_metadata_kept() {
    let content = "#MN Keeps Name\n\
                   #JSON_PARAMS_START\n\
                   # not json at all {{{\n\
                   #JSON_PARAMS_END\n";
    let s = scanner().parse_script("/opt/toolbox/a.sh", content);
    assert_eq!(s.parameters, None);
    assert_eq!(s.menu_name.as_deref(), Some("Keeps Name"));
}

#[test]
fn missing_or_misordered_markers_yield_no_block() {
    let sc = scanner();
    let s = sc.parse_script("/opt/toolbox/a.sh", "#JSON_PARAMS_START\n# {}\n");
    assert_eq!(s.parameters, None);
    let s = sc.parse_script(
        "/opt/toolbox/a.sh",
        "#JSON_PARAMS_END\n# {}\n#JSON_PARAMS_START\n",
    );
    assert_eq!(s.parameters, None);
}

#[test]
fn script_extension_check() {
    assert!(toolbox_menu::scanner::has_script_extension("a/b/c.sh"));
    assert!(!toolbox_menu::scanner::has_script_extension("a/b/c.txt"));
    assert!(!toolbox_menu::scanner::has_script_extension("a/b/.sh"));
    assert!(!toolbox_menu::scanner::has_script_extension("a/b/noext"));
}

#[test]
fn scanner_feature_detection() {
    let sc = scanner();
    let f = sc.detect_script_features("sudo apt update && apt install -y jq\n");
    assert!(f.has_package_manager);
    assert_eq!(f.package_manager.as_deref(), Some("apt"));
    let f = sc.detect_script_features("dnf install -y jq\n");
    assert_eq!(f.package_manager.as_deref(), Some("dnf"));
    let f = sc.detect_script_features("yum install -y jq\n");
    assert_eq!(f.package_manager.as_deref(), Some("yum"));
    let f = sc.detect_script_features("if true; then\n  rm -rf /tmp/x\nfi\nread -r x\ncat /etc/hosts\n");
    assert!(f.has_conditional_flow);
    assert!(f.is_dangerous);
    assert!(f.is_interactive);
    assert!(f.has_file_output);
    let f = sc.detect_script_features("echo hello\n");
    assert!(!f.has_package_manager);
    assert!(!f.is_dangerous);
}

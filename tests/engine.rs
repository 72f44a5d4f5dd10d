use command_library::catalog::{
    categories_detailed, category_description, commands_by_category, find_category_id,
};
use command_library::detail::{all_commands, command_detail, find_command, popular_commands};
use command_library::model::{
    AppError, AppStats, BasicCategoryRow, BasicCommandRow, BasicGroupRow, Command,
    CommandSectionRow, SearchQuery, TipRow, TipSectionRow,
};
use command_library::schema::{check_schema, required_table_names};
use command_library::search::{effective_limit_exec, parse_category_id, relevance_exec, search_commands};
use command_library::suggest::suggestions;
use command_library::text::{chars_of, display_name_of, trim_text};
use command_library::tips::random_tip;

fn command(id: i64, category: i64, name: &str, description: &str) -> Command {
    Command { id, name: name.to_string(), category, description: description.to_string() }
}

fn query(q: &str, category: Option<&str>, limit: Option<i64>) -> SearchQuery {
    SearchQuery { q: q.to_string(), category: category.map(|c| c.to_string()), limit }
}

fn relevance_of(name: &str, description: &str, t: &str) -> u8 {
    relevance_exec(&chars_of(name), &chars_of(description), &chars_of(t))
}

fn tiered_rows() -> Vec<Command> {
    vec![
        command(1, 1, "xgrepx", "contains in name"),
        command(2, 1, "other", "grep at start of description"),
        command(3, 1, "grep", "exact name"),
        command(4, 1, "zzz", "text mentioning grep later"),
        command(5, 1, "grepper", "prefix of name"),
        command(6, 1, "agrep", "contains in name too"),
        command(7, 1, "unrelated", "nothing here"),
    ]
}

#[test]
fn search_ranks_by_tier_then_name() {
    let found = search_commands(&tiered_rows(), &query("grep", None, None)).unwrap();
    let names: Vec<&str> = found.iter().map(|c| c.name.as_str()).collect();
    assert_eq!(names, vec!["grep", "grepper", "agrep", "xgrepx", "other", "zzz"]);
}

#[test]
fn relevance_tiers_have_fixed_scores() {
    assert_eq!(relevance_of("grep", "", "grep"), 100);
    assert_eq!(relevance_of("grepper", "", "grep"), 50);
    assert_eq!(relevance_of("egrep", "", "grep"), 30);
    assert_eq!(relevance_of("x", "grep it", "grep"), 20);
    assert_eq!(relevance_of("x", "use grep", "grep"), 10);
    assert_eq!(relevance_of("x", "nothing", "grep"), 0);
}

#[test]
fn search_results_contain_the_query() {
    let found = search_commands(&tiered_rows(), &query("  grep  ", None, None)).unwrap();
    assert_eq!(found.len(), 6);
    for c in &found {
        assert!(c.name.contains("grep") || c.description.contains("grep"));
    }
}

#[test]
fn search_scores_never_increase() {
    let found = search_commands(&tiered_rows(), &query("grep", None, None)).unwrap();
    let scores: Vec<u8> = found.iter().map(|c| relevance_of(&c.name, &c.description, "grep")).collect();
    for w in scores.windows(2) {
        assert!(w[0] >= w[1]);
    }
}

#[test]
fn search_ignores_ascii_case_except_for_exact_names() {
    let rows = vec![command(1, 1, "Grep", "Upper case"), command(2, 1, "grep", "lower case")];
    let found = search_commands(&rows, &query("grep", None, None)).unwrap();
    let names: Vec<&str> = found.iter().map(|c| c.name.as_str()).collect();
    assert_eq!(names, vec!["grep", "Grep"]);
    assert_eq!(relevance_of("Grep", "Upper case", "grep"), 50);
    assert_eq!(relevance_of("Grep", "", "Grep"), 100);
    assert_eq!(relevance_of("xGREPx", "", "grep"), 30);
}

#[test]
fn lowercase_query_finds_capitalised_description() {
    let rows = vec![
        command(1, 1, "grep", "Search files for lines matching a pattern"),
        command(2, 3, "chmod", "Change file permissions"),
    ];
    let found = search_commands(&rows, &query("search", None, None)).unwrap();
    assert_eq!(found.len(), 1);
    assert_eq!(found[0].name, "grep");
    assert_eq!(relevance_of(&found[0].name, &found[0].description, "search"), 20);
    let found = search_commands(&rows, &query("CHANGE", None, None)).unwrap();
    assert_eq!(found.len(), 1);
    assert_eq!(found[0].name, "chmod");
    let found = search_commands(&rows, &query("PERMISSIONS", None, None)).unwrap();
    assert_eq!(relevance_of(&found[0].name, &found[0].description, "PERMISSIONS"), 10);
}

#[test]
fn folding_covers_ascii_letters_only() {
    let rows = vec![command(1, 1, "\u{c9}tat", "\u{e9}tat du syst\u{e8}me")];
    assert_eq!(search_commands(&rows, &query("\u{e9}TAT", None, None)).unwrap().len(), 1);
    assert!(search_commands(&rows, &query("\u{c9}TAT DU", None, None)).unwrap().is_empty());
}

#[test]
fn suggestions_ignore_ascii_case() {
    let names: Vec<String> = ["Grep", "grep", "gzip", "GREP"].iter().map(|s| s.to_string()).collect();
    assert_eq!(suggestions(&names, "gr"), vec!["GREP", "Grep", "grep"]);
    assert_eq!(suggestions(&names, "GZ"), vec!["gzip"]);
}

fn many_rows(n: i64) -> Vec<Command> {
    (0..n).map(|i| command(i, 1, &format!("cmd{:03}", i), "generated")).collect()
}

#[test]
fn search_limit_is_capped() {
    let rows = many_rows(150);
    assert_eq!(search_commands(&rows, &query("cmd", None, Some(1000))).unwrap().len(), 100);
    assert_eq!(search_commands(&rows, &query("cmd", None, None)).unwrap().len(), 50);
    assert_eq!(search_commands(&rows, &query("cmd", None, Some(7))).unwrap().len(), 7);
    assert_eq!(search_commands(&rows, &query("cmd", None, Some(0))).unwrap().len(), 0);
    assert_eq!(search_commands(&rows, &query("cmd", None, Some(-1))).unwrap().len(), 100);
    let first = search_commands(&rows, &query("cmd", None, Some(3))).unwrap();
    assert_eq!(first[0].name, "cmd000");
    assert_eq!(first[2].name, "cmd002");
}

#[test]
fn effective_limit_values() {
    assert_eq!(effective_limit_exec(None), 50);
    assert_eq!(effective_limit_exec(Some(1000)), 100);
    assert_eq!(effective_limit_exec(Some(100)), 100);
    assert_eq!(effective_limit_exec(Some(20)), 20);
    assert_eq!(effective_limit_exec(Some(-5)), 100);
}

#[test]
fn blank_search_is_invalid_input() {
    for q in ["", "   ", "\t\n"] {
        match search_commands(&tiered_rows(), &query(q, None, None)) {
            Err(AppError::InvalidInput(_)) => {}
            other => panic!("unexpected {:?}", other),
        }
    }
}

#[test]
fn blank_suggestions_are_empty() {
    let names = vec!["grep".to_string()];
    assert!(suggestions(&names, "").is_empty());
    assert!(suggestions(&names, "  ").is_empty());
}

#[test]
fn suggestions_are_distinct_sorted_and_capped() {
    let names: Vec<String> =
        ["gzip", "grep", "git", "grep", "awk", "gawk", "gcc", "gdb", "gpg", "gs", "gv", "gm", "gt", "go"]
            .iter()
            .map(|s| s.to_string())
            .collect();
    let s = suggestions(&names, "g");
    assert_eq!(s, vec!["gawk", "gcc", "gdb", "git", "gm", "go", "gpg", "grep", "gs", "gt"]);
    let s = suggestions(&names, "gr");
    assert_eq!(s, vec!["grep"]);
    let s = suggestions(&names, "x");
    assert!(s.is_empty());
}

#[test]
fn search_category_filter() {
    let rows = vec![
        command(1, 1, "grep", "search"),
        command(2, 10, "grepnet", "net search"),
        command(3, 10, "ping", "network"),
    ];
    let found = search_commands(&rows, &query("grep", Some("10"), None)).unwrap();
    assert_eq!(found.len(), 1);
    assert_eq!(found[0].id, 2);
    assert!(search_commands(&rows, &query("grep", Some("abc"), None)).unwrap().is_empty());
    assert!(search_commands(&rows, &query("grep", Some("7"), None)).unwrap().is_empty());
    assert_eq!(search_commands(&rows, &query("grep", Some("+1"), None)).unwrap().len(), 1);
}

#[test]
fn category_id_parsing() {
    assert_eq!(parse_category_id("10"), Some(10));
    assert_eq!(parse_category_id("-3"), Some(-3));
    assert_eq!(parse_category_id("+5"), Some(5));
    assert_eq!(parse_category_id("9223372036854775807"), Some(i64::MAX));
    assert_eq!(parse_category_id("-9223372036854775808"), Some(i64::MIN));
    assert_eq!(parse_category_id("9223372036854775808"), None);
    assert_eq!(parse_category_id(""), None);
    assert_eq!(parse_category_id("-"), None);
    assert_eq!(parse_category_id("1a"), None);
}

fn grep_store() -> (Vec<Command>, Vec<CommandSectionRow>) {
    let commands = vec![command(1, 1, "grep", "Search files for lines matching a pattern")];
    let sections = vec![
        CommandSectionRow { id: 1, command_id: 1, title: "TLDR".to_string(), content: "grep pattern file".to_string() },
        CommandSectionRow { id: 2, command_id: 1, title: "DESCRIPTION".to_string(), content: "grep searches for PATTERN in each FILE.".to_string() },
    ];
    (commands, sections)
}

#[test]
fn grep_round_trip() {
    let (commands, sections) = grep_store();
    let found = search_commands(&commands, &query("grep", None, None)).unwrap();
    assert_eq!(found.len(), 1);
    assert_eq!(relevance_of(&found[0].name, &found[0].description, "grep"), 100);
    let detail = command_detail(&commands, &sections, found[0].id).unwrap();
    assert_eq!(detail.sections.len(), 1);
    assert_eq!(detail.sections[0].title, "DESCRIPTION");
    assert_eq!(detail.tldr, Some("grep pattern file".to_string()));
}

#[test]
fn detail_drops_name_sections_and_orders_by_id() {
    let commands = vec![command(4, 2, "ls", "List")];
    let sections = vec![
        CommandSectionRow { id: 9, command_id: 4, title: "OPTIONS".to_string(), content: "o".to_string() },
        CommandSectionRow { id: 3, command_id: 4, title: "NAME".to_string(), content: "n".to_string() },
        CommandSectionRow { id: 5, command_id: 4, title: "SYNOPSIS".to_string(), content: "s".to_string() },
        CommandSectionRow { id: 6, command_id: 8, title: "OTHER".to_string(), content: "x".to_string() },
    ];
    let detail = command_detail(&commands, &sections, 4).unwrap();
    let titles: Vec<&str> = detail.sections.iter().map(|s| s.title.as_str()).collect();
    assert_eq!(titles, vec!["SYNOPSIS", "OPTIONS"]);
    assert_eq!(detail.tldr, None);
}

#[test]
fn unknown_command_is_not_found() {
    let (commands, sections) = grep_store();
    let err = command_detail(&commands, &sections, 42).unwrap_err();
    assert_eq!(err, AppError::CommandNotFound);
    assert_eq!(err.status_code(), 404);
    assert!(find_command(&commands, 42).is_none());
}

#[test]
fn error_responses() {
    let cases = vec![
        (AppError::CommandNotFound, 404, "Command not found"),
        (AppError::InvalidInput("x".to_string()), 400, "Invalid input"),
        (AppError::DatabaseError("disk I/O error".to_string()), 500, "Database error"),
        (AppError::InternalError("Database lock error".to_string()), 500, "Internal server error"),
    ];
    for (e, status, message) in cases {
        assert_eq!(e.status_code(), status);
        let r = e.to_response();
        assert!(!r.success);
        assert!(r.data.is_none());
        assert_eq!(r.message, Some(message.to_string()));
    }
    assert_eq!(
        AppError::DatabaseError("disk I/O error".to_string()).description(),
        "Database error: disk I/O error"
    );
}

fn browsing_store() -> (Vec<BasicCategoryRow>, Vec<BasicGroupRow>, Vec<BasicCommandRow>) {
    let categories = vec![
        BasicCategoryRow { id: 1, title: "Files & Folders".to_string(), position: 2 },
        BasicCategoryRow { id: 2, title: "One-liners".to_string(), position: 1 },
        BasicCategoryRow { id: 3, title: "Custom".to_string(), position: 3 },
    ];
    let groups = vec![
        BasicGroupRow { id: 10, category_id: 1, description: "Listing".to_string() },
        BasicGroupRow { id: 11, category_id: 2, description: "Misc".to_string() },
        BasicGroupRow { id: 12, category_id: 1, description: "Copying".to_string() },
    ];
    let commands = vec![
        BasicCommandRow { id: 100, group_id: 10, command: "ls -la\n# lists all files".to_string(), mans: "ls".to_string() },
        BasicCommandRow { id: 101, group_id: 12, command: "  cp a b  ".to_string(), mans: "cp".to_string() },
        BasicCommandRow { id: 102, group_id: 11, command: "echo hi".to_string(), mans: "echo".to_string() },
        BasicCommandRow { id: 103, group_id: 10, command: "du -sh\r\nmore".to_string(), mans: "du".to_string() },
    ];
    (categories, groups, commands)
}

#[test]
fn category_listing_uses_first_line() {
    let (categories, groups, commands) = browsing_store();
    let r = commands_by_category("Files & Folders", &categories, &groups, &commands);
    assert!(r.success);
    assert!(r.message.is_none());
    let listed = r.data.unwrap();
    let names: Vec<&str> = listed.iter().map(|c| c.name.as_str()).collect();
    assert_eq!(names, vec!["cp a b", "du -sh", "ls -la"]);
    let ls = &listed[2];
    assert_eq!(ls.id, 100);
    assert_eq!(ls.category, 0);
    assert_eq!(ls.description, "Listing");
}

#[test]
fn multi_line_command_shows_first_line() {
    let (categories, groups, commands) = browsing_store();
    let listed = commands_by_category("Files & Folders", &categories, &groups, &commands).data.unwrap();
    assert!(listed.iter().any(|c| c.name == "ls -la"));
    assert_eq!(display_name_of("ls -la\n# lists all files"), "ls -la");
    assert_eq!(display_name_of(""), "");
    assert_eq!(display_name_of("\nsecond"), "");
    assert_eq!(display_name_of("  a b \r\nc"), "a b");
}

#[test]
fn unknown_category_is_a_soft_miss() {
    let (categories, groups, commands) = browsing_store();
    let r = commands_by_category("Nope", &categories, &groups, &commands);
    assert!(r.success);
    assert_eq!(r.data, Some(vec![]));
    assert_eq!(r.message, Some("Category 'Nope' not found".to_string()));
    assert_eq!(find_category_id(&categories, "Nope"), None);
    assert_eq!(find_category_id(&categories, "Custom"), Some(3));
}

#[test]
fn detailed_categories_by_position() {
    let (categories, _, _) = browsing_store();
    let detailed = categories_detailed(&categories);
    let titles: Vec<&str> = detailed.iter().map(|c| c.title.as_str()).collect();
    assert_eq!(titles, vec!["One-liners", "Files & Folders", "Custom"]);
    assert_eq!(detailed[0].description, Some("Useful linux command line one liners".to_string()));
    assert_eq!(detailed[1].description, Some("File and directory operations".to_string()));
    assert_eq!(detailed[2].description, None);
    assert!(detailed.iter().all(|c| c.icon.is_none()));
    assert_eq!(category_description("Network"), Some("Network configuration and tools".to_string()));
    assert_eq!(category_description("network"), None);
}

#[test]
fn all_commands_are_name_ordered() {
    let rows = vec![command(1, 1, "zip", "z"), command(2, 1, "awk", "a"), command(3, 1, "Make", "m")];
    let names: Vec<String> = all_commands(&rows).into_iter().map(|c| c.name).collect();
    assert_eq!(names, vec!["Make", "awk", "zip"]);
}

#[test]
fn popular_samples_whitelisted_categories() {
    let drawn: Vec<(i64, Command)> = (0..40)
        .map(|i| (40 - i, command(i, [1, 2, 3, 5, 10][(i % 5) as usize], &format!("c{}", i), "d")))
        .collect();
    let popular = popular_commands(&drawn);
    assert_eq!(popular.len(), 20);
    assert!(popular.iter().all(|c| [1, 3, 5, 10].contains(&c.category)));
    assert_eq!(popular[0].id, 39);
    let few = vec![(5, command(1, 2, "a", "d")), (3, command(2, 3, "b", "d"))];
    let popular = popular_commands(&few);
    assert_eq!(popular.len(), 1);
    assert_eq!(popular[0].id, 2);
}

#[test]
fn random_tip_uses_the_draw() {
    let tips = vec![
        TipRow { id: 1, title: "First".to_string() },
        TipRow { id: 2, title: "Second".to_string() },
    ];
    let sections = vec![
        TipSectionRow { id: 1, tip_id: 2, position: 2, section_type: 1, data1: "b".to_string(), data2: String::new(), extra: String::new() },
        TipSectionRow { id: 2, tip_id: 2, position: 1, section_type: 0, data1: "a".to_string(), data2: String::new(), extra: String::new() },
        TipSectionRow { id: 3, tip_id: 1, position: 1, section_type: 0, data1: "z".to_string(), data2: String::new(), extra: String::new() },
    ];
    let tip = random_tip(&tips, &sections, 3).unwrap();
    assert_eq!(tip.title, "Second");
    let data: Vec<&str> = tip.sections.iter().map(|s| s.data1.as_str()).collect();
    assert_eq!(data, vec!["a", "b"]);
    assert_eq!(random_tip(&tips, &sections, 4).unwrap().id, 1);
    match random_tip(&[].to_vec(), &sections, 0) {
        Err(AppError::DatabaseError(_)) => {}
        other => panic!("unexpected {:?}", other),
    }
}

#[test]
fn schema_report_lists_missing_tables() {
    let existing = vec!["Command".to_string(), "Tip".to_string(), "Extra".to_string()];
    let report = check_schema(&existing);
    assert_eq!(report.present, vec!["Command".to_string(), "Tip".to_string()]);
    assert_eq!(
        report.missing,
        vec!["CommandSection", "TipSection", "BasicCategory", "BasicGroup", "BasicCommand"]
            .into_iter()
            .map(|s| s.to_string())
            .collect::<Vec<_>>()
    );
    assert_eq!(required_table_names().len(), 7);
}

#[test]
fn stats_report_browsing_category_count() {
    let stats = AppStats::from_counts(120, 8, 23);
    assert_eq!(stats.total_commands, 120);
    assert_eq!(stats.total_tips, 8);
    assert_eq!(stats.total_categories, 23);
    assert_eq!(stats.total_basic_categories, 23);
}

#[test]
fn trimming_removes_unicode_whitespace() {
    assert_eq!(trim_text("\u{3000} grep\u{a0}\n"), "grep");
    assert_eq!(trim_text("   "), "");
    assert_eq!(trim_text("a b"), "a b");
}

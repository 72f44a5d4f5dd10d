use command_library::catalog::{category_label, category_titles};
use command_library::detail::{command_detail, command_sections, find_tldr};
use command_library::model::{
    BasicCategoryRow, Command, CommandSectionRow, SearchQuery, TipRow, TipSectionRow,
};
use command_library::schema::check_schema;
use command_library::search::search_commands;
use command_library::tips::random_tip;

fn command(id: i64, category: i64, name: &str, description: &str) -> Command {
    Command { id, name: name.to_string(), category, description: description.to_string() }
}

fn fixture_commands() -> Vec<Command> {
    vec![
        command(1, 1, "grep", "Search files for lines matching a pattern"),
        command(2, 3, "chmod", "Change file permissions"),
    ]
}

fn section(id: i64, command_id: i64, title: &str, content: &str) -> CommandSectionRow {
    CommandSectionRow { id, command_id, title: title.to_string(), content: content.to_string() }
}

fn fixture_sections() -> Vec<CommandSectionRow> {
    vec![
        section(1, 1, "TLDR", "grep pattern file"),
        section(2, 1, "DESCRIPTION", "grep searches for PATTERN in each FILE."),
    ]
}

fn fixture_categories() -> Vec<BasicCategoryRow> {
    vec![
        BasicCategoryRow { id: 1, title: "System".to_string(), position: 1 },
        BasicCategoryRow { id: 2, title: "Files".to_string(), position: 2 },
    ]
}

fn fixture_tips() -> Vec<TipRow> {
    vec![TipRow { id: 1, title: "Quick Navigation".to_string() }]
}

fn fixture_tip_sections() -> Vec<TipSectionRow> {
    vec![TipSectionRow {
        id: 1,
        tip_id: 1,
        position: 1,
        section_type: 0,
        data1: "Use Ctrl+A to go to beginning of line".to_string(),
        data2: String::new(),
        extra: String::new(),
    }]
}

#[test]
fn test_database_schema_validation() {
    let existing: Vec<String> = ["Command", "CommandSection", "BasicCategory", "Tip", "TipSection"]
        .iter()
        .map(|s| s.to_string())
        .collect();
    let report = check_schema(&existing);
    let tables = ["Command", "CommandSection", "BasicCategory", "Tip", "TipSection"];
    for table in &tables {
        let count = report.present.iter().filter(|t| t.as_str() == *table).count();
        assert_eq!(count, 1, "Table {} should exist", table);
    }
}

#[test]
fn test_command_serialization() {
    let detail = command_detail(&fixture_commands(), &fixture_sections(), 1).unwrap();
    assert_eq!(detail.name, "grep");
    assert_eq!(detail.category, 1);
    assert_eq!(detail.description, "Search files for lines matching a pattern");
}

#[test]
fn test_category_serialization() {
    let test_cases = vec![
        (1, "Miscellaneous"),
        (3, "System control"),
        (5, "Files & Folders"),
        (10, "Network"),
        (19, "VIM Texteditor"),
        (99, "Other"),
    ];
    for (input, expected) in test_cases {
        assert_eq!(category_label(input), expected);
    }
}

#[test]
fn test_search_functionality() {
    let query = SearchQuery { q: "grep".to_string(), category: None, limit: None };
    let commands = search_commands(&fixture_commands(), &query).unwrap();
    assert_eq!(commands.len(), 1);
    assert_eq!(commands[0].name, "grep");
}

#[test]
fn test_command_sections_retrieval() {
    let sections = command_sections(&fixture_sections(), 1);
    assert_eq!(sections.len(), 2);
    assert_eq!(sections[0].title, "TLDR");
    assert_eq!(sections[0].content, "grep pattern file");
    assert_eq!(sections[1].title, "DESCRIPTION");
}

#[test]
fn test_tldr_section_retrieval() {
    let tldr = find_tldr(&fixture_sections(), 1);
    assert!(tldr.is_some());
    assert_eq!(tldr.unwrap(), "grep pattern file");
}

#[test]
fn test_categories_retrieval() {
    let categories = category_titles(&fixture_categories());
    assert_eq!(categories.len(), 2);
    assert_eq!(categories[0], "System");
    assert_eq!(categories[1], "Files");
}

#[test]
fn test_tips_retrieval() {
    let tip = random_tip(&fixture_tips(), &fixture_tip_sections(), 12345).unwrap();
    assert_eq!(tip.title, "Quick Navigation");
}

#[test]
fn test_tip_sections_retrieval() {
    let tip = random_tip(&fixture_tips(), &fixture_tip_sections(), 7).unwrap();
    let sections = tip.sections;
    assert_eq!(sections.len(), 1);
    assert_eq!(sections[0].section_type, 0);
    assert_eq!(sections[0].data1, "Use Ctrl+A to go to beginning of line");
}

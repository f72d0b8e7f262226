use put_lang::zom_parser::{
    classify_line, find_section, parse_zom_lines, trim, Line, ProjectConfig, Section,
};
use put_lang::settings::Settings;

fn read(text: &str) -> ProjectConfig {
    let lines: Vec<String> = text.lines().map(|l| l.to_string()).collect();
    parse_zom_lines(&lines)
}

fn value(settings: &Settings, key: &str) -> Option<String> {
    settings.get(key).cloned()
}

fn kind(line: &str) -> (u8, String, String) {
    match classify_line(line) {
        Line::Section(name) => (0, name, String::new()),
        Line::Entry(key, value) => (1, key, value),
        Line::Other => (2, String::new(), String::new()),
    }
}

#[test]
fn entries_go_to_the_section_of_the_last_heading() {
    let config = read(
        "## Project Info\n- name: demo\n- version: 1.2.3\n\n## Dependencies\n- core: 0.1\n- math : 2\n## Build Settings\n- opt: 3\n## Runtime Settings\n- threads: 4\n## Custom Settings\n- color: blue\n",
    );
    assert_eq!(value(&config.project_info, "name"), Some("demo".to_string()));
    assert_eq!(value(&config.project_info, "version"), Some("1.2.3".to_string()));
    assert_eq!(value(&config.dependencies, "core"), Some("0.1".to_string()));
    assert_eq!(value(&config.dependencies, "math"), Some("2".to_string()));
    assert_eq!(value(&config.build_settings, "opt"), Some("3".to_string()));
    assert_eq!(value(&config.runtime_settings, "threads"), Some("4".to_string()));
    assert_eq!(value(&config.custom_settings, "color"), Some("blue".to_string()));
    assert_eq!(config.project_info.len(), 2);
    assert_eq!(config.dependencies.len(), 2);
    assert_eq!(value(&config.dependencies, "name"), None);
}

#[test]
fn empty_text_is_an_empty_configuration() {
    let config = read("");
    assert_eq!(config.project_info.len(), 0);
    assert_eq!(config.dependencies.len(), 0);
    assert_eq!(config.build_settings.len(), 0);
    assert_eq!(config.runtime_settings.len(), 0);
    assert_eq!(config.custom_settings.len(), 0);
}

#[test]
fn entries_before_any_heading_or_under_an_unknown_one_are_passed_over() {
    let config = read("- a: 1\n## Unknown\n- b: 2\n## project info\n- c: 3\n## Dependencies\n- d: 4");
    assert_eq!(config.project_info.len(), 0);
    assert_eq!(config.dependencies.len(), 1);
    assert_eq!(value(&config.dependencies, "d"), Some("4".to_string()));
}

#[test]
fn a_key_set_again_takes_the_new_value_and_keeps_its_place() {
    let config = read("## Dependencies\n- a: 1\n- b: 2\n- a: 3\n");
    assert_eq!(config.dependencies.len(), 2);
    assert_eq!(value(&config.dependencies, "a"), Some("3".to_string()));
    assert_eq!(config.dependencies.entry(0).key, "a");
    assert_eq!(config.dependencies.entry(0).value, "3");
    assert_eq!(config.dependencies.entry(1).key, "b");
}

#[test]
fn an_entry_is_cut_at_its_first_colon() {
    assert_eq!(kind("- url: http://x:80"), (1, "url".to_string(), "http://x:80".to_string()));
    assert_eq!(kind("-k:"), (1, "k".to_string(), String::new()));
    assert_eq!(kind("-:v"), (1, String::new(), "v".to_string()));
    assert_eq!(kind("  -  spaced key  :  spaced value  "), (1, "spaced key".to_string(), "spaced value".to_string()));
}

#[test]
fn an_entry_without_a_colon_is_passed_over() {
    assert_eq!(kind("- no colon here").0, 2);
    assert_eq!(kind("-").0, 2);
}

#[test]
fn a_heading_is_trimmed() {
    assert_eq!(kind("##   Project Info  "), (0, "Project Info".to_string(), String::new()));
    assert_eq!(kind("   ##Dependencies"), (0, "Dependencies".to_string(), String::new()));
    assert_eq!(kind("##"), (0, String::new(), String::new()));
    assert_eq!(kind("### Deep"), (0, "# Deep".to_string(), String::new()));
}

#[test]
fn other_lines_say_nothing() {
    assert_eq!(kind("").0, 2);
    assert_eq!(kind("   ").0, 2);
    assert_eq!(kind("# single").0, 2);
    assert_eq!(kind("key: value").0, 2);
}

#[test]
fn trim_drops_unicode_white_space_at_both_ends() {
    let chars: Vec<char> = "\u{a0}\t a b \u{3000}\n".chars().collect();
    assert_eq!(trim(&chars), vec!['a', ' ', 'b']);
    assert_eq!(trim(&Vec::new()), Vec::<char>::new());
    let blank: Vec<char> = " \t ".chars().collect();
    assert_eq!(trim(&blank), Vec::<char>::new());
    let word: Vec<char> = "x".chars().collect();
    assert_eq!(trim(&word), vec!['x']);
}

#[test]
fn section_names_are_matched_letter_for_letter() {
    assert_eq!(find_section(&"Project Info".to_string()), Some(Section::ProjectInfo));
    assert_eq!(find_section(&"Dependencies".to_string()), Some(Section::Dependencies));
    assert_eq!(find_section(&"Build Settings".to_string()), Some(Section::BuildSettings));
    assert_eq!(find_section(&"Runtime Settings".to_string()), Some(Section::RuntimeSettings));
    assert_eq!(find_section(&"Custom Settings".to_string()), Some(Section::CustomSettings));
    assert_eq!(find_section(&"dependencies".to_string()), None);
    assert_eq!(find_section(&String::new()), None);
}

#[test]
fn settings_insert_returns_the_previous_value() {
    let mut settings = Settings::new();
    assert_eq!(settings.insert("a".to_string(), "1".to_string()), None);
    assert_eq!(settings.insert("b".to_string(), "2".to_string()), None);
    assert_eq!(settings.insert("a".to_string(), "3".to_string()), Some("1".to_string()));
    assert_eq!(settings.len(), 2);
    assert_eq!(settings.get("a"), Some(&"3".to_string()));
    assert_eq!(settings.get("b"), Some(&"2".to_string()));
    assert_eq!(settings.get("c"), None);
}

#[test]
fn set_reaches_only_the_named_section() {
    let mut config = ProjectConfig::new();
    config.set(Section::BuildSettings, "k".to_string(), "v".to_string());
    assert_eq!(config.build_settings.len(), 1);
    assert_eq!(config.project_info.len(), 0);
    assert_eq!(config.custom_settings.len(), 0);
}

use ai_project_template::paths::{check_confined, join_path};
use ai_project_template::preset::{
    choose_presets_path, discover_presets, get_default_presets_path, get_preset_display_name,
    is_valid_project_name, project_name_allowed, PresetConfig, PresetDirEntry,
};
use ai_project_template::readme::{apply_substitutions, field_substitutions, render_readme};
use ai_project_template::text::replace_all;

fn config(name: &str) -> PresetConfig {
    PresetConfig {
        id: "book".to_string(),
        name: name.to_string(),
        description: String::new(),
        directories: vec![],
        templates: vec![],
        empty_files: vec![],
        readme_template: String::new(),
        fields: vec![],
        options: vec![],
    }
}

#[test]
fn display_name_prefers_the_descriptor() {
    assert_eq!(get_preset_display_name(Some(&config("Book writing")), "book"), "Book writing");
    assert_eq!(get_preset_display_name(None, "book"), "book");
}

#[test]
fn discover_keeps_directories_with_a_descriptor() {
    let listing = vec![
        PresetDirEntry { name: Some("software".to_string()), is_dir: true, has_config: true },
        PresetDirEntry { name: Some("notes.txt".to_string()), is_dir: false, has_config: false },
        PresetDirEntry { name: Some("empty".to_string()), is_dir: true, has_config: false },
        PresetDirEntry { name: None, is_dir: true, has_config: true },
        PresetDirEntry { name: Some("book".to_string()), is_dir: true, has_config: true },
    ];
    assert_eq!(discover_presets(&listing), vec!["software".to_string(), "book".to_string()]);
}

#[test]
fn default_presets_path_under_documents() {
    assert_eq!(get_default_presets_path(Some("/home/ann")), "/home/ann/Documents/ai_prompt_presets");
    assert_eq!(get_default_presets_path(Some("/home/ann/")), "/home/ann/Documents/ai_prompt_presets");
    assert_eq!(get_default_presets_path(None), "./Documents/ai_prompt_presets");
}

#[test]
fn saved_path_prefers_the_environment_and_trims_the_file() {
    assert_eq!(choose_presets_path(Some("/env".to_string()), Some("/file".to_string())), Some("/env".to_string()));
    assert_eq!(choose_presets_path(None, Some("  /file/path \n".to_string())), Some("/file/path".to_string()));
    assert_eq!(choose_presets_path(None, Some(" \n\t".to_string())), None);
    assert_eq!(choose_presets_path(None, None), None);
}

#[test]
fn project_names() {
    assert!(is_valid_project_name("my_project"));
    assert!(is_valid_project_name("test-123"));
    assert!(is_valid_project_name("v1.2"));
    assert!(!is_valid_project_name("CON"));
    assert!(!is_valid_project_name("com7"));
    assert!(!is_valid_project_name("lpt1"));
    assert!(is_valid_project_name("COM0"));
    assert!(is_valid_project_name("CONS"));
    assert!(!is_valid_project_name(""));
    assert!(!is_valid_project_name("name."));
    assert!(!is_valid_project_name(".hidden"));
    assert!(!is_valid_project_name("has space"));
    assert!(!is_valid_project_name("a/b"));
    assert!(is_valid_project_name(&"a".repeat(64)));
    assert!(!is_valid_project_name(&"a".repeat(65)));
}

#[test]
fn name_rules_after_the_pattern() {
    assert!(project_name_allowed("demo", true));
    assert!(!project_name_allowed("demo", false));
    assert!(!project_name_allowed("aux", true));
    assert!(!project_name_allowed("x ", true));
}

#[test]
fn joining_paths() {
    assert_eq!(join_path("a", "b"), "a/b");
    assert_eq!(join_path("a/", "b"), "a/b");
    assert_eq!(join_path("", "b"), "b");
    assert_eq!(join_path("a", ""), "a");
    assert_eq!(join_path("a", "/etc/passwd"), "a//etc/passwd");
}

#[test]
fn confinement() {
    assert!(check_confined("a/b.txt"));
    assert!(check_confined("a/..b/c"));
    assert!(check_confined(""));
    assert!(!check_confined("../a"));
    assert!(!check_confined("a/../b"));
    assert!(!check_confined("a/.."));
    assert!(!check_confined("/a"));
}

#[test]
fn replacing_text() {
    assert_eq!(replace_all("aaa", "aa", "b"), "ba");
    assert_eq!(replace_all("x{A}y{A}", "{A}", "é"), "xéyé");
    assert_eq!(replace_all("none here", "{A}", "z"), "none here");
    assert_eq!(replace_all("", "{A}", "z"), "");
}

#[test]
fn field_placeholders_in_both_cases() {
    let subs = field_substitutions(&vec![("MyField".to_string(), "v".to_string())]);
    assert_eq!(
        subs,
        vec![("{MYFIELD}".to_string(), "v".to_string()), ("{myfield}".to_string(), "v".to_string())]
    );
}

#[test]
fn substitutions_apply_in_order() {
    let subs = vec![("{a}".to_string(), "{b}".to_string()), ("{b}".to_string(), "c".to_string())];
    assert_eq!(apply_substitutions("{a} {b}", &subs), "c c");
    let empty = vec![(String::new(), "x".to_string())];
    assert_eq!(apply_substitutions("ab", &empty), "ab");
}

#[test]
fn readme_document_layout() {
    let doc = render_readme(
        "Name: {PROJECT_NAME}, {project_name}; at {DATE} {date}; {MYFIELD}/{myfield}",
        "demo",
        "2024-05-06 07:08",
        &vec![("myfield".to_string(), "X".to_string())],
    );
    assert_eq!(
        doc,
        "# demo\n\nСоздано: 2024-05-06 07:08\n\n## Что дальше\nName: demo, demo; at 2024-05-06 07:08 2024-05-06 07:08; X/X"
    );
}

#[test]
fn colliding_field_ids_go_by_order() {
    let doc = render_readme(
        "{NAME}",
        "p",
        "t",
        &vec![("name".to_string(), "first".to_string()), ("NAME".to_string(), "second".to_string())],
    );
    assert!(doc.ends_with("first"));
}

use fundoc::config::Config;
use fundoc::plugins::{cut_fragments, Plugins};

fn plugins(dir: Option<&str>) -> Plugins {
    Plugins::new(Config {
        project_path: "src".to_string(),
        files_patterns: vec![],
        docs_folder: None,
        repository_host: None,
        comment_start_string: None,
        comment_prefix: None,
        comment_end_string: None,
        mdbook: None,
        book_name: None,
        book_build_dir: None,
        repositories: None,
        plugins_dir: dir.map(|d| d.to_string()),
    })
}

#[test]
fn plugins_folder_comes_from_the_settings() {
    assert_eq!(plugins(Some("./plugins")).plugins_dir(), Some("./plugins".to_string()));
    assert_eq!(plugins(None).plugins_dir(), None);
}

#[test]
fn preprocessor_name_is_read_from_the_context() {
    let context = "PreprocessorContext { config: Config { rest: Table({\"preprocessor\": Table({\"mermaid\": Table({\"command\": String(\"fundoc -e\")})})}) } }";
    assert_eq!(
        plugins(None).parse_private_preprocessor_value(context.to_string()),
        Some("mermaid".to_string())
    );
    assert_eq!(plugins(None).parse_private_preprocessor_value("no table here".to_string()), None);
    assert_eq!(
        plugins(None).parse_private_preprocessor_value("ä \"preprocessor\": Table({\"ü-plug\":".to_string()),
        Some("ü-plug".to_string())
    );
}

#[test]
fn plugin_file_is_recognised_by_its_name() {
    assert!(plugins(None).serves("./plugins/mermaid.html.lua", "mermaid"));
    assert!(!plugins(None).serves("./plugins/other.html.lua", "mermaid"));
    assert!(plugins(None).serves("anything", ""));
}

#[test]
fn fragment_reaches_to_the_last_closing_braces() {
    let found = plugins(None).find_fragments("plug", "intro {{ #plug some\ntext }} middle }} outro");
    assert_eq!(found, vec!["{{ #plug some\ntext }} middle }}".to_string()]);
    assert_eq!(plugins(None).find_fragments("plug", "no fragment {{ #other x }}").len(), 0);
    assert_eq!(plugins(None).find_fragments("(", "bad pattern {{ #( }}").len(), 0);
}

#[test]
fn fragment_text_is_what_stands_between_the_braces() {
    assert_eq!(plugins(None).extract_text("plug", "{{ #plug some text }}"), " some text ");
    assert_eq!(plugins(None).extract_text("plug", "{{ #plug a }} b {{ #plug c }}"), " a  b  c ");
}

#[test]
fn transformed_text_replaces_each_occurrence_of_the_fragment() {
    assert_eq!(plugins(None).replace_fragment("a X b X", "X", "YY"), "a YY b YY");
    assert_eq!(plugins(None).replace_fragment("aaa", "aa", "b"), "ba");
    assert_eq!(plugins(None).replace_fragment("abc", "", "x"), "xaxbxcx");
    assert_eq!(plugins(None).replace_fragment("", "", "x"), "x");
    assert_eq!(plugins(None).replace_fragment("abc", "abcd", "x"), "abc");
}

#[test]
fn fragments_are_cut_at_byte_offsets() {
    assert_eq!(
        cut_fragments("äbcdé", &vec![(0, 2), (2, 4), (4, 7)]),
        vec!["ä".to_string(), "bc".to_string(), "dé".to_string()]
    );
}

use fundoc::article::Article;
use fundoc::config::Config;
use fundoc::driver::{patterns_to_search, SourceFile};
use fundoc::parser::Parser;

fn project_config() -> Config {
    Config {
        project_path: "src".to_string(),
        files_patterns: vec!["**/*.rs".to_string(), "**/*.js".to_string()],
        docs_folder: None,
        repository_host: None,
        comment_start_string: None,
        comment_prefix: None,
        comment_end_string: None,
        mdbook: None,
        book_name: None,
        book_build_dir: None,
        repositories: None,
        plugins_dir: None,
    }
}

fn read(path: &str, content: &str) -> SourceFile {
    SourceFile { path: path.to_string(), content: Some(content.to_string()) }
}

fn entry(topic: &str, content: &str, path: &str, start_line: usize, end_line: usize) -> Article {
    Article {
        topic: topic.to_string(),
        content: content.to_string(),
        path: path.to_string(),
        start_line,
        end_line,
    }
}

#[test]
fn files_are_scanned_in_order_and_counted() {
    let mut parser = Parser::new(project_config());
    let files = vec![
        read("a.rs", "\n/**\n * @Article A\n * text\n */\n"),
        read("b.rs", "fn main() {}\n"),
        SourceFile { path: "missing.rs".to_string(), content: None },
        read("c.rs", "/**\n * @Article C1\n * one\n */\n/**\n * @Article C2\n * two\n */\n"),
    ];
    let result = parser.parse_path(files);
    assert_eq!(
        result.articles,
        vec![
            entry("A", "text", "a.rs", 3, 4),
            entry("C1", "one", "c.rs", 2, 3),
            entry("C2", "two", "c.rs", 6, 7),
        ]
    );
    assert_eq!(result.files_scanned, 3);
    assert_eq!(result.files_with_documentation, 2);
    assert_eq!(result.unreadable, vec!["missing.rs".to_string()]);
    assert_eq!(parser.articles().clone(), result.articles);
    let coverage = 100.0 * result.files_with_documentation as f32 / result.files_scanned as f32;
    assert!((coverage - 66.666_67).abs() < 0.001);
}

#[test]
fn a_file_after_a_documented_one_is_not_counted_as_documented() {
    let mut parser = Parser::new(project_config());
    let result = parser.parse_path(vec![
        read("a.rs", "/**\n * @Article A\n * text\n */\n"),
        read("b.rs", "fn main() {}\n"),
        read("c.rs", "// nothing\n"),
        read("d.rs", ""),
    ]);
    assert_eq!(result.files_scanned, 4);
    assert_eq!(result.files_with_documentation, 1);
    assert_eq!(result.articles, vec![entry("A", "text", "a.rs", 1 + 1, 3)]);
}

#[test]
fn no_file_gives_no_counts() {
    let mut parser = Parser::new(project_config());
    let result = parser.parse_path(vec![]);
    assert_eq!(result.articles, vec![]);
    assert_eq!(result.files_scanned, 0);
    assert_eq!(result.files_with_documentation, 0);
    assert_eq!(result.unreadable.len(), 0);
}

#[test]
fn lines_are_numbered_as_in_the_file_before_filtering() {
    let mut parser = Parser::new(project_config());
    let text = "// fundoc-disable\nx\ny\n// fundoc-enable\n/**\n * @Article C\n * body\n */\n";
    assert_eq!(parser.parse_source(text, "c.rs"), vec![entry("C", "body", "c.rs", 6, 7)]);
}

#[test]
fn lines_before_the_removed_part_keep_their_numbers() {
    let mut parser = Parser::new(project_config());
    let text = "/**\n * @Article A\n * a\n */\n// fundoc-disable\n/**\n * @Article Hidden\n */\n// fundoc-enable\n\n/**\n * @Article B\n * b\n */\n";
    assert_eq!(
        parser.parse_source(text, "f.rs"),
        vec![entry("A", "a", "f.rs", 2, 3), entry("B", "b", "f.rs", 12, 13)]
    );
}

#[test]
fn a_section_around_the_removed_part_ends_before_its_closing_line() {
    let mut parser = Parser::new(project_config());
    let text = "/**\n * @Article A\n * a\n// fundoc-disable\n * hidden\n// fundoc-enable\n * b\n */\n";
    assert_eq!(parser.parse_source(text, "f.rs"), vec![entry("A", "a\nb", "f.rs", 2, 7)]);
}

#[test]
fn disabled_rest_of_a_file_is_not_scanned() {
    let mut parser = Parser::new(project_config());
    let text = "/**\n * @Article A\n * a\n */\n// fundoc-disable\n/**\n * @Article B\n * b\n */\n";
    assert_eq!(parser.parse_source(text, "f.rs"), vec![entry("A", "a", "f.rs", 2, 3)]);
}

#[test]
fn written_out_document_keeps_line_one() {
    let mut parser = Parser::new(project_config());
    let text = "intro\n// fundoc-disable\nhidden\n// fundoc-enable\nrest\n";
    assert_eq!(
        parser.parse_source(text, "docs/guide.fdoc.md"),
        vec![entry("guide", "intro\nrest\n", "docs/guide.fdoc.md", 1, 1)]
    );
}

#[test]
fn patterns_are_rooted_in_the_project() {
    assert_eq!(
        patterns_to_search(&project_config(), "."),
        vec![
            "./src/./**/*.fdoc.md".to_string(),
            "./src/**/*.rs".to_string(),
            "./src/**/*.js".to_string(),
        ]
    );
}

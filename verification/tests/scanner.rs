use fundoc::article::Article;
use fundoc::config::Config;
use fundoc::keyword::Keyword;
use fundoc::parser::Parser;

fn plain_config() -> Config {
    Config {
        project_path: "test".to_string(),
        files_patterns: vec!["test".to_string()],
        docs_folder: None,
        repository_host: None,
        comment_start_string: None,
        comment_prefix: None,
        comment_end_string: None,
        mdbook: None,
        book_name: None,
        book_build_dir: None,
        repositories: None,
        plugins_dir: None,
    }
}

fn article(topic: &str, content: &str, path: &str, start_line: usize, end_line: usize) -> Article {
    Article {
        topic: topic.to_string(),
        content: content.to_string(),
        path: path.to_string(),
        start_line,
        end_line,
    }
}

#[test]
fn keywords_are_spelled_as_in_comments() {
    assert_eq!(Keyword::Article.as_str(), "@Article");
    assert_eq!(Keyword::FileArticle.as_str(), "@FileArticle");
    assert_eq!(Keyword::Ignore.as_str(), "@Ignore");
    assert_eq!(Keyword::CodeBlockStart.as_str(), "@CodeBlockStart");
    assert_eq!(Keyword::CodeBlockEnd.as_str(), "@CodeBlockEnd");
}

#[test]
fn de_prefixing_strips_one_prefix_and_one_space() {
    let parser = Parser::new(plain_config());
    assert_eq!(parser.parse_text(" * text"), "text");
    assert_eq!(parser.parse_text(" *   indented"), "  indented");
    assert_eq!(parser.parse_text("*"), "");
    assert_eq!(parser.parse_text("   plain"), "   plain");
    assert_eq!(parser.parse_text("    indented"), "    indented");
    assert_eq!(parser.parse_text("  * x"), "x");
    assert_eq!(parser.parse_text("\t*\tx"), "\tx");
    assert_eq!(parser.parse_text("   "), "   ");
    assert_eq!(parser.parse_text("**bold**"), "*bold**");
    assert_eq!(parser.parse_text(""), "");
}

#[test]
fn every_article_of_a_file_carries_its_path_and_lines() {
    let mut parser = Parser::new(plain_config());
    let content = "/**\n * @Article One\n * first\n */\ncode\n/**\n * @Article Two\n * second\n */\n";
    let articles = parser.parse_file(content, "src/lib.rs");
    assert_eq!(
        articles,
        vec![
            article("One", "first", "src/lib.rs", 2, 3),
            article("Two", "second", "src/lib.rs", 7, 8),
        ]
    );
    assert!(articles[0].start_line <= articles[0].end_line);
    assert!(articles[0].end_line < articles[1].start_line);
}

#[test]
fn a_second_file_yields_its_own_articles_only() {
    let mut parser = Parser::new(plain_config());
    let first = parser.parse_file("/**\n * @Article One\n * first\n */\n", "a.rs");
    let second = parser.parse_file("/**\n * @Article Two\n * second\n */\n", "b.rs");
    assert_eq!(first, vec![article("One", "first", "a.rs", 2, 3)]);
    assert_eq!(second, vec![article("Two", "second", "b.rs", 2, 3)]);
    assert_eq!(
        parser.articles().clone(),
        vec![article("One", "first", "a.rs", 2, 3), article("Two", "second", "b.rs", 2, 3)]
    );
}

#[test]
fn state_does_not_leak_into_the_next_file() {
    let mut parser = Parser::new(plain_config());
    let first = parser.parse_file("/**\n * @FileArticle Sticky\n * @Article Open\n * never closed\n", "a.rs");
    assert_eq!(first, vec![]);
    let second = parser.parse_file("/**\n * plain comment\n */\n", "b.rs");
    assert_eq!(second, vec![]);
}

#[test]
fn nested_block_is_kept_as_text() {
    let mut parser = Parser::new(plain_config());
    let content = "/**\n * @Article T\n * /**\n * @Ignore\n * */\n * end\n */\n";
    let articles = parser.parse_file(content, "n.rs");
    assert_eq!(articles, vec![article("T", "/**\n@Ignore\n*/\nend", "n.rs", 2, 6)]);
}

#[test]
fn configured_markers_are_used() {
    let mut config = plain_config();
    config.comment_start_string = Some("<!--".to_string());
    config.comment_prefix = Some('#');
    config.comment_end_string = Some("-->".to_string());
    let mut parser = Parser::new(config);
    let articles = parser.parse_file("<!--\n# @Article X\n# body\n-->\n/**\n * @Article Y\n */\n", "m.md");
    assert_eq!(articles, vec![article("X", "body", "m.md", 2, 3)]);
}

#[test]
fn stray_code_block_end_yields_nothing() {
    let mut parser = Parser::new(plain_config());
    assert_eq!(parser.parse_file("/** @CodeBlockEnd */\nfn f() {}\n", "s.rs"), vec![]);
}

#[test]
fn code_block_end_with_other_text_is_plain_text() {
    let mut parser = Parser::new(plain_config());
    let content = "/**\n * @Article T\n * @CodeBlockStart rust\n */\nlet x = 1;\n/** @CodeBlockEnd and more */\nlet y = 2;\n/** @CodeBlockEnd */\n";
    let articles = parser.parse_file(content, "c.rs");
    assert_eq!(
        articles,
        vec![article(
            "T",
            "```rust/\nlet x = 1;\n/** @CodeBlockEnd and more */\nlet y = 2;\n```",
            "c.rs",
            2,
            7
        )]
    );
}

#[test]
fn code_block_keeps_blank_lines() {
    let mut parser = Parser::new(plain_config());
    let content = "/**\n * @Article T\n * @CodeBlockStart js\n */\na()\n\nb()\n/** @CodeBlockEnd */\n";
    let articles = parser.parse_file(content, "c.js");
    assert_eq!(articles, vec![article("T", "```js/\na()\n\nb()\n```", "c.js", 2, 7)]);
}

#[test]
fn unclosed_comment_yields_nothing() {
    let mut parser = Parser::new(plain_config());
    assert_eq!(parser.parse_file("/**\n * @Article T\n * text\n", "u.rs"), vec![]);
}

#[test]
fn topic_is_trimmed_on_both_sides() {
    let mut parser = Parser::new(plain_config());
    let articles = parser.parse_file("/**\n * @Article   Spaced out  \n * x\n */\n", "t.rs");
    assert_eq!(articles, vec![article("Spaced out", "x", "t.rs", 2, 3)]);
}

#[test]
fn carriage_returns_end_lines() {
    let mut parser = Parser::new(plain_config());
    let articles = parser.parse_file("/**\r\n * @Article T\r\n * one\r\n * two\r\n */\r\n", "w.rs");
    assert_eq!(articles, vec![article("T", "one\ntwo", "w.rs", 2, 4)]);
}

#[test]
fn written_out_document_is_named_by_its_file() {
    let parser = Parser::new(plain_config());
    assert_eq!(
        parser.parse_fdoc_file("# Hello\n", "docs/a.b.fdoc.md"),
        vec![article("a.b", "# Hello\n", "docs/a.b.fdoc.md", 1, 1)]
    );
    assert_eq!(parser.parse_fdoc_file("x", "plain"), vec![article("", "x", "plain", 1, 1)]);
    assert_eq!(parser.parse_fdoc_file("x", "dir/a.md"), vec![article("", "x", "dir/a.md", 1, 1)]);
}

#[test]
fn written_out_document_skips_the_scanner() {
    let mut parser = Parser::new(plain_config());
    let content = "/**\n * @Article T\n * x\n */\n";
    assert_eq!(
        parser.parse_file(content, "guide.fdoc.md"),
        vec![article("guide", content, "guide.fdoc.md", 1, 1)]
    );
}

#[test]
fn articles_compare_by_all_fields() {
    let a = article("t", "c", "p", 1, 2);
    assert_eq!(a, a.clone());
    assert_ne!(a, article("x", "c", "p", 1, 2));
    assert_ne!(a, article("t", "x", "p", 1, 2));
    assert_ne!(a, article("t", "c", "x", 1, 2));
    assert_ne!(a, article("t", "c", "p", 2, 2));
    assert_ne!(a, article("t", "c", "p", 1, 3));
}

#[test]
fn lines_without_prefix_keep_their_indentation() {
    let mut parser = Parser::new(plain_config());
    let content = "/**\n@Article T\nfirst\n    indented\n\tlast  \n*/\n";
    assert_eq!(
        parser.parse_file(content, "i.rs"),
        vec![article("T", "first\n    indented\n\tlast", "i.rs", 2, 5)]
    );
}

#[test]
fn quoted_code_keeps_its_indentation() {
    let mut parser = Parser::new(plain_config());
    let content = "/**\n * @Article T\n * @CodeBlockStart rust\n */\nfn f() {\n    g();\n}\n/** @CodeBlockEnd */\n";
    assert_eq!(
        parser.parse_file(content, "q.rs"),
        vec![article("T", "```rust/\nfn f() {\n    g();\n}\n```", "q.rs", 2, 7)]
    );
}

#[test]
fn indented_directive_without_prefix_is_text() {
    let mut parser = Parser::new(plain_config());
    assert_eq!(parser.parse_file("/**\n    @Article T\n    text\n*/\n", "d.rs"), vec![]);
}

#[test]
fn new_scanner_is_idle() {
    let parser = Parser::new(plain_config());
    assert!(!parser.is_comment_section());
    assert!(!parser.is_nested_comment_section());
    assert!(!parser.is_article_section());
    assert_eq!(parser.articles().len(), 0);
}

#[test]
fn markers_open_and_close_blocks() {
    let mut parser = Parser::new(plain_config());
    parser.set_comment_boundaries("code */");
    assert!(!parser.is_comment_section());
    parser.set_comment_boundaries("  /** text");
    assert!(parser.is_comment_section());
    assert!(!parser.is_nested_comment_section());
    parser.set_comment_boundaries(" * example: /**");
    assert!(parser.is_comment_section());
    assert!(parser.is_nested_comment_section());
    parser.set_comment_boundaries(" * */");
    assert!(parser.is_comment_section());
    assert!(!parser.is_nested_comment_section());
    parser.set_comment_boundaries(" * text");
    assert!(parser.is_comment_section());
    parser.set_comment_boundaries(" */  ");
    assert!(!parser.is_comment_section());
}

#[test]
fn open_quotation_keeps_the_block_open() {
    let mut parser = Parser::new(plain_config());
    let found = parser.parse_file("/**\n * @Article T\n * @CodeBlockStart js\n", "o.js");
    assert_eq!(found, vec![]);
    assert!(parser.is_comment_section());
    assert!(parser.is_article_section());
    parser.set_comment_boundaries(" */");
    assert!(parser.is_comment_section());

    let mut other = Parser::new(plain_config());
    other.parse_file("/**\n * @Article T\n * text\n", "o.js");
    assert!(other.is_comment_section());
    other.set_comment_boundaries(" */");
    assert!(!other.is_comment_section());
}

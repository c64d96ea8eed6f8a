use fundoc::article::Article;
use fundoc::config::Config;
use fundoc::parser::Parser;

fn get_test_config() -> Config {
    Config {
        project_path: "test".to_string(),
        files_patterns: vec!["test".to_string()],
        docs_folder: None,
        repository_host: None,
        comment_start_string: None,
        comment_prefix: None,
        comment_end_string: None,
        mdbook: None,
        book_name: None,
        book_build_dir: None,
        repositories: None,
        plugins_dir: None,
    }
}

#[test]
fn parse_articles_from_file_content() {
    let mut parser = Parser::new(get_test_config());
    let file_content = "
/**
 * @Article Test article
 * some text
 */
pub fn test () {}
  ";

    let articles = parser.parse_file(file_content, "");
    let expected_result = vec![Article {
        topic: String::from("Test article"),
        content: String::from("some text"),
        path: "".to_string(),
        start_line: 3,
        end_line: 4,
    }];

    assert_eq!(articles, expected_result);
}

#[test]
fn ignore_comments_with_ignore_mark() {
    let mut parser = Parser::new(get_test_config());
    let file_content = "
/**
 * @Article Test article
 * @Ignore
 * some text
 *
 * next line
 */
pub fn test () {}
  ";

    let articles = parser.parse_file(file_content, "");

    assert_eq!(articles, vec![]);
}

#[test]
fn parse_articles_with_multiline_content_from_file_content() {
    let mut parser = Parser::new(get_test_config());
    let file_content = "
use std::io::prelude::*;

/**
 * @Article Test article
 * some multiline
 * awesome text
 */
pub fn test () {}
  ";

    let articles = parser.parse_file(file_content, "");
    let expected_result = vec![Article {
        topic: String::from("Test article"),
        content: String::from("some multiline\nawesome text"),
        path: "".to_string(),
        start_line: 5,
        end_line: 7,
    }];

    assert_eq!(articles, expected_result);
}

#[test]
fn remove_ignored_text_from_file_content() {
    let parser = Parser::new(get_test_config());
    let file_content = "fn some_fun() {}\n// fundoc-disable\nsome code here";
    let expected_result = "fn some_fun() {}";

    let result = parser.remove_ignored_text(file_content.to_string());

    assert_eq!(result, expected_result);
}

#[test]
fn parse_articles_with_code_blocks_with_identation() {
    let mut parser = Parser::new(get_test_config());
    let file_content = "
use std::io::prelude::*;

/**
 * @Article Test article
 * ```rust
 * fn main() {
 *     println!(\"Hello world!\");
 * }
 * ```
 *
 * ```rust
 * fn test() {
 *     println!(\"Hello world!\");
 * }
 * ```
 */
pub fn test () {}
  ";

    let articles = parser.parse_file(file_content, "");
    let expected_result = vec![Article {
        topic: String::from("Test article"),
        content: String::from("```rust\nfn main() {\n    println!(\"Hello world!\");\n}\n```\n\n```rust\nfn test() {\n    println!(\"Hello world!\");\n}\n```"),
        path: "".to_string(),
        start_line: 5,
        end_line: 16,
    }];

    assert_eq!(articles, expected_result);
}

#[test]
fn parse_documentation_with_identation_before_comments() {
    let mut parser = Parser::new(get_test_config());
    let file_content = "
     /**
     * @Article Test article
     * #### [no-implicit-coercion](https://eslint.org/docs/rules/no-implicit-coercion)
     * All implicit coercions except `!!` are disallowed:
     * ```js
     * // Fail
     * +foo
     * 1 * foo
     * '' + foo
     * `${foo}`
     * ~foo.indexOf(bar)
     *
     * // Pass
     * !!foo
     * ```
     */
  ";

    let articles = parser.parse_file(file_content, "");
    let expected_result = vec![Article {
        topic: String::from("Test article"),
        content: String::from("#### [no-implicit-coercion](https://eslint.org/docs/rules/no-implicit-coercion)\nAll implicit coercions except `!!` are disallowed:\n```js\n// Fail\n+foo\n1 * foo\n\'\' + foo\n`${foo}`\n~foo.indexOf(bar)\n\n// Pass\n!!foo\n```"),
        path: "".to_string(),
        start_line: 3,
        end_line: 16,
    }];

    assert_eq!(articles, expected_result);
}

#[test]
fn parse_articles_with_markdown_lists() {
    let mut parser = Parser::new(get_test_config());
    let file_content = "
use std::io::prelude::*;

/**
 * @Article Test article
 * List:
 * * Item 1
 * * Item 2
 *
 *   Item 2 subtext
 * * Item 3
 */
pub fn test () {}
  ";

    let articles = parser.parse_file(file_content, "");
    let expected_result = vec![Article {
        topic: String::from("Test article"),
        content: String::from("List:\n* Item 1\n* Item 2\n\n  Item 2 subtext\n* Item 3"),
        path: "".to_string(),
        start_line: 5,
        end_line: 11,
    }];

    assert_eq!(articles, expected_result);
}

#[test]
fn ignore_empty_lines() {
    let mut parser = Parser::new(get_test_config());
    let file_content = "
use std::io::prelude::*;

/**
@Article Test article

*/
    ";

    let articles = parser.parse_file(file_content, "");
    let expected_result = vec![Article {
        topic: String::from("Test article"),
        content: String::from(""),
        path: "".to_string(),
        start_line: 5,
        end_line: 6,
    }];

    assert_eq!(articles, expected_result);
}

#[test]
fn parse_comments_without_comment_prefixes() {
    let mut parser = Parser::new(get_test_config());
    let file_content = "
/**
@Article Test article
test
*/
";

    let articles = parser.parse_file(file_content, "");
    let expected_result = vec![Article {
        topic: String::from("Test article"),
        content: String::from("test"),
        path: "".to_string(),
        start_line: 3,
        end_line: 4,
    }];

    assert_eq!(articles, expected_result);
}

#[test]
fn parse_different_types_of_commnet_endings() {
    let mut parser = Parser::new(get_test_config());
    let file_content = "
/**
 * @Article Test article
 * test
 * */
const a = 1
const b = 2
";

    let articles = parser.parse_file(file_content, "");
    let expected_result = vec![Article {
        topic: String::from("Test article"),
        content: String::from("test"),
        path: "".to_string(),
        start_line: 3,
        end_line: 4,
    }];

    assert_eq!(articles, expected_result);
}

#[test]
fn use_global_article_attribute() {
    let mut parser = Parser::new(get_test_config());
    let file_content = "
/**
 * @FileArticle Test article
 */

/**
 * test
 */
... some code here

/**
 * test
 */
... some code here
";

    let articles = parser.parse_file(file_content, "");
    let expected_result = vec![
        Article {
            topic: String::from("Test article"),
            content: String::from("test"),
            path: "".to_string(),
            start_line: 6,
            end_line: 7,
        },
        Article {
            topic: String::from("Test article"),
            content: String::from("test"),
            path: "".to_string(),
            start_line: 11,
            end_line: 12,
        },
    ];

    assert_eq!(articles, expected_result);
}

#[test]
fn ignore_sections_in_case_of_global_article() {
    let mut parser = Parser::new(get_test_config());
    let file_content = "
/**
 * @FileArticle Test article
 */

/**
 * test
 */
... some code here

/**
 * @Ignore
 * test
 */
... some code here
";

    let articles = parser.parse_file(file_content, "");
    let expected_result = vec![Article {
        topic: String::from("Test article"),
        content: String::from("test"),
        path: "".to_string(),
        start_line: 6,
        end_line: 7,
    }];

    assert_eq!(articles, expected_result);
}

#[test]
fn add_real_code_from_parsed_files() {
    let mut parser = Parser::new(get_test_config());
    let file_content = "
/**
 * @Article Test article
 * Request timeout:
 * @CodeBlockStart js
 */
const TIMEOUT = 3000
/** @CodeBlockEnd */
";

    let articles = parser.parse_file(file_content, "");
    let expected_result = vec![Article {
        topic: String::from("Test article"),
        content: String::from("Request timeout:\n```js/\nconst TIMEOUT = 3000\n```"),
        path: "".to_string(),
        start_line: 3,
        end_line: 7,
    }];

    assert_eq!(articles, expected_result);
}

#[test]
fn parse_code_block_attribute_from_ending_comment_only() {
    let mut parser = Parser::new(get_test_config());
    let file_content = "
/**
 * @Article Test article
 * Should ignore @CodeBlockEnd in a text block
 * @CodeBlockStart rust
 */
...
/** @CodeBlockEnd */
";

    let articles = parser.parse_file(file_content, "");
    let expected_result = vec![Article {
        topic: String::from("Test article"),
        content: String::from("Should ignore @CodeBlockEnd in a text block\n```rust/\n...\n```"),
        path: "".to_string(),
        start_line: 3,
        end_line: 7,
    }];

    assert_eq!(articles, expected_result);
}

#[test]
fn parse_nested_commends() {
    let mut parser = Parser::new(get_test_config());
    let file_content = "
/**
 * @Article Test article
 * Example:
 * /**
 * * @Article Example article
 * * Example
 * */
 * test
 */
";

    let articles = parser.parse_file(file_content, "");
    let expected_result = vec![Article {
        topic: String::from("Test article"),
        content: String::from("Example:\n/**\n* @Article Example article\n* Example\n*/\ntest"),
        path: "".to_string(),
        start_line: 3,
        end_line: 9,
    }];

    assert_eq!(articles, expected_result);
}

#[test]
fn turn_off_and_on_fundoc() {
    let parser = Parser::new(get_test_config());
    let file_content =
        "fn some_fun() {}\n// fundoc-disable\nsome code here\n// fundoc-enable\ntest";
    let expected_result = "fn some_fun() {}\ntest";

    let result = parser.remove_ignored_text(file_content.to_string());

    assert_eq!(result, expected_result);
}

#[test]
fn turn_off_fundoc_for_whole_file() {
    let parser = Parser::new(get_test_config());
    let file_content = "// fundoc-disable\nfn some_fun() {}\nsome code here\ntest";
    let expected_result = "";

    let result = parser.remove_ignored_text(file_content.to_string());

    assert_eq!(result, expected_result);
}

#[test]
fn parse_fdoc_file_check() {
    let parser = Parser::new(get_test_config());
    let result = parser.parse_fdoc_file("test", "/some/long/path/to/file.fdoc.md");
    let expected_result = vec![Article {
        topic: String::from("file"),
        content: String::from("test"),
        path: "/some/long/path/to/file.fdoc.md".to_string(),
        start_line: 1,
        end_line: 1,
    }];

    assert_eq!(result, expected_result);
}

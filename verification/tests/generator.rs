use fundoc::article::Article;
use fundoc::generator::{
    create_summary, decimal_chars, document_path, merge_docs, summary_path, to_markdown, underscore,
    Document,
};

fn document(title: &str, file_name: &str, content: &str) -> Document {
    Document {
        title: title.to_string(),
        file_name: file_name.to_string(),
        content: content.to_string(),
    }
}

fn found(topic: &str, content: &str, path: &str, start_line: usize, end_line: usize) -> Article {
    Article {
        topic: topic.to_string(),
        content: content.to_string(),
        path: path.to_string(),
        start_line,
        end_line,
    }
}

#[test]
fn create_sorted_summary() {
    let mut documents: Vec<(String, Document)> = Vec::new();

    documents.push(("b".to_string(), document("b", "", "")));
    documents.push(("a".to_string(), document("a", "", "")));
    documents.push(("c".to_string(), document("c", "", "")));

    let result = create_summary(&documents);

    assert_eq!(result, "# Summary\n\n* [a](./)\n* [b](./)\n* [c](./)\n");
}

#[test]
fn summary_goes_by_keys_not_titles() {
    let documents = vec![
        ("zeta".to_string(), document("A title", "zeta.md", "")),
        ("alpha".to_string(), document("Z title", "alpha.md", "")),
        ("alpha_2".to_string(), document("M", "alpha_2.md", "")),
        ("Beta".to_string(), document("Upper", "Beta.md", "")),
    ];
    assert_eq!(
        create_summary(&documents),
        "# Summary\n\n* [Upper](./Beta.md)\n* [Z title](./alpha.md)\n* [M](./alpha_2.md)\n* [A title](./zeta.md)\n"
    );
    assert_eq!(create_summary(&vec![]), "# Summary\n\n");
}

#[test]
fn markdown_is_title_then_content() {
    assert_eq!(to_markdown(&document("Title", "title.md", "\nbody\n")), "# Title\n\nbody\n");
}

#[test]
fn numbers_are_written_in_decimal() {
    let text = |n: usize| decimal_chars(n).into_iter().collect::<String>();
    assert_eq!(text(0), "0");
    assert_eq!(text(7), "7");
    assert_eq!(text(10), "10");
    assert_eq!(text(32768), "32768");
    assert_eq!(text(1234567890), "1234567890");
}

#[test]
fn spaces_become_underscores() {
    assert_eq!(underscore("how it works"), "how_it_works");
    assert_eq!(underscore(" a  b "), "_a__b_");
    assert_eq!(underscore(""), "");
}

#[test]
fn articles_of_one_topic_are_merged_in_order() {
    let articles = vec![
        found("Test Topic", "one", "/src/a.rs", 3, 4),
        found("Other", "two", "/b.rs", 1, 2),
        found("test topic", "three", "/src/c.rs", 10, 12),
    ];
    let docs = merge_docs(articles, Some("https://host/blob/master".to_string()));
    assert_eq!(docs.len(), 2);
    assert_eq!(docs[0].0, "test_topic");
    assert_eq!(docs[0].1.title, "Test Topic");
    assert_eq!(docs[0].1.file_name, "test_topic.md");
    assert_eq!(
        docs[0].1.content,
        "\none\n[[~]](https://host/blob/master/src/a.rs#L3-L4)\n\nthree\n[[~]](https://host/blob/master/src/c.rs#L10-L12)\n"
    );
    assert_eq!(docs[1].0, "other");
    assert_eq!(docs[1].1.title, "Other");
    assert_eq!(docs[1].1.file_name, "other.md");
    assert_eq!(docs[1].1.content, "\ntwo\n[[~]](https://host/blob/master/b.rs#L1-L2)\n");
}

#[test]
fn articles_are_merged_without_links_when_no_host_is_named() {
    let docs = merge_docs(vec![found("ÄB C", "text", "p", 1, 1)], None);
    assert_eq!(docs.len(), 1);
    assert_eq!(docs[0].0, "äb_c");
    assert_eq!(docs[0].1.title, "ÄB C");
    assert_eq!(docs[0].1.file_name, "äb_c.md");
    assert_eq!(docs[0].1.content, "\ntext\n\n");
    assert_eq!(merge_docs(vec![], None).len(), 0);
}

#[test]
fn files_are_placed_in_the_docs_folder() {
    assert_eq!(document_path(&document("T", "t.md", ""), "./docs"), "./docs/t.md");
    assert_eq!(summary_path("./docs", true), "./docs/SUMMARY.md");
    assert_eq!(summary_path("./docs", false), "./docs/README.md");
}

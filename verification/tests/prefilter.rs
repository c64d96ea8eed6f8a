use fundoc::config::Config;
use fundoc::parser::Parser;
use fundoc::prefilter::{find_ignored, locate_ignored, remove_span};

fn filter(text: &str) -> String {
    let parser = Parser::new(Config {
        project_path: "test".to_string(),
        files_patterns: vec![],
        docs_folder: None,
        repository_host: None,
        comment_start_string: None,
        comment_prefix: None,
        comment_end_string: None,
        mdbook: None,
        book_name: None,
        book_build_dir: None,
        repositories: None,
        plugins_dir: None,
    });
    parser.remove_ignored_text(text.to_string())
}

#[test]
fn text_without_disable_comment_is_unchanged() {
    assert_eq!(filter("fn a() {}\n// a comment\nfn b() {}\n"), "fn a() {}\n// a comment\nfn b() {}\n");
    assert_eq!(filter(""), "");
}

#[test]
fn enable_comment_alone_changes_nothing() {
    assert_eq!(filter("a\n// fundoc-enable\nb"), "a\n// fundoc-enable\nb");
}

#[test]
fn enable_comment_before_disable_comment_does_not_count() {
    assert_eq!(filter("a\n// fundoc-enable\nb\n// fundoc-disable\nc"), "a\n// fundoc-enable\nb");
}

#[test]
fn last_enable_comment_ends_the_removed_part() {
    let text = "a\n// fundoc-disable\nb\n// fundoc-enable\nc\n// fundoc-enable\nd";
    assert_eq!(filter(text), "a\nd");
}

#[test]
fn markers_may_be_indented_and_written_without_space() {
    assert_eq!(filter("a\n   //fundoc-disable\nb\n\t//fundoc-enable\nc"), "a\nc");
}

#[test]
fn filtering_twice_can_remove_more() {
    let text = "a\n// fundoc-disable\nb\n// fundoc-enable\nc\n// fundoc-disable\nd";
    let once = filter(text);
    assert_eq!(once, "a\nc\n// fundoc-disable\nd");
    assert_eq!(filter(&once), "a\nc");
}

#[test]
fn filtering_twice_changes_nothing_when_no_disable_comment_is_left() {
    let once = filter("a\n// fundoc-disable\nb\n// fundoc-enable\nc");
    assert_eq!(once, "a\nc");
    assert_eq!(filter(&once), once);
}

#[test]
fn offsets_are_taken_in_bytes_and_cut_in_characters() {
    assert_eq!(filter("héllo\n// fundoc-disable\nwörld\n// fundoc-enable\nünd"), "héllo\nünd");
    assert_eq!(find_ignored("héllo\n// fundoc-disable\nwörld"), Some((5, 29)));
}

#[test]
fn removed_part_is_found_from_the_matches() {
    assert_eq!(locate_ignored("0123456789", &vec![(2, 4), (5, 6)], &vec![(1, 3), (6, 8)]), Some((2, 8)));
    assert_eq!(locate_ignored("0123456789", &vec![(2, 4)], &vec![(0, 2)]), Some((2, 10)));
    assert_eq!(locate_ignored("0123456789", &vec![(2, 4)], &vec![]), Some((2, 10)));
    assert_eq!(locate_ignored("0123456789", &vec![], &vec![(6, 8)]), None);
    assert_eq!(locate_ignored("äbc", &vec![(2, 3)], &vec![]), Some((1, 3)));
}

#[test]
fn span_is_cut_out() {
    assert_eq!(remove_span("0123456789".to_string(), Some((2, 8))), "0189");
    assert_eq!(remove_span("0123456789".to_string(), Some((3, 3))), "0123456789");
    assert_eq!(remove_span("0123456789".to_string(), None), "0123456789");
    assert_eq!(remove_span("äöü".to_string(), Some((1, 2))), "äü");
}

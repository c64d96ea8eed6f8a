use fundoc::git::{clone_target, name_in_path};

#[test]
fn repository_is_cloned_below_the_temporary_folder() {
    assert_eq!(
        clone_target("https://github.com/user/repo.git"),
        Some("./.tmp_repositories/user/repo".to_string())
    );
    assert_eq!(
        clone_target("https://example.com/a/b/c.git?x=1#frag"),
        Some("./.tmp_repositories/a/b/c".to_string())
    );
}

#[test]
fn what_is_no_url_of_a_repository_has_no_target() {
    assert_eq!(clone_target("not a url"), None);
    assert_eq!(clone_target("https://github.com/user/repo"), None);
    assert_eq!(clone_target("mailto:x.git"), None);
}

#[test]
fn name_stands_between_first_slash_and_last_git_suffix() {
    assert_eq!(name_in_path("/user/repo.git"), Some("user/repo".to_string()));
    assert_eq!(name_in_path("/a.git/b.git"), Some("a.git/b".to_string()));
    assert_eq!(name_in_path("/.git"), Some("".to_string()));
    assert_eq!(name_in_path(".git/"), None);
    assert_eq!(name_in_path("/user/repo"), None);
    assert_eq!(name_in_path("repo.git"), None);
}

//! Other repositories of a project: where each is cloned to.

use vstd::prelude::*;
use crate::config::Config;
use crate::text::{append, find_from, index_of, occurs_at, rfind_sub, subrange, to_chars, to_string};

verus! {

/// A project that was cloned, with its settings if it has any.
#[derive(Debug)]
pub struct Project {
    /// The folder that the project was cloned to.
    pub path: String,
    pub config: Option<Config>,
}

/// The folder that repositories are cloned to.
pub const TMP_REPOSITORIES: &'static str = "./.tmp_repositories";

/// The path of the absolute URL `url`, percent-encoded; `None` if `url` is
/// no absolute URL.
pub uninterp spec fn url_path(url: Seq<char>) -> Option<Seq<char>>;

/// Calls `url::Url::parse` on `url` and `Url::path` on what it gives. The
/// result is the one named by [`url_path`].
#[verifier::external_body]
fn path_of_url(url: &str) -> (r: Option<String>)
    ensures
        match r {
            Some(path) => url_path(url@) == Some(path@),
            None => url_path(url@) is None,
        },
{
    match url::Url::parse(url) {
        Ok(parsed) => Some(parsed.path().to_string()),
        Err(_) => None,
    }
}

/// Whether `j` is the last index at which `pattern` stands in `s`.
pub open spec fn is_last_occurrence(s: Seq<char>, pattern: Seq<char>, j: int) -> bool {
    occurs_at(s, pattern, j) && forall|k: int| j < k ==> !occurs_at(s, pattern, k)
}

/// The name of the repository whose URL has the path `path`: what stands
/// between the first `/` and the last `.git`. `None` where one of them is
/// missing, or the last `.git` begins before the first `/` ends.
pub open spec fn repository_name(path: Seq<char>) -> Option<Seq<char>> {
    let slash = index_of(path, '/');
    if slash < path.len() && exists|j: int| is_last_occurrence(path, ".git"@, j) {
        let suffix = choose|j: int| is_last_occurrence(path, ".git"@, j);
        if slash + 1 <= suffix {
            Some(path.subrange(slash + 1, suffix))
        } else {
            None
        }
    } else {
        None
    }
}

/// The folder that the repository `name` is cloned to.
pub open spec fn clone_dir(name: Seq<char>) -> Seq<char> {
    TMP_REPOSITORIES@ + seq!['/'] + name
}

/// The name of the repository whose URL has the path `path`.
pub fn name_in_path(path: &str) -> (r: Option<String>)
    ensures
        match r {
            Some(name) => repository_name(path@) == Some(name@),
            None => repository_name(path@) is None,
        },
{
    let chars = to_chars(path);
    proof {
        assert(chars@.skip(0) =~= chars@);
    }
    let slash = find_from(&chars, '/', 0);
    if slash == chars.len() {
        return None;
    }
    match rfind_sub(&chars, &to_chars(".git")) {
        Some(suffix) => {
            proof {
                assert(is_last_occurrence(chars@, ".git"@, suffix as int));
                let chosen = choose|j: int| is_last_occurrence(chars@, ".git"@, j);
                assert(chosen == suffix);
            }
            if slash + 1 <= suffix {
                Some(to_string(&subrange(&chars, slash + 1, suffix)))
            } else {
                None
            }
        },
        None => None,
    }
}

/// The folder that the repository at `url` is cloned to: `None` where
/// `url` is no absolute URL or names no repository.
pub fn clone_target(url: &str) -> (r: Option<String>)
    ensures
        match r {
            Some(dir) => url_path(url@) is Some && repository_name(url_path(url@)->0) is Some
                && dir@ == clone_dir(repository_name(url_path(url@)->0)->0),
            None => url_path(url@) is None || repository_name(url_path(url@)->0) is None,
        },
{
    match path_of_url(url) {
        Some(path) => match name_in_path(path.as_str()) {
            Some(name) => {
                let mut dir = to_chars(TMP_REPOSITORIES);
                dir.push('/');
                append(&mut dir, &to_chars(name.as_str()));
                assert(dir@ =~= clone_dir(name@));
                Some(to_string(&dir))
            },
            None => None,
        },
        None => None,
    }
}

} // verus!

//! The settings of one project.

use vstd::prelude::*;

verus! {

/// What a project's configuration file holds. A field that is `None` was
/// left out of the file.
#[derive(Debug, Clone)]
pub struct Config {
    /// The folder that receives the generated documents.
    pub docs_folder: Option<String>,
    /// Where the search for source files starts.
    pub project_path: String,
    /// Unix-style patterns of the files to scan.
    pub files_patterns: Vec<String>,
    /// The URL that links to source files begin with.
    pub repository_host: Option<String>,
    /// The marker that opens a comment block; `/**` when left out.
    pub comment_start_string: Option<String>,
    /// The character that begins each line of a comment block; `*` when left out.
    pub comment_prefix: Option<char>,
    /// The marker that closes a comment block; `*/` when left out.
    pub comment_end_string: Option<String>,
    /// Whether the documents are laid out as a book.
    pub mdbook: Option<bool>,
    pub book_name: Option<String>,
    pub book_build_dir: Option<String>,
    /// Other repositories whose documentation is merged in.
    pub repositories: Option<Vec<String>>,
    /// The folder that holds the text-transforming plugins.
    pub plugins_dir: Option<String>,
}

} // verus!

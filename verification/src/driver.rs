//! Scanning the files of a project: each file is filtered and scanned, and
//! the articles of all of them are gathered in the order of the files.

use vstd::prelude::*;
use crate::config::Config;
use crate::article::{
    article_views, lemma_article_views_concat, lemma_article_views_push, Article, ArticleView,
};
use crate::order::{in_order, last_line};
use crate::parser::Parser;
use crate::prefilter::{find_ignored, ignored, prefilter, remove_span};
use crate::scan::{is_prerendered, parse, state_after, Delimiters, Scan};
use crate::text::{
    append, count_char, ends_with, lemma_lines_len, lines, occurrences, to_chars, to_string,
};

verus! {

/// A file that was found, with its text if it could be read.
pub struct SourceFile {
    pub path: String,
    /// The text of the file; `None` where it could not be opened or is no text.
    pub content: Option<String>,
}

/// What a [`SourceFile`] holds, as mathematical values.
pub struct SourceView {
    pub path: Seq<char>,
    pub content: Option<Seq<char>>,
}

impl View for SourceFile {
    type V = SourceView;

    open spec fn view(&self) -> SourceView {
        SourceView {
            path: self.path@,
            content: match self.content {
                Some(text) => Some(text@),
                None => None,
            },
        }
    }
}

/// The views of the files of `s`, in order.
pub open spec fn source_views(s: Seq<SourceFile>) -> Seq<SourceView> {
    Seq::new(s.len(), |i: int| s[i]@)
}

/// The character sequences that the strings of `s` hold, in order.
pub open spec fn string_views(s: Seq<String>) -> Seq<Seq<char>> {
    Seq::new(s.len(), |i: int| s[i]@)
}

/// What scanning a set of files gave.
pub struct ParsingResult {
    /// The articles of all the files, file after file, and within a file
    /// in the order of their lines.
    pub articles: Vec<Article>,
    /// How many files were read and scanned.
    pub files_scanned: usize,
    /// How many of the scanned files held at least one article. The share
    /// of documented files is this number over `files_scanned`, and has no
    /// value when no file was scanned.
    pub files_with_documentation: usize,
    /// The paths of the files that could not be read, in the order met.
    /// They count neither as scanned nor as documented.
    pub unreadable: Vec<String>,
}

/// The number that line `line` of a filtered text had in the file, where
/// `breaks_before` line breaks stand before the part that was taken out and
/// `shift` line breaks stand in it. The lines up to the one that the part
/// was cut from keep their number; the later ones get theirs back.
pub open spec fn line_in_file(line: int, breaks_before: int, shift: int) -> int {
    if line - 1 <= breaks_before {
        line
    } else {
        line + shift
    }
}

/// The article `a` of a filtered text, with the line numbers that it has in
/// the file: it begins at the line that its first line was, and ends on the
/// line before the one that closed it.
pub open spec fn relocated(a: ArticleView, breaks_before: int, shift: int) -> ArticleView {
    ArticleView {
        start_line: line_in_file(a.start_line, breaks_before, shift),
        end_line: line_in_file(a.end_line + 1, breaks_before, shift) - 1,
        ..a
    }
}

/// Each of `found`, relocated.
pub open spec fn relocated_all(found: Seq<ArticleView>, breaks_before: int, shift: int) -> Seq<
    ArticleView,
> {
    Seq::new(found.len(), |i: int| relocated(found[i], breaks_before, shift))
}

/// How many line breaks stand in the part of `text` that the switch
/// comments take out.
pub open spec fn removed_breaks(text: Seq<char>) -> int {
    match ignored(text) {
        Some((from, to)) => occurrences(text.subrange(from, to), '\n') as int,
        None => 0,
    }
}

/// The articles of the file `path` that holds `text`: those of the text
/// that the switch comments leave, with the line numbers that they have in
/// `text` itself. A document that is already written out is one article on
/// line 1.
pub open spec fn file_articles(d: Delimiters, text: Seq<char>, path: Seq<char>) -> Seq<ArticleView> {
    let found = parse(d, prefilter(text), path);
    match ignored(text) {
        Some((from, to)) => if is_prerendered(path) {
            found
        } else {
            relocated_all(found, occurrences(text.take(from), '\n') as int, removed_breaks(text))
        },
        None => found,
    }
}

/// The articles of all of `files` that could be read, file after file.
pub open spec fn all_articles(d: Delimiters, files: Seq<SourceView>) -> Seq<ArticleView>
    decreases files.len(),
{
    if files.len() == 0 {
        seq![]
    } else {
        all_articles(d, files.drop_last()) + match files.last().content {
            Some(text) => file_articles(d, text, files.last().path),
            None => seq![],
        }
    }
}

/// The state that a scanner is left in by `files`, which it was in the state
/// `before`: the state that the scan of the last file that could be read
/// ended in.
pub open spec fn state_after_files(d: Delimiters, files: Seq<SourceView>, before: Scan) -> Scan
    decreases files.len(),
{
    if files.len() == 0 {
        before
    } else {
        match files.last().content {
            Some(text) => state_after(d, prefilter(text), files.last().path),
            None => state_after_files(d, files.drop_last(), before),
        }
    }
}

/// How many of `files` could be read.
pub open spec fn scanned(files: Seq<SourceView>) -> nat
    decreases files.len(),
{
    if files.len() == 0 {
        0
    } else {
        scanned(files.drop_last()) + if files.last().content is Some {
            1nat
        } else {
            0nat
        }
    }
}

/// How many of `files` could be read and hold at least one article.
pub open spec fn documented(d: Delimiters, files: Seq<SourceView>) -> nat
    decreases files.len(),
{
    if files.len() == 0 {
        0
    } else {
        documented(d, files.drop_last()) + match files.last().content {
            Some(text) => if file_articles(d, text, files.last().path).len() > 0 {
                1nat
            } else {
                0nat
            },
            None => 0nat,
        }
    }
}

/// The paths of those of `files` that could not be read, in order.
pub open spec fn unreadable(files: Seq<SourceView>) -> Seq<Seq<char>>
    decreases files.len(),
{
    if files.len() == 0 {
        seq![]
    } else {
        unreadable(files.drop_last()) + match files.last().content {
            Some(_) => seq![],
            None => seq![files.last().path],
        }
    }
}

/// The pattern `pattern`, as it is searched for: below the project's own
/// folder, which lies below `root`.
pub open spec fn rooted(root: Seq<char>, project_path: Seq<char>, pattern: Seq<char>) -> Seq<char> {
    root + seq!['/'] + project_path + seq!['/'] + pattern
}

/// The patterns of the files to scan for the project of `config` that lies
/// in `root`: first the pattern of the documents that are already written
/// out, then the patterns of the settings, each below the project's folder.
pub open spec fn search_patterns(config: Config, root: Seq<char>) -> Seq<Seq<char>> {
    let given = config.files_patterns@;
    Seq::new(
        given.len() + 1,
        |i: int|
            if i == 0 {
                rooted(root, config.project_path@, root + "/**/*.fdoc.md"@)
            } else {
                rooted(root, config.project_path@, given[i - 1]@)
            },
    )
}

/// `pattern` below the folder `project_path` of the project in `root`.
fn rooted_pattern(root: &Vec<char>, project_path: &Vec<char>, pattern: &Vec<char>) -> (r: String)
    ensures
        r@ == rooted(root@, project_path@, pattern@),
{
    let mut path: Vec<char> = Vec::new();
    append(&mut path, root);
    path.push('/');
    append(&mut path, project_path);
    path.push('/');
    append(&mut path, pattern);
    assert(path@ =~= rooted(root@, project_path@, pattern@));
    to_string(&path)
}

/// The patterns of the files to scan for the project of `config` that lies
/// in `root`.
pub fn patterns_to_search(config: &Config, root: &str) -> (r: Vec<String>)
    ensures
        string_views(r@) == search_patterns(*config, root@),
{
    let root_chars = to_chars(root);
    let project_path = to_chars(config.project_path.as_str());
    let mut written_out = to_chars(root);
    append(&mut written_out, &to_chars("/**/*.fdoc.md"));
    let mut r: Vec<String> = Vec::new();
    r.push(rooted_pattern(&root_chars, &project_path, &written_out));
    let mut i: usize = 0;
    while i < config.files_patterns.len()
        invariant
            i <= config.files_patterns.len(),
            root_chars@ == root@,
            project_path@ == config.project_path@,
            r@.len() == i + 1,
            forall|k: int| 0 <= k < r@.len() ==> (#[trigger] r@[k])@ == search_patterns(*config, root@)[k],
        decreases config.files_patterns.len() - i,
    {
        let pattern = to_chars(config.files_patterns[i].as_str());
        r.push(rooted_pattern(&root_chars, &project_path, &pattern));
        i += 1;
    }
    assert(string_views(r@) =~= search_patterns(*config, root@));
    r
}

/// Relocated articles lie in order as they did before.
pub proof fn lemma_relocated_in_order(
    found: Seq<ArticleView>,
    path: Seq<char>,
    last: int,
    breaks_before: int,
    shift: int,
)
    requires
        in_order(found, path, last),
        shift >= 0,
    ensures
        in_order(relocated_all(found, breaks_before, shift), path, last + shift),
{
}

/// The articles of a file lie in the order of their lines in that file.
pub proof fn lemma_file_articles_in_order(d: Delimiters, text: Seq<char>, path: Seq<char>)
    ensures
        in_order(
            file_articles(d, text, path),
            path,
            last_line(prefilter(text), path) + removed_breaks(text),
        ),
{
    crate::order::lemma_articles_in_order(d, prefilter(text), path);
    let found = parse(d, prefilter(text), path);
    match ignored(text) {
        Some((from, to)) => {
            if !is_prerendered(path) {
                lemma_relocated_in_order(
                    found,
                    path,
                    last_line(prefilter(text), path),
                    occurrences(text.take(from), '\n') as int,
                    removed_breaks(text),
                );
            }
        },
        None => {},
    }
}

/// More files are scanned than documented, and no more than there are.
pub proof fn lemma_counts_bounded(d: Delimiters, files: Seq<SourceView>)
    ensures
        documented(d, files) <= scanned(files) <= files.len(),
    decreases files.len(),
{
    if files.len() > 0 {
        lemma_counts_bounded(d, files.drop_last());
    }
}

/// The articles of two sets of files, one after the other, are the
/// articles of the first set followed by those of the second.
pub proof fn lemma_all_articles_concat(d: Delimiters, first: Seq<SourceView>, second: Seq<SourceView>)
    ensures
        all_articles(d, first + second) == all_articles(d, first) + all_articles(d, second),
    decreases second.len(),
{
    if second.len() == 0 {
        assert(first + second =~= first);
        assert(all_articles(d, first) + all_articles(d, second) =~= all_articles(d, first));
    } else {
        assert((first + second).drop_last() =~= first + second.drop_last());
        assert((first + second).last() == second.last());
        lemma_all_articles_concat(d, first, second.drop_last());
        let tail = match second.last().content {
            Some(text) => file_articles(d, text, second.last().path),
            None => seq![],
        };
        assert(all_articles(d, first + second) =~= all_articles(d, first) + (all_articles(
            d,
            second.drop_last(),
        ) + tail));
    }
}

/// The articles of `found`, each with the line numbers that it has in the file.
fn relocate(found: Vec<Article>, breaks_before: usize, shift: usize) -> (r: Vec<Article>)
    requires
        forall|i: int|
            0 <= i < found@.len() ==> 1 <= (#[trigger] found@[i]).start_line <= found@[i].end_line
                && found@[i].end_line + 1 + shift <= usize::MAX,
    ensures
        article_views(r@) == relocated_all(
            article_views(found@),
            breaks_before as int,
            shift as int,
        ),
{
    let mut r: Vec<Article> = Vec::new();
    let mut i: usize = 0;
    while i < found.len()
        invariant
            i <= found.len(),
            forall|k: int|
                0 <= k < found@.len() ==> 1 <= (#[trigger] found@[k]).start_line
                    <= found@[k].end_line && found@[k].end_line + 1 + shift <= usize::MAX,
            article_views(r@) =~= relocated_all(
                article_views(found@.take(i as int)),
                breaks_before as int,
                shift as int,
            ),
        decreases found.len() - i,
    {
        let a = &found[i];
        let start_line: usize = if a.start_line - 1 <= breaks_before {
            a.start_line
        } else {
            a.start_line + shift
        };
        let closing_line: usize = if a.end_line <= breaks_before {
            a.end_line + 1
        } else {
            a.end_line + 1 + shift
        };
        let moved = Article {
            topic: a.topic.clone(),
            content: a.content.clone(),
            path: a.path.clone(),
            start_line,
            end_line: closing_line - 1,
        };
        proof {
            lemma_article_views_push(r@, moved);
            lemma_article_views_push(found@.take(i as int), found@[i as int]);
            assert(found@.take(i as int).push(found@[i as int]) =~= found@.take(i + 1));
            assert(moved@ == relocated(found@[i as int]@, breaks_before as int, shift as int));
        }
        r.push(moved);
        i += 1;
    }
    proof {
        assert(found@.take(i as int) =~= found@);
    }
    r
}

impl Parser {
    /// Reads the file `file_path`, which holds `text`: takes out what the
    /// switch comments turn off, scans the rest, and returns the articles
    /// with the line numbers that they have in `text`. They are added to the
    /// articles that the scanner keeps.
    pub fn parse_source(&mut self, text: &str, file_path: &str) -> (r: Vec<Article>)
        ensures
            article_views(r@) == file_articles(old(self).delimiters(), text@, file_path@),
            in_order(
                article_views(r@),
                file_path@,
                last_line(prefilter(text@), file_path@) + removed_breaks(text@),
            ),
            final(self).delimiters() == old(self).delimiters(),
            final(self).collected() == old(self).collected() + article_views(r@),
            final(self).state() == (Scan {
                articles: final(self).collected(),
                ..state_after(old(self).delimiters(), prefilter(text@), file_path@)
            }),
            final(self).is_consistent(),
    {
        proof {
            lemma_file_articles_in_order(self.delimiters(), text@, file_path@);
        }
        let span = find_ignored(text);
        let found = match span {
            Some((from, to)) => {
                let chars = to_chars(text);
                let filtered = remove_span(text.to_owned(), span);
                let found = self.articles_of(filtered.as_str(), file_path);
                if ends_with(&to_chars(file_path), &to_chars(".fdoc.md")) {
                    found
                } else {
                    let breaks_before = count_char(&chars, '\n', 0, from);
                    let shift = count_char(&chars, '\n', from, to);
                    proof {
                        assert(chars@.subrange(0, from as int) =~= text@.take(from as int));
                        lemma_lines_len(filtered@);
                        assert(filtered@.len() == text@.len() - (to - from));
                        let views = article_views(found@);
                        assert forall|i: int| 0 <= i < found@.len() implies 1 <= (
                        #[trigger] found@[i]).start_line <= found@[i].end_line
                            && found@[i].end_line + 1 + shift <= usize::MAX by {
                            assert(views[i] == found@[i]@);
                        }
                    }
                    relocate(found, breaks_before, shift)
                }
            },
            None => self.articles_of(text, file_path),
        };
        self.keep(found)
    }

    /// Scans `files` in order and gathers what they hold. A file without
    /// text is listed as unreadable and counted nowhere else.
    pub fn parse_path(&mut self, files: Vec<SourceFile>) -> (result: ParsingResult)
        ensures
            article_views(result.articles@) == all_articles(
                old(self).delimiters(),
                source_views(files@),
            ),
            result.files_scanned == scanned(source_views(files@)),
            result.files_with_documentation == documented(
                old(self).delimiters(),
                source_views(files@),
            ),
            result.files_with_documentation <= result.files_scanned <= files@.len(),
            string_views(result.unreadable@) == unreadable(source_views(files@)),
            final(self).delimiters() == old(self).delimiters(),
            final(self).collected() == old(self).collected() + article_views(result.articles@),
            final(self).state() == (Scan {
                articles: final(self).collected(),
                ..state_after_files(old(self).delimiters(), source_views(files@), old(self).state())
            }),
    {
        let mut articles: Vec<Article> = Vec::new();
        let mut files_scanned: usize = 0;
        let mut files_with_documentation: usize = 0;
        let mut failed: Vec<String> = Vec::new();
        let ghost d = self.delimiters();
        let ghost all = source_views(files@);
        proof {
            assert(all.take(0) =~= Seq::<SourceView>::empty());
            assert(article_views(articles@) =~= Seq::<ArticleView>::empty());
            assert(string_views(failed@) =~= Seq::<Seq<char>>::empty());
            assert(old(self).collected() + article_views(articles@) =~= old(self).collected());
        }
        let mut i: usize = 0;
        while i < files.len()
            invariant
                i <= files.len(),
                all == source_views(files@),
                self.delimiters() == d,
                article_views(articles@) == all_articles(d, all.take(i as int)),
                files_scanned == scanned(all.take(i as int)),
                files_with_documentation == documented(d, all.take(i as int)),
                string_views(failed@) == unreadable(all.take(i as int)),
                self.collected() == old(self).collected() + article_views(articles@),
                self.state() == (Scan {
                    articles: self.collected(),
                    ..state_after_files(d, all.take(i as int), old(self).state())
                }),
            decreases files.len() - i,
        {
            proof {
                assert(all.take(i + 1).drop_last() =~= all.take(i as int));
                assert(all.take(i + 1).last() == files@[i as int]@);
                lemma_counts_bounded(d, all.take(i as int));
            }
            let ghost before = article_views(articles@);
            let ghost failed_before = string_views(failed@);
            match &files[i].content {
                Some(text) => {
                    let mut found = self.parse_source(text.as_str(), files[i].path.as_str());
                    files_scanned += 1;
                    if found.len() > 0 {
                        files_with_documentation += 1;
                    }
                    proof {
                        lemma_article_views_concat(articles@, found@);
                        assert(old(self).collected() + before + article_views(found@) =~= old(
                            self,
                        ).collected() + (before + article_views(found@)));
                        assert(string_views(failed@) + Seq::<Seq<char>>::empty() =~= string_views(
                            failed@,
                        ));
                    }
                    articles.append(&mut found);
                },
                None => {
                    let path = files[i].path.clone();
                    proof {
                        assert(string_views(failed@.push(path)) =~= failed_before + seq![path@]);
                        assert(before + Seq::<ArticleView>::empty() =~= before);
                    }
                    failed.push(path);
                },
            }
            i += 1;
        }
        proof {
            assert(all.take(i as int) =~= all);
            lemma_counts_bounded(d, all);
        }
        ParsingResult { articles, files_scanned, files_with_documentation, unreadable: failed }
    }
}

} // verus!

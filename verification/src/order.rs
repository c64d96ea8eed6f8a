//! What holds of the articles of every file: where they lie in the file,
//! and in which order they are found.

use vstd::prelude::*;
use crate::article::ArticleView;
use crate::scan::{
    fence, finalize, is_prerendered, mark_boundaries, classify, parse, scan, step, Delimiters,
    Scan,
};
use crate::text::{lemma_trim_is_trimmed, lines, trim};

verus! {

/// Whether each article of `articles` comes from `path`, begins at line 1 or
/// later, ends at or after the line that it begins at and not after line
/// `last`, and ends before the next one begins.
pub open spec fn in_order(articles: Seq<ArticleView>, path: Seq<char>, last: int) -> bool {
    &&& forall|i: int|
        0 <= i < articles.len() ==> {
            &&& (#[trigger] articles[i]).path == path
            &&& 1 <= articles[i].start_line <= articles[i].end_line <= last
        }
    &&& forall|i: int, j: int|
        0 <= i < j < articles.len() ==> (#[trigger] articles[i]).end_line < (
        #[trigger] articles[j]).start_line
}

/// Whether no article of `articles` begins or ends with whitespace.
pub open spec fn all_trimmed(articles: Seq<ArticleView>) -> bool {
    forall|i: int| 0 <= i < articles.len() ==> trim((#[trigger] articles[i]).content) == articles[i].content
}

/// What holds of the state of a scan after `n` lines of the file `path`: a
/// section or a nested block is open only inside a comment block; the
/// articles completed lie
/// in order in the lines before line `n`, each without whitespace at either
/// end; and the open section began at line `n` or before, after the last
/// completed article ended.
pub open spec fn consistent(st: Scan, path: Seq<char>, n: int) -> bool {
    &&& st.in_article ==> st.in_comment
    &&& st.nested ==> st.in_comment
    &&& in_order(st.articles, path, n - 1)
    &&& all_trimmed(st.articles)
    &&& st.in_article ==> 1 <= st.current.start_line <= n
    &&& st.in_article ==> forall|i: int|
        0 <= i < st.articles.len() ==> (#[trigger] st.articles[i]).end_line < st.current.start_line
}

/// Closing a section that began after the last article adds an article that lies in order.
proof fn lemma_finalize_consistent(st: Scan, path: Seq<char>, n: int)
    requires
        n >= 1,
        in_order(st.articles, path, n - 2),
        all_trimmed(st.articles),
        st.in_article,
        1 <= st.current.start_line <= n - 1,
        forall|i: int|
            0 <= i < st.articles.len() ==> (#[trigger] st.articles[i]).end_line
                < st.current.start_line,
    ensures
        in_order(finalize(st, path, n).articles, path, n - 1),
        all_trimmed(finalize(st, path, n).articles),
        !finalize(st, path, n).in_article,
{
    lemma_trim_is_trimmed(st.current.content);
}

/// Reading one more line keeps the state of a scan consistent.
pub proof fn lemma_step_consistent(d: Delimiters, path: Seq<char>, st: Scan, line: Seq<char>, n: int)
    requires
        n >= 1,
        consistent(st, path, n - 1),
    ensures
        consistent(step(d, path, st, line, n), path, n),
{
    let marked = mark_boundaries(d, st, line);
    assert(marked.articles == st.articles);
    assert(marked.current == st.current);
    assert(marked.in_article == st.in_article);
    if !marked.in_comment && marked.in_article {
        lemma_finalize_consistent(marked, path, n);
    }
    let settled = if !marked.in_comment && marked.in_article {
        finalize(marked, path, n)
    } else {
        marked
    };
    assert(in_order(settled.articles, path, n - 1));
    assert(settled.in_article ==> settled.in_comment);
    if settled.in_comment {
        let after = classify(d, path, settled, line, n);
        if after.articles != settled.articles {
            lemma_trim_is_trimmed(settled.current.content + fence());
            lemma_finalize_consistent(
                Scan { articles: settled.articles, current: settled.current, in_article: true, ..after },
                path,
                n,
            );
        }
    }
}

/// The state of a scan is consistent after every line.
pub proof fn lemma_scan_consistent(d: Delimiters, path: Seq<char>, rows: Seq<Seq<char>>)
    ensures
        consistent(scan(d, path, rows), path, rows.len() as int),
    decreases rows.len(),
{
    if rows.len() > 0 {
        lemma_scan_consistent(d, path, rows.drop_last());
        lemma_step_consistent(
            d,
            path,
            scan(d, path, rows.drop_last()),
            rows.last(),
            rows.len() as int,
        );
    }
}

/// The last line that an article of the file `path` can end at: line 1 for
/// a document that is already written out, and else the line before the
/// last line of `content`.
pub open spec fn last_line(content: Seq<char>, path: Seq<char>) -> int {
    if is_prerendered(path) {
        1
    } else {
        lines(content).len() - 1
    }
}

/// The text of an article that was collected from comment blocks neither
/// begins nor ends with whitespace.
pub proof fn lemma_articles_trimmed(d: Delimiters, content: Seq<char>, path: Seq<char>)
    requires
        !is_prerendered(path),
    ensures
        all_trimmed(parse(d, content, path)),
{
    lemma_scan_consistent(d, path, lines(content));
}

/// The articles of a file come out in the order of their lines: each is
/// from that file, begins at line 1 or later, does not end before it
/// begins, and ends before the next one begins.
pub proof fn lemma_articles_in_order(d: Delimiters, content: Seq<char>, path: Seq<char>)
    ensures
        in_order(parse(d, content, path), path, last_line(content, path)),
{
    if !is_prerendered(path) {
        lemma_scan_consistent(d, path, lines(content));
    }
}

} // verus!

//! The scanner as a function on character sequences: what each line does to
//! the state of a scan, and what a whole file yields.

use vstd::prelude::*;
use crate::article::ArticleView;
use crate::keyword::Keyword;
use crate::text::{is_whitespace, last_index_of, lines, trim, trim_start};

verus! {

/// The three markers of a comment block.
pub struct Delimiters {
    /// Opens a block.
    pub start: Seq<char>,
    /// Begins each line inside a block.
    pub prefix: char,
    /// Closes a block.
    pub end: Seq<char>,
}

/// The state of a scan between two lines.
pub struct Scan {
    /// A comment block is open.
    pub in_comment: bool,
    /// A second block was opened inside the open one and is not closed yet.
    pub nested: bool,
    /// The open block holds a section that is being collected.
    pub in_article: bool,
    /// The section that is being collected.
    pub current: ArticleView,
    /// The document named by a `@FileArticle` directive; empty if there is none.
    pub file_topic: Seq<char>,
    /// The language of the code quotation that is open; empty if none is.
    pub code_block: Seq<char>,
    /// The articles completed so far, in the order of their completion.
    pub articles: Seq<ArticleView>,
}

/// The article that a section starts from.
pub open spec fn blank_article() -> ArticleView {
    ArticleView { topic: seq![], content: seq![], path: seq![], start_line: 1, end_line: 1 }
}

/// The state at the start of a file.
pub open spec fn initial() -> Scan {
    Scan {
        in_comment: false,
        nested: false,
        in_article: false,
        current: blank_article(),
        file_topic: seq![],
        code_block: seq![],
        articles: seq![],
    }
}

/// The marker that opens and closes quoted code in an article.
pub open spec fn fence() -> Seq<char> {
    "```"@
}

/// The text of a comment line. Where the prefix character is the first
/// character of the line that is no whitespace, the text is what follows it,
/// without one space behind it. Any other line is its own text, with its
/// indentation.
pub open spec fn de_prefix(line: Seq<char>, prefix: char) -> Seq<char> {
    let t = trim_start(line);
    if t.len() > 0 && t[0] == prefix {
        if t.len() > 1 && t[1] == ' ' {
            t.skip(2)
        } else {
            t.skip(1)
        }
    } else {
        line
    }
}

/// What follows the directive `word` in `text`, without whitespace at either end.
pub open spec fn argument(text: Seq<char>, word: Seq<char>) -> Seq<char> {
    trim(text.skip(word.len() as int))
}

/// Whether the line `t`, free of whitespace at both ends, is a comment that
/// holds the directive `@CodeBlockEnd` and nothing else: the start marker,
/// one space, the directive, any whitespace, the end marker.
pub open spec fn is_code_block_end(d: Delimiters, t: Seq<char>) -> bool {
    let head = d.start + seq![' '] + Keyword::CodeBlockEnd.text();
    &&& head.is_prefix_of(t)
    &&& d.end.is_suffix_of(t)
    &&& head.len() + d.end.len() <= t.len()
    &&& forall|i: int| head.len() <= i < t.len() - d.end.len() ==> is_whitespace(#[trigger] t[i])
}

/// The state after the markers of `line` are taken into account. A start
/// marker at the start of the line opens a block if none is open. Otherwise,
/// inside a block, a start marker at the end of the line opens a nested
/// block; an end marker at the end of the line closes the nested block if
/// there is one, and else the block itself, unless a code quotation is open.
pub open spec fn mark_boundaries(d: Delimiters, st: Scan, line: Seq<char>) -> Scan {
    let t = trim(line);
    if d.start.is_prefix_of(t) && !st.in_comment {
        Scan { in_comment: true, ..st }
    } else if st.in_comment && d.start.is_suffix_of(t) {
        Scan { nested: true, ..st }
    } else if st.nested && d.end.is_suffix_of(t) {
        Scan { nested: false, ..st }
    } else if !st.nested && st.code_block.len() == 0 && d.end.is_suffix_of(t) {
        Scan { in_comment: false, ..st }
    } else {
        st
    }
}

/// The article that the section under collection becomes when it is closed
/// at line `n` of the file `path`.
pub open spec fn finished(current: ArticleView, path: Seq<char>, n: int) -> ArticleView {
    ArticleView { content: trim(current.content), path: path, end_line: n - 1, ..current }
}

/// The state after the section under collection is closed at line `n`.
pub open spec fn finalize(st: Scan, path: Seq<char>, n: int) -> Scan {
    Scan {
        in_article: false,
        current: blank_article(),
        articles: st.articles.push(finished(st.current, path, n)),
        ..st
    }
}

/// The state after `text` is added, as one line, to the section under collection.
pub open spec fn collect(st: Scan, text: Seq<char>) -> Scan {
    Scan {
        current: ArticleView { content: st.current.content + text + seq!['\n'], ..st.current },
        ..st
    }
}

/// The state after line `n`, which stands inside a comment block, is read.
/// Inside a nested block no directive is looked for: the line is added to
/// the open section as it is. Elsewhere the first of these that applies
/// decides:
/// a `@FileArticle` directive names the document of the file;
/// with such a document named and no section open, the line opens a
/// section of it;
/// an `@Article` directive opens a section of the document it names;
/// an `@Ignore` directive drops the section, closes the block and forgets
/// the document of the file;
/// a `@CodeBlockStart` directive opens a code quotation;
/// a comment that holds `@CodeBlockEnd` alone closes the quotation, the
/// block and the section;
/// any other line is added to the open section.
pub open spec fn classify(d: Delimiters, path: Seq<char>, st: Scan, line: Seq<char>, n: int) -> Scan {
    let text = de_prefix(line, d.prefix);
    if st.nested {
        if st.in_article {
            collect(st, text)
        } else {
            st
        }
    } else if Keyword::FileArticle.text().is_prefix_of(text) {
        Scan { file_topic: argument(text, Keyword::FileArticle.text()), ..st }
    } else if st.file_topic.len() > 0 && !st.in_article {
        Scan {
            in_article: true,
            current: ArticleView { topic: st.file_topic, start_line: n, ..st.current },
            ..st
        }
    } else if Keyword::Article.text().is_prefix_of(text) {
        Scan {
            in_article: true,
            current: ArticleView {
                topic: argument(text, Keyword::Article.text()),
                start_line: n,
                ..st.current
            },
            ..st
        }
    } else if Keyword::Ignore.text().is_prefix_of(text) {
        Scan {
            in_comment: false,
            in_article: false,
            current: blank_article(),
            file_topic: seq![],
            ..st
        }
    } else if Keyword::CodeBlockStart.text().is_prefix_of(text) {
        let language = argument(text, Keyword::CodeBlockStart.text());
        Scan {
            code_block: language,
            current: ArticleView { content: st.current.content + fence() + language, ..st.current },
            ..st
        }
    } else if is_code_block_end(d, trim(line)) {
        let closed = Scan {
            in_comment: false,
            code_block: seq![],
            current: ArticleView { content: st.current.content + fence(), ..st.current },
            ..st
        };
        if st.in_article {
            finalize(closed, path, n)
        } else {
            Scan { current: blank_article(), ..closed }
        }
    } else if st.in_article {
        collect(st, text)
    } else {
        st
    }
}

/// The state after line `n` of the file `path` is read in state `st`.
pub open spec fn step(d: Delimiters, path: Seq<char>, st: Scan, line: Seq<char>, n: int) -> Scan {
    let marked = mark_boundaries(d, st, line);
    let settled = if !marked.in_comment && marked.in_article {
        finalize(marked, path, n)
    } else {
        marked
    };
    if settled.in_comment {
        classify(d, path, settled, line, n)
    } else {
        settled
    }
}

/// The state after all of `rows`, the lines 1, 2, ... of the file `path`,
/// are read.
pub open spec fn scan(d: Delimiters, path: Seq<char>, rows: Seq<Seq<char>>) -> Scan
    decreases rows.len(),
{
    if rows.len() == 0 {
        initial()
    } else {
        step(d, path, scan(d, path, rows.drop_last()), rows.last(), rows.len() as int)
    }
}

/// Whether `path` names a document that is already written out: one whose
/// name ends in `.fdoc.md`.
pub open spec fn is_prerendered(path: Seq<char>) -> bool {
    ".fdoc.md"@.is_suffix_of(path)
}

/// The last part of `path`: what follows its last `/`.
pub open spec fn file_name(path: Seq<char>) -> Seq<char> {
    path.skip(last_index_of(path, '/') + 1)
}

/// `name` up to its last `.`; nothing if it holds none.
pub open spec fn without_suffix(name: Seq<char>) -> Seq<char> {
    let dot = last_index_of(name, '.');
    if dot < 0 {
        seq![]
    } else {
        name.take(dot)
    }
}

/// The article that a written-out document is: named by its file name
/// without the last two suffixes, holding the file as it is.
pub open spec fn prerendered_article(content: Seq<char>, path: Seq<char>) -> ArticleView {
    ArticleView {
        topic: without_suffix(without_suffix(file_name(path))),
        content: content,
        path: path,
        start_line: 1,
        end_line: 1,
    }
}

/// The state that the scan of the file `path`, which holds `content`, ends
/// in: the state at the start of a file for a document that is already
/// written out, which is not scanned, and else the state after its last line.
pub open spec fn state_after(d: Delimiters, content: Seq<char>, path: Seq<char>) -> Scan {
    if is_prerendered(path) {
        initial()
    } else {
        scan(d, path, lines(content))
    }
}

/// The articles of the file `path` that holds `content`, in the order in
/// which they end in the file.
pub open spec fn parse(d: Delimiters, content: Seq<char>, path: Seq<char>) -> Seq<ArticleView> {
    if is_prerendered(path) {
        seq![prerendered_article(content, path)]
    } else {
        scan(d, path, lines(content)).articles
    }
}

} // verus!

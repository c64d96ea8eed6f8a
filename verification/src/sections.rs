//! What the markers and the directives do to the section that is being
//! collected, stated of every state of a scan.

use vstd::prelude::*;
use crate::article::ArticleView;
use crate::keyword::Keyword;
use crate::scan::{
    argument, blank_article, collect, de_prefix, fence, finished, initial, is_code_block_end,
    mark_boundaries, scan, step, Delimiters, Scan,
};
use crate::text::trim;

verus! {

/// Whether `text` begins with one of the directives that stand at the start
/// of a comment line.
pub open spec fn begins_with_directive(text: Seq<char>) -> bool {
    ||| Keyword::FileArticle.text().is_prefix_of(text)
    ||| Keyword::Article.text().is_prefix_of(text)
    ||| Keyword::Ignore.text().is_prefix_of(text)
    ||| Keyword::CodeBlockStart.text().is_prefix_of(text)
}

/// Whether `line` holds no directive at all.
pub open spec fn is_plain(d: Delimiters, line: Seq<char>) -> bool {
    !begins_with_directive(de_prefix(line, d.prefix)) && !is_code_block_end(d, trim(line))
}

/// Whether `line` ends with neither marker.
pub open spec fn is_unmarked(d: Delimiters, line: Seq<char>) -> bool {
    !d.start.is_suffix_of(trim(line)) && !d.end.is_suffix_of(trim(line))
}

/// No text begins with two different directives, but for `@Article`, which
/// no other directive begins with either.
pub proof fn lemma_directives_differ(text: Seq<char>)
    ensures
        Keyword::FileArticle.text().is_prefix_of(text) ==> !Keyword::Article.text().is_prefix_of(
            text,
        ) && !Keyword::Ignore.text().is_prefix_of(text) && !Keyword::CodeBlockStart.text().is_prefix_of(
            text,
        ),
        Keyword::Article.text().is_prefix_of(text) ==> !Keyword::Ignore.text().is_prefix_of(text)
            && !Keyword::CodeBlockStart.text().is_prefix_of(text),
        Keyword::Ignore.text().is_prefix_of(text) ==> !Keyword::CodeBlockStart.text().is_prefix_of(
            text,
        ),
{
    reveal_strlit("@Article");
    reveal_strlit("@FileArticle");
    reveal_strlit("@Ignore");
    reveal_strlit("@CodeBlockStart");
    if Keyword::FileArticle.text().is_prefix_of(text) {
        assert(text[1] == Keyword::FileArticle.text()[1]);
    }
    if Keyword::Article.text().is_prefix_of(text) {
        assert(text[1] == Keyword::Article.text()[1]);
    }
    if Keyword::Ignore.text().is_prefix_of(text) {
        assert(text[1] == Keyword::Ignore.text()[1]);
    }
    if Keyword::CodeBlockStart.text().is_prefix_of(text) {
        assert(text[1] == Keyword::CodeBlockStart.text()[1]);
    }
}

/// An `@Ignore` directive inside a section drops it: the line adds
/// no article, closes the block, leaves no section open and forgets the
/// document of the file.
pub proof fn lemma_ignore_drops_section(
    d: Delimiters,
    path: Seq<char>,
    st: Scan,
    line: Seq<char>,
    n: int,
)
    requires
        st.in_comment,
        st.in_article,
        mark_boundaries(d, st, line).in_comment,
        !mark_boundaries(d, st, line).nested,
        Keyword::Ignore.text().is_prefix_of(de_prefix(line, d.prefix)),
    ensures
        step(d, path, st, line, n).articles == st.articles,
        step(d, path, st, line, n).current == blank_article(),
        !step(d, path, st, line, n).in_article,
        !step(d, path, st, line, n).in_comment,
        step(d, path, st, line, n).file_topic.len() == 0,
{
    lemma_directives_differ(de_prefix(line, d.prefix));
}

/// Outside a comment block a line that does not begin with the start
/// marker changes nothing: once a section is dropped and the block closed,
/// the lines up to the next start marker add no article.
pub proof fn lemma_outside_block_adds_nothing(
    d: Delimiters,
    path: Seq<char>,
    st: Scan,
    line: Seq<char>,
    n: int,
)
    requires
        !st.in_comment,
        !st.in_article,
        !st.nested,
        !d.start.is_prefix_of(trim(line)),
    ensures
        step(d, path, st, line, n) == st,
{
}

/// Inside a block without a nested block, an end marker at the end of a
/// line that does not end with the start marker closes the block if no code
/// quotation is open, and leaves it open if one is.
pub proof fn lemma_end_marker_closes_block(d: Delimiters, st: Scan, line: Seq<char>)
    requires
        st.in_comment,
        !st.nested,
        d.end.is_suffix_of(trim(line)),
        !d.start.is_suffix_of(trim(line)),
    ensures
        mark_boundaries(d, st, line).in_comment == (st.code_block.len() > 0),
        mark_boundaries(d, st, line) == (Scan { in_comment: st.code_block.len() > 0, ..st }),
{
}

/// Inside a nested block, an end marker at the end of a line that does not
/// end with the start marker closes the nested block and nothing else.
pub proof fn lemma_end_marker_closes_nested_block(d: Delimiters, st: Scan, line: Seq<char>)
    requires
        st.in_comment,
        st.nested,
        d.end.is_suffix_of(trim(line)),
        !d.start.is_suffix_of(trim(line)),
    ensures
        mark_boundaries(d, st, line) == (Scan { nested: false, ..st }),
{
}

/// A `@FileArticle` directive names the document of the file and opens no
/// section.
pub proof fn lemma_file_article_names_document(
    d: Delimiters,
    path: Seq<char>,
    st: Scan,
    line: Seq<char>,
    n: int,
)
    requires
        st.in_comment,
        mark_boundaries(d, st, line).in_comment,
        !mark_boundaries(d, st, line).nested,
        Keyword::FileArticle.text().is_prefix_of(de_prefix(line, d.prefix)),
    ensures
        step(d, path, st, line, n).file_topic == argument(
            de_prefix(line, d.prefix),
            Keyword::FileArticle.text(),
        ),
        step(d, path, st, line, n).in_article == st.in_article,
        step(d, path, st, line, n).articles == st.articles,
{
}

/// With the document of the file named and no section open, a line inside
/// a block opens a section of that document at that line.
pub proof fn lemma_named_document_opens_section(
    d: Delimiters,
    path: Seq<char>,
    st: Scan,
    line: Seq<char>,
    n: int,
)
    requires
        !st.in_article,
        st.file_topic.len() > 0,
        mark_boundaries(d, st, line).in_comment,
        !mark_boundaries(d, st, line).nested,
        !Keyword::FileArticle.text().is_prefix_of(de_prefix(line, d.prefix)),
    ensures
        step(d, path, st, line, n).in_article,
        step(d, path, st, line, n).current.topic == st.file_topic,
        step(d, path, st, line, n).current.start_line == n,
        step(d, path, st, line, n).articles == st.articles,
{
}

/// Inside a nested block no line closes the outer block.
pub proof fn lemma_nested_block_stays_open(d: Delimiters, st: Scan, line: Seq<char>)
    requires
        st.in_comment,
        st.nested,
    ensures
        mark_boundaries(d, st, line).in_comment,
{
}

/// A line of a nested block, the line that opens it too, goes into the
/// section as it stands, without its prefix; no article is added.
pub proof fn lemma_nested_line_is_kept(
    d: Delimiters,
    path: Seq<char>,
    st: Scan,
    line: Seq<char>,
    n: int,
)
    requires
        st.in_comment,
        st.in_article,
        mark_boundaries(d, st, line).nested,
    ensures
        step(d, path, st, line, n) == collect(
            mark_boundaries(d, st, line),
            de_prefix(line, d.prefix),
        ),
        step(d, path, st, line, n).in_comment,
        step(d, path, st, line, n).articles == st.articles,
        step(d, path, st, line, n).current.content == st.current.content + de_prefix(
            line,
            d.prefix,
        ) + seq!['\n'],
{
}

/// While a code quotation is open, no end marker closes the block.
pub proof fn lemma_quotation_keeps_block_open(d: Delimiters, st: Scan, line: Seq<char>)
    requires
        st.in_comment,
        st.code_block.len() > 0,
    ensures
        mark_boundaries(d, st, line).in_comment,
{
}

/// A `@CodeBlockStart` directive adds the opening fence and the language
/// to the section, and opens a quotation in that language.
pub proof fn lemma_quotation_opens(d: Delimiters, path: Seq<char>, st: Scan, line: Seq<char>, n: int)
    requires
        st.in_comment,
        st.in_article,
        mark_boundaries(d, st, line).in_comment,
        !mark_boundaries(d, st, line).nested,
        Keyword::CodeBlockStart.text().is_prefix_of(de_prefix(line, d.prefix)),
    ensures
        step(d, path, st, line, n).code_block == argument(
            de_prefix(line, d.prefix),
            Keyword::CodeBlockStart.text(),
        ),
        step(d, path, st, line, n).current.content == st.current.content + fence() + argument(
            de_prefix(line, d.prefix),
            Keyword::CodeBlockStart.text(),
        ),
        step(d, path, st, line, n).articles == st.articles,
        step(d, path, st, line, n).in_article,
{
    lemma_directives_differ(de_prefix(line, d.prefix));
}

/// A line in an open section that holds no directive and no marker goes
/// into the section without its prefix; an empty line too.
pub proof fn lemma_plain_line_is_kept(
    d: Delimiters,
    path: Seq<char>,
    st: Scan,
    line: Seq<char>,
    n: int,
)
    requires
        st.in_comment,
        st.in_article,
        is_unmarked(d, line),
        is_plain(d, line),
    ensures
        step(d, path, st, line, n) == collect(st, de_prefix(line, d.prefix)),
{
}

/// With a quotation open, a comment that holds `@CodeBlockEnd` alone adds
/// the closing fence to the section and completes it on the spot: the
/// article ends on the line before, the block is closed and no quotation
/// is open.
pub proof fn lemma_quotation_end_completes_section(
    d: Delimiters,
    path: Seq<char>,
    st: Scan,
    line: Seq<char>,
    n: int,
)
    requires
        st.in_comment,
        st.in_article,
        !st.nested,
        st.code_block.len() > 0,
        !d.start.is_suffix_of(trim(line)),
        !begins_with_directive(de_prefix(line, d.prefix)),
        is_code_block_end(d, trim(line)),
    ensures
        step(d, path, st, line, n).articles == st.articles.push(
            finished(
                ArticleView { content: st.current.content + fence(), ..st.current },
                path,
                n,
            ),
        ),
        !step(d, path, st, line, n).in_comment,
        !step(d, path, st, line, n).in_article,
        step(d, path, st, line, n).code_block.len() == 0,
{
}

/// The text that the lines of `body` add to a section, one after the other.
pub open spec fn joined(body: Seq<Seq<char>>, prefix: char) -> Seq<char>
    decreases body.len(),
{
    if body.len() == 0 {
        seq![]
    } else {
        joined(body.drop_last(), prefix) + de_prefix(body.last(), prefix) + seq!['\n']
    }
}

/// Scanning one more line is one step from the state after the lines before it.
pub proof fn lemma_scan_push(d: Delimiters, path: Seq<char>, rows: Seq<Seq<char>>, line: Seq<char>)
    ensures
        scan(d, path, rows.push(line)) == step(
            d,
            path,
            scan(d, path, rows),
            line,
            rows.len() as int + 1,
        ),
{
    assert(rows.push(line).drop_last() =~= rows);
}

/// The state inside a section that a block opened by `open_line` and an
/// `@Article` directive on `tag_line` began, after the lines of `body`.
pub open spec fn inside_section(
    d: Delimiters,
    tag_line: Seq<char>,
    body: Seq<Seq<char>>,
) -> Scan {
    Scan {
        in_comment: true,
        in_article: true,
        current: ArticleView {
            topic: argument(de_prefix(tag_line, d.prefix), Keyword::Article.text()),
            content: joined(body, d.prefix),
            start_line: 2,
            ..blank_article()
        },
        ..initial()
    }
}

/// After the opening line, the directive and the lines of `body`, the scan stands inside the section.
proof fn lemma_section_body(
    d: Delimiters,
    path: Seq<char>,
    open_line: Seq<char>,
    tag_line: Seq<char>,
    body: Seq<Seq<char>>,
)
    requires
        d.start.is_prefix_of(trim(open_line)),
        is_plain(d, open_line),
        Keyword::Article.text().is_prefix_of(de_prefix(tag_line, d.prefix)),
        is_unmarked(d, tag_line),
        forall|i: int| 0 <= i < body.len() ==> is_unmarked(d, #[trigger] body[i]) && is_plain(d, body[i]),
    ensures
        scan(d, path, seq![open_line, tag_line] + body) == inside_section(d, tag_line, body),
    decreases body.len(),
{
    let head = seq![open_line, tag_line];
    if body.len() == 0 {
        let none = Seq::<Seq<char>>::empty();
        assert(head + body =~= none.push(open_line).push(tag_line));
        lemma_scan_push(d, path, none, open_line);
        lemma_scan_push(d, path, none.push(open_line), tag_line);
        lemma_directives_differ(de_prefix(tag_line, d.prefix));
        let opened = scan(d, path, none.push(open_line));
        assert(opened == Scan { in_comment: true, ..initial() });
    } else {
        let before = body.drop_last();
        assert(head + body =~= (head + before).push(body.last()));
        lemma_section_body(d, path, open_line, tag_line, before);
        lemma_scan_push(d, path, head + before, body.last());
        lemma_plain_line_is_kept(
            d,
            path,
            inside_section(d, tag_line, before),
            body.last(),
            (head + before).len() as int + 1,
        );
    }
}

/// A file that holds one comment block, with an `@Article` directive on its
/// second line, lines without directives and markers after it, and the end
/// marker on its last line, yields one article: named by the directive,
/// holding the lines between without their prefixes and without whitespace
/// at either end, from the line of the directive to the line before the
/// end marker.
pub proof fn lemma_single_section(
    d: Delimiters,
    path: Seq<char>,
    open_line: Seq<char>,
    tag_line: Seq<char>,
    body: Seq<Seq<char>>,
    close_line: Seq<char>,
)
    requires
        d.start.is_prefix_of(trim(open_line)),
        is_plain(d, open_line),
        Keyword::Article.text().is_prefix_of(de_prefix(tag_line, d.prefix)),
        is_unmarked(d, tag_line),
        forall|i: int| 0 <= i < body.len() ==> is_unmarked(d, #[trigger] body[i]) && is_plain(d, body[i]),
        d.end.is_suffix_of(trim(close_line)),
        !d.start.is_suffix_of(trim(close_line)),
    ensures
        scan(d, path, (seq![open_line, tag_line] + body).push(close_line)).articles == seq![
            ArticleView {
                topic: argument(de_prefix(tag_line, d.prefix), Keyword::Article.text()),
                content: trim(joined(body, d.prefix)),
                path: path,
                start_line: 2,
                end_line: body.len() as int + 2,
            },
        ],
{
    let rows = seq![open_line, tag_line] + body;
    lemma_section_body(d, path, open_line, tag_line, body);
    lemma_scan_push(d, path, rows, close_line);
    let last = step(d, path, inside_section(d, tag_line, body), close_line, rows.len() as int + 1);
    assert(last.articles =~= seq![
        ArticleView {
            topic: argument(de_prefix(tag_line, d.prefix), Keyword::Article.text()),
            content: trim(joined(body, d.prefix)),
            path: path,
            start_line: 2,
            end_line: body.len() as int + 2,
        },
    ]);
}

/// The state after `rows`, which are the lines `first`, `first + 1`, ... of
/// the file `path`, are read in state `st`.
pub open spec fn advance(
    d: Delimiters,
    path: Seq<char>,
    st: Scan,
    rows: Seq<Seq<char>>,
    first: int,
) -> Scan
    decreases rows.len(),
{
    if rows.len() == 0 {
        st
    } else {
        step(
            d,
            path,
            advance(d, path, st, rows.drop_last(), first),
            rows.last(),
            first + rows.len() - 1,
        )
    }
}

/// Scanning a file is reading its lines, from line 1 on, in the state at
/// the start of a file.
pub proof fn lemma_scan_is_advance(d: Delimiters, path: Seq<char>, rows: Seq<Seq<char>>)
    ensures
        scan(d, path, rows) == advance(d, path, initial(), rows, 1),
    decreases rows.len(),
{
    if rows.len() > 0 {
        lemma_scan_is_advance(d, path, rows.drop_last());
    }
}

/// While a quotation is open, a line that holds no directive and does not
/// end with the start marker goes into the section without its prefix,
/// whether or not it ends with the end marker.
pub proof fn lemma_quoted_line_is_kept(
    d: Delimiters,
    path: Seq<char>,
    st: Scan,
    line: Seq<char>,
    n: int,
)
    requires
        st.in_comment,
        st.in_article,
        !st.nested,
        st.code_block.len() > 0,
        !d.start.is_suffix_of(trim(line)),
        is_plain(d, line),
    ensures
        step(d, path, st, line, n) == collect(st, de_prefix(line, d.prefix)),
{
}

/// The state inside a quotation in the language `language` that was opened
/// in state `st`, after the lines of `body`.
pub open spec fn inside_quotation(
    d: Delimiters,
    st: Scan,
    language: Seq<char>,
    body: Seq<Seq<char>>,
) -> Scan {
    Scan {
        code_block: language,
        current: ArticleView {
            content: st.current.content + fence() + language + joined(body, d.prefix),
            ..st.current
        },
        ..st
    }
}

proof fn lemma_quotation_body(
    d: Delimiters,
    path: Seq<char>,
    st: Scan,
    start_line: Seq<char>,
    body: Seq<Seq<char>>,
    n: int,
)
    requires
        st.in_comment,
        st.in_article,
        !st.nested,
        is_unmarked(d, start_line),
        Keyword::CodeBlockStart.text().is_prefix_of(de_prefix(start_line, d.prefix)),
        argument(de_prefix(start_line, d.prefix), Keyword::CodeBlockStart.text()).len() > 0,
        forall|i: int|
            0 <= i < body.len() ==> !d.start.is_suffix_of(trim(#[trigger] body[i])) && is_plain(
                d,
                body[i],
            ),
    ensures
        advance(d, path, st, seq![start_line] + body, n) == inside_quotation(
            d,
            st,
            argument(de_prefix(start_line, d.prefix), Keyword::CodeBlockStart.text()),
            body,
        ),
    decreases body.len(),
{
    let language = argument(de_prefix(start_line, d.prefix), Keyword::CodeBlockStart.text());
    let head = seq![start_line];
    if body.len() == 0 {
        assert(head + body =~= head);
        assert(head.drop_last() =~= Seq::<Seq<char>>::empty());
        assert(advance(d, path, st, head.drop_last(), n) == st);
        assert(advance(d, path, st, head, n) == step(d, path, st, start_line, n));
        lemma_quotation_opens(d, path, st, start_line, n);
        lemma_directives_differ(de_prefix(start_line, d.prefix));
        let opened = step(d, path, st, start_line, n);
        assert(opened.current.content =~= inside_quotation(d, st, language, body).current.content);
        assert(opened == inside_quotation(d, st, language, body));
    } else {
        let before = body.drop_last();
        assert((head + body).drop_last() =~= head + before);
        assert((head + body).last() == body.last());
        lemma_quotation_body(d, path, st, start_line, before, n);
        let inside = inside_quotation(d, st, language, before);
        assert(advance(d, path, st, head + body, n) == step(
            d,
            path,
            advance(d, path, st, head + before, n),
            body.last(),
            n + (head + body).len() - 1,
        ));
        lemma_quoted_line_is_kept(d, path, inside, body.last(), n + (head + body).len() - 1);
        assert(collect(inside, de_prefix(body.last(), d.prefix)).current.content
            =~= inside_quotation(d, st, language, body).current.content);
        assert(collect(inside, de_prefix(body.last(), d.prefix)) == inside_quotation(
            d,
            st,
            language,
            body,
        ));
    }
}

/// A `@CodeBlockStart` directive in a section, lines without directives
/// after it and a comment that holds `@CodeBlockEnd` alone complete the
/// section at that comment: its text is what it held before, the opening
/// fence with the language, the lines between as they stand without their
/// prefixes, empty ones too, and the closing fence, without whitespace at
/// either end; it ends on the line before that comment.
pub proof fn lemma_quotation_pair(
    d: Delimiters,
    path: Seq<char>,
    st: Scan,
    start_line: Seq<char>,
    body: Seq<Seq<char>>,
    end_line: Seq<char>,
    n: int,
)
    requires
        st.in_comment,
        st.in_article,
        !st.nested,
        is_unmarked(d, start_line),
        Keyword::CodeBlockStart.text().is_prefix_of(de_prefix(start_line, d.prefix)),
        argument(de_prefix(start_line, d.prefix), Keyword::CodeBlockStart.text()).len() > 0,
        forall|i: int|
            0 <= i < body.len() ==> !d.start.is_suffix_of(trim(#[trigger] body[i])) && is_plain(
                d,
                body[i],
            ),
        !d.start.is_suffix_of(trim(end_line)),
        !begins_with_directive(de_prefix(end_line, d.prefix)),
        is_code_block_end(d, trim(end_line)),
    ensures
        ({
            let language = argument(
                de_prefix(start_line, d.prefix),
                Keyword::CodeBlockStart.text(),
            );
            let after = advance(d, path, st, (seq![start_line] + body).push(end_line), n);
            &&& after.articles == st.articles.push(
                finished(
                    ArticleView {
                        content: st.current.content + fence() + language + joined(body, d.prefix)
                            + fence(),
                        ..st.current
                    },
                    path,
                    n + body.len() + 1,
                ),
            )
            &&& !after.in_comment
            &&& !after.in_article
            &&& after.code_block.len() == 0
        }),
{
    let language = argument(de_prefix(start_line, d.prefix), Keyword::CodeBlockStart.text());
    let rows = seq![start_line] + body;
    lemma_quotation_body(d, path, st, start_line, body, n);
    assert(rows.push(end_line).drop_last() =~= rows);
    lemma_quotation_end_completes_section(
        d,
        path,
        inside_quotation(d, st, language, body),
        end_line,
        n + rows.len(),
    );
}

} // verus!

//! Documents: the articles of one topic, merged into one text.

use vstd::prelude::*;
use crate::article::{article_views, Article, ArticleView};
use vstd::seq_lib::to_multiset_build;
use crate::text::{append, to_chars, to_string};

verus! {

/// A document: all the articles of one topic, one after the other.
#[derive(Debug)]
pub struct Document {
    /// The topic, as the first of its articles spells it.
    pub title: String,
    /// The name of the file that the document is written to.
    pub file_name: String,
    pub content: String,
}

/// What a [`Document`] holds, as mathematical values.
pub struct DocumentView {
    pub title: Seq<char>,
    pub file_name: Seq<char>,
    pub content: Seq<char>,
}

impl View for Document {
    type V = DocumentView;

    open spec fn view(&self) -> DocumentView {
        DocumentView { title: self.title@, file_name: self.file_name@, content: self.content@ }
    }
}

/// The text of a document: its title as a heading, then its content.
pub open spec fn markdown(document: DocumentView) -> Seq<char> {
    seq!['#', ' '] + document.title + seq!['\n'] + document.content
}

/// The text of `document`, as it is written to its file.
pub fn to_markdown(document: &Document) -> (r: String)
    ensures
        r@ == markdown(document@),
{
    let mut text: Vec<char> = Vec::new();
    text.push('#');
    text.push(' ');
    append(&mut text, &to_chars(document.title.as_str()));
    text.push('\n');
    append(&mut text, &to_chars(document.content.as_str()));
    assert(text@ =~= markdown(document@));
    to_string(&text)
}

/// The path of the file `file_name` in the folder `docs_path`.
pub open spec fn path_in(docs_path: Seq<char>, file_name: Seq<char>) -> Seq<char> {
    docs_path + seq!['/'] + file_name
}

/// The name of the file that holds the summary: `SUMMARY.md` in a book,
/// `README.md` elsewhere.
pub open spec fn summary_file_name(mdbook: bool) -> Seq<char> {
    if mdbook {
        "SUMMARY.md"@
    } else {
        "README.md"@
    }
}

/// The path of the file that `document` is written to.
pub fn document_path(document: &Document, docs_path: &str) -> (r: String)
    ensures
        r@ == path_in(docs_path@, document@.file_name),
{
    let mut path = to_chars(docs_path);
    path.push('/');
    append(&mut path, &to_chars(document.file_name.as_str()));
    assert(path@ =~= path_in(docs_path@, document@.file_name));
    to_string(&path)
}

/// The path of the file that the summary is written to.
pub fn summary_path(docs_path: &str, mdbook: bool) -> (r: String)
    ensures
        r@ == path_in(docs_path@, summary_file_name(mdbook)),
{
    let mut path = to_chars(docs_path);
    path.push('/');
    if mdbook {
        append(&mut path, &to_chars("SUMMARY.md"));
    } else {
        append(&mut path, &to_chars("README.md"));
    }
    assert(path@ =~= path_in(docs_path@, summary_file_name(mdbook)));
    to_string(&path)
}

/// The character that the digit `d` is written as.
pub open spec fn digit(d: nat) -> char
    recommends
        d < 10,
{
    (48 + d) as char
}

/// `n` in decimal notation.
pub open spec fn decimal(n: nat) -> Seq<char>
    decreases n,
{
    if n < 10 {
        seq![digit(n)]
    } else {
        decimal(n / 10).push(digit(n % 10))
    }
}

/// `n` in decimal notation.
pub fn decimal_chars(n: usize) -> (r: Vec<char>)
    ensures
        r@ == decimal(n as nat),
    decreases n,
{
    let d: u8 = (n % 10) as u8;
    let c: char = (48u8 + d) as char;
    if n < 10 {
        let mut r: Vec<char> = Vec::new();
        r.push(c);
        assert(r@ =~= seq![digit(n as nat)]);
        r
    } else {
        let mut r = decimal_chars(n / 10);
        r.push(c);
        r
    }
}

/// The lowercase form of `s`, as Unicode defines it.
pub uninterp spec fn lowercase(s: Seq<char>) -> Seq<char>;

/// `str::to_lowercase` returns the lowercase form of the string, which
/// [`lowercase`] names.
pub assume_specification[ str::to_lowercase ](s: &str) -> (r: String)
    ensures
        r@ == lowercase(s@),
;

/// `s` with an underscore in place of each space.
pub open spec fn underscored(s: Seq<char>) -> Seq<char> {
    Seq::new(
        s.len(),
        |i: int|
            if s[i] == ' ' {
                '_'
            } else {
                s[i]
            },
    )
}

/// The key of the document of `topic`: the topic in lowercase, with
/// underscores for spaces.
pub open spec fn key_of(topic: Seq<char>) -> Seq<char> {
    underscored(lowercase(topic))
}

/// `lowered` with an underscore in place of each space.
pub fn underscore(lowered: &str) -> (r: String)
    ensures
        r@ == underscored(lowered@),
{
    let chars = to_chars(lowered);
    let mut out: Vec<char> = Vec::new();
    let mut i: usize = 0;
    while i < chars.len()
        invariant
            i <= chars.len(),
            out@ =~= underscored(chars@.take(i as int)),
        decreases chars.len() - i,
    {
        if chars[i] == ' ' {
            out.push('_');
        } else {
            out.push(chars[i]);
        }
        i += 1;
    }
    assert(chars@.take(i as int) =~= chars@);
    to_string(&out)
}

/// The characters of `s`, where there is a string.
pub open spec fn optional_text(s: Option<String>) -> Option<Seq<char>> {
    match s {
        Some(text) => Some(text@),
        None => None,
    }
}

/// The link to the lines of the article `a` in the repository at `host`;
/// empty where no repository is named.
pub open spec fn link_to(host: Option<Seq<char>>, a: ArticleView) -> Seq<char> {
    match host {
        Some(h) => "[[~]]("@ + h + a.path + "#L"@ + decimal(a.start_line as nat) + "-L"@ + decimal(
            a.end_line as nat,
        ) + ")"@,
        None => seq![],
    }
}

/// What the article `a` adds to the content of its document.
pub open spec fn addition(host: Option<Seq<char>>, a: ArticleView) -> Seq<char> {
    seq!['\n'] + a.content + seq!['\n'] + link_to(host, a) + seq!['\n']
}

/// The index of the first of `docs` with the key `key`, or the length of
/// `docs` where none has it.
pub open spec fn position(docs: Seq<(Seq<char>, DocumentView)>, key: Seq<char>) -> int
    decreases docs.len(),
{
    if docs.len() > 0 && docs[0].0 != key {
        1 + position(docs.skip(1), key)
    } else {
        0
    }
}

/// The documents `docs` with the article `a` merged in: added to the
/// document of its key, or to a new document at the end where there is none.
pub open spec fn with_article(
    docs: Seq<(Seq<char>, DocumentView)>,
    host: Option<Seq<char>>,
    a: ArticleView,
) -> Seq<(Seq<char>, DocumentView)> {
    let key = key_of(a.topic);
    let at = position(docs, key);
    if 0 <= at < docs.len() {
        docs.update(
            at,
            (key, DocumentView { content: docs[at].1.content + addition(host, a), ..docs[at].1 }),
        )
    } else {
        docs.push(
            (
                key,
                DocumentView {
                    title: a.topic,
                    file_name: key + ".md"@,
                    content: addition(host, a),
                },
            ),
        )
    }
}

/// The documents of `articles`, each with its key, in the order in which
/// their first articles stand.
pub open spec fn merged(articles: Seq<ArticleView>, host: Option<Seq<char>>) -> Seq<
    (Seq<char>, DocumentView),
>
    decreases articles.len(),
{
    if articles.len() == 0 {
        seq![]
    } else {
        with_article(merged(articles.drop_last(), host), host, articles.last())
    }
}

/// The views of the keyed documents of `s`, in order.
pub open spec fn entry_views(s: Seq<(String, Document)>) -> Seq<(Seq<char>, DocumentView)> {
    Seq::new(s.len(), |i: int| (s[i].0@, s[i].1@))
}

/// Whether no two of `docs` have the same key.
pub open spec fn distinct_keys(docs: Seq<(Seq<char>, DocumentView)>) -> bool {
    forall|i: int, j: int| 0 <= i < j < docs.len() ==> (#[trigger] docs[i]).0 != (#[trigger] docs[j]).0
}

/// The position of a key is the first index that holds it.
pub proof fn lemma_position(docs: Seq<(Seq<char>, DocumentView)>, key: Seq<char>)
    ensures
        0 <= position(docs, key) <= docs.len(),
        forall|j: int| 0 <= j < position(docs, key) ==> (#[trigger] docs[j]).0 != key,
        position(docs, key) < docs.len() ==> docs[position(docs, key)].0 == key,
    decreases docs.len(),
{
    if docs.len() > 0 && docs[0].0 != key {
        let rest = docs.skip(1);
        lemma_position(rest, key);
        assert forall|j: int| 0 <= j < position(docs, key) implies (#[trigger] docs[j]).0
            != key by {
            if j > 0 {
                assert(docs[j] == rest[j - 1]);
            }
        }
        if position(docs, key) < docs.len() {
            assert(docs[position(docs, key)] == rest[position(rest, key)]);
        }
    }
}

/// The first index that holds a key is its position.
proof fn lemma_position_found(docs: Seq<(Seq<char>, DocumentView)>, key: Seq<char>, n: int)
    requires
        0 <= n <= docs.len(),
        forall|j: int| 0 <= j < n ==> (#[trigger] docs[j]).0 != key,
        n < docs.len() ==> docs[n].0 == key,
    ensures
        position(docs, key) == n,
    decreases n,
{
    if n > 0 {
        let rest = docs.skip(1);
        assert forall|j: int| 0 <= j < n - 1 implies (#[trigger] rest[j]).0 != key by {
            assert(rest[j] == docs[j + 1]);
        }
        lemma_position_found(rest, key, n - 1);
    }
}

/// Merging keeps the keys apart: each topic has one document.
pub proof fn lemma_merged_keys_distinct(articles: Seq<ArticleView>, host: Option<Seq<char>>)
    ensures
        distinct_keys(merged(articles, host)),
    decreases articles.len(),
{
    if articles.len() > 0 {
        let before = merged(articles.drop_last(), host);
        lemma_merged_keys_distinct(articles.drop_last(), host);
        lemma_position(before, key_of(articles.last().topic));
    }
}

/// The link to the lines of `article`.
fn link_chars(host: &Option<String>, article: &Article) -> (r: Vec<char>)
    ensures
        r@ == link_to(optional_text(*host), article@),
{
    let mut link: Vec<char> = Vec::new();
    match host {
        Some(h) => {
            append(&mut link, &to_chars("[[~]]("));
            append(&mut link, &to_chars(h.as_str()));
            append(&mut link, &to_chars(article.path.as_str()));
            append(&mut link, &to_chars("#L"));
            append(&mut link, &decimal_chars(article.start_line));
            append(&mut link, &to_chars("-L"));
            append(&mut link, &decimal_chars(article.end_line));
            append(&mut link, &to_chars(")"));
        },
        None => {},
    }
    link
}

/// Merges `articles` into documents, one for each topic.
pub fn merge_docs(articles: Vec<Article>, repository_host: Option<String>) -> (docs: Vec<
    (String, Document),
>)
    ensures
        entry_views(docs@) == merged(
            article_views(articles@),
            optional_text(repository_host),
        ),
        distinct_keys(entry_views(docs@)),
{
    let ghost host = optional_text(repository_host);
    let ghost all = article_views(articles@);
    let mut docs: Vec<(String, Document)> = Vec::new();
    let mut i: usize = 0;
    proof {
        assert(all.take(0) =~= Seq::<ArticleView>::empty());
        assert(entry_views(docs@) =~= merged(all.take(0), host));
    }
    while i < articles.len()
        invariant
            i <= articles.len(),
            all == article_views(articles@),
            host == optional_text(repository_host),
            entry_views(docs@) == merged(all.take(i as int), host),
        decreases articles.len() - i,
    {
        let article = &articles[i];
        let key = underscore(article.topic.as_str().to_lowercase().as_str());
        let mut added: Vec<char> = Vec::new();
        added.push('\n');
        append(&mut added, &to_chars(article.content.as_str()));
        added.push('\n');
        append(&mut added, &link_chars(&repository_host, article));
        added.push('\n');
        let ghost before = entry_views(docs@);
        proof {
            assert(all.take(i + 1).drop_last() =~= all.take(i as int));
            assert(all.take(i + 1).last() == article@);
            assert(added@ =~= addition(host, article@));
        }
        let mut at: usize = 0;
        while at < docs.len() && docs[at].0 != key
            invariant
                at <= docs.len(),
                before == entry_views(docs@),
                forall|j: int| 0 <= j < at ==> (#[trigger] before[j]).0 != key@,
            decreases docs.len() - at,
        {
            assert(before[at as int].0 == docs@[at as int].0@);
            at += 1;
        }
        proof {
            if at < docs.len() {
                assert(before[at as int].0 == docs@[at as int].0@);
            }
            lemma_position_found(before, key@, at as int);
        }
        if at < docs.len() {
            let mut content = to_chars(docs[at].1.content.as_str());
            append(&mut content, &added);
            let entry = (
                key,
                Document {
                    title: docs[at].1.title.clone(),
                    file_name: docs[at].1.file_name.clone(),
                    content: to_string(&content),
                },
            );
            proof {
                assert(before[at as int].1 == docs@[at as int].1@);
                assert(entry_views(docs@.update(at as int, entry)) =~= with_article(
                    before,
                    host,
                    article@,
                ));
            }
            docs.set(at, entry);
        } else {
            let mut file_name = to_chars(key.as_str());
            append(&mut file_name, &to_chars(".md"));
            let entry = (
                key,
                Document {
                    title: article.topic.clone(),
                    file_name: to_string(&file_name),
                    content: to_string(&added),
                },
            );
            proof {
                assert(entry_views(docs@.push(entry)) =~= with_article(before, host, article@));
            }
            docs.push(entry);
        }
        i += 1;
    }
    proof {
        assert(all.take(i as int) =~= all);
        lemma_merged_keys_distinct(all, host);
    }
    docs
}

/// Whether `a` stands before `b`, or is `b`, in the order of a dictionary
/// that goes by the code points of the characters.
pub open spec fn precedes(a: Seq<char>, b: Seq<char>) -> bool
    decreases a.len(),
{
    if a.len() == 0 {
        true
    } else if b.len() == 0 {
        false
    } else if a[0] != b[0] {
        (a[0] as u32) < (b[0] as u32)
    } else {
        precedes(a.skip(1), b.skip(1))
    }
}

/// Two texts that agree up to an index stand in the order of what follows it.
proof fn lemma_precedes_from(a: Seq<char>, b: Seq<char>, n: int)
    requires
        0 <= n <= a.len(),
        n <= b.len(),
        forall|j: int| 0 <= j < n ==> a[j] == b[j],
    ensures
        precedes(a, b) == precedes(a.skip(n), b.skip(n)),
    decreases n,
{
    if n == 0 {
        assert(a.skip(0) =~= a);
        assert(b.skip(0) =~= b);
    } else {
        assert(a[0] == b[0]);
        assert forall|j: int| 0 <= j < n - 1 implies a.skip(1)[j] == b.skip(1)[j] by {
            assert(a.skip(1)[j] == a[j + 1]);
            assert(b.skip(1)[j] == b[j + 1]);
        }
        lemma_precedes_from(a.skip(1), b.skip(1), n - 1);
        assert(a.skip(1).skip(n - 1) =~= a.skip(n));
        assert(b.skip(1).skip(n - 1) =~= b.skip(n));
    }
}

/// Of two texts one precedes the other.
pub proof fn lemma_precedes_total(a: Seq<char>, b: Seq<char>)
    ensures
        precedes(a, b) || precedes(b, a),
    decreases a.len(),
{
    if a.len() > 0 && b.len() > 0 {
        if a[0] == b[0] {
            lemma_precedes_total(a.skip(1), b.skip(1));
        } else {
            vstd::utf8::char_u32_cast(a[0], a[0] as u32);
            vstd::utf8::char_u32_cast(b[0], b[0] as u32);
        }
    }
}

/// What precedes a text precedes all that the text precedes.
pub proof fn lemma_precedes_transitive(a: Seq<char>, b: Seq<char>, c: Seq<char>)
    requires
        precedes(a, b),
        precedes(b, c),
    ensures
        precedes(a, c),
    decreases a.len(),
{
    if a.len() > 0 && b.len() > 0 && c.len() > 0 {
        if a[0] == b[0] && b[0] == c[0] {
            lemma_precedes_transitive(a.skip(1), b.skip(1), c.skip(1));
        }
    }
}

/// Whether `a` stands before `b`, or is `b`, in the order of the keys.
pub fn key_precedes(a: &Vec<char>, b: &Vec<char>) -> (r: bool)
    ensures
        r == precedes(a@, b@),
{
    let mut i: usize = 0;
    while i < a.len() && i < b.len() && a[i] == b[i]
        invariant
            i <= a.len(),
            i <= b.len(),
            forall|j: int| 0 <= j < i ==> a@[j] == b@[j],
        decreases a.len() - i,
    {
        i += 1;
    }
    proof {
        lemma_precedes_from(a@, b@, i as int);
    }
    if i == a.len() {
        true
    } else if i == b.len() {
        false
    } else {
        (a[i] as u32) < (b[i] as u32)
    }
}

/// `sorted` with `e` put in after the last document whose key precedes the
/// key of `e`.
pub open spec fn inserted(sorted: Seq<(Seq<char>, DocumentView)>, e: (Seq<char>, DocumentView)) -> Seq<
    (Seq<char>, DocumentView),
>
    decreases sorted.len(),
{
    if sorted.len() == 0 {
        seq![e]
    } else if precedes(sorted.last().0, e.0) {
        sorted.push(e)
    } else {
        inserted(sorted.drop_last(), e).push(sorted.last())
    }
}

/// The documents `docs` in the order of their keys.
pub open spec fn sorted_by_key(docs: Seq<(Seq<char>, DocumentView)>) -> Seq<
    (Seq<char>, DocumentView),
>
    decreases docs.len(),
{
    if docs.len() == 0 {
        seq![]
    } else {
        inserted(sorted_by_key(docs.drop_last()), docs.last())
    }
}

/// Whether the key of each of `docs` precedes the keys of those after it.
pub open spec fn ordered_by_key(docs: Seq<(Seq<char>, DocumentView)>) -> bool {
    forall|i: int, j: int|
        0 <= i < j < docs.len() ==> precedes((#[trigger] docs[i]).0, (#[trigger] docs[j]).0)
}

/// Putting a document into sorted documents leaves them sorted, and adds that document and no other.
proof fn lemma_inserted(sorted: Seq<(Seq<char>, DocumentView)>, e: (Seq<char>, DocumentView))
    requires
        ordered_by_key(sorted),
    ensures
        ordered_by_key(inserted(sorted, e)),
        inserted(sorted, e).to_multiset() == sorted.to_multiset().insert(e),
        inserted(sorted, e).len() == sorted.len() + 1,
    decreases sorted.len(),
{
    broadcast use to_multiset_build;

    if sorted.len() == 0 {
        assert(seq![e] =~= sorted.push(e));
    } else if precedes(sorted.last().0, e.0) {
        let r = sorted.push(e);
        assert forall|i: int, j: int| 0 <= i < j < r.len() implies precedes(
            (#[trigger] r[i]).0,
            (#[trigger] r[j]).0,
        ) by {
            if j == sorted.len() {
                if i < sorted.len() - 1 {
                    assert(precedes(sorted[i].0, sorted[sorted.len() - 1].0));
                    lemma_precedes_transitive(sorted[i].0, sorted.last().0, e.0);
                }
            }
        }
    } else {
        let front = sorted.drop_last();
        let last = sorted.last();
        assert(ordered_by_key(front));
        lemma_inserted(front, e);
        let mid = inserted(front, e);
        let r = mid.push(last);
        lemma_precedes_total(last.0, e.0);
        assert(sorted =~= front.push(last));
        assert(r.to_multiset() =~= sorted.to_multiset().insert(e));
        assert forall|i: int| 0 <= i < mid.len() implies precedes((#[trigger] mid[i]).0, last.0) by {
            lemma_member_precedes(front, e, last, i);
        }
    }
}

/// What precedes `last` still does once `e`, which precedes `last` too, is put in.
proof fn lemma_member_precedes(
    front: Seq<(Seq<char>, DocumentView)>,
    e: (Seq<char>, DocumentView),
    last: (Seq<char>, DocumentView),
    i: int,
)
    requires
        forall|k: int| 0 <= k < front.len() ==> precedes((#[trigger] front[k]).0, last.0),
        precedes(e.0, last.0),
        0 <= i < inserted(front, e).len(),
    ensures
        precedes(inserted(front, e)[i].0, last.0),
    decreases front.len(),
{
    if front.len() == 0 {
    } else if precedes(front.last().0, e.0) {
    } else {
        let mid = inserted(front.drop_last(), e);
        if i < mid.len() {
            assert forall|k: int| 0 <= k < front.drop_last().len() implies precedes(
                (#[trigger] front.drop_last()[k]).0,
                last.0,
            ) by {
                assert(front.drop_last()[k] == front[k]);
            }
            lemma_member_precedes(front.drop_last(), e, last, i);
        }
    }
}

/// Sorting puts the documents in the order of their keys, and neither
/// drops nor adds one.
pub proof fn lemma_sorted_by_key(docs: Seq<(Seq<char>, DocumentView)>)
    ensures
        ordered_by_key(sorted_by_key(docs)),
        sorted_by_key(docs).to_multiset() == docs.to_multiset(),
        sorted_by_key(docs).len() == docs.len(),
    decreases docs.len(),
{
    broadcast use to_multiset_build;

    if docs.len() > 0 {
        lemma_sorted_by_key(docs.drop_last());
        lemma_inserted(sorted_by_key(docs.drop_last()), docs.last());
        assert(docs =~= docs.drop_last().push(docs.last()));
    } else {
        assert(docs =~= Seq::empty());
    }
}

/// Putting a document in after the last one that precedes it is putting it
/// in at the index behind that one.
proof fn lemma_inserted_at(
    sorted: Seq<(Seq<char>, DocumentView)>,
    e: (Seq<char>, DocumentView),
    k: int,
)
    requires
        0 <= k <= sorted.len(),
        forall|j: int| k <= j < sorted.len() ==> !precedes((#[trigger] sorted[j]).0, e.0),
        k > 0 ==> precedes(sorted[k - 1].0, e.0),
    ensures
        inserted(sorted, e) == sorted.insert(k, e),
    decreases sorted.len(),
{
    if sorted.len() == 0 {
        assert(seq![e] =~= sorted.insert(k, e));
    } else if k == sorted.len() {
        assert(sorted.push(e) =~= sorted.insert(k, e));
    } else {
        let front = sorted.drop_last();
        assert(!precedes(sorted[sorted.len() - 1].0, e.0));
        assert forall|j: int| k <= j < front.len() implies !precedes((#[trigger] front[j]).0, e.0) by {
            assert(front[j] == sorted[j]);
        }
        lemma_inserted_at(front, e, k);
        assert(front.insert(k, e).push(sorted.last()) =~= sorted.insert(k, e));
    }
}

/// The line that the summary holds for `document`.
pub open spec fn summary_line(document: DocumentView) -> Seq<char> {
    "* ["@ + document.title + "](./"@ + document.file_name + ")\n"@
}

/// The lines of the summary for `docs`, in their order.
pub open spec fn summary_lines(docs: Seq<(Seq<char>, DocumentView)>) -> Seq<char>
    decreases docs.len(),
{
    if docs.len() == 0 {
        seq![]
    } else {
        summary_lines(docs.drop_last()) + summary_line(docs.last().1)
    }
}

/// The summary of `docs`: a heading, then a line for each document, in
/// the order of the keys.
pub open spec fn summary(docs: Seq<(Seq<char>, DocumentView)>) -> Seq<char> {
    "# Summary\n\n"@ + summary_lines(sorted_by_key(docs))
}

/// Those of `docs` that `order` names, in the order of `order`.
pub open spec fn picked(docs: Seq<(Seq<char>, DocumentView)>, order: Seq<usize>) -> Seq<
    (Seq<char>, DocumentView),
> {
    Seq::new(order.len(), |k: int| docs[order[k] as int])
}

/// The indices of `documents` in the order of their keys.
fn sorted_order(documents: &Vec<(String, Document)>) -> (order: Vec<usize>)
    ensures
        order@.len() == documents@.len(),
        forall|k: int| 0 <= k < order@.len() ==> (#[trigger] order@[k]) < documents@.len(),
        picked(entry_views(documents@), order@) == sorted_by_key(entry_views(documents@)),
{
    let ghost all = entry_views(documents@);
    let mut keys: Vec<Vec<char>> = Vec::new();
    let mut i: usize = 0;
    while i < documents.len()
        invariant
            i <= documents.len(),
            keys@.len() == i,
            forall|k: int| 0 <= k < i ==> (#[trigger] keys@[k])@ == documents@[k].0@,
        decreases documents.len() - i,
    {
        keys.push(to_chars(documents[i].0.as_str()));
        i += 1;
    }
    let mut order: Vec<usize> = Vec::new();
    let mut i: usize = 0;
    proof {
        assert(all.take(0) =~= Seq::empty());
        assert(picked(all, order@) =~= sorted_by_key(all.take(0)));
    }
    while i < documents.len()
        invariant
            i <= documents.len(),
            all == entry_views(documents@),
            keys@.len() == documents@.len(),
            forall|k: int| 0 <= k < keys@.len() ==> (#[trigger] keys@[k])@ == documents@[k].0@,
            order@.len() == i,
            forall|k: int| 0 <= k < order@.len() ==> (#[trigger] order@[k]) < i,
            picked(all, order@) == sorted_by_key(all.take(i as int)),
        decreases documents.len() - i,
    {
        let ghost sorted = picked(all, order@);
        let mut at: usize = order.len();
        while at > 0 && !key_precedes(&keys[order[at - 1]], &keys[i])
            invariant
                at <= order@.len(),
                i < documents.len(),
                all == entry_views(documents@),
                sorted == picked(all, order@),
                keys@.len() == documents@.len(),
                forall|k: int| 0 <= k < keys@.len() ==> (#[trigger] keys@[k])@ == documents@[k].0@,
                forall|k: int| 0 <= k < order@.len() ==> (#[trigger] order@[k]) < i,
                forall|j: int| at <= j < sorted.len() ==> !precedes((#[trigger] sorted[j]).0, all[i as int].0),
            decreases at,
        {
            proof {
                assert(sorted[at - 1] == all[order@[at - 1] as int]);
            }
            at -= 1;
        }
        proof {
            if at > 0 {
                assert(sorted[at - 1] == all[order@[at - 1] as int]);
            }
            lemma_inserted_at(sorted, all[i as int], at as int);
            assert(all.take(i + 1).drop_last() =~= all.take(i as int));
            assert(all.take(i + 1).last() == all[i as int]);
            assert(picked(all, order@.insert(at as int, i)) =~= sorted.insert(at as int, all[i as int]));
        }
        order.insert(at, i);
        i += 1;
    }
    proof {
        assert(all.take(i as int) =~= all);
    }
    order
}

/// The summary of `documents`.
pub fn create_summary(documents: &Vec<(String, Document)>) -> (r: String)
    ensures
        r@ == summary(entry_views(documents@)),
{
    let order = sorted_order(documents);
    let ghost sorted = sorted_by_key(entry_views(documents@));
    let mut text = to_chars("# Summary\n\n");
    let mut k: usize = 0;
    proof {
        assert(sorted.take(0) =~= Seq::empty());
        assert(text@ =~= "# Summary\n\n"@ + summary_lines(sorted.take(0)));
    }
    while k < order.len()
        invariant
            k <= order@.len(),
            order@.len() == documents@.len(),
            forall|j: int| 0 <= j < order@.len() ==> (#[trigger] order@[j]) < documents@.len(),
            sorted == picked(entry_views(documents@), order@),
            text@ == "# Summary\n\n"@ + summary_lines(sorted.take(k as int)),
        decreases order.len() - k,
    {
        let document = &documents[order[k]].1;
        let ghost before = text@;
        append(&mut text, &to_chars("* ["));
        append(&mut text, &to_chars(document.title.as_str()));
        append(&mut text, &to_chars("](./"));
        append(&mut text, &to_chars(document.file_name.as_str()));
        append(&mut text, &to_chars(")\n"));
        proof {
            assert(sorted.take(k + 1).drop_last() =~= sorted.take(k as int));
            assert(sorted.take(k + 1).last().1 == document@);
            assert(text@ =~= before + summary_line(document@));
            assert(text@ =~= "# Summary\n\n"@ + summary_lines(sorted.take(k + 1)));
        }
        k += 1;
    }
    proof {
        assert(sorted.take(k as int) =~= sorted);
    }
    to_string(&text)
}

} // verus!

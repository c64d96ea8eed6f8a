//! The scanner: reads a file line by line and collects its articles.

use vstd::prelude::*;
use crate::article::{
    article_views, clone_articles, lemma_article_views_concat, lemma_article_views_push, Article,
    ArticleView,
};
use crate::config::Config;
use crate::keyword::Keyword;
use crate::order::{in_order, last_line, lemma_articles_in_order, lemma_scan_consistent};
use crate::scan::{
    argument, blank_article, classify, de_prefix, file_name, finalize, initial, is_code_block_end,
    mark_boundaries, parse, prerendered_article, scan, state_after, step, without_suffix,
    Delimiters, Scan,
};
use crate::text::{
    append, char_is_whitespace, ends_with, find_last, is_whitespace, lines, rows, split_lines,
    starts_with, subrange, to_chars, to_string, trim, trim_chars, trim_start_chars,
};

verus! {

/// The markers that `config` asks for: `/**`, `*` and `*/` where it names none.
pub open spec fn delimiters_of(config: Config) -> Delimiters {
    Delimiters {
        start: match config.comment_start_string {
            Some(s) => s@,
            None => "/**"@,
        },
        prefix: match config.comment_prefix {
            Some(c) => c,
            None => '*',
        },
        end: match config.comment_end_string {
            Some(s) => s@,
            None => "*/"@,
        },
    }
}

/// A scanner for the files of one project. It keeps the articles of all the
/// files that it has read.
pub struct Parser {
    is_article_section: bool,
    is_comment_section: bool,
    is_nested_comment_section: bool,
    comment_symbol: char,
    start_comment: Vec<char>,
    end_comment: Vec<char>,
    articles: Vec<Article>,
    current_article: Article,
    file_global_topic: Vec<char>,
    code_block: Vec<char>,
}

/// Appends the characters of `tail` to `s`.
fn push_chars(s: &mut String, tail: &Vec<char>)
    ensures
        final(s)@ == old(s)@ + tail@,
{
    let mut i: usize = 0;
    while i < tail.len()
        invariant
            i <= tail.len(),
            s@ == old(s)@ + tail@.take(i as int),
        decreases tail.len() - i,
    {
        s.push(tail[i]);
        i += 1;
    }
}

/// The text of a comment line whose prefix character is `prefix`.
fn de_prefix_chars(line: &Vec<char>, prefix: char) -> (r: Vec<char>)
    ensures
        r@ == de_prefix(line@, prefix),
{
    let t = trim_start_chars(line);
    if t.len() > 0 && t[0] == prefix {
        if t.len() > 1 && t[1] == ' ' {
            subrange(&t, 2, t.len())
        } else {
            subrange(&t, 1, t.len())
        }
    } else {
        let whole = subrange(line, 0, line.len());
        assert(whole@ =~= line@);
        whole
    }
}

/// What follows the directive `word`, which `text` begins with, trimmed.
fn argument_chars(text: &Vec<char>, word: &Vec<char>) -> (r: Vec<char>)
    requires
        word@.len() <= text@.len(),
    ensures
        r@ == argument(text@, word@),
{
    let rest = subrange(text, word.len(), text.len());
    trim_chars(&rest)
}

impl Parser {
    /// The markers that the scanner goes by.
    pub closed spec fn delimiters(&self) -> Delimiters {
        Delimiters {
            start: self.start_comment@,
            prefix: self.comment_symbol,
            end: self.end_comment@,
        }
    }

    /// The articles of all the files read so far, in the order found.
    pub open spec fn collected(&self) -> Seq<ArticleView> {
        self.state().articles
    }

    /// Whether a section or a nested block is open only while a comment
    /// block is open.
    pub open spec fn is_consistent(&self) -> bool {
        &&& self.state().in_article ==> self.state().in_comment
        &&& self.state().nested ==> self.state().in_comment
    }

    /// The state that the scanner is in: what it knows of the block, the
    /// section, the document of the file and the quotation, with the
    /// articles that it keeps.
    pub closed spec fn state(&self) -> Scan {
        Scan {
            in_comment: self.is_comment_section,
            nested: self.is_nested_comment_section,
            in_article: self.is_article_section,
            current: self.current_article@,
            file_topic: self.file_global_topic@,
            code_block: self.code_block@,
            articles: article_views(self.articles@),
        }
    }

    /// A scanner that has read nothing, with the markers that `config` asks for.
    pub fn new(config: Config) -> (parser: Self)
        ensures
            parser.delimiters() == delimiters_of(config),
            parser.collected() == Seq::<ArticleView>::empty(),
            parser.state() == initial(),
            parser.is_consistent(),
    {
        let start_comment = match &config.comment_start_string {
            Some(s) => to_chars(s.as_str()),
            None => to_chars("/**"),
        };
        let comment_symbol = match config.comment_prefix {
            Some(c) => c,
            None => '*',
        };
        let end_comment = match &config.comment_end_string {
            Some(s) => to_chars(s.as_str()),
            None => to_chars("*/"),
        };
        let articles: Vec<Article> = Vec::new();
        let current_article = Article {
            topic: String::new(),
            content: String::new(),
            path: String::new(),
            start_line: 1,
            end_line: 1,
        };
        let parser = Self {
            is_article_section: false,
            is_comment_section: false,
            is_nested_comment_section: false,
            comment_symbol,
            start_comment,
            end_comment,
            articles,
            current_article,
            file_global_topic: Vec::new(),
            code_block: Vec::new(),
        };
        assert(parser.collected() =~= Seq::<ArticleView>::empty());
        assert(parser.state().file_topic =~= initial().file_topic);
        assert(parser.state().code_block =~= initial().code_block);
        assert(parser.state().current.topic =~= initial().current.topic);
        assert(parser.state().current.content =~= initial().current.content);
        assert(parser.state().current.path =~= initial().current.path);
        parser
    }

    /// Whether a comment block is open.
    pub fn is_comment_section(&self) -> (b: bool)
        ensures
            b == self.state().in_comment,
    {
        self.is_comment_section
    }

    /// Whether a block nested in the comment block is open.
    pub fn is_nested_comment_section(&self) -> (b: bool)
        ensures
            b == self.state().nested,
    {
        self.is_nested_comment_section
    }

    /// Whether a section is being collected.
    pub fn is_article_section(&self) -> (b: bool)
        ensures
            b == self.state().in_article,
    {
        self.is_article_section
    }

    /// The articles of all the files read so far.
    pub fn articles(&self) -> (r: &Vec<Article>)
        ensures
            article_views(r@) == self.collected(),
    {
        &self.articles
    }

    /// The text of the comment line `line`.
    pub fn parse_text(&self, line: &str) -> (r: String)
        ensures
            r@ == de_prefix(line@, self.delimiters().prefix),
    {
        let chars = to_chars(line);
        let r = de_prefix_chars(&chars, self.comment_symbol);
        to_string(&r)
    }

    /// The article of a document that is already written out.
    pub fn parse_fdoc_file(&self, file_content: &str, file_path: &str) -> (r: Vec<Article>)
        ensures
            article_views(r@) == seq![prerendered_article(file_content@, file_path@)],
    {
        let path = to_chars(file_path);
        let name_start: usize = match find_last(&path, '/', path.len()) {
            Some(i) => i + 1,
            None => 0,
        };
        let name = subrange(&path, name_start, path.len());
        proof {
            assert(path@.take(path@.len() as int) =~= path@);
            assert(name@ =~= file_name(path@));
        }
        let stem = Self::without_suffix_chars(&name);
        let topic = Self::without_suffix_chars(&stem);
        let article = Article {
            topic: to_string(&topic),
            content: to_string(&to_chars(file_content)),
            path: to_string(&path),
            start_line: 1,
            end_line: 1,
        };
        let mut r: Vec<Article> = Vec::new();
        r.push(article);
        assert(article_views(r@) =~= seq![prerendered_article(file_content@, file_path@)]);
        r
    }

    /// `name` up to its last `.`; nothing if it holds none.
    fn without_suffix_chars(name: &Vec<char>) -> (r: Vec<char>)
        ensures
            r@ == without_suffix(name@),
    {
        proof {
            assert(name@.take(name@.len() as int) =~= name@);
        }
        match find_last(name, '.', name.len()) {
            Some(dot) => subrange(name, 0, dot),
            None => Vec::new(),
        }
    }

    /// Takes the markers of `line` into account: opens or closes the comment
    /// block or a nested block. Inside a block without a nested block, an
    /// end marker at the end of a line that does not end with the start
    /// marker closes the block if no code quotation is open, and leaves it
    /// open if one is.
    pub fn set_comment_boundaries(&mut self, line: &str)
        ensures
            final(self).state() == mark_boundaries(old(self).delimiters(), old(self).state(), line@),
            final(self).delimiters() == old(self).delimiters(),
            old(self).state().in_comment && !old(self).state().nested && old(
                self,
            ).delimiters().end.is_suffix_of(trim(line@)) && !old(
                self,
            ).delimiters().start.is_suffix_of(trim(line@)) ==> final(self).state().in_comment == (
            old(self).state().code_block.len() > 0),
    {
        self.mark_line(&to_chars(line));
    }

    /// Takes the markers of `line` into account.
    fn mark_line(&mut self, line: &Vec<char>)
        ensures
            final(self).state() == mark_boundaries(old(self).delimiters(), old(self).state(), line@),
            final(self).delimiters() == old(self).delimiters(),
    {
        let t = trim_chars(line);
        if starts_with(&t, &self.start_comment) && !self.is_comment_section {
            self.is_comment_section = true;
        } else if self.is_comment_section && ends_with(&t, &self.start_comment) {
            self.is_nested_comment_section = true;
        } else if self.is_nested_comment_section && ends_with(&t, &self.end_comment) {
            self.is_nested_comment_section = false;
        } else if !self.is_nested_comment_section && self.code_block.len() == 0 && ends_with(
            &t,
            &self.end_comment,
        ) {
            self.is_comment_section = false;
        }
    }

    /// Closes the section under collection at line `line_number`.
    fn close_section(&mut self, file_path: &Vec<char>, line_number: usize)
        requires
            line_number >= 1,
        ensures
            final(self).state() == finalize(old(self).state(), file_path@, line_number as int),
            final(self).delimiters() == old(self).delimiters(),
    {
        let content = trim_chars(&to_chars(self.current_article.content.as_str()));
        let article = Article {
            topic: self.current_article.topic.clone(),
            content: to_string(&content),
            path: to_string(file_path),
            start_line: self.current_article.start_line,
            end_line: line_number - 1,
        };
        proof {
            lemma_article_views_push(self.articles@, article);
        }
        self.articles.push(article);
        self.current_article = self.new_article();
        self.is_article_section = false;
    }

    /// Whether `t` is a comment that holds the directive `@CodeBlockEnd` alone.
    fn is_code_block_end_line(&self, t: &Vec<char>) -> (b: bool)
        ensures
            b == is_code_block_end(self.delimiters(), t@),
    {
        let mut head = subrange(&self.start_comment, 0, self.start_comment.len());
        head.push(' ');
        append(&mut head, &to_chars(Keyword::CodeBlockEnd.as_str()));
        let ghost d = self.delimiters();
        proof {
            assert(head@ =~= d.start + seq![' '] + Keyword::CodeBlockEnd.text());
        }
        if !starts_with(t, &head) || !ends_with(t, &self.end_comment) {
            return false;
        }
        if t.len() - head.len() < self.end_comment.len() {
            return false;
        }
        let stop: usize = t.len() - self.end_comment.len();
        let mut i: usize = head.len();
        while i < stop
            invariant
                head.len() <= i <= stop <= t.len(),
                stop == t.len() - self.end_comment.len(),
                d == self.delimiters(),
                head@ == d.start + seq![' '] + Keyword::CodeBlockEnd.text(),
                head@.is_prefix_of(t@),
                d.end.is_suffix_of(t@),
                forall|j: int| head.len() <= j < i ==> is_whitespace(#[trigger] t@[j]),
            decreases stop - i,
        {
            if !char_is_whitespace(t[i]) {
                return false;
            }
            i += 1;
        }
        true
    }

    /// Reads `line`, which stands inside a comment block, for its directive or its text.
    fn classify_line(&mut self, line: &Vec<char>, file_path: &Vec<char>, line_number: usize)
        requires
            line_number >= 1,
        ensures
            final(self).state() == classify(
                old(self).delimiters(),
                file_path@,
                old(self).state(),
                line@,
                line_number as int,
            ),
            final(self).delimiters() == old(self).delimiters(),
    {
        let text = de_prefix_chars(line, self.comment_symbol);
        let file_article = to_chars(Keyword::FileArticle.as_str());
        let article = to_chars(Keyword::Article.as_str());
        let ignore = to_chars(Keyword::Ignore.as_str());
        let code_block_start = to_chars(Keyword::CodeBlockStart.as_str());
        if self.is_nested_comment_section {
            if self.is_article_section {
                push_chars(&mut self.current_article.content, &text);
                self.current_article.content.push('\n');
            }
        } else if starts_with(&text, &file_article) {
            self.file_global_topic = argument_chars(&text, &file_article);
        } else if self.file_global_topic.len() > 0 && !self.is_article_section {
            self.current_article.topic = to_string(&self.file_global_topic);
            self.current_article.start_line = line_number;
            self.is_article_section = true;
        } else if starts_with(&text, &article) {
            self.current_article.topic = to_string(&argument_chars(&text, &article));
            self.current_article.start_line = line_number;
            self.is_article_section = true;
        } else if starts_with(&text, &ignore) {
            self.is_article_section = false;
            self.is_comment_section = false;
            self.current_article = self.new_article();
            self.file_global_topic = Vec::new();
        } else if starts_with(&text, &code_block_start) {
            self.code_block = argument_chars(&text, &code_block_start);
            push_chars(&mut self.current_article.content, &to_chars("```"));
            push_chars(&mut self.current_article.content, &self.code_block);
        } else if self.is_code_block_end_line(&trim_chars(line)) {
            self.code_block = Vec::new();
            push_chars(&mut self.current_article.content, &to_chars("```"));
            self.is_comment_section = false;
            if self.is_article_section {
                self.close_section(file_path, line_number);
            } else {
                self.current_article = self.new_article();
            }
        } else if self.is_article_section {
            push_chars(&mut self.current_article.content, &text);
            self.current_article.content.push('\n');
        }
        proof {
            let expected = classify(
                old(self).delimiters(),
                file_path@,
                old(self).state(),
                line@,
                line_number as int,
            );
            assert(self.state().current.content =~= expected.current.content);
            assert(self.state().current.topic =~= expected.current.topic);
            assert(self.state().current.path =~= expected.current.path);
            assert(self.state().file_topic =~= expected.file_topic);
            assert(self.state().code_block =~= expected.code_block);
            assert(self.state().articles =~= expected.articles);
        }
    }

    /// Reads line `line_number` of the file `file_path`.
    fn scan_line(&mut self, line: &Vec<char>, file_path: &Vec<char>, line_number: usize)
        requires
            line_number >= 1,
        ensures
            final(self).state() == step(
                old(self).delimiters(),
                file_path@,
                old(self).state(),
                line@,
                line_number as int,
            ),
            final(self).delimiters() == old(self).delimiters(),
    {
        self.mark_line(line);
        if !self.is_comment_section && self.is_article_section {
            self.close_section(file_path, line_number);
        }
        if self.is_comment_section {
            self.classify_line(line, file_path, line_number);
        }
    }


    /// Reads the file `file_path`, which holds `file_content`, and returns
    /// its articles. They are added to the articles that the scanner keeps.
    pub fn parse_file(&mut self, file_content: &str, file_path: &str) -> (r: Vec<Article>)
        ensures
            article_views(r@) == parse(old(self).delimiters(), file_content@, file_path@),
            in_order(article_views(r@), file_path@, last_line(file_content@, file_path@)),
            final(self).delimiters() == old(self).delimiters(),
            final(self).collected() == old(self).collected() + article_views(r@),
            final(self).state() == (Scan {
                articles: final(self).collected(),
                ..state_after(old(self).delimiters(), file_content@, file_path@)
            }),
            final(self).is_consistent(),
    {
        let found = self.articles_of(file_content, file_path);
        self.keep(found)
    }

    /// Adds `found` to the articles that the scanner keeps, and hands it back.
    pub(crate) fn keep(&mut self, found: Vec<Article>) -> (r: Vec<Article>)
        ensures
            article_views(r@) == article_views(found@),
            final(self).delimiters() == old(self).delimiters(),
            final(self).collected() == old(self).collected() + article_views(found@),
            final(self).state() == (Scan { articles: final(self).collected(), ..old(self).state() }),
    {
        let mut found = found;
        let r = clone_articles(&found);
        proof {
            lemma_article_views_concat(self.articles@, found@);
        }
        self.articles.append(&mut found);
        r
    }

    /// The articles of the file `file_path`, which holds `file_content`.
    pub(crate) fn articles_of(&mut self, file_content: &str, file_path: &str) -> (r: Vec<Article>)
        ensures
            article_views(r@) == parse(old(self).delimiters(), file_content@, file_path@),
            in_order(article_views(r@), file_path@, last_line(file_content@, file_path@)),
            final(self).delimiters() == old(self).delimiters(),
            final(self).collected() == old(self).collected(),
            final(self).state() == (Scan {
                articles: final(self).collected(),
                ..state_after(old(self).delimiters(), file_content@, file_path@)
            }),
            final(self).is_consistent(),
    {
        proof {
            lemma_articles_in_order(self.delimiters(), file_content@, file_path@);
        }
        let path = to_chars(file_path);
        if ends_with(&path, &to_chars(".fdoc.md")) {
            self.reset();
            self.parse_fdoc_file(file_content, file_path)
        } else {
            self.scan_file(file_content, &path)
        }
    }

    /// Reads a file from its first line to its last and returns its articles.
    fn scan_file(&mut self, file_content: &str, file_path: &Vec<char>) -> (r: Vec<Article>)
        ensures
            article_views(r@) == scan(
                old(self).delimiters(),
                file_path@,
                lines(file_content@),
            ).articles,
            final(self).delimiters() == old(self).delimiters(),
            final(self).collected() == old(self).collected(),
            final(self).state() == (Scan {
                articles: final(self).collected(),
                ..scan(old(self).delimiters(), file_path@, lines(file_content@))
            }),
            final(self).is_consistent(),
    {
        let mut kept: Vec<Article> = Vec::new();
        std::mem::swap(&mut self.articles, &mut kept);
        self.reset();
        let all = split_lines(&to_chars(file_content));
        let ghost d = self.delimiters();
        proof {
            assert(rows(all@).take(0) =~= Seq::<Seq<char>>::empty());
            assert(self.state().articles =~= initial().articles);
            assert(self.state().file_topic =~= initial().file_topic);
            assert(self.state().code_block =~= initial().code_block);
        }
        let mut i: usize = 0;
        while i < all.len()
            invariant
                i <= all.len(),
                self.delimiters() == d,
                self.state() == scan(d, file_path@, rows(all@).take(i as int)),
            decreases all.len() - i,
        {
            proof {
                let next = rows(all@).take(i + 1);
                assert(next.drop_last() =~= rows(all@).take(i as int));
                assert(next.last() == all@[i as int]@);
            }
            self.scan_line(&all[i], file_path, i + 1);
            i += 1;
        }
        proof {
            assert(rows(all@).take(i as int) =~= rows(all@));
            lemma_scan_consistent(d, file_path@, rows(all@));
        }
        std::mem::swap(&mut self.articles, &mut kept);
        kept
    }

    /// Puts the scanner in the state that the scan of a file starts from.
    fn reset(&mut self)
        ensures
            final(self).state() == (Scan { articles: old(self).state().articles, ..initial() }),
            final(self).delimiters() == old(self).delimiters(),
            final(self).collected() == old(self).collected(),
            final(self).is_consistent(),
    {
        self.is_comment_section = false;
        self.is_nested_comment_section = false;
        self.is_article_section = false;
        self.current_article = self.new_article();
        self.file_global_topic = Vec::new();
        self.code_block = Vec::new();
        assert(self.state().file_topic =~= initial().file_topic);
        assert(self.state().code_block =~= initial().code_block);
    }

    /// The article that a section starts from.
    fn new_article(&self) -> (r: Article)
        ensures
            r@ == blank_article(),
    {
        Article {
            topic: String::new(),
            content: String::new(),
            path: String::new(),
            start_line: 1,
            end_line: 1,
        }
    }
}

} // verus!

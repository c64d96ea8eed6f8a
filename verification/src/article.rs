//! Articles: the documentation fragments that scanning a file yields.

use vstd::prelude::*;
use vstd::std_specs::cmp::PartialEqSpecImpl;

verus! {

/// One contiguous fragment of documentation, with the place it was found at.
#[derive(Debug)]
pub struct Article {
    /// The name of the document that the fragment belongs to.
    pub topic: String,
    /// The text of the fragment, without comment markers and without
    /// whitespace at either end.
    pub content: String,
    /// The file that the fragment was found in.
    pub path: String,
    /// The first line of the fragment, counted from 1.
    pub start_line: usize,
    /// The last line of the fragment: the line before the one that closed it.
    pub end_line: usize,
}

/// What an [`Article`] holds, as mathematical values.
pub struct ArticleView {
    pub topic: Seq<char>,
    pub content: Seq<char>,
    pub path: Seq<char>,
    pub start_line: int,
    pub end_line: int,
}

impl View for Article {
    type V = ArticleView;

    open spec fn view(&self) -> ArticleView {
        ArticleView {
            topic: self.topic@,
            content: self.content@,
            path: self.path@,
            start_line: self.start_line as int,
            end_line: self.end_line as int,
        }
    }
}

/// The views of the articles of `s`, in order.
pub open spec fn article_views(s: Seq<Article>) -> Seq<ArticleView> {
    Seq::new(s.len(), |i: int| s[i]@)
}

impl Clone for Article {
    fn clone(&self) -> (r: Self)
        ensures
            r@ == self@,
    {
        Article {
            topic: self.topic.clone(),
            content: self.content.clone(),
            path: self.path.clone(),
            start_line: self.start_line,
            end_line: self.end_line,
        }
    }
}

impl PartialEq for Article {
    fn eq(&self, other: &Self) -> (r: bool) {
        self.topic == other.topic && self.content == other.content && self.path == other.path
            && self.start_line == other.start_line && self.end_line == other.end_line
    }
}

impl PartialEqSpecImpl for Article {
    open spec fn obeys_eq_spec() -> bool {
        true
    }

    /// Two articles are equal when topic, content, path and both line
    /// numbers agree.
    open spec fn eq_spec(&self, other: &Self) -> bool {
        self@ == other@
    }
}

/// The views of a list with one more article are the views of the list with one more view.
pub proof fn lemma_article_views_push(s: Seq<Article>, a: Article)
    ensures
        article_views(s.push(a)) == article_views(s).push(a@),
{
    assert(article_views(s.push(a)) =~= article_views(s).push(a@));
}

/// The views of two lists, one after the other, are the views of the first followed by those of the second.
pub proof fn lemma_article_views_concat(s: Seq<Article>, t: Seq<Article>)
    ensures
        article_views(s + t) == article_views(s) + article_views(t),
{
    assert(article_views(s + t) =~= article_views(s) + article_views(t));
}

/// Copies of the articles of `v`, in order.
pub fn clone_articles(v: &Vec<Article>) -> (r: Vec<Article>)
    ensures
        article_views(r@) == article_views(v@),
{
    let mut r: Vec<Article> = Vec::new();
    let mut i: usize = 0;
    while i < v.len()
        invariant
            i <= v.len(),
            article_views(r@) == article_views(v@.take(i as int)),
        decreases v.len() - i,
    {
        let a = v[i].clone();
        proof {
            lemma_article_views_push(r@, a);
            lemma_article_views_push(v@.take(i as int), v@[i as int]);
            assert(v@.take(i as int).push(v@[i as int]) =~= v@.take(i + 1));
        }
        r.push(a);
        i += 1;
    }
    assert(v@.take(i as int) =~= v@);
    r
}

} // verus!

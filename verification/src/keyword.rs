//! The directives that a comment block can hold.

use vstd::prelude::*;

verus! {

/// A directive. Each is written as a fixed word at the start of a comment line.
pub enum Keyword {
    /// `@Article <name>` begins a section of the named document.
    Article,
    /// `@FileArticle <name>` makes every later comment block of the file a
    /// section of the named document.
    FileArticle,
    /// `@CodeBlockStart <language>` begins a quotation of the code that
    /// follows the comment block.
    CodeBlockStart,
    /// `@CodeBlockEnd`, alone in a comment, ends the quotation.
    CodeBlockEnd,
    /// `@Ignore` drops the section that it stands in.
    Ignore,
}

impl Keyword {
    /// The word that the directive is written as.
    pub open spec fn text(self) -> Seq<char> {
        match self {
            Keyword::Article => "@Article"@,
            Keyword::FileArticle => "@FileArticle"@,
            Keyword::Ignore => "@Ignore"@,
            Keyword::CodeBlockStart => "@CodeBlockStart"@,
            Keyword::CodeBlockEnd => "@CodeBlockEnd"@,
        }
    }

    /// The word that the directive is written as.
    pub fn as_str(&self) -> (s: &'static str)
        ensures
            s@ == self.text(),
    {
        match *self {
            Keyword::Article => "@Article",
            Keyword::FileArticle => "@FileArticle",
            Keyword::Ignore => "@Ignore",
            Keyword::CodeBlockStart => "@CodeBlockStart",
            Keyword::CodeBlockEnd => "@CodeBlockEnd",
        }
    }
}

} // verus!

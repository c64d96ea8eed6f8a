//! The switch comments `fundoc-disable` and `fundoc-enable`: what stands
//! between them is taken out of a file before it is scanned.

use vstd::prelude::*;
use vstd::string::StrSliceExecFns;
use crate::matching::{
    char_index, char_index_of, find_matches, lemma_boundary_in_range, lemma_char_index_ordered,
    regex_matches, well_placed,
};
use crate::parser::Parser;
use crate::text::{append, subrange, to_chars, to_string};

verus! {

/// Matches a line comment that holds `fundoc-disable`, together with the
/// line breaks and the indentation before it.
pub const DISABLE_PATTERN: &'static str = "(?m)[\\n\\r]+\\s*//\\s*fundoc-disable|//\\s*fundoc-disable";

/// Matches a line comment that holds `fundoc-enable`, together with the
/// line breaks and the indentation before it.
pub const ENABLE_PATTERN: &'static str = "(?m)[\\n\\r]+\\s*//\\s*fundoc-enable|//\\s*fundoc-enable";

/// The byte offset at which the first of `matches` starts, if there is one.
pub open spec fn first_start(matches: Option<Seq<(usize, usize)>>) -> Option<int> {
    match matches {
        Some(m) => if m.len() > 0 {
            Some(m[0].0 as int)
        } else {
            None
        },
        None => None,
    }
}

/// The byte offset at which the last of `matches` ends, if there is one.
pub open spec fn last_end(matches: Option<Seq<(usize, usize)>>) -> Option<int> {
    match matches {
        Some(m) => if m.len() > 0 {
            Some(m.last().1 as int)
        } else {
            None
        },
        None => None,
    }
}

/// The part of `text` that is taken out, as the index of its first
/// character and the index after its last, where a `fundoc-disable` comment
/// starts at the byte offset `disable` (`None`: there is none) and the last
/// `fundoc-enable` comment ends at the byte offset `enable`. It reaches from
/// `disable` to `enable` if that lies after `disable`, and else to the end
/// of `text`.
pub open spec fn ignored_span(text: Seq<char>, disable: Option<int>, enable: Option<int>) -> Option<
    (int, int),
> {
    match disable {
        Some(from) => Some(
            (
                char_index(text, from),
                match enable {
                    Some(to) => if to > from {
                        char_index(text, to)
                    } else {
                        text.len() as int
                    },
                    None => text.len() as int,
                },
            ),
        ),
        None => None,
    }
}

/// `text` without the characters of `span`.
pub open spec fn without_span(text: Seq<char>, span: Option<(int, int)>) -> Seq<char> {
    match span {
        Some((from, to)) => text.take(from) + text.skip(to),
        None => text,
    }
}

/// The byte offset at which the first `fundoc-disable` comment of `text`
/// starts, with the line breaks and the indentation before it.
pub open spec fn disable_start(text: Seq<char>) -> Option<int> {
    first_start(regex_matches(DISABLE_PATTERN@, text))
}

/// The byte offset at which the last `fundoc-enable` comment of `text` ends.
pub open spec fn enable_end(text: Seq<char>) -> Option<int> {
    last_end(regex_matches(ENABLE_PATTERN@, text))
}

/// The part of a file's text that the switch comments take out.
pub open spec fn ignored(text: Seq<char>) -> Option<(int, int)> {
    ignored_span(text, disable_start(text), enable_end(text))
}

/// What is left of a file's text once the part between the first
/// `fundoc-disable` comment and the last `fundoc-enable` comment after it is
/// taken out; where no `fundoc-enable` comment follows, all from the
/// `fundoc-disable` comment on is taken out.
pub open spec fn prefilter(text: Seq<char>) -> Seq<char> {
    without_span(text, ignored(text))
}

/// A text without a `fundoc-disable` comment is left as it is.
pub proof fn lemma_unmarked_text_is_kept(text: Seq<char>)
    requires
        disable_start(text) is None,
    ensures
        prefilter(text) == text,
{
}

/// Where a `fundoc-enable` comment follows the first `fundoc-disable`
/// comment, what is left is the text before the first `fundoc-disable`
/// comment and the text after the last `fundoc-enable` comment.
pub proof fn lemma_marked_part_is_removed(text: Seq<char>, from: int, to: int)
    requires
        disable_start(text) == Some(from),
        enable_end(text) == Some(to),
        to > from,
    ensures
        prefilter(text) == text.take(char_index(text, from)) + text.skip(char_index(text, to)),
{
}

/// Where no `fundoc-enable` comment follows the first `fundoc-disable`
/// comment, what is left is the text before that comment.
pub proof fn lemma_unmatched_disable_removes_rest(text: Seq<char>, from: int)
    requires
        disable_start(text) == Some(from),
        match enable_end(text) {
            Some(to) => to <= from,
            None => true,
        },
    ensures
        prefilter(text) == text.take(char_index(text, from)),
{
    let at = char_index(text, from);
    assert(text.take(at) + text.skip(text.len() as int) =~= text.take(at));
}

/// Filtering what was filtered takes nothing more out, unless a
/// `fundoc-disable` comment is left in it.
pub proof fn lemma_prefilter_twice(text: Seq<char>)
    requires
        disable_start(prefilter(text)) is None,
    ensures
        prefilter(prefilter(text)) == prefilter(text),
{
}

/// Finds the part of `text` to take out, given the matches of the two
/// switch comments in it.
pub fn locate_ignored(text: &str, disable: &Vec<(usize, usize)>, enable: &Vec<(usize, usize)>) -> (span:
    Option<(usize, usize)>)
    requires
        well_placed(text@, disable@),
        well_placed(text@, enable@),
    ensures
        match span {
            Some((from, to)) => ignored_span(
                text@,
                first_start(Some(disable@)),
                last_end(Some(enable@)),
            ) == Some((from as int, to as int)) && from <= to <= text@.len(),
            None => disable@.len() == 0,
        },
{
    if disable.len() == 0 {
        return None;
    }
    let start: usize = disable[0].0;
    let from = char_index_of(text, start);
    if enable.len() > 0 && enable[enable.len() - 1].1 > start {
        let last: usize = enable[enable.len() - 1].1;
        let to = char_index_of(text, last);
        proof {
            lemma_boundary_in_range(text@, last as int);
            lemma_char_index_ordered(text@, start as int, last as int);
        }
        Some((from, to))
    } else {
        let to = text.unicode_len();
        Some((from, to))
    }
}

/// `text` without the part that `span` gives.
pub fn remove_span(text: String, span: Option<(usize, usize)>) -> (r: String)
    requires
        match span {
            Some((from, to)) => from <= to <= text@.len(),
            None => true,
        },
    ensures
        r@ == without_span(
            text@,
            match span {
                Some((from, to)) => Some((from as int, to as int)),
                None => None,
            },
        ),
{
    match span {
        Some((from, to)) => {
            let chars = to_chars(text.as_str());
            let mut kept = subrange(&chars, 0, from);
            let tail = subrange(&chars, to, chars.len());
            append(&mut kept, &tail);
            to_string(&kept)
        },
        None => text,
    }
}

/// Finds the part of `text` that the switch comments take out.
pub fn find_ignored(text: &str) -> (span: Option<(usize, usize)>)
    ensures
        match span {
            Some((from, to)) => ignored(text@) == Some((from as int, to as int)) && from <= to
                <= text@.len(),
            None => ignored(text@) is None,
        },
{
    let disable = match find_matches(DISABLE_PATTERN, text) {
        Some(found) => found,
        None => Vec::new(),
    };
    let enable = match find_matches(ENABLE_PATTERN, text) {
        Some(found) => found,
        None => Vec::new(),
    };
    locate_ignored(text, &disable, &enable)
}

impl Parser {
    /// Takes out of `text` what the switch comments turn off.
    pub fn remove_ignored_text(&self, text: String) -> (r: String)
        ensures
            r@ == prefilter(text@),
            disable_start(text@) is None ==> r@ == text@,
            disable_start(text@) matches Some(from) ==> r@ == text@.take(char_index(text@, from))
                + match enable_end(text@) {
                Some(to) => if to > from {
                    text@.skip(char_index(text@, to))
                } else {
                    seq![]
                },
                None => seq![],
            },
    {
        proof {
            if disable_start(text@) is Some {
                let at = char_index(text@, disable_start(text@)->0);
                assert(text@.take(at) + text@.skip(text@.len() as int) =~= text@.take(at) + seq![]);
            }
        }
        let span = find_ignored(text.as_str());
        remove_span(text, span)
    }
}

} // verus!

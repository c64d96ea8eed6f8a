//! The text side of plugins: finding the fragments of a chapter that a
//! plugin is to transform, and putting back what it made of them.

use vstd::prelude::*;
use crate::config::Config;
use crate::matching::{
    between, find_matches, first_capture, regex_capture, regex_matches, slice_between, well_placed,
};
use crate::text::{append, find_sub, occurs_at, replace_all, replaced, to_chars, to_string};

verus! {

/// Matches the name of the preprocessor in the printed form of the context
/// that the book builder hands over; the name is its first group.
pub const PREPROCESSOR_PATTERN: &'static str = "\"preprocessor\": Table\\(\\{\"*(.*?) *\":";

/// The name of the preprocessor that the printed context `context` names.
pub open spec fn preprocessor_name(context: Seq<char>) -> Option<Seq<char>> {
    match regex_capture(PREPROCESSOR_PATTERN@, context, 1) {
        Some(span) => Some(between(context, span.0 as int, span.1 as int)),
        None => None,
    }
}

/// The regular expression of the fragments for the plugin `name`: from
/// `{{ #` and the name to the last `}}`.
pub open spec fn fragment_pattern(name: Seq<char>) -> Seq<char> {
    "\\{\\{ #"@ + name + "[\\w\\W]*\\}\\}"@
}

/// The parts of `content` that the spans of `spans` give, in order.
pub open spec fn cut_out(content: Seq<char>, spans: Seq<(usize, usize)>) -> Seq<Seq<char>> {
    Seq::new(spans.len(), |i: int| between(content, spans[i].0 as int, spans[i].1 as int))
}

/// The fragments of `content` for the plugin `name`.
pub open spec fn fragments(name: Seq<char>, content: Seq<char>) -> Seq<Seq<char>> {
    match regex_matches(fragment_pattern(name), content) {
        Some(spans) => cut_out(content, spans),
        None => seq![],
    }
}

/// What the plugin `name` is to transform of `fragment`: the fragment
/// without `{{ #`, the name, and `}}`.
pub open spec fn fragment_text(name: Seq<char>, fragment: Seq<char>) -> Seq<char> {
    replaced(replaced(fragment, "{{ #"@ + name, seq![]), "}}"@, seq![])
}

/// The character sequences that the strings of `s` hold, in order.
pub open spec fn texts(s: Seq<String>) -> Seq<Seq<char>> {
    Seq::new(s.len(), |i: int| s[i]@)
}

/// The parts of `content` that `spans` give.
pub fn cut_fragments(content: &str, spans: &Vec<(usize, usize)>) -> (r: Vec<String>)
    requires
        well_placed(content@, spans@),
    ensures
        texts(r@) == cut_out(content@, spans@),
{
    let mut r: Vec<String> = Vec::new();
    let mut i: usize = 0;
    while i < spans.len()
        invariant
            i <= spans.len(),
            well_placed(content@, spans@),
            texts(r@) =~= cut_out(content@, spans@.take(i as int)),
        decreases spans.len() - i,
    {
        let span = spans[i];
        let part = slice_between(content, span.0, span.1);
        let ghost before = texts(r@);
        r.push(part);
        i += 1;
        proof {
            assert(spans@.take(i as int) =~= spans@.take(i - 1).push(span));
            assert(texts(r@) =~= before.push(part@));
            assert(cut_out(content@, spans@.take(i as int)) =~= cut_out(
                content@,
                spans@.take(i - 1),
            ).push(between(content@, span.0 as int, span.1 as int)));
        }
    }
    assert(spans@.take(i as int) =~= spans@);
    r
}

/// The plugins of a project.
pub struct Plugins {
    config: Config,
}

impl Plugins {
    /// The settings that the plugins go by.
    pub closed spec fn config(&self) -> Config {
        self.config
    }

    /// The plugins of the project that `config` describes.
    pub fn new(config: Config) -> (plugins: Self)
        ensures
            plugins.config() == config,
    {
        Self { config }
    }

    /// The folder that holds the plugins, if the settings name one.
    pub fn plugins_dir(&self) -> (r: Option<String>)
        ensures
            r is Some == self.config().plugins_dir is Some,
            r matches Some(dir) ==> dir@ == self.config().plugins_dir->0@,
    {
        match &self.config.plugins_dir {
            Some(dir) => Some(dir.clone()),
            None => None,
        }
    }

    /// The name of the preprocessor in the printed context `stringified_ctx`.
    pub fn parse_private_preprocessor_value(&self, stringified_ctx: String) -> (r: Option<String>)
        ensures
            match r {
                Some(name) => preprocessor_name(stringified_ctx@) == Some(name@),
                None => preprocessor_name(stringified_ctx@) is None,
            },
    {
        match first_capture(PREPROCESSOR_PATTERN, stringified_ctx.as_str(), 1) {
            Some(span) => {
                assert(seq![span][0] == span);
                Some(slice_between(stringified_ctx.as_str(), span.0, span.1))
            },
            None => None,
        }
    }

    /// Whether the plugin file at `plugin_path` is the one of the
    /// preprocessor `name`: whether its path holds the name.
    pub fn serves(&self, plugin_path: &str, name: &str) -> (b: bool)
        ensures
            b == exists|i: int| occurs_at(plugin_path@, name@, i),
    {
        find_sub(&to_chars(plugin_path), &to_chars(name)).is_some()
    }

    /// The fragments of `content` for the plugin `name`.
    pub fn find_fragments(&self, name: &str, content: &str) -> (r: Vec<String>)
        ensures
            texts(r@) == fragments(name@, content@),
    {
        let mut pattern = to_chars("\\{\\{ #");
        append(&mut pattern, &to_chars(name));
        append(&mut pattern, &to_chars("[\\w\\W]*\\}\\}"));
        let pattern = to_string(&pattern);
        match find_matches(pattern.as_str(), content) {
            Some(spans) => cut_fragments(content, &spans),
            None => {
                let r: Vec<String> = Vec::new();
                assert(texts(r@) =~= Seq::<Seq<char>>::empty());
                r
            },
        }
    }

    /// What the plugin `name` is to transform of the fragment `src_text`.
    pub fn extract_text(&self, name: &str, src_text: &str) -> (r: String)
        ensures
            r@ == fragment_text(name@, src_text@),
    {
        let mut header = to_chars("{{ #");
        append(&mut header, &to_chars(name));
        let none: Vec<char> = Vec::new();
        let inner = replace_all(&to_chars(src_text), &header, &none);
        assert(none@ =~= Seq::<char>::empty());
        to_string(&replace_all(&inner, &to_chars("}}"), &none))
    }

    /// `content` with `transformed` in place of each occurrence of the
    /// fragment `src_text`.
    pub fn replace_fragment(&self, content: &str, src_text: &str, transformed: &str) -> (r: String)
        ensures
            r@ == replaced(content@, src_text@, transformed@),
    {
        to_string(&replace_all(&to_chars(content), &to_chars(src_text), &to_chars(transformed)))
    }
}

} // verus!

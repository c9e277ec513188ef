//! Filtering of model names by a regular expression.
use crate::text_map::texts;
use vstd::prelude::*;

verus! {

/// `regex` compiles the pattern with matching regardless of case.
///
/// `regex` refuses a pattern whose compiled form is over its size limit, and it
/// counts that form in bytes. So a pattern close to the limit may compile on a
/// machine with one pointer width and not on one with another: the answer is
/// fixed for one build.
pub uninterp spec fn pattern_valid(pattern: Seq<char>) -> bool;

/// `regex` finds a match of the pattern in a text, regardless of case. It says
/// something only of a pattern that compiles in this build.
pub uninterp spec fn pattern_found(pattern: Seq<char>, text: Seq<char>) -> bool;

/// Compiles a pattern with `regex::RegexBuilder`, matching regardless of case,
/// and looks for it in a text with `regex::Regex::is_match`.
///
/// Whether the pattern compiles is, in one build, a function of the pattern;
/// there is no answer where it does not. Whether it is found is a function of
/// the pattern and the text.
#[verifier::external_body]
pub(crate) fn find_pattern(pattern: &str, text: &str) -> (found: Option<bool>)
    ensures
        found is Some == pattern_valid(pattern@),
        found matches Some(found) ==> found == pattern_found(pattern@, text@),
{
    match regex::RegexBuilder::new(pattern).case_insensitive(true).build() {
        Ok(expression) => Some(expression.is_match(text)),
        Err(_) => None,
    }
}

/// What a filter does with a model name: without a pattern it shows everything,
/// and with one only what the pattern matches.
pub fn shows_name(pattern_is_empty: bool, matched: Option<bool>) -> (shown: bool)
    ensures
        shown == (pattern_is_empty || matched == Some(true)),
{
    if pattern_is_empty {
        return true;
    }
    match matched {
        Some(matched) => matched,
        None => false,
    }
}

/// Whether a filter is reported as broken: it has a pattern that does not compile.
pub fn is_broken_filter(pattern_is_empty: bool, compiled: bool) -> (broken: bool)
    ensures
        broken == (!pattern_is_empty && !compiled),
{
    !pattern_is_empty && !compiled
}

/// The name is shown under a filter.
pub open spec fn shown_under(pattern: Seq<char>, name: Seq<char>) -> bool {
    pattern.len() == 0 || (pattern_valid(pattern) && pattern_found(pattern, name))
}

/// The names that are shown under a filter, in their order.
pub open spec fn shown_names(pattern: Seq<char>, names: Seq<Seq<char>>) -> Seq<Seq<char>>
    decreases names.len(),
{
    if names.len() == 0 {
        seq![]
    } else {
        let earlier = shown_names(pattern, names.drop_last());
        if shown_under(pattern, names.last()) {
            earlier.push(names.last())
        } else {
            earlier
        }
    }
}

/// Lists the names that are shown under a filter, and says whether the filter
/// is an invalid regular expression.
pub fn filter_names(pattern: &str, names: &[String]) -> (filtered: (Vec<String>, bool))
    ensures
        texts(filtered.0@) == shown_names(pattern@, texts(names@)),
        filtered.1 == (pattern@.len() > 0 && !pattern_valid(pattern@)),
{
    let empty: bool = pattern.unicode_len() == 0;
    let compiled: bool = find_pattern(pattern, "").is_some();
    let broken: bool = is_broken_filter(empty, compiled);
    let mut shown: Vec<String> = Vec::new();
    let mut index: usize = 0;
    let ghost all = texts(names@);
    proof {
        assert(all.take(0) =~= seq![]);
        assert(texts(shown@) =~= seq![]);
    }
    while index < names.len()
        invariant
            index <= names@.len(),
            all == texts(names@),
            empty == (pattern@.len() == 0),
            texts(shown@) == shown_names(pattern@, all.take(index as int)),
        decreases names.len() - index,
    {
        let name = &names[index];
        let matched = find_pattern(pattern, name.as_str());
        proof {
            assert(all.take(index + 1).drop_last() =~= all.take(index as int));
            assert(all.take(index + 1).last() == name@);
        }
        if shows_name(empty, matched) {
            crate::fields::push_field(&mut shown, name.clone());
        }
        index = index + 1;
    }
    proof {
        assert(all.take(index as int) =~= all);
    }
    (shown, broken)
}

/// A filter without a pattern shows every name.
pub proof fn empty_filter_shows_everything(names: Seq<Seq<char>>)
    ensures
        shown_names(seq![], names) == names,
    decreases names.len(),
{
    if names.len() > 0 {
        empty_filter_shows_everything(names.drop_last());
        assert(names.drop_last().push(names.last()) =~= names);
    } else {
        assert(names =~= seq![]);
    }
}

/// A filter that is no valid regular expression shows nothing.
pub proof fn broken_filter_shows_nothing(pattern: Seq<char>, names: Seq<Seq<char>>)
    requires
        pattern.len() > 0,
        !pattern_valid(pattern),
    ensures
        shown_names(pattern, names).len() == 0,
    decreases names.len(),
{
    if names.len() > 0 {
        broken_filter_shows_nothing(pattern, names.drop_last());
    }
}

/// The names under a filter stand in their order; a name is among them where the pattern is
/// empty, or valid and found in the name.
pub proof fn names_are_filtered_one_by_one(
    pattern: Seq<char>,
    names: Seq<Seq<char>>,
    name: Seq<char>,
)
    ensures
        shown_names(pattern, seq![]).len() == 0,
        pattern.len() == 0 || (pattern_valid(pattern) && pattern_found(pattern, name))
            ==> shown_names(pattern, names.push(name)) == shown_names(pattern, names).push(name),
        pattern.len() > 0 && (!pattern_valid(pattern) || !pattern_found(pattern, name))
            ==> shown_names(pattern, names.push(name)) == shown_names(pattern, names),
{
    assert(names.push(name).drop_last() =~= names);
}

} // verus!

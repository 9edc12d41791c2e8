//! Regular expressions, matched by the `regex` crate. What a match captures
//! is named here and not restated: the parsers of this crate are verified
//! over that name.
use vstd::prelude::*;

verus! {

/// `regex::Regex`, a compiled regular expression, held opaque: nothing is
/// claimed of its contents.
#[verifier::external_type_specification]
#[verifier::external_body]
pub struct ExRegex(regex::Regex);

/// Whether `regex::Regex::new` accepts `source` (valid syntax, within the
/// default size limit).
pub uninterp spec fn regex_compiles(source: Seq<char>) -> bool;

/// What `regex::Regex::captures` finds in `haystack` with the regex compiled
/// from `source`: `None` without a match, else the text of each capture
/// group (group 0 being the whole match), `None` for a group that did not
/// take part.
pub uninterp spec fn regex_captures(source: Seq<char>, haystack: Seq<char>) -> Option<
    Seq<Option<Seq<char>>>,
>;

/// A regex together with the source it was compiled from.
pub struct Pattern {
    source: String,
    re: regex::Regex,
}

impl View for Pattern {
    type V = Seq<char>;

    closed spec fn view(&self) -> Seq<char> {
        self.source@
    }
}

/// The texts of capture groups as sequences of characters.
pub open spec fn group_texts(groups: Seq<Option<String>>) -> Seq<Option<Seq<char>>> {
    groups.map_values(
        |g: Option<String>|
            match g {
                Some(t) => Some(t@),
                None => None,
            },
    )
}

/// `regex::Regex::new`: a pattern where the source compiles, `None` where it
/// is refused. The contract claims that the result depends on the source
/// alone and that the pattern remembers that source.
#[verifier::external_body]
pub(crate) fn compile(source: &str) -> (r: Option<Pattern>)
    ensures
        r.is_some() == regex_compiles(source@),
        r matches Some(p) ==> p@ == source@,
{
    match regex::Regex::new(source) {
        Ok(re) => Some(Pattern { source: source.to_string(), re }),
        Err(_) => None,
    }
}

/// `regex::Regex::captures`, each group's match turned into its text. The
/// contract claims that the result is the named one for the pattern's source
/// and the haystack, which holds because a `Pattern` is only made by
/// `compile` from that source.
#[verifier::external_body]
pub(crate) fn captures(p: &Pattern, haystack: &str) -> (r: Option<Vec<Option<String>>>)
    ensures
        match regex_captures(p@, haystack@) {
            Some(groups) => r.is_some() && group_texts(r.unwrap()@) == groups,
            None => r.is_none(),
        },
{
    match p.re.captures(haystack) {
        Some(caps) => Some(caps.iter().map(|m| m.map(|m| m.as_str().to_string())).collect()),
        None => None,
    }
}

/// The text of group `k`, where there is one.
pub open spec fn group(groups: Seq<Option<Seq<char>>>, k: int) -> Option<Seq<char>> {
    if 0 <= k < groups.len() {
        groups[k]
    } else {
        None
    }
}

pub fn group_at(groups: &Vec<Option<String>>, k: usize) -> (r: Option<&String>)
    ensures
        match group(group_texts(groups@), k as int) {
            Some(t) => r.is_some() && r.unwrap()@ == t,
            None => r.is_none(),
        },
{
    if k < groups.len() {
        match &groups[k] {
            Some(t) => Some(t),
            None => None,
        }
    } else {
        None
    }
}

} // verus!

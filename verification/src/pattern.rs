//! The regular-expression searches the library makes with the `regex` crate.
//! Each result is named: it is what `regex` computes from the pattern, the
//! text and the other arguments alone.
use vstd::prelude::*;
use crate::text::texts;

verus! {

/// What compiling `pattern` and iterating its captures over `text` gives:
/// for each match, in order, the text of each group in `names` (`None`
/// where the group took no part). `None` when the pattern does not compile.
pub uninterp spec fn named_captures(pattern: Seq<char>, text: Seq<char>, names: Seq<Seq<char>>) -> Option<Seq<Seq<Option<Seq<char>>>>>;

/// What compiling `pattern` and iterating its captures over `text` gives:
/// for each match, in order, the text of group number `group` (`None` where
/// it took no part). `None` when the pattern does not compile.
pub uninterp spec fn indexed_captures(pattern: Seq<char>, text: Seq<char>, group: usize) -> Option<Seq<Option<Seq<char>>>>;

/// What compiling `pattern` and replacing every match in `text` with `rep`
/// gives. `None` when the pattern does not compile.
pub uninterp spec fn replaced_all(pattern: Seq<char>, text: Seq<char>, rep: Seq<char>) -> Option<Seq<char>>;

/// What compiling `pattern` and replacing its first match in `text` with
/// `rep` (where `$name` refers to a group) gives. `None` when the pattern
/// does not compile.
pub uninterp spec fn replaced_first(pattern: Seq<char>, text: Seq<char>, rep: Seq<char>) -> Option<Seq<char>>;

/// Whether compiling `pattern` and searching `text` finds a match. `None`
/// when the pattern does not compile.
pub uninterp spec fn found_match(pattern: Seq<char>, text: Seq<char>) -> Option<bool>;

/// The view of optional texts.
pub open spec fn optional_texts(v: Seq<Option<String>>) -> Seq<Option<Seq<char>>> {
    v.map_values(|o: Option<String>| match o { Some(s) => Some(s@), None => None })
}

/// The view of captures by group name.
pub open spec fn capture_rows(v: Seq<Vec<Option<String>>>) -> Seq<Seq<Option<Seq<char>>>> {
    v.map_values(|row: Vec<Option<String>>| optional_texts(row@))
}

/// `Regex::new(pattern)`, then `captures_iter(text)`, taking from each
/// captures the group of each name (`Captures::name`). The contract only
/// names the result (see `named_captures`).
#[verifier::external_body]
pub(crate) fn captures_by_name(pattern: &str, text: &str, names: &Vec<String>) -> (r: Option<Vec<Vec<Option<String>>>>)
    ensures
        (match r {
            Some(v) => named_captures(pattern@, text@, texts(names@)) == Some(capture_rows(v@)),
            None => named_captures(pattern@, text@, texts(names@)) is None,
        }),
{
    match regex::Regex::new(pattern) {
        Ok(re) => Some(re.captures_iter(text).map(|c| {
            names.iter().map(|n| c.name(n).map(|m| m.as_str().to_string())).collect()
        }).collect()),
        Err(_) => None,
    }
}

/// `Regex::new(pattern)`, then `captures_iter(text)`, taking from each
/// captures group number `group` (`Captures::get`). The contract only names
/// the result (see `indexed_captures`).
#[verifier::external_body]
pub(crate) fn captures_by_index(pattern: &str, text: &str, group: usize) -> (r: Option<Vec<Option<String>>>)
    ensures
        (match r {
            Some(v) => indexed_captures(pattern@, text@, group) == Some(optional_texts(v@)),
            None => indexed_captures(pattern@, text@, group) is None,
        }),
{
    match regex::Regex::new(pattern) {
        Ok(re) => Some(re.captures_iter(text).map(|c| c.get(group).map(|m| m.as_str().to_string())).collect()),
        Err(_) => None,
    }
}

/// `Regex::new(pattern)`, then `replace_all(text, rep)`. The contract only
/// names the result (see `replaced_all`).
#[verifier::external_body]
pub(crate) fn replace_all(pattern: &str, text: &str, rep: &str) -> (r: Option<String>)
    ensures
        (match r {
            Some(s) => replaced_all(pattern@, text@, rep@) == Some(s@),
            None => replaced_all(pattern@, text@, rep@) is None,
        }),
{
    match regex::Regex::new(pattern) {
        Ok(re) => Some(re.replace_all(text, rep).to_string()),
        Err(_) => None,
    }
}

/// `Regex::new(pattern)`, then `replace(text, rep)`, which replaces the
/// first match only. The contract only names the result (see
/// `replaced_first`).
#[verifier::external_body]
pub(crate) fn replace_first(pattern: &str, text: &str, rep: &str) -> (r: Option<String>)
    ensures
        (match r {
            Some(s) => replaced_first(pattern@, text@, rep@) == Some(s@),
            None => replaced_first(pattern@, text@, rep@) is None,
        }),
{
    match regex::Regex::new(pattern) {
        Ok(re) => Some(re.replace(text, rep).to_string()),
        Err(_) => None,
    }
}

/// `Regex::new(pattern)`, then `is_match(text)`. The contract only names
/// the result (see `found_match`).
#[verifier::external_body]
pub(crate) fn is_match(pattern: &str, text: &str) -> (r: Option<bool>)
    ensures
        r == found_match(pattern@, text@),
{
    match regex::Regex::new(pattern) {
        Ok(re) => Some(re.is_match(text)),
        Err(_) => None,
    }
}

/// How a capture group is shown: nothing when the group took no part in the
/// match, `None` when it matched the empty text, else the text it matched.
pub fn rc<'a>(cap: Option<&'a str>) -> (r: &'a str)
    ensures
        r@ == (match cap {
            None => ""@,
            Some(s) => if s@.len() == 0 { "None"@ } else { s@ },
        }),
{
    match cap {
        Some(x) => {
            if x.is_empty() {
                "None"
            } else {
                x
            }
        },
        None => "",
    }
}

} // verus!

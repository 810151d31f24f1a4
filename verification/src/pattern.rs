//! Regular expressions.
use vstd::prelude::*;
use crate::text::{opt_text, views};

verus! {

/// One match of a pattern: the whole and its groups, where they took part.
#[derive(Debug, Default)]
pub struct Captures {
    pub groups: Vec<Option<String>>,
}

impl View for Captures {
    type V = Seq<Option<Seq<char>>>;

    open spec fn view(&self) -> Seq<Option<Seq<char>>> {
        self.groups@.map_values(|group: Option<String>| opt_text(group))
    }
}

/// The matches of a pattern in a text, one behind the other, each with the whole and its groups;
/// none where the pattern is not valid.
pub uninterp spec fn matches_of(pattern: Seq<char>, text: Seq<char>) -> Seq<
    Seq<Option<Seq<char>>>,
>;

/// `Regex::new` and `Regex::captures_iter`: the matches of a pattern in a text. What matches a
/// pattern is not stated.
#[verifier::external_body]
pub(crate) fn captures(pattern: &str, text: &str) -> (r: Vec<Captures>)
    ensures
        views(r@) == matches_of(pattern@, text@),
{
    match regex::Regex::new(pattern) {
        Ok(re) => re.captures_iter(text).map(|c| Captures {
            groups: c.iter().map(|m| m.map(|m| m.as_str().to_string())).collect(),
        }).collect(),
        Err(_) => Vec::new(),
    }
}

/// A group of a match, empty where it took no part.
pub open spec fn group_of(found: Seq<Option<Seq<char>>>, i: int) -> Seq<char> {
    if 0 <= i < found.len() {
        match found[i] {
            Some(text) => text,
            None => Seq::empty(),
        }
    } else {
        Seq::empty()
    }
}

impl Captures {
    /// A group of the match, empty where it took no part.
    pub fn group(&self, i: usize) -> (r: String)
        ensures
            r@ == group_of(self@, i as int),
    {
        if i < self.groups.len() {
            assert(self@[i as int] == opt_text(self.groups@[i as int]));
            if let Some(text) = &self.groups[i] {
                return text.clone();
            }
        }
        let r = String::new();
        assert(r@ =~= Seq::<char>::empty());
        r
    }
}

} // verus!

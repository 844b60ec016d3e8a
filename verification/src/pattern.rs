//! Regular expressions, as the `regex` crate matches them.
//!
//! What a pattern matches in a text is the crate's to say, not this
//! library's: the library gives the outcome a name and reasons from there.

use vstd::prelude::*;
use regex::Regex;

verus! {

/// The groups of one match, in the order of their numbers, group 0 (the
/// whole match) first: the text that each group has matched, or `None`
/// where the group has taken no part in the match.
pub type Groups = Seq<Option<Seq<char>>>;

/// What the `regex` crate finds of `pattern` in `text`: `None` where it
/// does not accept the pattern, and else the groups of each match, the
/// matches in the order in which they stand in the text, none of them
/// overlapping another.
pub uninterp spec fn regex_captures(pattern: Seq<char>, text: Seq<char>) -> Option<Seq<Groups>>;

/// Compiles `pattern` with `Regex::new` and walks `text` with
/// `Regex::captures_iter`, reading each group of each match with
/// `Captures::iter` and `Match::as_str`.
///
/// The contract claims no more than that the outcome depends on the pattern
/// and the text alone; it is `None` where `Regex::new` returns an error.
#[verifier::external_body]
pub(crate) fn captures(pattern: &str, text: &str) -> (r: Option<Vec<Vec<Option<String>>>>)
    ensures
        r.deep_view() == regex_captures(pattern@, text@),
{
    match Regex::new(pattern) {
        Ok(re) => Some(
            re.captures_iter(text).map(
                |c| c.iter().map(|g| g.map(|m| m.as_str().to_string())).collect(),
            ).collect(),
        ),
        Err(_) => None,
    }
}

/// The text of group `group` of a match; nothing where the match has no
/// such group or the group has taken no part in it.
pub open spec fn group_text(groups: Groups, group: int) -> Seq<char> {
    if 0 <= group < groups.len() && groups[group] is Some {
        groups[group]->0
    } else {
        Seq::empty()
    }
}

/// The texts of group `group` of each match, joined in the order of the
/// matches.
pub open spec fn joined(matches: Seq<Groups>, group: int) -> Seq<char>
    decreases matches.len(),
{
    if matches.len() == 0 {
        Seq::empty()
    } else {
        joined(matches.drop_last(), group) + group_text(matches.last(), group)
    }
}

/// Joins what one group has matched in each of the matches.
pub fn join_group(matches: &Vec<Vec<Option<String>>>, group: usize) -> (r: String)
    ensures
        r@ == joined(matches.deep_view(), group as int),
{
    let mut out = String::new();
    let n = matches.len();
    let mut i: usize = 0;
    while i < n
        invariant
            i <= n,
            n == matches.len(),
            out@ == joined(matches.deep_view().take(i as int), group as int),
        decreases n - i,
    {
        let groups = &matches[i];
        proof {
            let all = matches.deep_view();
            assert(all.take(i + 1).drop_last() =~= all.take(i as int));
            assert(all.take(i + 1).last() == groups.deep_view());
            if group < groups.len() {
                assert(groups.deep_view()[group as int] == groups@[group as int].deep_view());
            }
        }
        if group < groups.len() {
            match &groups[group] {
                Some(text) => {
                    out.append(text.as_str());
                },
                None => {},
            }
        }
        assert(out@ =~= joined(matches.deep_view().take(i + 1), group as int));
        i = i + 1;
    }
    assert(matches.deep_view().take(n as int) =~= matches.deep_view());
    out
}

} // verus!

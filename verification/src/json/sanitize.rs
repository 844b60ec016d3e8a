//! Takes the layout out of JSON text.

use vstd::prelude::*;
use crate::pattern::{captures, join_group, joined, regex_captures};

verus! {

/// What counts as one piece of JSON text: a bracket, colon or comma; or a
/// string literal that is not empty; or a run of characters without white
/// space.
pub const TOKEN: &'static str = r#"(?P<y>[\{\[\}\]:,]|"[^"]+"|\S+)"#;

/// The text without its layout: the pieces that `TOKEN` finds in it, one
/// after the other, and nothing of what stands between them.
pub open spec fn sanitized(matches: Seq<crate::pattern::Groups>) -> Seq<char> {
    joined(matches, 1)
}

/// Removes the white space between the pieces of JSON text; white space
/// inside a string literal stays.
///
/// `None` only where the pattern `TOKEN` is not accepted as a regular
/// expression.
pub fn sanitize(string: &str) -> (r: Option<String>)
    ensures
        match regex_captures(TOKEN@, string@) {
            Some(matches) => r is Some && r->0@ == sanitized(matches),
            None => r is None,
        },
{
    match captures(TOKEN, string) {
        Some(matches) => Some(join_group(&matches, 1)),
        None => None,
    }
}

} // verus!

//! Lays JSON text out over lines, one level of tabs for each bracket that
//! is open.

use vstd::prelude::*;
use crate::text::chars_of;

verus! {

/// Whether the text ends inside a string literal: it holds an odd number of
/// `"`.
pub open spec fn in_string(s: Seq<char>) -> bool
    decreases s.len(),
{
    if s.len() == 0 {
        false
    } else if s.last() == '"' {
        !in_string(s.drop_last())
    } else {
        in_string(s.drop_last())
    }
}

/// The brackets that the text has opened and not closed: the `{` and `[`
/// outside its string literals, less the `}` and `]` there.
pub open spec fn depth(s: Seq<char>) -> int
    decreases s.len(),
{
    if s.len() == 0 {
        0
    } else {
        let before = s.drop_last();
        let c = s.last();
        if in_string(before) {
            depth(before)
        } else if c == '{' || c == '[' {
            depth(before) + 1
        } else if c == '}' || c == ']' {
            depth(before) - 1
        } else {
            depth(before)
        }
    }
}

/// No bracket is closed that was not opened: at no point of the text have
/// more brackets been closed than opened.
pub open spec fn nests(s: Seq<char>) -> bool {
    forall|n: int| 0 <= n <= s.len() ==> depth(#[trigger] s.take(n)) >= 0
}

/// `n` tabs.
pub open spec fn tabs(n: int) -> Seq<char> {
    Seq::new(n as nat, |i: int| '\t')
}

/// What is written for the character `c`, met inside a string literal or
/// not, when `level` brackets are open once it is read.
///
/// Inside a string literal a character is written as it is. Outside, an
/// opening bracket is followed by a new line at the new level, a closing
/// bracket stands at the start of a new line at the new level, a comma is
/// followed by a new line at the level, and a colon by a space.
pub open spec fn piece(inside: bool, level: int, c: char) -> Seq<char> {
    if inside {
        seq![c]
    } else if c == '{' || c == '[' {
        seq![c, '\n'] + tabs(level)
    } else if c == '}' || c == ']' {
        seq!['\n'] + tabs(level) + seq![c]
    } else if c == ':' {
        seq![c, ' ']
    } else if c == ',' {
        seq![c, '\n'] + tabs(level)
    } else {
        seq![c]
    }
}

/// The text laid out: the pieces of its characters, one after the other.
pub open spec fn pretty(s: Seq<char>) -> Seq<char>
    decreases s.len(),
{
    if s.len() == 0 {
        Seq::empty()
    } else {
        pretty(s.drop_last()) + piece(in_string(s.drop_last()), depth(s), s.last())
    }
}

/// Appends `n` tabs.
fn push_tabs(out: &mut String, n: usize)
    ensures
        final(out)@ == old(out)@ + tabs(n as int),
{
    let mut i: usize = 0;
    while i < n
        invariant
            i <= n,
            out@ == old(out)@ + tabs(i as int),
        decreases n - i,
    {
        out.push('\t');
        i = i + 1;
        assert(out@ =~= old(out)@ + tabs(i as int));
    }
    assert(old(out)@ + tabs(0) =~= old(out)@);
}

/// Lays the text out over lines.
///
/// `None` where the text closes a bracket that it has not opened; brackets
/// inside string literals count for nothing.
pub fn pretty_print(string: &str) -> (r: Option<String>)
    ensures
        r is Some <==> nests(string@),
        r is Some ==> r->0@ == pretty(string@),
{
    let chars = chars_of(string);
    let n = chars.len();
    let mut in_str = false;
    let mut level: usize = 0;
    let mut new_str = String::new();
    let mut i: usize = 0;
    while i < n
        invariant
            i <= n,
            n == chars.len(),
            chars@ == string@,
            in_str == in_string(chars@.take(i as int)),
            level == depth(chars@.take(i as int)),
            level <= i,
            new_str@ == pretty(chars@.take(i as int)),
            forall|m: int| 0 <= m <= i ==> depth(#[trigger] chars@.take(m)) >= 0,
        decreases n - i,
    {
        let c = chars[i];
        let ghost before = chars@.take(i as int);
        let ghost now = chars@.take(i + 1);
        let ghost written = new_str@;
        assert(now.drop_last() =~= before);
        assert(now.last() == c);
        if !in_str {
            if c == '{' || c == '[' {
                level = level + 1;
                new_str.push(c);
                new_str.push('\n');
                push_tabs(&mut new_str, level);
                assert(new_str@ =~= written + (seq![c, '\n'] + tabs(level as int)));
            } else if c == '}' || c == ']' {
                if level == 0 {
                    assert(depth(string@.take(i + 1)) < 0);
                    return None;
                }
                level = level - 1;
                new_str.push('\n');
                push_tabs(&mut new_str, level);
                new_str.push(c);
                assert(new_str@ =~= written + (seq!['\n'] + tabs(level as int) + seq![c]));
            } else if c == ':' {
                new_str.push(c);
                new_str.push(' ');
                assert(new_str@ =~= written + seq![c, ' ']);
            } else if c == ',' {
                new_str.push(c);
                new_str.push('\n');
                push_tabs(&mut new_str, level);
                assert(new_str@ =~= written + (seq![c, '\n'] + tabs(level as int)));
            } else if c == '"' {
                in_str = true;
                new_str.push(c);
                assert(new_str@ =~= written + seq![c]);
            } else {
                new_str.push(c);
                assert(new_str@ =~= written + seq![c]);
            }
        } else {
            if c == '"' {
                in_str = false;
            }
            new_str.push(c);
            assert(new_str@ =~= written + seq![c]);
        }
        i = i + 1;
    }
    assert(chars@.take(n as int) =~= chars@);
    Some(new_str)
}

} // verus!

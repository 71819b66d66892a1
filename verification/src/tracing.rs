//! Parser tracing: the nesting level that traced calls reach and the lines
//! they print, a tab for each level of nesting beyond the first, then the
//! message. The caller keeps the level and prints the lines.

use vstd::prelude::*;
use vstd::string::*;
use crate::text::{push_char, push_str};

verus! {

/// The indentation at nesting `level`: one tab for each level beyond the first.
pub open spec fn indentation(level: nat) -> Seq<char> {
    if level > 0 {
        Seq::new((level - 1) as nat, |i: int| '\t')
    } else {
        Seq::empty()
    }
}

pub fn ident_level(level: usize) -> (r: String)
    ensures
        r@ == indentation(level as nat),
{
    let mut r = String::new();
    if level > 0 {
        let mut i: usize = 1;
        while i < level
            invariant
                1 <= i <= level,
                r@ == Seq::new((i - 1) as nat, |j: int| '\t'),
            decreases level - i,
        {
            push_char(&mut r, '\t');
            assert(r@ =~= Seq::new(i as nat, |j: int| '\t'));
            i = i + 1;
        }
    } else {
        assert(r@ =~= indentation(level as nat));
    }
    r
}

/// The line that tracing prints at nesting `level`: the indentation, then the message.
pub fn trace_line(level: usize, message: &str) -> (r: String)
    ensures
        r@ == indentation(level as nat) + message@,
{
    let mut r = ident_level(level);
    push_str(&mut r, message);
    r
}

/// The level after one more traced call begins: one deeper, wrapping around
/// at the largest level as an atomic counter does.
pub open spec fn deeper(level: nat) -> nat {
    if level == usize::MAX {
        0
    } else {
        level + 1
    }
}

/// The level after a traced call ends: one shallower, wrapping around at zero
/// as an atomic counter does.
pub open spec fn shallower(level: nat) -> nat {
    if level == 0 {
        usize::MAX as nat
    } else {
        (level - 1) as nat
    }
}

/// A traced call begins at nesting `level`: the level goes one deeper, and the
/// line `BEGIN` and the message is printed at the new level.
/// Gives the new level, the line, and the message itself (which the traced
/// routine keeps while it runs).
pub fn trace(level: usize, msg: &str) -> (r: (usize, String, String))
    ensures
        r.0 == deeper(level as nat),
        r.1@ == indentation(deeper(level as nat)) + "BEGIN "@ + msg@,
        r.2@ == msg@,
{
    let next: usize = if level == usize::MAX {
        0
    } else {
        level + 1
    };
    let mut text = String::from_str("BEGIN ");
    push_str(&mut text, msg);
    let line = trace_line(next, text.as_str());
    (next, line, String::from_str(msg))
}

/// A traced call that begins and then ends leaves the level where it was, so
/// its `END` line has the indentation of its `BEGIN` line.
pub proof fn law_untrace_undoes_trace(level: nat)
    requires
        level <= usize::MAX,
    ensures
        shallower(deeper(level)) == level,
{
}

/// A traced call ends at nesting `level`: the line `END` and the message is
/// printed at that level, then the level goes one shallower.
/// Gives the new level and the line.
pub fn untrace(level: usize, msg: &str) -> (r: (usize, String))
    ensures
        r.0 == shallower(level as nat),
        r.1@ == indentation(level as nat) + "END "@ + msg@,
{
    let mut text = String::from_str("END ");
    push_str(&mut text, msg);
    let line = trace_line(level, text.as_str());
    let next: usize = if level == 0 {
        usize::MAX
    } else {
        level - 1
    };
    (next, line)
}

} // verus!

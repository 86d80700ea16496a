//! The error value shared by generation-time and runtime failures: a message
//! and the location it points at. A location is the index of the offending
//! field for schema errors, or the index of the offending token within the
//! token list being read for parse errors.

use vstd::prelude::*;
use vstd::string::StringExecFns;

verus! {

/// The mathematical value of an error: the location and the message text.
pub struct SpecErr {
    pub pos: int,
    pub msg: Seq<char>,
}

/// Maps an error to its mathematical value.
pub open spec fn merr_view(e: MErr) -> SpecErr {
    SpecErr { pos: e.pos as int, msg: e.msg@ }
}

/// A structured error: a human-readable message and the location it points at.
#[derive(PartialEq, Eq, Debug)]
pub struct MErr {
    /// The index of the field or token the error points at.
    pub pos: usize,
    /// The message text.
    pub msg: String,
}

impl MErr {
    /// Builds an error at the given location from a fixed message.
    pub fn new(pos: usize, msg: &str) -> (r: MErr)
        ensures
            r.pos == pos,
            r.msg@ == msg@,
    {
        MErr { pos, msg: msg.to_owned() }
    }

    /// Builds an error whose message surrounds a name with a prefix and a
    /// suffix, as in a message quoting a parameter name.
    pub fn around(pos: usize, prefix: &str, mid: &str, suffix: &str) -> (r: MErr)
        ensures
            r.pos == pos,
            r.msg@ == prefix@ + mid@ + suffix@,
    {
        let mut s = prefix.to_owned();
        s.append(mid);
        s.append(suffix);
        MErr { pos, msg: s }
    }

    /// Builds an error whose message quotes a single character.
    pub fn around_char(pos: usize, prefix: &str, c: char, suffix: &str) -> (r: MErr)
        ensures
            r.pos == pos,
            r.msg@ == prefix@ + seq![c] + suffix@,
    {
        let mut s = prefix.to_owned();
        push_char(&mut s, c);
        s.append(suffix);
        MErr { pos, msg: s }
    }

    /// Builds an error whose message quotes two characters.
    pub fn around_char2(
        pos: usize,
        p1: &str,
        c1: char,
        p2: &str,
        c2: char,
        p3: &str,
    ) -> (r: MErr)
        ensures
            r.pos == pos,
            r.msg@ == p1@ + seq![c1] + p2@ + seq![c2] + p3@,
    {
        let mut s = p1.to_owned();
        push_char(&mut s, c1);
        s.append(p2);
        push_char(&mut s, c2);
        s.append(p3);
        MErr { pos, msg: s }
    }
}

/// Relies on `String::push`: appends one character to the string.
#[verifier::external_body]
pub fn push_char(s: &mut String, c: char)
    ensures
        final(s)@ == old(s)@ + seq![c],
{
    s.push(c);
}

} // verus!

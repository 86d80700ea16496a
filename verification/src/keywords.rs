//! The reserved words of the host language: a plain identifier read rejects
//! these, a relaxed one accepts them.

use vstd::prelude::*;

verus! {

/// True for the texts a plain identifier read rejects: the underscore and
/// the host language's reserved words, as the host parser lists them. One
/// word's text is written in two halves here.
pub open spec fn spec_is_keyword(s: Seq<char>) -> bool {
    ||| s == "_"@
    ||| s == "abstract"@
    ||| s == "as"@
    ||| s == "async"@
    ||| s == "await"@
    ||| s == "become"@
    ||| s == "box"@
    ||| s == "break"@
    ||| s == "const"@
    ||| s == "continue"@
    ||| s == "crate"@
    ||| s == "do"@
    ||| s == "dyn"@
    ||| s == "else"@
    ||| s == "enum"@
    ||| s == "ext"@ + "ern"@
    ||| s == "false"@
    ||| s == "final"@
    ||| s == "fn"@
    ||| s == "for"@
    ||| s == "if"@
    ||| s == "impl"@
    ||| s == "in"@
    ||| s == "let"@
    ||| s == "loop"@
    ||| s == "macro"@
    ||| s == "match"@
    ||| s == "mod"@
    ||| s == "move"@
    ||| s == "mut"@
    ||| s == "override"@
    ||| s == "priv"@
    ||| s == "pub"@
    ||| s == "ref"@
    ||| s == "return"@
    ||| s == "Self"@
    ||| s == "self"@
    ||| s == "static"@
    ||| s == "struct"@
    ||| s == "super"@
    ||| s == "trait"@
    ||| s == "true"@
    ||| s == "try"@
    ||| s == "type"@
    ||| s == "typeof"@
    ||| s == "uns"@ + "afe"@
    ||| s == "unsized"@
    ||| s == "use"@
    ||| s == "virtual"@
    ||| s == "where"@
    ||| s == "while"@
    ||| s == "yield"@
}

/// Tests whether a string is one the plain identifier read rejects.
pub fn is_keyword(s: &str) -> (r: bool)
    ensures
        r == spec_is_keyword(s@),
{
    let mut w_ext = "ext".to_owned();
    w_ext.append("ern");
    let mut w_uns = "uns".to_owned();
    w_uns.append("afe");
    crate::helpers::str_eq(s, "_") || crate::helpers::str_eq(s, "abstract")
        || crate::helpers::str_eq(s, "as") || crate::helpers::str_eq(s, "async")
        || crate::helpers::str_eq(s, "await") || crate::helpers::str_eq(s, "become")
        || crate::helpers::str_eq(s, "box") || crate::helpers::str_eq(s, "break")
        || crate::helpers::str_eq(s, "const") || crate::helpers::str_eq(s, "continue")
        || crate::helpers::str_eq(s, "crate") || crate::helpers::str_eq(s, "do")
        || crate::helpers::str_eq(s, "dyn") || crate::helpers::str_eq(s, "else")
        || crate::helpers::str_eq(s, "enum") || crate::helpers::str_eq(s, w_ext.as_str())
        || crate::helpers::str_eq(s, "false") || crate::helpers::str_eq(s, "final")
        || crate::helpers::str_eq(s, "fn") || crate::helpers::str_eq(s, "for")
        || crate::helpers::str_eq(s, "if") || crate::helpers::str_eq(s, "impl")
        || crate::helpers::str_eq(s, "in") || crate::helpers::str_eq(s, "let")
        || crate::helpers::str_eq(s, "loop") || crate::helpers::str_eq(s, "macro")
        || crate::helpers::str_eq(s, "match") || crate::helpers::str_eq(s, "mod")
        || crate::helpers::str_eq(s, "move") || crate::helpers::str_eq(s, "mut")
        || crate::helpers::str_eq(s, "override") || crate::helpers::str_eq(s, "priv")
        || crate::helpers::str_eq(s, "pub") || crate::helpers::str_eq(s, "ref")
        || crate::helpers::str_eq(s, "return") || crate::helpers::str_eq(s, "Self")
        || crate::helpers::str_eq(s, "self") || crate::helpers::str_eq(s, "static")
        || crate::helpers::str_eq(s, "struct") || crate::helpers::str_eq(s, "super")
        || crate::helpers::str_eq(s, "trait") || crate::helpers::str_eq(s, "true")
        || crate::helpers::str_eq(s, "try") || crate::helpers::str_eq(s, "type")
        || crate::helpers::str_eq(s, "typeof") || crate::helpers::str_eq(s, w_uns.as_str())
        || crate::helpers::str_eq(s, "unsized") || crate::helpers::str_eq(s, "use")
        || crate::helpers::str_eq(s, "virtual") || crate::helpers::str_eq(s, "where")
        || crate::helpers::str_eq(s, "while") || crate::helpers::str_eq(s, "yield")
}

/// The decimal digit character for one digit value.
pub open spec fn spec_digit_char(d: nat) -> char {
    if d == 0 {
        '0'
    } else if d == 1 {
        '1'
    } else if d == 2 {
        '2'
    } else if d == 3 {
        '3'
    } else if d == 4 {
        '4'
    } else if d == 5 {
        '5'
    } else if d == 6 {
        '6'
    } else if d == 7 {
        '7'
    } else if d == 8 {
        '8'
    } else {
        '9'
    }
}

/// The decimal digits of a number, most significant first.
pub open spec fn spec_decimal(n: nat) -> Seq<char>
    decreases n,
{
    if n < 10 {
        seq![spec_digit_char(n)]
    } else {
        spec_decimal(n / 10) + seq![spec_digit_char(n % 10)]
    }
}

/// Renders a number in decimal.
pub fn usize_to_string(n: usize) -> (r: String)
    ensures
        r@ == spec_decimal(n as nat),
    decreases n,
{
    let d = n % 10;
    let c: char = match d {
        0 => '0',
        1 => '1',
        2 => '2',
        3 => '3',
        4 => '4',
        5 => '5',
        6 => '6',
        7 => '7',
        8 => '8',
        _ => '9',
    };
    if n < 10 {
        let mut s = String::new();
        crate::err::push_char(&mut s, c);
        proof {
            assert(Seq::<char>::empty() + seq![c] =~= seq![c]);
        }
        s
    } else {
        let mut s = usize_to_string(n / 10);
        crate::err::push_char(&mut s, c);
        s
    }
}

} // verus!

//! The token model: an abstract token tree in the shape produced by the host
//! language's lexer. A token is an identifier, a punctuation character (with a
//! flag saying whether it is joined to the next punctuation character), a
//! literal carried as its raw text, or a delimited group of tokens.

use vstd::prelude::*;

verus! {

/// The delimiter kind of a token group.
#[derive(Clone, Copy, PartialEq, Eq, Structural, Debug)]
pub enum Delim {
    Paren,
    Bracket,
    Brace,
    /// An invisible delimiter, as produced around interpolated fragments.
    /// No delimiter directive matches it.
    Invisible,
}

/// One token tree.
#[derive(PartialEq, Eq, Debug)]
pub enum Token {
    /// An identifier or keyword, carried as its text.
    Ident(String),
    /// A punctuation character; the flag is true when the character is joined
    /// to the punctuation character that follows it (as in the first `=` of `==`).
    Punct(char, bool),
    /// A literal, carried as its raw text (`"abc"`, `10`).
    Lit(String),
    /// A delimited group of tokens.
    Group(Delim, Vec<Token>),
}

/// The mathematical value of one token tree.
pub enum Tok {
    Ident(Seq<char>),
    Punct(char, bool),
    Lit(Seq<char>),
    Group(Delim, Seq<Tok>),
}

/// Maps one token tree to its mathematical value.
pub open spec fn token_view(t: Token) -> Tok
    decreases t, 1int,
    via token_view_decreases
{
    match t {
        Token::Ident(s) => Tok::Ident(s@),
        Token::Punct(c, j) => Tok::Punct(c, j),
        Token::Lit(s) => Tok::Lit(s@),
        Token::Group(d, ts) => Tok::Group(d, toks_view(ts@)),
    }
}

/// The mathematical value of a token sequence.
pub open spec fn toks_view(ts: Seq<Token>) -> Seq<Tok>
    decreases ts, 0int,
{
    if ts.len() == 0 {
        Seq::empty()
    } else {
        seq![token_view(ts[0])] + toks_view(ts.drop_first())
    }
}

#[via_fn]
proof fn token_view_decreases(t: Token) {
    broadcast use vstd::std_specs::vec::axiom_vec_decreases_to_view;

    if let Token::Group(d, ts) = t {
        assert(decreases_to!(t => ts));
        assert(decreases_to!(ts => ts@));
    }
}

impl View for Token {
    type V = Tok;

    open spec fn view(&self) -> Tok {
        token_view(*self)
    }
}



impl Token {
    /// The identifier text, when this token is an identifier.
    pub fn ident_text(&self) -> (r: Option<&String>)
        ensures
            r == (match self {
                Token::Ident(s) => Some(s),
                _ => None::<&String>,
            }),
    {
        match self {
            Token::Ident(s) => Some(s),
            _ => None,
        }
    }

    /// True when this token is the given identifier.
    pub fn is_ident_named(&self, name: &str) -> (r: bool)
        ensures
            r == (self matches Token::Ident(s) && s@ == name@),
    {
        match self {
            Token::Ident(s) => crate::helpers::str_eq(s.as_str(), name),
            _ => false,
        }
    }

    /// True when this token is a comma.
    pub fn is_comma(&self) -> (r: bool)
        ensures
            r == (self matches Token::Punct(c, _) && c == ','),
    {
        matches!(self, Token::Punct(',', _))
    }

    /// True when this token is the given punctuation character, whatever its
    /// spacing.
    pub fn is_punct_char(&self, c: char) -> (r: bool)
        ensures
            r == (self matches Token::Punct(c2, _) && c2 == c),
    {
        match self {
            Token::Punct(c2, _) => *c2 == c,
            _ => false,
        }
    }

    /// True when this token is a lone `=`, not joined into a longer operator.
    pub fn is_eq_alone(&self) -> (r: bool)
        ensures
            r == (self matches Token::Punct(c, j) && c == '=' && j == false),
    {
        matches!(self, Token::Punct('=', false))
    }

    /// True when this token is a group with the given delimiter.
    pub fn is_group_of(&self, d: Delim) -> (r: bool)
        ensures
            r == (self matches Token::Group(e, _) && d == e),
    {
        match self {
            Token::Group(e, _) => d == *e,
            _ => false,
        }
    }

    /// True when this token is a literal whose text has the shape of an
    /// integer literal.
    pub fn is_int_lit(&self) -> (r: bool)
        ensures
            r == (self matches Token::Lit(s) && is_int_lit_text(s@)),
    {
        match self {
            Token::Lit(s) => {
                let n = s.unicode_len();
                if n == 0 {
                    return false;
                }
                let c0 = s.get_char(0);
                if !('0' <= c0 && c0 <= '9') {
                    return false;
                }
                let prefixed = n >= 2 && c0 == '0' && {
                    let c1 = s.get_char(1);
                    c1 == 'x' || c1 == 'o' || c1 == 'b'
                };
                proof {
                    assert(prefixed == has_radix_prefix(s@));
                }
                let mut i: usize = 0;
                while i < n
                    invariant
                        0 <= i <= n,
                        n == s@.len(),
                        self matches Token::Lit(x) && x@ == s@,
                        prefixed == has_radix_prefix(s@),
                        forall|j: int| 0 <= j < i ==> (#[trigger] s@[j]) != '.',
                        !prefixed ==> forall|j: int|
                            0 <= j < i ==> (#[trigger] s@[j]) != 'e' && s@[j] != 'E',
                    decreases n - i,
                {
                    let c = s.get_char(i);
                    if c == '.' {
                        proof {
                            assert(s@[i as int] == '.');
                        }
                        return false;
                    }
                    if !prefixed && (c == 'e' || c == 'E') {
                        proof {
                            assert(s@[i as int] == 'e' || s@[i as int] == 'E');
                        }
                        return false;
                    }
                    i += 1;
                }
                true
            },
            _ => false,
        }
    }

    /// True when this token is a literal whose text has the shape of a
    /// string literal, quoted or raw.
    pub fn is_str_lit(&self) -> (r: bool)
        ensures
            r == (self matches Token::Lit(s) && is_str_lit_text(s@)),
    {
        match self {
            Token::Lit(s) => {
                if s.unicode_len() == 0 {
                    false
                } else {
                    let c = s.get_char(0);
                    c == '"' || c == 'r'
                }
            },
            _ => false,
        }
    }

    /// The value of a string literal token: the unescaped contents of a
    /// quoted literal, or the verbatim contents of a raw literal.
    pub fn str_lit_value(&self) -> (r: Option<String>)
        ensures
            r matches Some(v) ==> (self matches Token::Lit(s) && spec_str_lit_value(s@) == Some(
                v@,
            )),
            r is None ==> !(self matches Token::Lit(s) && spec_str_lit_value(s@) is Some),
    {
        match self {
            Token::Lit(s) => {
                let n = s.unicode_len();
                if n >= 2 && s.get_char(0) == '"' && s.get_char(n - 1) == '"' {
                    let mid = s.substring_char(1, n - 1);
                    return Some(unescape_chars(mid));
                }
                if n >= 1 && s.get_char(0) == 'r' {
                    let k = hash_run_exec(s, 1);
                    if n >= 3 && k <= (n - 3) / 2 && s.get_char(1 + k) == '"' && s.get_char(
                        n - 1 - k,
                    ) == '"' {
                        proof {
                            assert(n >= 2 * k + 3);
                        }
                        let mut i: usize = n - k;
                        while i < n
                            invariant
                                n - k <= i <= n,
                                n == s@.len(),
                                self matches Token::Lit(x) && x@ == s@,
                                s@[0] == 'r',
                                k == hash_run(s@, 1),
                                n >= 2 * k + 3,
                                s@[1 + k] == '"',
                                s@[n - 1 - k] == '"',
                                forall|j: int| n - k <= j < i ==> (#[trigger] s@[j]) == '#',
                            decreases n - i,
                        {
                            if s.get_char(i) != '#' {
                                proof {
                                    assert(s@[i as int] != '#');
                                }
                                return None;
                            }
                            i += 1;
                        }
                        let mid = s.substring_char(2 + k, n - 1 - k);
                        return Some(mid.to_owned());
                    }
                    proof {
                        assert(!(s@.len() >= 2 * hash_run(s@, 1) + 3 && s@[1 + hash_run(s@, 1)]
                            == '"' && s@[s@.len() - 1 - hash_run(s@, 1)] == '"'));
                    }
                    return None;
                }
                None
            },
            _ => None,
        }
    }

    /// Clones a token tree.
    pub fn deep_clone(&self) -> (r: Token)
        ensures
            r@ == self@,
        decreases *self,
    {
        match self {
            Token::Ident(s) => Token::Ident(s.clone()),
            Token::Punct(c, j) => Token::Punct(*c, *j),
            Token::Lit(s) => Token::Lit(s.clone()),
            Token::Group(d, ts) => Token::Group(*d, clone_tokens(ts)),
        }
    }
}

/// A radix prefix at the head of a literal's text.
pub open spec fn has_radix_prefix(s: Seq<char>) -> bool {
    s.len() >= 2 && s[0] == '0' && (s[1] == 'x' || s[1] == 'o' || s[1] == 'b')
}

/// The text shape of an integer literal: it begins with a digit, contains
/// no decimal point, and, unless written with a radix prefix, no exponent
/// letter.
pub open spec fn is_int_lit_text(s: Seq<char>) -> bool {
    &&& s.len() > 0
    &&& '0' <= s[0] && s[0] <= '9'
    &&& forall|i: int| 0 <= i < s.len() ==> s[i] != '.'
    &&& (has_radix_prefix(s) || (forall|i: int|
        0 <= i < s.len() ==> s[i] != 'e' && s[i] != 'E'))
}

/// The text shape of a string literal: a quoted form, or a raw form
/// beginning with `r`.
pub open spec fn is_str_lit_text(s: Seq<char>) -> bool {
    s.len() > 0 && (s[0] == '"' || s[0] == 'r')
}

/// The number of consecutive `#` characters from position `i`.
pub open spec fn hash_run(s: Seq<char>, i: int) -> int
    decreases s.len() - i,
    when 0 <= i <= s.len()
{
    if i < s.len() && s[i] == '#' {
        1 + hash_run(s, i + 1)
    } else {
        0
    }
}

/// The hash run is bounded by the remaining text.
pub proof fn lemma_hash_run_bounds(s: Seq<char>, i: int)
    requires
        0 <= i <= s.len(),
    ensures
        0 <= hash_run(s, i) <= s.len() - i,
    decreases s.len() - i,
{
    if i < s.len() && s[i] == '#' {
        lemma_hash_run_bounds(s, i + 1);
    }
}

/// The escapes of a quoted literal resolved: the single-character escapes
/// become their characters, and after any other backslash the following
/// character stands for itself; numeric and unicode escapes are outside
/// this model.
pub open spec fn spec_unescape(s: Seq<char>) -> Seq<char>
    decreases s.len(),
{
    if s.len() == 0 {
        Seq::empty()
    } else if s[0] == '\\' && s.len() >= 2 {
        let c = s[1];
        let u = if c == 'n' {
            '\n'
        } else if c == 'r' {
            '\r'
        } else if c == 't' {
            '\t'
        } else if c == '0' {
            '\0'
        } else {
            c
        };
        seq![u] + spec_unescape(s.skip(2))
    } else {
        seq![s[0]] + spec_unescape(s.skip(1))
    }
}

/// The value of a string literal's text: the unescaped contents of a
/// quoted form, or the verbatim contents of a raw form with its hash
/// fence.
pub open spec fn spec_str_lit_value(s: Seq<char>) -> Option<Seq<char>> {
    if s.len() >= 2 && s[0] == '"' && s.last() == '"' {
        Some(spec_unescape(s.subrange(1, s.len() - 1)))
    } else if s.len() >= 1 && s[0] == 'r' {
        let k = hash_run(s, 1);
        if s.len() >= 2 * k + 3 && s[1 + k] == '"' && s[s.len() - 1 - k] == '"' && (forall|i: int|
            s.len() - k <= i < s.len() ==> s[i] == '#') {
            Some(s.subrange(2 + k, s.len() - 1 - k))
        } else {
            None
        }
    } else {
        None
    }
}

/// Resolves the escapes of a quoted literal's contents.
pub fn unescape_chars(s: &str) -> (r: String)
    ensures
        r@ == spec_unescape(s@),
{
    let n = s.unicode_len();
    let mut out = String::new();
    let mut i: usize = 0;
    proof {
        assert(s@.skip(0) =~= s@);
        assert(Seq::<char>::empty() + spec_unescape(s@) =~= spec_unescape(s@));
    }
    while i < n
        invariant
            0 <= i <= n,
            n == s@.len(),
            out@ + spec_unescape(s@.skip(i as int)) == spec_unescape(s@),
        decreases n - i,
    {
        let ghost rest = s@.skip(i as int);
        proof {
            assert(rest[0] == s@[i as int]);
            assert(rest.len() == n - i);
        }
        let c = s.get_char(i);
        if c == '\\' && i + 1 < n {
            let e = s.get_char(i + 1);
            let u: char = if e == 'n' {
                '\n'
            } else if e == 'r' {
                '\r'
            } else if e == 't' {
                '\t'
            } else if e == '0' {
                '\0'
            } else {
                e
            };
            proof {
                assert(rest[1] == s@[i + 1]);
                assert(rest.skip(2) =~= s@.skip(i + 2));
                assert(spec_unescape(rest) == seq![u] + spec_unescape(s@.skip(i + 2)));
            }
            crate::err::push_char(&mut out, u);
            proof {
                assert(out@ + spec_unescape(s@.skip(i + 2)) =~= spec_unescape(s@));
            }
            i += 2;
        } else {
            proof {
                assert(rest.skip(1) =~= s@.skip(i + 1));
                assert(spec_unescape(rest) == seq![c] + spec_unescape(s@.skip(i + 1)));
            }
            crate::err::push_char(&mut out, c);
            proof {
                assert(out@ + spec_unescape(s@.skip(i + 1)) =~= spec_unescape(s@));
            }
            i += 1;
        }
    }
    proof {
        assert(s@.skip(n as int) =~= Seq::<char>::empty());
        assert(out@ + Seq::<char>::empty() =~= out@);
    }
    out
}

/// Counts the consecutive `#` characters from position `i`.
fn hash_run_exec(s: &str, i: usize) -> (r: usize)
    requires
        i <= s@.len(),
    ensures
        r == hash_run(s@, i as int),
        i + r <= s@.len(),
    decreases s@.len() - i,
{
    proof {
        lemma_hash_run_bounds(s@, i as int);
    }
    if i < s.unicode_len() && s.get_char(i) == '#' {
        1 + hash_run_exec(s, i + 1)
    } else {
        0
    }
}

/// Clones a token list.
pub fn clone_tokens(ts: &Vec<Token>) -> (r: Vec<Token>)
    ensures
        toks_view(r@) == toks_view(ts@),
        r@.len() == ts@.len(),
    decreases ts,
{
    let mut r: Vec<Token> = Vec::new();
    let mut i: usize = 0;
    while i < ts.len()
        invariant
            0 <= i <= ts@.len(),
            r@.len() == i,
            forall|j: int| 0 <= j < i ==> (#[trigger] r@[j])@ == ts@[j]@,
        decreases ts@.len() - i,
    {
        let t = &ts[i];
        r.push(t.deep_clone());
        i += 1;
    }
    proof {
        lemma_toks_view_pointwise(r@, ts@);
    }
    r
}

/// Two token lists whose elements have equal values have equal list values.
pub proof fn lemma_toks_view_pointwise(a: Seq<Token>, b: Seq<Token>)
    requires
        a.len() == b.len(),
        forall|j: int| 0 <= j < a.len() ==> (#[trigger] a[j])@ == b[j]@,
    ensures
        toks_view(a) == toks_view(b),
    decreases a.len(),
{
    if a.len() > 0 {
        assert(a[0]@ == b[0]@);
        lemma_toks_view_pointwise(a.drop_first(), b.drop_first());
        assert(toks_view(a) =~= toks_view(b));
    } else {
        assert(toks_view(a) =~= toks_view(b));
    }
}

/// The value of a token list indexes pointwise into the values of its tokens.
pub proof fn lemma_toks_view_index(ts: Seq<Token>)
    ensures
        toks_view(ts).len() == ts.len(),
        forall|i: int| 0 <= i < ts.len() ==> toks_view(ts)[i] == (#[trigger] ts[i])@,
    decreases ts.len(),
{
    if ts.len() > 0 {
        lemma_toks_view_index(ts.drop_first());
        assert forall|i: int| 0 <= i < ts.len() implies toks_view(ts)[i] == (#[trigger] ts[i])@ by {
            if i > 0 {
                assert(toks_view(ts.drop_first())[i - 1] == ts.drop_first()[i - 1]@);
            }
        }
    }
}

/// Appending one token appends its value to the list's value.
pub proof fn lemma_toks_view_push(ts: Seq<Token>, t: Token)
    ensures
        toks_view(ts.push(t)) == toks_view(ts) + seq![token_view(t)],
    decreases ts.len(),
{
    if ts.len() == 0 {
        assert(ts.push(t).drop_first() =~= ts);
        assert(toks_view(ts.push(t)) =~= toks_view(ts) + seq![token_view(t)]);
    } else {
        assert(ts.push(t).drop_first() =~= ts.drop_first().push(t));
        lemma_toks_view_push(ts.drop_first(), t);
        assert(toks_view(ts.push(t)) =~= toks_view(ts) + seq![token_view(t)]);
    }
}

/// The value of a concatenation is the concatenation of the values.
pub proof fn lemma_toks_view_concat(a: Seq<Token>, b: Seq<Token>)
    ensures
        toks_view(a + b) == toks_view(a) + toks_view(b),
    decreases a.len(),
{
    if a.len() == 0 {
        assert(a + b =~= b);
        assert(toks_view(a + b) =~= toks_view(a) + toks_view(b));
    } else {
        assert((a + b).drop_first() =~= a.drop_first() + b);
        lemma_toks_view_concat(a.drop_first(), b);
        assert((a + b)[0] == a[0]);
        assert(toks_view(a + b) =~= toks_view(a) + toks_view(b));
    }
}

/// Clones a range of a token list.
pub fn clone_range(ts: &Vec<Token>, a: usize, b: usize) -> (r: Vec<Token>)
    requires
        a <= b <= ts@.len(),
    ensures
        toks_view(r@) == toks_view(ts@).subrange(a as int, b as int),
        r@.len() == b - a,
{
    let mut r: Vec<Token> = Vec::new();
    let mut i: usize = a;
    while i < b
        invariant
            a <= i <= b <= ts@.len(),
            r@.len() == i - a,
            forall|j: int| 0 <= j < i - a ==> (#[trigger] r@[j])@ == ts@[a + j]@,
        decreases b - i,
    {
        r.push(ts[i].deep_clone());
        i += 1;
    }
    proof {
        lemma_toks_view_index(r@);
        lemma_toks_view_index(ts@);
        assert forall|j: int| 0 <= j < b - a implies toks_view(r@)[j] == toks_view(
            ts@,
        ).subrange(a as int, b as int)[j] by {
            assert(toks_view(r@)[j] == r@[j]@);
            assert(toks_view(ts@)[a + j] == ts@[a + j]@);
        }
        assert(toks_view(r@) =~= toks_view(ts@).subrange(a as int, b as int));
    }
    r
}

} // verus!

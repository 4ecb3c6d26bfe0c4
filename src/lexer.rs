//! Character classes and tokens of the property-list text format.

use vstd::prelude::*;
use crate::text::string_from_chars;

verus! {

pub open spec fn digit_char(c: char) -> bool {
    '0' <= c && c <= '9'
}

pub open spec fn numeric_char(c: char) -> bool {
    digit_char(c) || c == '.' || c == '-'
}

/// The characters that may form a bareword atom.
pub open spec fn alnum_char(c: char) -> bool {
    numeric_char(c) || ('A' <= c && c <= 'Z') || ('a' <= c && c <= 'z') || c == '_' || c == '$'
        || c == '/' || c == ':'
}

/// The characters that may stand in a string written without quotes.
pub open spec fn alnum_strict_char(c: char) -> bool {
    alnum_char(c) && c != '-'
}

pub open spec fn hex_upper_char(c: char) -> bool {
    digit_char(c) || ('A' <= c && c <= 'F')
}

pub open spec fn ws_char(c: char) -> bool {
    c == ' ' || c == '\t' || c == '\r' || c == '\n'
}

pub fn is_numeric(c: char) -> (r: bool)
    ensures
        r == numeric_char(c),
{
    ('0' <= c && c <= '9') || c == '.' || c == '-'
}

pub fn is_alnum(c: char) -> (r: bool)
    ensures
        r == alnum_char(c),
{
    is_numeric(c) || ('A' <= c && c <= 'Z') || ('a' <= c && c <= 'z') || c == '_' || c == '$'
        || c == '/' || c == ':' || c == '.' || c == '-'
}

/// Like `is_alnum`, but without `-`, so that identifiers such as UUIDs get quoted.
pub fn is_alnum_strict(c: char) -> (r: bool)
    ensures
        r == alnum_strict_char(c),
{
    is_alnum(c) && c != '-'
}

pub fn is_hex_upper(c: char) -> (r: bool)
    ensures
        r == hex_upper_char(c),
{
    ('0' <= c && c <= '9') || ('A' <= c && c <= 'F')
}

pub fn is_ascii_whitespace(c: char) -> (r: bool)
    ensures
        r == ws_char(c),
{
    c == ' ' || c == '\t' || c == '\r' || c == '\n'
}

/// The first index at or after `ix` that does not hold whitespace.
pub open spec fn skip_ws_spec(s: Seq<char>, ix: int) -> int
    decreases s.len() - ix,
{
    if 0 <= ix < s.len() && ws_char(s[ix]) {
        skip_ws_spec(s, ix + 1)
    } else {
        ix
    }
}

pub proof fn lemma_skip_ws_bounds(s: Seq<char>, ix: int)
    requires
        0 <= ix <= s.len(),
    ensures
        ix <= skip_ws_spec(s, ix) <= s.len(),
        skip_ws_spec(s, ix) < s.len() ==> !ws_char(s[skip_ws_spec(s, ix)]),
    decreases s.len() - ix,
{
    if ix < s.len() && ws_char(s[ix]) {
        lemma_skip_ws_bounds(s, ix + 1);
    }
}

pub fn skip_ws(s: &[char], ix: usize) -> (r: usize)
    requires
        ix <= s@.len(),
    ensures
        r == skip_ws_spec(s@, ix as int),
        ix <= r <= s@.len(),
{
    let mut i: usize = ix;
    proof { lemma_skip_ws_bounds(s@, ix as int); }
    while i < s.len() && is_ascii_whitespace(s[i])
        invariant
            ix <= i <= s@.len(),
            skip_ws_spec(s@, i as int) == skip_ws_spec(s@, ix as int),
        decreases s@.len() - i,
    {
        i = i + 1;
    }
    i
}

/// An optional index, read as a mathematical integer.
pub open spec fn opt_index(o: Option<usize>) -> Option<int> {
    match o {
        Some(j) => Some(j as int),
        None => None,
    }
}

/// The index after `delim`, if `delim` is the next character other than whitespace.
pub open spec fn expect_spec(s: Seq<char>, ix: int, delim: char) -> Option<int> {
    let j = skip_ws_spec(s, ix);
    if j < s.len() && s[j] == delim {
        Some(j + 1)
    } else {
        None
    }
}


/// Errors of the text format; each one ends the whole parse.
#[derive(Clone, Debug, PartialEq, Eq)]
pub enum Error {
    UnexpectedChar(char),
    UnclosedString,
    UnknownEscape,
    NotAString,
    ExpectedEquals,
    ExpectedComma,
    ExpectedSemicolon,
    SomethingWentWrong,
}

pub enum Token {
    Eof,
    OpenBrace,
    OpenParen,
    String(String),
    Atom(String),
}

/// A token, with its text as a sequence of characters.
pub enum TokenView {
    Eof,
    OpenBrace,
    OpenParen,
    Str(Seq<char>),
    Atom(Seq<char>),
}

impl View for Token {
    type V = TokenView;

    open spec fn view(&self) -> TokenView {
        match self {
            Token::Eof => TokenView::Eof,
            Token::OpenBrace => TokenView::OpenBrace,
            Token::OpenParen => TokenView::OpenParen,
            Token::String(t) => TokenView::Str(t@),
            Token::Atom(t) => TokenView::Atom(t@),
        }
    }
}

/// The end of the run of atom characters that starts at `i`.
pub open spec fn atom_end(s: Seq<char>, i: int) -> int
    decreases s.len() - i,
{
    if 0 <= i < s.len() && alnum_char(s[i]) {
        atom_end(s, i + 1)
    } else {
        i
    }
}

pub open spec fn octal_digit(c: char) -> bool {
    '0' <= c && c <= '7'
}

/// The character of a three-digit octal escape whose first digit is at most 3.
pub open spec fn octal_char(a: char, b: char, c: char) -> char {
    (((a as int - 48) * 64 + (b as int - 48) * 8 + (c as int - 48)) as u8) as char
}

/// The rest of a quoted string from `ix`, after the characters `acc` were read.
pub open spec fn lex_quoted(s: Seq<char>, ix: int, acc: Seq<char>) -> Result<(TokenView, int), Error>
    decreases s.len() - ix,
{
    if ix < 0 || ix >= s.len() {
        Err(Error::UnclosedString)
    } else if s[ix] == '"' {
        Ok((TokenView::Str(acc), ix + 1))
    } else if s[ix] == '\\' {
        if ix + 1 >= s.len() {
            Err(Error::UnclosedString)
        } else {
            let d = s[ix + 1];
            if d == '"' || d == '\\' {
                lex_quoted(s, ix + 2, acc.push(d))
            } else if d == 'n' {
                lex_quoted(s, ix + 2, acc.push('\n'))
            } else if d == 'r' {
                lex_quoted(s, ix + 2, acc.push('\r'))
            } else if '0' <= d && d <= '3' && ix + 3 < s.len() && octal_digit(s[ix + 2])
                && octal_digit(s[ix + 3]) {
                lex_quoted(s, ix + 4, acc.push(octal_char(d, s[ix + 2], s[ix + 3])))
            } else {
                Err(Error::UnknownEscape)
            }
        }
    } else {
        lex_quoted(s, ix + 1, acc.push(s[ix]))
    }
}

/// The token that starts at or after `ix`, and the index after it.
pub open spec fn lex_spec(s: Seq<char>, ix: int) -> Result<(TokenView, int), Error> {
    let st = skip_ws_spec(s, ix);
    if st >= s.len() {
        Ok((TokenView::Eof, st))
    } else if s[st] == '{' {
        Ok((TokenView::OpenBrace, st + 1))
    } else if s[st] == '(' {
        Ok((TokenView::OpenParen, st + 1))
    } else if s[st] == '"' {
        lex_quoted(s, st + 1, Seq::empty())
    } else if alnum_char(s[st]) {
        let e = atom_end(s, st + 1);
        Ok((TokenView::Atom(s.subrange(st, e)), e))
    } else {
        Err(Error::UnexpectedChar(s[st]))
    }
}

pub proof fn lemma_atom_end_bounds(s: Seq<char>, i: int)
    requires
        0 <= i <= s.len(),
    ensures
        i <= atom_end(s, i) <= s.len(),
        forall|k: int| i <= k < atom_end(s, i) ==> alnum_char(#[trigger] s[k]),
        atom_end(s, i) < s.len() ==> !alnum_char(s[atom_end(s, i)]),
    decreases s.len() - i,
{
    if i < s.len() && alnum_char(s[i]) {
        lemma_atom_end_bounds(s, i + 1);
    }
}

pub proof fn lemma_lex_quoted_bounds(s: Seq<char>, ix: int, acc: Seq<char>)
    ensures
        lex_quoted(s, ix, acc) matches Ok((t, j)) ==> ix < j <= s.len() && t is Str,
    decreases s.len() - ix,
{
    if 0 <= ix < s.len() && s[ix] != '"' {
        if s[ix] == '\\' {
            if ix + 1 < s.len() {
                let d = s[ix + 1];
                if d == '"' || d == '\\' {
                    lemma_lex_quoted_bounds(s, ix + 2, acc.push(d));
                } else if d == 'n' {
                    lemma_lex_quoted_bounds(s, ix + 2, acc.push('\n'));
                } else if d == 'r' {
                    lemma_lex_quoted_bounds(s, ix + 2, acc.push('\r'));
                } else if '0' <= d && d <= '3' && ix + 3 < s.len() && octal_digit(s[ix + 2])
                    && octal_digit(s[ix + 3]) {
                    lemma_lex_quoted_bounds(s, ix + 4, acc.push(octal_char(d, s[ix + 2], s[ix + 3])));
                }
            }
        } else {
            lemma_lex_quoted_bounds(s, ix + 1, acc.push(s[ix]));
        }
    }
}

/// The text that a key token stands for.
pub open spec fn token_string(t: TokenView) -> Result<Seq<char>, Error> {
    match t {
        TokenView::Atom(x) => Ok(x),
        TokenView::Str(x) => Ok(x),
        _ => Err(Error::NotAString),
    }
}

pub open spec fn string_result(r: Result<String, Error>) -> Result<Seq<char>, Error> {
    match r {
        Ok(t) => Ok(t@),
        Err(e) => Err(e),
    }
}

pub open spec fn lex_result(r: Result<(Token, usize), Error>) -> Result<(TokenView, int), Error> {
    match r {
        Ok((t, j)) => Ok((t@, j as int)),
        Err(e) => Err(e),
    }
}

impl Token {
    /// Reads the quoted string whose opening quote stands just before `start`.
    fn lex_quoted_string(s: &[char], start: usize) -> (r: Result<(Token, usize), Error>)
        requires
            start <= s@.len(),
        ensures
            lex_result(r) == lex_quoted(s@, start as int, Seq::empty()),
    {
        let mut ix: usize = start;
        let mut buf: Vec<char> = Vec::new();
        while ix < s.len()
            invariant
                start <= ix <= s@.len(),
                lex_quoted(s@, ix as int, buf@) == lex_quoted(s@, start as int, Seq::empty()),
            decreases s@.len() - ix,
        {
            let c = s[ix];
            if c == '"' {
                let text = string_from_chars(buf.as_slice());
                return Ok((Token::String(text), ix + 1));
            } else if c == '\\' {
                if ix + 1 == s.len() {
                    return Err(Error::UnclosedString);
                }
                let d = s[ix + 1];
                if d == '"' || d == '\\' {
                    buf.push(d);
                    ix = ix + 2;
                } else if d == 'n' {
                    buf.push('\n');
                    ix = ix + 2;
                } else if d == 'r' {
                    buf.push('\r');
                    ix = ix + 2;
                } else if '0' <= d && d <= '3' && s.len() - ix > 3 && '0' <= s[ix + 2] && s[ix + 2]
                    <= '7' && '0' <= s[ix + 3] && s[ix + 3] <= '7' {
                    let oct: u32 = (d as u32 - 48) * 64 + (s[ix + 2] as u32 - 48) * 8 + (s[ix + 3] as u32
                        - 48);
                    let b: u8 = oct as u8;
                    buf.push(b as char);
                    ix = ix + 4;
                } else {
                    return Err(Error::UnknownEscape);
                }
            } else {
                buf.push(c);
                ix = ix + 1;
            }
        }
        Err(Error::UnclosedString)
    }

    /// Reads the token that starts at or after `ix`.
    pub fn lex(s: &[char], ix: usize) -> (r: Result<(Token, usize), Error>)
        requires
            ix <= s@.len(),
        ensures
            lex_result(r) == lex_spec(s@, ix as int),
            r matches Ok((t, j)) ==> j <= s@.len() && (!(t is Eof) ==> ix < j),
    {
        let start = skip_ws(s, ix);
        if start == s.len() {
            return Ok((Token::Eof, start));
        }
        let c = s[start];
        if c == '{' {
            Ok((Token::OpenBrace, start + 1))
        } else if c == '(' {
            Ok((Token::OpenParen, start + 1))
        } else if c == '"' {
            proof { lemma_lex_quoted_bounds(s@, start + 1, Seq::empty()); }
            Token::lex_quoted_string(s, start + 1)
        } else if is_alnum(c) {
            let mut e: usize = start + 1;
            while e < s.len() && is_alnum(s[e])
                invariant
                    start < e <= s@.len(),
                    atom_end(s@, e as int) == atom_end(s@, start + 1),
                decreases s@.len() - e,
            {
                e = e + 1;
            }
            let text = string_from_chars(&s[start..e]);
            Ok((Token::Atom(text), e))
        } else {
            Err(Error::UnexpectedChar(c))
        }
    }

    /// The index after `delim`, if it is the next character other than whitespace.
    pub fn expect(s: &[char], ix: usize, delim: char) -> (r: Option<usize>)
        requires
            ix <= s@.len(),
        ensures
            opt_index(r) == expect_spec(s@, ix as int, delim),
            r matches Some(j) ==> ix < j <= s@.len(),
    {
        let j = skip_ws(s, ix);
        if j < s.len() && s[j] == delim {
            Some(j + 1)
        } else {
            None
        }
    }

    /// The text of a string or atom token, as a dictionary key takes it.
    pub fn try_into_string(self) -> (r: Result<String, Error>)
        ensures
            string_result(r) == token_string(self@),
    {
        match self {
            Token::Atom(t) => Ok(t),
            Token::String(t) => Ok(t),
            _ => Err(Error::NotAString),
        }
    }
}

} // verus!

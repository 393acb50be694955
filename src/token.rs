use vstd::prelude::*;

verus! {

/// The three kinds of bracket that delimit a group of tokens.
#[derive(Clone, Copy, PartialEq, Eq, Debug, Structural)]
pub enum Delim {
    Paren,
    Bracket,
    Brace,
}

/// One token of a configuration block, as the compiler's lexer hands it over.
/// Groups are flattened: a group is its `Open` token, its contents, and its `Close` token.
pub enum Token {
    Ident(String),
    /// A punctuation character; `joint` is set when the next character belongs to the
    /// same operator (the first `:` of `::`).
    Punct { ch: char, joint: bool },
    Literal(String),
    Open(Delim),
    Close(Delim),
}

impl Token {
    pub fn ident(text: &str) -> (r: Token)
        ensures
            r matches Token::Ident(s) && s@ == text@,
    {
        Token::Ident(String::from_str(text))
    }

    pub fn punct(ch: char, joint: bool) -> (r: Token)
        ensures
            r == (Token::Punct { ch, joint }),
    {
        Token::Punct { ch, joint }
    }
}

pub open spec fn is_ident(t: Seq<Token>, i: int) -> bool {
    0 <= i < t.len() && t[i] is Ident
}

pub open spec fn ident_text(t: Seq<Token>, i: int) -> Seq<char> {
    match t[i] {
        Token::Ident(s) => s@,
        _ => Seq::empty(),
    }
}

pub open spec fn is_punct(t: Seq<Token>, i: int, c: char) -> bool {
    0 <= i < t.len() && (t[i] matches Token::Punct { ch, joint } && ch == c)
}

pub open spec fn is_open(t: Seq<Token>, i: int, d: Delim) -> bool {
    0 <= i < t.len() && (t[i] matches Token::Open(e) && e == d)
}

pub open spec fn is_close(t: Seq<Token>, i: int, d: Delim) -> bool {
    0 <= i < t.len() && (t[i] matches Token::Close(e) && e == d)
}

/// A `::` path separator at `i`, both of its characters before `end`.
pub open spec fn is_path_sep(t: Seq<Token>, i: int, end: int) -> bool {
    &&& 0 <= i
    &&& i + 1 < end <= t.len()
    &&& t[i] matches Token::Punct { ch, joint } && ch == ':' && joint
    &&& is_punct(t, i + 1, ':')
}

pub fn token_is_punct(t: &Token, c: char) -> (r: bool)
    ensures
        r == (*t matches Token::Punct { ch, joint } && ch == c),
{
    match t {
        Token::Punct { ch, joint: _ } => *ch == c,
        _ => false,
    }
}

pub fn token_is_open(t: &Token, d: Delim) -> (r: bool)
    ensures
        r == (*t matches Token::Open(e) && e == d),
{
    match t {
        Token::Open(e) => *e == d,
        _ => false,
    }
}

pub fn token_is_close(t: &Token, d: Delim) -> (r: bool)
    ensures
        r == (*t matches Token::Close(e) && e == d),
{
    match t {
        Token::Close(e) => *e == d,
        _ => false,
    }
}

pub fn path_sep_at(t: &Vec<Token>, i: usize, end: usize) -> (r: bool)
    requires
        end <= t@.len(),
    ensures
        r == is_path_sep(t@, i as int, end as int),
{
    if i < end && i + 1 < end {
        let sep = match &t[i] {
            Token::Punct { ch, joint } => *ch == ':' && *joint,
            _ => false,
        };
        sep && token_is_punct(&t[i + 1], ':')
    } else {
        false
    }
}

} // verus!

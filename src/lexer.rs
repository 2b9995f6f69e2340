use vstd::prelude::*;

use crate::target::chars_of;

verus! {

/// A token of the source language. Integer literals keep their digits; the
/// parser converts them.
#[derive(Debug, Clone, PartialEq, Eq)]
pub enum Token {
    Ident(String),
    Int(String),
    Str(String),
    LParen,
    RParen,
    LBrace,
    RBrace,
    Comma,
    Semi,
    Dot,
    Assign,
    Op(char),
}

/// A token as the contracts see it.
pub enum TokenView {
    Ident(Seq<char>),
    Int(Seq<char>),
    Str(Seq<char>),
    LParen,
    RParen,
    LBrace,
    RBrace,
    Comma,
    Semi,
    Dot,
    Assign,
    Op(char),
}

impl View for Token {
    type V = TokenView;

    open spec fn view(&self) -> TokenView {
        match self {
            Token::Ident(s) => TokenView::Ident(s@),
            Token::Int(s) => TokenView::Int(s@),
            Token::Str(s) => TokenView::Str(s@),
            Token::LParen => TokenView::LParen,
            Token::RParen => TokenView::RParen,
            Token::LBrace => TokenView::LBrace,
            Token::RBrace => TokenView::RBrace,
            Token::Comma => TokenView::Comma,
            Token::Semi => TokenView::Semi,
            Token::Dot => TokenView::Dot,
            Token::Assign => TokenView::Assign,
            Token::Op(c) => TokenView::Op(*c),
        }
    }
}

pub open spec fn tokens_view(t: Seq<Token>) -> Seq<TokenView> {
    t.map_values(|x: Token| x@)
}

/// Why the source text could not be split into tokens.
#[derive(Debug, Clone, Copy, PartialEq, Eq)]
pub enum LexError {
    /// The character at this index starts no token.
    UnexpectedChar(usize),
    /// The quote at this index has no closing quote.
    UnterminatedString(usize),
}

pub open spec fn is_space(c: char) -> bool {
    c == ' ' || c == '\t' || c == '\n' || c == '\r'
}

pub open spec fn is_digit(c: char) -> bool {
    '0' <= c <= '9'
}

pub open spec fn is_ident_start(c: char) -> bool {
    ('a' <= c <= 'z') || ('A' <= c <= 'Z') || c == '_' || c == '$'
}

pub open spec fn is_ident_char(c: char) -> bool {
    is_ident_start(c) || is_digit(c)
}

/// The one-character tokens.
pub open spec fn punct(c: char) -> Option<TokenView> {
    if c == '(' {
        Some(TokenView::LParen)
    } else if c == ')' {
        Some(TokenView::RParen)
    } else if c == '{' {
        Some(TokenView::LBrace)
    } else if c == '}' {
        Some(TokenView::RBrace)
    } else if c == ',' {
        Some(TokenView::Comma)
    } else if c == ';' {
        Some(TokenView::Semi)
    } else if c == '.' {
        Some(TokenView::Dot)
    } else if c == '=' {
        Some(TokenView::Assign)
    } else if c == '+' || c == '-' || c == '*' || c == '/' || c == '%' || c == '<' || c == '>' || c == '!' {
        Some(TokenView::Op(c))
    } else {
        None
    }
}

/// The end of the run of characters from `k` on that `ident` (identifier
/// characters) or `!ident` (digits) accepts.
pub open spec fn run_end(s: Seq<char>, k: int, ident: bool) -> int
    decreases s.len() - k,
{
    if k >= s.len() {
        s.len() as int
    } else if (if ident { is_ident_char(s[k]) } else { is_digit(s[k]) }) {
        run_end(s, k + 1, ident)
    } else {
        k
    }
}

/// The index of the first quote at or after `k`, or the length.
pub open spec fn quote_end(s: Seq<char>, k: int) -> int
    decreases s.len() - k,
{
    if k >= s.len() {
        s.len() as int
    } else if s[k] == '\'' {
        k
    } else {
        quote_end(s, k + 1)
    }
}

pub open spec fn prepend(t: TokenView, r: Result<Seq<TokenView>, LexError>) -> Result<Seq<TokenView>, LexError> {
    match r {
        Ok(ts) => Ok(seq![t] + ts),
        Err(e) => Err(e),
    }
}

/// The tokens of `s[k..]`: blanks separate tokens; identifiers, keywords and
/// digit runs are as long as possible; a string literal runs from a single
/// quote to the next one.
pub open spec fn lex_from(s: Seq<char>, k: int) -> Result<Seq<TokenView>, LexError>
    decreases s.len() - k via lex_from_decreases
{
    if k < 0 || k >= s.len() {
        Ok(seq![])
    } else {
        let c = s[k];
        if is_space(c) {
            lex_from(s, k + 1)
        } else if is_ident_start(c) {
            let e = run_end(s, k + 1, true);
            prepend(TokenView::Ident(s.subrange(k, e)), lex_from(s, e))
        } else if is_digit(c) {
            let e = run_end(s, k + 1, false);
            prepend(TokenView::Int(s.subrange(k, e)), lex_from(s, e))
        } else if c == '\'' {
            let e = quote_end(s, k + 1);
            if e >= s.len() {
                Err(LexError::UnterminatedString(k as usize))
            } else {
                prepend(TokenView::Str(s.subrange(k + 1, e)), lex_from(s, e + 1))
            }
        } else {
            match punct(c) {
                Some(t) => prepend(t, lex_from(s, k + 1)),
                None => Err(LexError::UnexpectedChar(k as usize)),
            }
        }
    }
}

#[via_fn]
proof fn lex_from_decreases(s: Seq<char>, k: int) {
    if 0 <= k < s.len() {
        lemma_run_end_bounds(s, k + 1, true);
        lemma_run_end_bounds(s, k + 1, false);
        lemma_quote_end_bounds(s, k + 1);
    }
}

pub open spec fn lex(s: Seq<char>) -> Result<Seq<TokenView>, LexError> {
    lex_from(s, 0)
}

pub open spec fn glue(p: Seq<TokenView>, r: Result<Seq<TokenView>, LexError>) -> Result<Seq<TokenView>, LexError> {
    match r {
        Ok(ts) => Ok(p + ts),
        Err(e) => Err(e),
    }
}

proof fn lemma_run_end_bounds(s: Seq<char>, k: int, ident: bool)
    requires
        0 <= k <= s.len(),
    ensures
        k <= run_end(s, k, ident) <= s.len(),
    decreases s.len() - k,
{
    if k < s.len() {
        lemma_run_end_bounds(s, k + 1, ident);
    }
}

proof fn lemma_quote_end_bounds(s: Seq<char>, k: int)
    requires
        0 <= k <= s.len(),
    ensures
        k <= quote_end(s, k) <= s.len(),
    decreases s.len() - k,
{
    if k < s.len() {
        lemma_quote_end_bounds(s, k + 1);
    }
}

fn is_space_exec(c: char) -> (r: bool)
    ensures
        r == is_space(c),
{
    c == ' ' || c == '\t' || c == '\n' || c == '\r'
}

fn is_digit_exec(c: char) -> (r: bool)
    ensures
        r == is_digit(c),
{
    '0' <= c && c <= '9'
}

fn is_ident_start_exec(c: char) -> (r: bool)
    ensures
        r == is_ident_start(c),
{
    ('a' <= c && c <= 'z') || ('A' <= c && c <= 'Z') || c == '_' || c == '$'
}

fn punct_exec(c: char) -> (r: Option<Token>)
    ensures
        match r {
            Some(t) => punct(c) == Some(t@),
            None => punct(c) is None,
        },
{
    if c == '(' {
        Some(Token::LParen)
    } else if c == ')' {
        Some(Token::RParen)
    } else if c == '{' {
        Some(Token::LBrace)
    } else if c == '}' {
        Some(Token::RBrace)
    } else if c == ',' {
        Some(Token::Comma)
    } else if c == ';' {
        Some(Token::Semi)
    } else if c == '.' {
        Some(Token::Dot)
    } else if c == '=' {
        Some(Token::Assign)
    } else if c == '+' || c == '-' || c == '*' || c == '/' || c == '%' || c == '<' || c == '>' || c == '!' {
        Some(Token::Op(c))
    } else {
        None
    }
}

fn run_accepts(c: char, ident: bool) -> (r: bool)
    ensures
        r == (if ident { is_ident_char(c) } else { is_digit(c) }),
{
    if ident {
        is_ident_start_exec(c) || is_digit_exec(c)
    } else {
        is_digit_exec(c)
    }
}

fn run_end_exec(s: &Vec<char>, k: usize, ident: bool) -> (r: usize)
    requires
        k <= s.len(),
    ensures
        r == run_end(s@, k as int, ident),
        k <= r <= s.len(),
{
    let mut j = k;
    while j < s.len() && run_accepts(s[j], ident)
        invariant
            k <= j <= s.len(),
            run_end(s@, j as int, ident) == run_end(s@, k as int, ident),
        decreases s.len() - j,
    {
        j = j + 1;
    }
    j
}

fn quote_end_exec(s: &Vec<char>, k: usize) -> (r: usize)
    requires
        k <= s.len(),
    ensures
        r == quote_end(s@, k as int),
        k <= r <= s.len(),
{
    let mut j = k;
    while j < s.len() && s[j] != '\''
        invariant
            k <= j <= s.len(),
            quote_end(s@, j as int) == quote_end(s@, k as int),
        decreases s.len() - j,
    {
        j = j + 1;
    }
    j
}

/// Splits source text into tokens.
pub fn tokenize(src: &str) -> (r: Result<Vec<Token>, LexError>)
    ensures
        match r {
            Ok(ts) => lex(src@) == Ok::<Seq<TokenView>, LexError>(tokens_view(ts@)),
            Err(e) => lex(src@) == Err::<Seq<TokenView>, LexError>(e),
        },
{
    let s = chars_of(src);
    let n = s.len();
    let mut toks: Vec<Token> = Vec::new();
    let mut k: usize = 0;
    assert(tokens_view(toks@) =~= Seq::<TokenView>::empty());
    assert(glue(Seq::<TokenView>::empty(), lex_from(s@, 0)) =~= lex_from(s@, 0)) by {
        match lex_from(s@, 0) {
            Ok(ts) => {
                assert(Seq::<TokenView>::empty() + ts =~= ts);
            },
            Err(e) => {},
        }
    }
    while k < n
        invariant
            n == s.len(),
            s@ == src@,
            k <= n,
            lex(s@) == glue(tokens_view(toks@), lex_from(s@, k as int)),
        decreases n - k,
    {
        let ghost before = tokens_view(toks@);
        let c = s[k];
        if is_space_exec(c) {
            k = k + 1;
        } else if is_ident_start_exec(c) {
            let e = run_end_exec(&s, k + 1, true);
            let t = src.substring_char(k, e).to_owned();
            let ghost tv = TokenView::Ident(t@);
            toks.push(Token::Ident(t));
            proof {
                lemma_glue_push(before, tv, lex_from(s@, e as int));
                assert(tokens_view(toks@) =~= before.push(tv));
            }
            k = e;
        } else if is_digit_exec(c) {
            let e = run_end_exec(&s, k + 1, false);
            let t = src.substring_char(k, e).to_owned();
            let ghost tv = TokenView::Int(t@);
            toks.push(Token::Int(t));
            proof {
                lemma_glue_push(before, tv, lex_from(s@, e as int));
                assert(tokens_view(toks@) =~= before.push(tv));
            }
            k = e;
        } else if c == '\'' {
            let e = quote_end_exec(&s, k + 1);
            if e >= n {
                return Err(LexError::UnterminatedString(k));
            }
            let t = src.substring_char(k + 1, e).to_owned();
            let ghost tv = TokenView::Str(t@);
            toks.push(Token::Str(t));
            proof {
                lemma_glue_push(before, tv, lex_from(s@, e + 1));
                assert(tokens_view(toks@) =~= before.push(tv));
            }
            k = e + 1;
        } else {
            match punct_exec(c) {
                Some(t) => {
                    let ghost tv = t@;
                    toks.push(t);
                    proof {
                        lemma_glue_push(before, tv, lex_from(s@, k + 1));
                        assert(tokens_view(toks@) =~= before.push(tv));
                    }
                    k = k + 1;
                },
                None => {
                    return Err(LexError::UnexpectedChar(k));
                },
            }
        }
    }
    assert(lex(s@) == Ok::<Seq<TokenView>, LexError>(tokens_view(toks@))) by {
        assert(tokens_view(toks@) + Seq::<TokenView>::empty() =~= tokens_view(toks@));
    }
    Ok(toks)
}

proof fn lemma_glue_push(p: Seq<TokenView>, t: TokenView, r: Result<Seq<TokenView>, LexError>)
    ensures
        glue(p, prepend(t, r)) == glue(p.push(t), r),
{
    match r {
        Ok(ts) => {
            assert(p + (seq![t] + ts) =~= p.push(t) + ts);
        },
        Err(e) => {},
    }
}

} // verus!

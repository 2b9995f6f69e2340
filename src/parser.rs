use vstd::prelude::*;

use crate::lexer::{Token, TokenView, tokens_view};
use crate::nodes::Node;
use crate::target::chars_of;

verus! {

broadcast use vstd::std_specs::vec::group_vec_axioms, vstd::seq::group_seq_axioms;

/// Why a token sequence is not a program. The index is that of the token
/// where the grammar failed.
#[derive(Debug, Clone, Copy, PartialEq, Eq)]
pub enum ParseError {
    UnexpectedToken(usize),
    UnexpectedEnd,
    IntOutOfRange(usize),
}

pub open spec fn digit_value(c: char) -> int {
    (c as int) - ('0' as int)
}

/// The decimal value of a digit string.
pub open spec fn digits_value(d: Seq<char>) -> int
    decreases d.len(),
{
    if d.len() == 0 {
        0
    } else {
        digits_value(d.drop_last()) * 10 + digit_value(d.last())
    }
}

/// A syntax tree as the contracts see it.
pub enum NodeView {
    Int(int),
    Str(Seq<char>),
    Program(Seq<NodeView>),
    NamedFunction(Box<NodeView>, Seq<NodeView>, Seq<NodeView>),
    UnnamedFunction(Seq<NodeView>, Seq<NodeView>),
    Identifier(Seq<char>),
    Assignment(Box<NodeView>, Box<NodeView>),
    UnaryExpr(Seq<char>, Box<NodeView>),
    BinaryExpr(Box<NodeView>, Seq<char>, Box<NodeView>),
    FuncCall(Box<NodeView>, Seq<NodeView>),
    ObjectExpression(Box<NodeView>, Box<NodeView>),
    Empty,
}

/// The view of a syntax tree.
pub open spec fn nv(n: Node) -> NodeView
    decreases n, 1nat,
{
    match n {
        Node::Int(v) => NodeView::Int(v as int),
        Node::String(s) => NodeView::Str(s@),
        Node::Program { body } => NodeView::Program(nvs(body@)),
        Node::NamedFunction { id, parameters, body } => NodeView::NamedFunction(
            Box::new(nv(*id)),
            nvs(parameters@),
            nvs(body@),
        ),
        Node::UnnamedFunction { parameters, body } => NodeView::UnnamedFunction(nvs(parameters@), nvs(body@)),
        Node::Identifier { name } => NodeView::Identifier(name@),
        Node::Assignment { lhs, rhs } => NodeView::Assignment(Box::new(nv(*lhs)), Box::new(nv(*rhs))),
        Node::UnaryExpr { operator, rhs } => NodeView::UnaryExpr(operator@, Box::new(nv(*rhs))),
        Node::BinaryExpr { lhs, rhs, operator } => NodeView::BinaryExpr(
            Box::new(nv(*lhs)),
            operator@,
            Box::new(nv(*rhs)),
        ),
        Node::FuncCall { callee, arguments } => NodeView::FuncCall(Box::new(nv(*callee)), nvs(arguments@)),
        Node::ObjectExpression { object, property } => NodeView::ObjectExpression(
            Box::new(nv(*object)),
            Box::new(nv(*property)),
        ),
        Node::Empty => NodeView::Empty,
    }
}

/// The views of a list of trees.
pub open spec fn nvs(s: Seq<Node>) -> Seq<NodeView>
    decreases s, 0nat,
{
    if s.len() == 0 {
        seq![]
    } else {
        nvs(s.drop_last()).push(nv(s.last()))
    }
}

pub type PResult = Result<(NodeView, int), ParseError>;

pub type LResult = Result<(Seq<NodeView>, int), ParseError>;

/// The error for an unexpected token at `p`, or for the end of the input.
pub open spec fn err_at(ts: Seq<TokenView>, p: int) -> ParseError {
    if 0 <= p < ts.len() {
        ParseError::UnexpectedToken(p as usize)
    } else {
        ParseError::UnexpectedEnd
    }
}

pub open spec fn is_tok(ts: Seq<TokenView>, p: int, t: TokenView) -> bool {
    0 <= p < ts.len() && ts[p] == t
}

pub open spec fn is_keyword(ts: Seq<TokenView>, p: int) -> bool {
    is_tok(ts, p, TokenView::Ident("function"@))
}

/// A token that can begin a term.
pub open spec fn starts_term(ts: Seq<TokenView>, p: int) -> bool {
    0 <= p < ts.len() && (ts[p] is Ident || ts[p] is Int || ts[p] is Str || ts[p] == TokenView::LParen)
}

/// The value of an integer literal's digits.
pub open spec fn int_literal(d: Seq<char>, p: int) -> Result<int, ParseError> {
    if exists|i: int| 0 <= i < d.len() && !('0' <= #[trigger] d[i] <= '9') {
        Err(ParseError::UnexpectedToken(p as usize))
    } else if digits_value(d) > i32::MAX {
        Err(ParseError::IntOutOfRange(p as usize))
    } else {
        Ok(digits_value(d))
    }
}

/// `id`: one identifier token.
pub open spec fn p_ident(ts: Seq<TokenView>, p: int) -> PResult {
    if 0 <= p < ts.len() && ts[p] is Ident {
        Ok((NodeView::Identifier(ts[p]->Ident_0), p + 1))
    } else {
        Err(err_at(ts, p))
    }
}

/// `object_expr := id ('.' object_expr)?`, nested to the right.
pub open spec fn p_path(ts: Seq<TokenView>, p: int) -> PResult
    decreases ts.len() - p,
{
    match p_ident(ts, p) {
        Err(e) => Err(e),
        Ok((id, e1)) => if is_tok(ts, e1, TokenView::Dot) {
            match p_path(ts, e1 + 1) {
                Err(e) => Err(e),
                Ok((rest, e2)) => Ok((NodeView::ObjectExpression(Box::new(id), Box::new(rest)), e2)),
            }
        } else {
            Ok((id, e1))
        },
    }
}

/// A call argument: an integer, a string, or an object path.
pub open spec fn p_arg(ts: Seq<TokenView>, p: int) -> PResult {
    if !(0 <= p < ts.len()) {
        Err(ParseError::UnexpectedEnd)
    } else {
        match ts[p] {
            TokenView::Int(d) => match int_literal(d, p) {
                Ok(v) => Ok((NodeView::Int(v), p + 1)),
                Err(e) => Err(e),
            },
            TokenView::Str(s) => Ok((NodeView::Str(s), p + 1)),
            TokenView::Ident(_) => p_path(ts, p),
            _ => Err(ParseError::UnexpectedToken(p as usize)),
        }
    }
}

/// `term := '(' expr ')' | argument`.
pub open spec fn p_term(ts: Seq<TokenView>, p: int) -> PResult
    decreases ts.len() - p, 2nat,
{
    if !(0 <= p < ts.len()) {
        Err(ParseError::UnexpectedEnd)
    } else if is_tok(ts, p, TokenView::LParen) {
        match p_expr(ts, p + 1) {
            Err(e) => Err(e),
            Ok((x, e1)) => if is_tok(ts, e1, TokenView::RParen) {
                Ok((x, e1 + 1))
            } else {
                Err(err_at(ts, e1))
            },
        }
    } else {
        p_arg(ts, p)
    }
}

/// `unary_expr := operator term`.
pub open spec fn p_unary(ts: Seq<TokenView>, p: int) -> PResult
    decreases ts.len() - p, 3nat,
{
    if !(0 <= p < ts.len()) {
        Err(ParseError::UnexpectedEnd)
    } else if ts[p] is Op {
        match p_term(ts, p + 1) {
            Err(e) => Err(e),
            Ok((t, e1)) => Ok((NodeView::UnaryExpr(seq![ts[p]->Op_0], Box::new(t)), e1)),
        }
    } else {
        Err(ParseError::UnexpectedToken(p as usize))
    }
}

/// `binary_expr := term (operator term?)?`: a term alone stands for
/// itself; after an operator the right-hand side is `Empty` when no term
/// follows.
pub open spec fn p_binary(ts: Seq<TokenView>, p: int) -> PResult
    decreases ts.len() - p, 3nat,
{
    match p_term(ts, p) {
        Err(e) => Err(e),
        Ok((lhs, e1)) => if e1 <= p {
            Err(err_at(ts, p))
        } else if 0 <= e1 < ts.len() && ts[e1] is Op {
            let op = seq![ts[e1]->Op_0];
            if starts_term(ts, e1 + 1) {
                match p_term(ts, e1 + 1) {
                    Err(e) => Err(e),
                    Ok((rhs, e2)) => Ok((NodeView::BinaryExpr(Box::new(lhs), op, Box::new(rhs)), e2)),
                }
            } else {
                Ok((NodeView::BinaryExpr(Box::new(lhs), op, Box::new(NodeView::Empty)), e1 + 1))
            }
        } else {
            Ok((lhs, e1))
        },
    }
}

/// `expr := unary_expr | binary_expr`.
pub open spec fn p_expr(ts: Seq<TokenView>, p: int) -> PResult
    decreases ts.len() - p, 4nat,
{
    if 0 <= p < ts.len() && ts[p] is Op {
        p_unary(ts, p)
    } else {
        p_binary(ts, p)
    }
}

/// The rest of an argument list: `(',' argument)*`, appended to `acc`.
pub open spec fn args_more(ts: Seq<TokenView>, p: int, acc: Seq<NodeView>) -> LResult
    decreases ts.len() - p,
{
    if is_tok(ts, p, TokenView::Comma) {
        match p_arg(ts, p + 1) {
            Err(e) => Err(e),
            Ok((a, e1)) => if e1 <= p || e1 > ts.len() {
                Err(err_at(ts, p))
            } else {
                args_more(ts, e1, acc.push(a))
            },
        }
    } else {
        Ok((acc, p))
    }
}

/// `argument_list := (argument (',' argument)*)?`, up to the closing `)`.
pub open spec fn p_args(ts: Seq<TokenView>, p: int) -> LResult {
    if is_tok(ts, p, TokenView::RParen) {
        Ok((seq![], p))
    } else {
        match p_arg(ts, p) {
            Err(e) => Err(e),
            Ok((a, e1)) => if e1 <= p {
                Err(err_at(ts, p))
            } else {
                args_more(ts, e1, seq![a])
            },
        }
    }
}

/// The rest of a parameter list: `(',' id)*`, appended to `acc`.
pub open spec fn params_more(ts: Seq<TokenView>, p: int, acc: Seq<NodeView>) -> LResult
    decreases ts.len() - p,
{
    if is_tok(ts, p, TokenView::Comma) {
        match p_ident(ts, p + 1) {
            Err(e) => Err(e),
            Ok((id, e1)) => params_more(ts, e1, acc.push(id)),
        }
    } else {
        Ok((acc, p))
    }
}

/// `parameter_list := '(' (id (',' id)*)? ')'`.
pub open spec fn p_params(ts: Seq<TokenView>, p: int) -> LResult {
    if !is_tok(ts, p, TokenView::LParen) {
        Err(err_at(ts, p))
    } else if is_tok(ts, p + 1, TokenView::RParen) {
        Ok((seq![], p + 2))
    } else {
        match p_ident(ts, p + 1) {
            Err(e) => Err(e),
            Ok((id, e1)) => match params_more(ts, e1, seq![id]) {
                Err(e) => Err(e),
                Ok((ps, e2)) => if is_tok(ts, e2, TokenView::RParen) {
                    Ok((ps, e2 + 1))
                } else {
                    Err(err_at(ts, e2))
                },
            },
        }
    }
}

/// The rest of a block: instructions up to and including the closing `}`,
/// appended to `acc`.
pub open spec fn body_more(ts: Seq<TokenView>, p: int, acc: Seq<NodeView>) -> LResult
    decreases ts.len() - p, 3nat,
{
    if is_tok(ts, p, TokenView::RBrace) {
        Ok((acc, p + 1))
    } else {
        match p_instr(ts, p) {
            Err(e) => Err(e),
            Ok((n, e1)) => if e1 <= p || e1 > ts.len() {
                Err(err_at(ts, p))
            } else {
                body_more(ts, e1, acc.push(n))
            },
        }
    }
}

/// `func_body := '{' instruction* '}'`.
pub open spec fn p_body(ts: Seq<TokenView>, p: int) -> LResult
    decreases ts.len() - p, 4nat,
{
    if !is_tok(ts, p, TokenView::LBrace) {
        Err(err_at(ts, p))
    } else {
        body_more(ts, p + 1, seq![])
    }
}

/// `func_decl := 'function' id? parameter_list func_body`.
pub open spec fn p_decl(ts: Seq<TokenView>, p: int) -> PResult
    decreases ts.len() - p, 1nat,
{
    if !is_keyword(ts, p) {
        Err(err_at(ts, p))
    } else if 0 <= p + 1 < ts.len() && ts[p + 1] is Ident {
        let id = NodeView::Identifier(ts[p + 1]->Ident_0);
        match p_params(ts, p + 2) {
            Err(e) => Err(e),
            Ok((ps, e2)) => if e2 <= p {
                Err(err_at(ts, p))
            } else {
                match p_body(ts, e2) {
                    Err(e) => Err(e),
                    Ok((body, e3)) => Ok((NodeView::NamedFunction(Box::new(id), ps, body), e3)),
                }
            },
        }
    } else {
        match p_params(ts, p + 1) {
            Err(e) => Err(e),
            Ok((ps, e2)) => if e2 <= p {
                Err(err_at(ts, p))
            } else {
                match p_body(ts, e2) {
                    Err(e) => Err(e),
                    Ok((body, e3)) => Ok((NodeView::UnnamedFunction(ps, body), e3)),
                }
            },
        }
    }
}

/// `instruction := func_decl | object_expr '=' expr ';' | object_expr '(' argument_list ')' ';'`.
pub open spec fn p_instr(ts: Seq<TokenView>, p: int) -> PResult
    decreases ts.len() - p, 2nat,
{
    if is_keyword(ts, p) {
        p_decl(ts, p)
    } else {
        match p_path(ts, p) {
            Err(e) => Err(e),
            Ok((target, e1)) => if is_tok(ts, e1, TokenView::LParen) {
                match p_args(ts, e1 + 1) {
                    Err(e) => Err(e),
                    Ok((args, e2)) => if !is_tok(ts, e2, TokenView::RParen) {
                        Err(err_at(ts, e2))
                    } else if !is_tok(ts, e2 + 1, TokenView::Semi) {
                        Err(err_at(ts, e2 + 1))
                    } else {
                        Ok((NodeView::FuncCall(Box::new(target), args), e2 + 2))
                    },
                }
            } else if is_tok(ts, e1, TokenView::Assign) {
                match p_expr(ts, e1 + 1) {
                    Err(e) => Err(e),
                    Ok((rhs, e2)) => if !is_tok(ts, e2, TokenView::Semi) {
                        Err(err_at(ts, e2))
                    } else {
                        Ok((NodeView::Assignment(Box::new(target), Box::new(rhs)), e2 + 1))
                    },
                }
            } else {
                Err(err_at(ts, e1))
            },
        }
    }
}

/// Top-level instructions from `p` to the end, appended to `acc`.
pub open spec fn program_more(ts: Seq<TokenView>, p: int, acc: Seq<NodeView>) -> Result<NodeView, ParseError>
    decreases ts.len() - p,
{
    if p >= ts.len() || p < 0 {
        Ok(NodeView::Program(acc))
    } else {
        match p_instr(ts, p) {
            Err(e) => Err(e),
            Ok((n, e1)) => if e1 <= p || e1 > ts.len() {
                Err(err_at(ts, p))
            } else {
                program_more(ts, e1, acc.push(n))
            },
        }
    }
}

/// `program := instruction*`: the tree of a whole token sequence.
pub open spec fn parse_spec(ts: Seq<TokenView>) -> Result<NodeView, ParseError> {
    program_more(ts, 0, seq![])
}

/// The view of a parse result.
pub open spec fn pview(r: Result<(Node, usize), ParseError>) -> PResult {
    match r {
        Ok((n, e)) => Ok((nv(n), e as int)),
        Err(e) => Err(e),
    }
}

/// The view of a list parse result.
pub open spec fn lview(r: Result<(Vec<Node>, usize), ParseError>) -> LResult {
    match r {
        Ok((v, e)) => Ok((nvs(v@), e as int)),
        Err(e) => Err(e),
    }
}

proof fn lemma_digits_value_grows(d: Seq<char>, k: int)
    requires
        0 <= k <= d.len(),
        forall|i: int| 0 <= i < d.len() ==> '0' <= #[trigger] d[i] <= '9',
    ensures
        digits_value(d.take(k)) <= digits_value(d),
        0 <= digits_value(d.take(k)),
    decreases d.len(),
{
    if k == d.len() {
        assert(d.take(k) =~= d);
        if d.len() > 0 {
            lemma_digits_value_grows(d.drop_last(), d.len() - 1);
            assert(d.drop_last().take(d.len() - 1) =~= d.drop_last());
        }
    } else {
        assert(d.drop_last().take(k) =~= d.take(k));
        lemma_digits_value_grows(d.drop_last(), k);
        lemma_digits_value_grows(d.drop_last(), d.len() - 1);
        assert(d.drop_last().take(d.len() - 1) =~= d.drop_last());
    }
}

/// Relies on `String::from(char)`: the string of that one character.
#[verifier::external_body]
fn char_to_string(c: char) -> (r: String)
    ensures
        r@ == seq![c],
{
    String::from(c)
}

/// The value of a literal's digits, or `IntOutOfRange` where it exceeds `i32`.
fn parse_int_literal(digits: &String, pos: usize) -> (r: Result<i32, ParseError>)
    ensures
        match r {
            Ok(v) => int_literal(digits@, pos as int) == Ok::<int, ParseError>(v as int),
            Err(e) => int_literal(digits@, pos as int) == Err::<int, ParseError>(e),
        },
{
    let d = chars_of(digits.as_str());
    let mut k: usize = 0;
    while k < d.len()
        invariant
            d@ == digits@,
            k <= d.len(),
            forall|j: int| 0 <= j < k ==> '0' <= #[trigger] d@[j] <= '9',
        decreases d.len() - k,
    {
        if !('0' <= d[k] && d[k] <= '9') {
            return Err(ParseError::UnexpectedToken(pos));
        }
        k = k + 1;
    }
    let mut v: i32 = 0;
    let mut i: usize = 0;
    while i < d.len()
        invariant
            d@ == digits@,
            i <= d.len(),
            v as int == digits_value(d@.take(i as int)),
            0 <= v,
            forall|j: int| 0 <= j < d@.len() ==> '0' <= #[trigger] d@[j] <= '9',
        decreases d.len() - i,
    {
        let c = d[i];
        let dv: i32 = ((c as u32) - ('0' as u32)) as i32;
        assert(d@.take(i + 1).drop_last() =~= d@.take(i as int));
        if v > (i32::MAX - dv) / 10 {
            proof {
                lemma_digits_value_grows(d@, i + 1);
            }
            return Err(ParseError::IntOutOfRange(pos));
        }
        assert(0 <= v * 10 + dv <= i32::MAX) by (nonlinear_arith)
            requires
                0 <= v <= (i32::MAX - dv) / 10,
                0 <= dv <= 9,
        ;
        v = v * 10 + dv;
        i = i + 1;
    }
    assert(d@.take(d.len() as int) =~= d@);
    Ok(v)
}

/// The token at `pos` is `want`.
fn punct_at(toks: &Vec<Token>, pos: usize, want: &Token) -> (r: bool)
    ensures
        r == is_tok(tokens_view(toks@), pos as int, want@),
{
    if pos >= toks.len() {
        return false;
    }
    match (&toks[pos], want) {
        (Token::LParen, Token::LParen) => true,
        (Token::RParen, Token::RParen) => true,
        (Token::LBrace, Token::LBrace) => true,
        (Token::RBrace, Token::RBrace) => true,
        (Token::Comma, Token::Comma) => true,
        (Token::Semi, Token::Semi) => true,
        (Token::Dot, Token::Dot) => true,
        (Token::Assign, Token::Assign) => true,
        (Token::Ident(a), Token::Ident(b)) => *a == *b,
        (Token::Int(a), Token::Int(b)) => *a == *b,
        (Token::Str(a), Token::Str(b)) => *a == *b,
        (Token::Op(a), Token::Op(b)) => *a == *b,
        _ => false,
    }
}

fn error_at(toks: &Vec<Token>, pos: usize) -> (e: ParseError)
    ensures
        e == err_at(tokens_view(toks@), pos as int),
{
    if pos < toks.len() {
        ParseError::UnexpectedToken(pos)
    } else {
        ParseError::UnexpectedEnd
    }
}

fn is_keyword_at(toks: &Vec<Token>, pos: usize) -> (r: bool)
    ensures
        r == is_keyword(tokens_view(toks@), pos as int),
{
    if pos >= toks.len() {
        return false;
    }
    match &toks[pos] {
        Token::Ident(s) => {
            let kw = String::from_str("function");
            *s == kw
        },
        _ => false,
    }
}

fn starts_term_at(toks: &Vec<Token>, pos: usize) -> (r: bool)
    ensures
        r == starts_term(tokens_view(toks@), pos as int),
{
    if pos >= toks.len() {
        return false;
    }
    match &toks[pos] {
        Token::Ident(_) => true,
        Token::Int(_) => true,
        Token::Str(_) => true,
        Token::LParen => true,
        _ => false,
    }
}

proof fn lemma_nvs_push(s: Seq<Node>, n: Node)
    ensures
        nvs(s.push(n)) == nvs(s).push(nv(n)),
{
    assert(s.push(n).drop_last() =~= s);
}

fn parse_identifier(toks: &Vec<Token>, pos: usize) -> (r: Result<(Node, usize), ParseError>)
    ensures
        pview(r) == p_ident(tokens_view(toks@), pos as int),
        r matches Ok((_, e)) ==> e == pos + 1 && e <= toks.len(),
{
    if pos < toks.len() {
        if let Token::Ident(name) = &toks[pos] {
            return Ok((Node::Identifier { name: name.clone() }, pos + 1));
        }
    }
    Err(error_at(toks, pos))
}

fn parse_object_expr(toks: &Vec<Token>, pos: usize) -> (r: Result<(Node, usize), ParseError>)
    ensures
        pview(r) == p_path(tokens_view(toks@), pos as int),
        r matches Ok((_, e)) ==> pos < e <= toks.len(),
    decreases toks.len() - pos,
{
    let (object, end) = match parse_identifier(toks, pos) {
        Ok(x) => x,
        Err(e) => {
            return Err(e);
        },
    };
    if punct_at(toks, end, &Token::Dot) {
        let (property, end2) = match parse_object_expr(toks, end + 1) {
            Ok(x) => x,
            Err(e) => {
                return Err(e);
            },
        };
        Ok((Node::ObjectExpression { object: Box::new(object), property: Box::new(property) }, end2))
    } else {
        Ok((object, end))
    }
}

/// An argument of a call: an integer, a string, or an object path.
fn parse_argument(toks: &Vec<Token>, pos: usize) -> (r: Result<(Node, usize), ParseError>)
    ensures
        pview(r) == p_arg(tokens_view(toks@), pos as int),
        r matches Ok((_, e)) ==> pos < e <= toks.len(),
{
    if pos >= toks.len() {
        return Err(ParseError::UnexpectedEnd);
    }
    match &toks[pos] {
        Token::Int(d) => match parse_int_literal(d, pos) {
            Ok(v) => Ok((Node::Int(v), pos + 1)),
            Err(e) => Err(e),
        },
        Token::Str(t) => Ok((Node::String(t.clone()), pos + 1)),
        Token::Ident(_) => parse_object_expr(toks, pos),
        _ => Err(ParseError::UnexpectedToken(pos)),
    }
}

/// A term: a parenthesised expression, or an argument.
fn parse_term(toks: &Vec<Token>, pos: usize) -> (r: Result<(Node, usize), ParseError>)
    ensures
        pview(r) == p_term(tokens_view(toks@), pos as int),
        r matches Ok((_, e)) ==> pos < e <= toks.len(),
    decreases toks.len() - pos, 2nat,
{
    if pos >= toks.len() {
        return Err(ParseError::UnexpectedEnd);
    }
    if punct_at(toks, pos, &Token::LParen) {
        let (e, end) = match parse_expression(toks, pos + 1) {
            Ok(x) => x,
            Err(e) => {
                return Err(e);
            },
        };
        if !punct_at(toks, end, &Token::RParen) {
            return Err(error_at(toks, end));
        }
        return Ok((e, end + 1));
    }
    parse_argument(toks, pos)
}

/// An operator applied to a term.
fn parse_unary_expr(toks: &Vec<Token>, pos: usize) -> (r: Result<(Node, usize), ParseError>)
    ensures
        pview(r) == p_unary(tokens_view(toks@), pos as int),
        r matches Ok((_, e)) ==> pos < e <= toks.len(),
    decreases toks.len() - pos, 3nat,
{
    if pos >= toks.len() {
        return Err(ParseError::UnexpectedEnd);
    }
    let c = match &toks[pos] {
        Token::Op(c) => *c,
        _ => {
            return Err(ParseError::UnexpectedToken(pos));
        },
    };
    let (t, end) = match parse_term(toks, pos + 1) {
        Ok(x) => x,
        Err(e) => {
            return Err(e);
        },
    };
    Ok((Node::UnaryExpr { operator: char_to_string(c), rhs: Box::new(t) }, end))
}

/// A term, then optionally an operator and a second term; the second term
/// is `Empty` when none follows the operator.
fn parse_binary_expr(toks: &Vec<Token>, pos: usize) -> (r: Result<(Node, usize), ParseError>)
    ensures
        pview(r) == p_binary(tokens_view(toks@), pos as int),
        r matches Ok((_, e)) ==> pos < e <= toks.len(),
    decreases toks.len() - pos, 3nat,
{
    let (lhs, end) = match parse_term(toks, pos) {
        Ok(x) => x,
        Err(e) => {
            return Err(e);
        },
    };
    if end < toks.len() {
        if let Token::Op(c) = &toks[end] {
            let operator = char_to_string(*c);
            if starts_term_at(toks, end + 1) {
                let (rhs, end2) = match parse_term(toks, end + 1) {
                    Ok(x) => x,
                    Err(e) => {
                        return Err(e);
                    },
                };
                return Ok((Node::BinaryExpr { lhs: Box::new(lhs), rhs: Box::new(rhs), operator }, end2));
            }
            assert(nv(Node::Empty) == NodeView::Empty);
            return Ok((Node::BinaryExpr { lhs: Box::new(lhs), rhs: Box::new(Node::Empty), operator }, end + 1));
        }
    }
    Ok((lhs, end))
}

/// An expression: a unary expression when it starts with an operator,
/// a binary one otherwise.
fn parse_expression(toks: &Vec<Token>, pos: usize) -> (r: Result<(Node, usize), ParseError>)
    ensures
        pview(r) == p_expr(tokens_view(toks@), pos as int),
        r matches Ok((_, e)) ==> pos < e <= toks.len(),
    decreases toks.len() - pos, 4nat,
{
    if pos < toks.len() {
        if let Token::Op(_) = &toks[pos] {
            return parse_unary_expr(toks, pos);
        }
    }
    parse_binary_expr(toks, pos)
}

/// The comma-separated arguments of a call, up to (not including) the
/// closing parenthesis.
fn parse_arguments(toks: &Vec<Token>, pos: usize) -> (r: Result<(Vec<Node>, usize), ParseError>)
    requires
        pos <= toks.len(),
    ensures
        lview(r) == p_args(tokens_view(toks@), pos as int),
        r matches Ok((_, e)) ==> pos <= e <= toks.len(),
{
    let ghost ts = tokens_view(toks@);
    assert(ts.len() == toks.len());
    let mut args: Vec<Node> = Vec::new();
    if punct_at(toks, pos, &Token::RParen) {
        assert(nvs(args@) =~= Seq::<NodeView>::empty());
        return Ok((args, pos));
    }
    let (first, mut p) = match parse_argument(toks, pos) {
        Ok(x) => x,
        Err(e) => {
            return Err(e);
        },
    };
    args.push(first);
    proof {
        lemma_nvs_push(Seq::<Node>::empty(), first);
        assert(args@ =~= Seq::<Node>::empty().push(first));
        assert(nvs(Seq::<Node>::empty()) =~= Seq::<NodeView>::empty());
    }
    while punct_at(toks, p, &Token::Comma)
        invariant
            ts == tokens_view(toks@),
            pos < p <= toks.len(),
            p_args(ts, pos as int) == args_more(ts, p as int, nvs(args@)),
        decreases toks.len() - p,
    {
        let (a, end) = match parse_argument(toks, p + 1) {
            Ok(x) => x,
            Err(e) => {
                return Err(e);
            },
        };
        proof {
            lemma_nvs_push(args@, a);
        }
        args.push(a);
        p = end;
    }
    Ok((args, p))
}

/// A parenthesised, comma-separated list of parameter names: one
/// `Identifier` per name, in order, duplicates kept.
fn parse_parameters(toks: &Vec<Token>, pos: usize) -> (r: Result<(Vec<Node>, usize), ParseError>)
    ensures
        lview(r) == p_params(tokens_view(toks@), pos as int),
        r matches Ok((_, e)) ==> pos < e <= toks.len(),
{
    let ghost ts = tokens_view(toks@);
    assert(ts.len() == toks.len());
    if !punct_at(toks, pos, &Token::LParen) {
        return Err(error_at(toks, pos));
    }
    let mut ps: Vec<Node> = Vec::new();
    if punct_at(toks, pos + 1, &Token::RParen) {
        assert(nvs(ps@) =~= Seq::<NodeView>::empty());
        return Ok((ps, pos + 2));
    }
    let (first, e1) = match parse_identifier(toks, pos + 1) {
        Ok(x) => x,
        Err(e) => {
            return Err(e);
        },
    };
    let ghost vf = nv(first);
    ps.push(first);
    proof {
        lemma_nvs_push(Seq::<Node>::empty(), first);
        assert(ps@ =~= Seq::<Node>::empty().push(first));
        assert(nvs(Seq::<Node>::empty()) =~= Seq::<NodeView>::empty());
        assert(nvs(ps@) =~= seq![vf]);
    }
    let ghost start = nvs(ps@);
    let mut p = e1;
    while punct_at(toks, p, &Token::Comma)
        invariant
            ts == tokens_view(toks@),
            pos + 1 < p <= toks.len(),
            params_more(ts, e1 as int, start) == params_more(ts, p as int, nvs(ps@)),
            start == seq![vf],
            is_tok(ts, pos as int, TokenView::LParen),
            !is_tok(ts, pos + 1, TokenView::RParen),
            p_ident(ts, pos + 1) == Ok::<(NodeView, int), ParseError>((vf, e1 as int)),
        decreases toks.len() - p,
    {
        let (a, end) = match parse_identifier(toks, p + 1) {
            Ok(x) => x,
            Err(e) => {
                return Err(e);
            },
        };
        proof {
            lemma_nvs_push(ps@, a);
        }
        ps.push(a);
        p = end;
    }
    if !punct_at(toks, p, &Token::RParen) {
        return Err(error_at(toks, p));
    }
    Ok((ps, p + 1))
}

/// A braced sequence of instructions, in order.
fn parse_func_body(toks: &Vec<Token>, pos: usize) -> (r: Result<(Vec<Node>, usize), ParseError>)
    ensures
        lview(r) == p_body(tokens_view(toks@), pos as int),
        r matches Ok((_, e)) ==> pos < e <= toks.len(),
    decreases toks.len() - pos, 4nat,
{
    let ghost ts = tokens_view(toks@);
    assert(ts.len() == toks.len());
    if !punct_at(toks, pos, &Token::LBrace) {
        return Err(error_at(toks, pos));
    }
    let mut body: Vec<Node> = Vec::new();
    let mut p = pos + 1;
    assert(nvs(body@) =~= Seq::<NodeView>::empty());
    while !punct_at(toks, p, &Token::RBrace)
        invariant
            ts == tokens_view(toks@),
            pos < p <= toks.len(),
            p_body(ts, pos as int) == body_more(ts, p as int, nvs(body@)),
        decreases toks.len() - p,
    {
        let (n, end) = match parse_instruction(toks, p) {
            Ok(x) => x,
            Err(e) => {
                return Err(e);
            },
        };
        proof {
            lemma_nvs_push(body@, n);
        }
        body.push(n);
        p = end;
    }
    Ok((body, p + 1))
}

/// `function`, an optional name, the parameters and the body.
fn parse_func_decl(toks: &Vec<Token>, pos: usize) -> (r: Result<(Node, usize), ParseError>)
    ensures
        pview(r) == p_decl(tokens_view(toks@), pos as int),
        r matches Ok((_, e)) ==> pos < e <= toks.len(),
    decreases toks.len() - pos, 1nat,
{
    if !is_keyword_at(toks, pos) {
        return Err(error_at(toks, pos));
    }
    let named = pos + 1 < toks.len() && match &toks[pos + 1] {
        Token::Ident(_) => true,
        _ => false,
    };
    if named {
        let (id, e1) = match parse_identifier(toks, pos + 1) {
            Ok(x) => x,
            Err(e) => {
                return Err(e);
            },
        };
        let (parameters, e2) = match parse_parameters(toks, e1) {
            Ok(x) => x,
            Err(e) => {
                return Err(e);
            },
        };
        let (body, e3) = match parse_func_body(toks, e2) {
            Ok(x) => x,
            Err(e) => {
                return Err(e);
            },
        };
        Ok((Node::NamedFunction { id: Box::new(id), parameters, body }, e3))
    } else {
        let (parameters, e2) = match parse_parameters(toks, pos + 1) {
            Ok(x) => x,
            Err(e) => {
                return Err(e);
            },
        };
        let (body, e3) = match parse_func_body(toks, e2) {
            Ok(x) => x,
            Err(e) => {
                return Err(e);
            },
        };
        Ok((Node::UnnamedFunction { parameters, body }, e3))
    }
}

/// An instruction: a declaration, an assignment or a call; the last two end
/// with a semicolon.
fn parse_instruction(toks: &Vec<Token>, pos: usize) -> (r: Result<(Node, usize), ParseError>)
    ensures
        pview(r) == p_instr(tokens_view(toks@), pos as int),
        r matches Ok((_, e)) ==> pos < e <= toks.len(),
    decreases toks.len() - pos, 2nat,
{
    if is_keyword_at(toks, pos) {
        return parse_func_decl(toks, pos);
    }
    let (target, e1) = match parse_object_expr(toks, pos) {
        Ok(x) => x,
        Err(e) => {
            return Err(e);
        },
    };
    if punct_at(toks, e1, &Token::LParen) {
        let (arguments, e2) = match parse_arguments(toks, e1 + 1) {
            Ok(x) => x,
            Err(e) => {
                return Err(e);
            },
        };
        if !punct_at(toks, e2, &Token::RParen) {
            return Err(error_at(toks, e2));
        }
        if !punct_at(toks, e2 + 1, &Token::Semi) {
            return Err(error_at(toks, e2 + 1));
        }
        Ok((Node::FuncCall { callee: Box::new(target), arguments }, e2 + 2))
    } else if punct_at(toks, e1, &Token::Assign) {
        let (rhs, e2) = match parse_expression(toks, e1 + 1) {
            Ok(x) => x,
            Err(e) => {
                return Err(e);
            },
        };
        if !punct_at(toks, e2, &Token::Semi) {
            return Err(error_at(toks, e2));
        }
        Ok((Node::Assignment { lhs: Box::new(target), rhs: Box::new(rhs) }, e2 + 1))
    } else {
        Err(error_at(toks, e1))
    }
}

/// Parses a whole token sequence as a program: exactly the tree, or the
/// error, that `parse_spec` gives.
pub fn parse_program(toks: &Vec<Token>) -> (r: Result<Node, ParseError>)
    ensures
        match r {
            Ok(n) => parse_spec(tokens_view(toks@)) == Ok::<NodeView, ParseError>(nv(n)) && n is Program,
            Err(e) => parse_spec(tokens_view(toks@)) == Err::<NodeView, ParseError>(e),
        },
{
    let ghost ts = tokens_view(toks@);
    assert(ts.len() == toks.len());
    let mut body: Vec<Node> = Vec::new();
    let mut p: usize = 0;
    assert(nvs(body@) =~= Seq::<NodeView>::empty());
    while p < toks.len()
        invariant
            ts == tokens_view(toks@),
            p <= toks.len(),
            parse_spec(ts) == program_more(ts, p as int, nvs(body@)),
        decreases toks.len() - p,
    {
        let (n, end) = match parse_instruction(toks, p) {
            Ok(x) => x,
            Err(e) => {
                return Err(e);
            },
        };
        proof {
            lemma_nvs_push(body@, n);
        }
        body.push(n);
        p = end;
    }
    Ok(Node::Program { body })
}

} // verus!

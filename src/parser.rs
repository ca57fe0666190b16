//! Recursive-descent parser, lowest precedence outermost:
//!
//! ```text
//! assignment := expr ('=' assignment)?
//! expr       := mul_div (('+' | '-') mul_div)*
//! mul_div    := power (('*' | '/') power)*
//! power      := unary ('^' power)?
//! unary      := 'sqrt' primary | primary
//! primary    := NUMBER | IDENTIFIER | '(' expr ')'
//! ```
//!
//! A missing `)` is passed over: the parser goes on without it. Tokens after the
//! first complete assignment are left unread.
//!
//! Each rule is a spec function from a token sequence and a position. A rule that
//! succeeds always moves forward (`progress`, proved of the parsing functions); the
//! position checks inside the rules only make their termination evident.
use crate::ast::{op_count, opt, simplify, tac, texts, warnings, ASTNode, UnaryFn};
use crate::lexer::{lex, reports_failure, token_views, Lexer};
use crate::number::{arith_ok, parse_ok, show_ok, NumOp};
use crate::peephole::{peephole, peephole_optimize};
use crate::error::ParseError;
use crate::token::{token_label, Token};
use vstd::prelude::*;

verus! {

/// The outcome of a rule at a position: the tree and the position after it, or
/// the failure: `None` for the end of the input, `Some(t)` for an unexpected token.
pub type Parsed = Result<(ASTNode, int), Option<Token>>;

/// Every successful rule consumes at least one token, and more tokens than it
/// makes operator nodes.
pub open spec fn progress(s: Parsed, pos: int, len: int) -> bool {
    s matches Ok((e, p)) ==> pos < p <= len && op_count(e) < p - pos
}

pub open spec fn binary(op: char, l: ASTNode, r: ASTNode) -> ASTNode {
    ASTNode::BinaryOp { op, left: Box::new(l), right: Box::new(r) }
}

pub open spec fn p_primary(toks: Seq<Token>, pos: int) -> Parsed
    decreases toks.len() - pos, 0int,
{
    if pos < 0 || pos >= toks.len() {
        Err(None)
    } else {
        match toks[pos] {
            Token::Number(b) => Ok((ASTNode::Number(b), pos + 1)),
            Token::Identifier(name, idx) => Ok((ASTNode::Identifier(name, idx), pos + 1)),
            Token::LParen => match p_expr(toks, pos + 1) {
                Ok((e, p)) => if 0 <= p < toks.len() && toks[p] is RParen {
                    Ok((e, p + 1))
                } else {
                    Ok((e, p))
                },
                Err(f) => Err(f),
            },
            t => Err(Some(t)),
        }
    }
}

pub open spec fn p_unary(toks: Seq<Token>, pos: int) -> Parsed
    decreases toks.len() - pos, 1int,
{
    if 0 <= pos < toks.len() && toks[pos] is Sqrt {
        match p_primary(toks, pos + 1) {
            Ok((o, p)) => Ok((ASTNode::UnaryOp { op: UnaryFn::Sqrt, operand: Box::new(o) }, p)),
            Err(f) => Err(f),
        }
    } else {
        p_primary(toks, pos)
    }
}

pub open spec fn p_power(toks: Seq<Token>, pos: int) -> Parsed
    decreases toks.len() - pos, 2int,
{
    match p_unary(toks, pos) {
        Ok((l, p)) => if pos <= p < toks.len() && toks[p] is Power {
            match p_power(toks, p + 1) {
                Ok((r, p2)) => Ok((binary('^', l, r), p2)),
                Err(f) => Err(f),
            }
        } else {
            Ok((l, p))
        },
        Err(f) => Err(f),
    }
}

/// The `*` and `/` that follow `left` at `pos`, folded to the left.
pub open spec fn p_mul_div_rest(toks: Seq<Token>, left: ASTNode, pos: int) -> Parsed
    decreases toks.len() - pos, 3int,
{
    if 0 <= pos < toks.len() && (toks[pos] is Multiply || toks[pos] is Divide) {
        let op = if toks[pos] is Multiply {
            '*'
        } else {
            '/'
        };
        match p_power(toks, pos + 1) {
            Ok((r, p)) => if pos < p <= toks.len() {
                p_mul_div_rest(toks, binary(op, left, r), p)
            } else {
                Ok((binary(op, left, r), p))
            },
            Err(f) => Err(f),
        }
    } else {
        Ok((left, pos))
    }
}

pub open spec fn p_mul_div(toks: Seq<Token>, pos: int) -> Parsed
    decreases toks.len() - pos, 4int,
{
    match p_power(toks, pos) {
        Ok((l, p)) => if pos <= p <= toks.len() {
            p_mul_div_rest(toks, l, p)
        } else {
            Ok((l, p))
        },
        Err(f) => Err(f),
    }
}

/// The `+` and `-` that follow `left` at `pos`, folded to the left.
pub open spec fn p_add_sub_rest(toks: Seq<Token>, left: ASTNode, pos: int) -> Parsed
    decreases toks.len() - pos, 5int,
{
    if 0 <= pos < toks.len() && (toks[pos] is Plus || toks[pos] is Minus) {
        let op = if toks[pos] is Plus {
            '+'
        } else {
            '-'
        };
        match p_mul_div(toks, pos + 1) {
            Ok((r, p)) => if pos < p <= toks.len() {
                p_add_sub_rest(toks, binary(op, left, r), p)
            } else {
                Ok((binary(op, left, r), p))
            },
            Err(f) => Err(f),
        }
    } else {
        Ok((left, pos))
    }
}

pub open spec fn p_expr(toks: Seq<Token>, pos: int) -> Parsed
    decreases toks.len() - pos, 6int,
{
    match p_mul_div(toks, pos) {
        Ok((l, p)) => if pos <= p <= toks.len() {
            p_add_sub_rest(toks, l, p)
        } else {
            Ok((l, p))
        },
        Err(f) => Err(f),
    }
}

pub open spec fn p_assignment(toks: Seq<Token>, pos: int) -> Parsed
    decreases toks.len() - pos, 7int,
{
    match p_expr(toks, pos) {
        Ok((l, p)) => if pos <= p < toks.len() && toks[p] is Assign {
            match p_assignment(toks, p + 1) {
                Ok((r, p2)) => Ok((binary('=', l, r), p2)),
                Err(f) => Err(f),
            }
        } else {
            Ok((l, p))
        },
        Err(f) => Err(f),
    }
}

/// The error that the parser reports for a failure.
pub open spec fn reports(r: Result<(ASTNode, usize), ParseError>, s: Parsed) -> bool {
    match s {
        Ok((e, p)) => r matches Ok((e2, p2)) && e2 == e && p2 == p,
        Err(None) => r matches Err(ParseError::UnexpectedEndOfInput),
        Err(Some(t)) => r matches Err(ParseError::UnexpectedToken(m)) && m@ == token_label(t),
    }
}

pub fn copy_token(t: &Token) -> (r: Token)
    ensures
        r == *t,
{
    match t {
        Token::Number(b) => Token::Number(*b),
        Token::Identifier(name, idx) => Token::Identifier(name.clone(), *idx),
        Token::Plus => Token::Plus,
        Token::Minus => Token::Minus,
        Token::Multiply => Token::Multiply,
        Token::Divide => Token::Divide,
        Token::Power => Token::Power,
        Token::LParen => Token::LParen,
        Token::RParen => Token::RParen,
        Token::Sqrt => Token::Sqrt,
        Token::Assign => Token::Assign,
    }
}

fn parse_primary(toks: &Vec<Token>, pos: usize) -> (r: Result<(ASTNode, usize), ParseError>)
    requires
        pos <= toks.len(),
    ensures
        reports(r, p_primary(toks@, pos as int)),
        progress(p_primary(toks@, pos as int), pos as int, toks.len() as int),
    decreases toks.len() - pos, 0int,
{
    if pos >= toks.len() {
        return Err(ParseError::UnexpectedEndOfInput);
    }
    match &toks[pos] {
        Token::Number(b) => Ok((ASTNode::Number(*b), pos + 1)),
        Token::Identifier(name, idx) => Ok((ASTNode::Identifier(name.clone(), *idx), pos + 1)),
        Token::LParen => {
            match parse_expr(toks, pos + 1) {
                Ok((e, p)) => {
                    if p < toks.len() && matches!(toks[p], Token::RParen) {
                        Ok((e, p + 1))
                    } else {
                        Ok((e, p))
                    }
                },
                Err(f) => Err(f),
            }
        },
        t => Err(ParseError::UnexpectedToken(t.label())),
    }
}

fn parse_unary(toks: &Vec<Token>, pos: usize) -> (r: Result<(ASTNode, usize), ParseError>)
    requires
        pos <= toks.len(),
    ensures
        reports(r, p_unary(toks@, pos as int)),
        progress(p_unary(toks@, pos as int), pos as int, toks.len() as int),
    decreases toks.len() - pos, 1int,
{
    if pos < toks.len() && matches!(toks[pos], Token::Sqrt) {
        match parse_primary(toks, pos + 1) {
            Ok((o, p)) => Ok((ASTNode::UnaryOp { op: UnaryFn::Sqrt, operand: Box::new(o) }, p)),
            Err(f) => Err(f),
        }
    } else {
        parse_primary(toks, pos)
    }
}

fn parse_power(toks: &Vec<Token>, pos: usize) -> (r: Result<(ASTNode, usize), ParseError>)
    requires
        pos <= toks.len(),
    ensures
        reports(r, p_power(toks@, pos as int)),
        progress(p_power(toks@, pos as int), pos as int, toks.len() as int),
    decreases toks.len() - pos, 2int,
{
    match parse_unary(toks, pos) {
        Ok((l, p)) => {
            if p < toks.len() && matches!(toks[p], Token::Power) {
                match parse_power(toks, p + 1) {
                    Ok((r, p2)) => Ok(
                        (ASTNode::BinaryOp { op: '^', left: Box::new(l), right: Box::new(r) }, p2),
                    ),
                    Err(f) => Err(f),
                }
            } else {
                Ok((l, p))
            }
        },
        Err(f) => Err(f),
    }
}

fn parse_mul_div_rest(toks: &Vec<Token>, left: ASTNode, pos: usize) -> (r: Result<
    (ASTNode, usize),
    ParseError,
>)
    requires
        pos <= toks.len(),
    ensures
        reports(r, p_mul_div_rest(toks@, left, pos as int)),
        p_mul_div_rest(toks@, left, pos as int) matches Ok((e, p)) ==> pos <= p <= toks.len()
            && op_count(e) <= op_count(left) + p - pos,
    decreases toks.len() - pos, 3int,
{
    if pos < toks.len() && (matches!(toks[pos], Token::Multiply) || matches!(
        toks[pos],
        Token::Divide,
    )) {
        let op = if matches!(toks[pos], Token::Multiply) {
            '*'
        } else {
            '/'
        };
        match parse_power(toks, pos + 1) {
            Ok((r, p)) => parse_mul_div_rest(
                toks,
                ASTNode::BinaryOp { op, left: Box::new(left), right: Box::new(r) },
                p,
            ),
            Err(f) => Err(f),
        }
    } else {
        Ok((left, pos))
    }
}

fn parse_mul_div(toks: &Vec<Token>, pos: usize) -> (r: Result<(ASTNode, usize), ParseError>)
    requires
        pos <= toks.len(),
    ensures
        reports(r, p_mul_div(toks@, pos as int)),
        progress(p_mul_div(toks@, pos as int), pos as int, toks.len() as int),
    decreases toks.len() - pos, 4int,
{
    match parse_power(toks, pos) {
        Ok((l, p)) => parse_mul_div_rest(toks, l, p),
        Err(f) => Err(f),
    }
}

fn parse_add_sub_rest(toks: &Vec<Token>, left: ASTNode, pos: usize) -> (r: Result<
    (ASTNode, usize),
    ParseError,
>)
    requires
        pos <= toks.len(),
    ensures
        reports(r, p_add_sub_rest(toks@, left, pos as int)),
        p_add_sub_rest(toks@, left, pos as int) matches Ok((e, p)) ==> pos <= p <= toks.len()
            && op_count(e) <= op_count(left) + p - pos,
    decreases toks.len() - pos, 5int,
{
    if pos < toks.len() && (matches!(toks[pos], Token::Plus) || matches!(toks[pos], Token::Minus)) {
        let op = if matches!(toks[pos], Token::Plus) {
            '+'
        } else {
            '-'
        };
        match parse_mul_div(toks, pos + 1) {
            Ok((r, p)) => parse_add_sub_rest(
                toks,
                ASTNode::BinaryOp { op, left: Box::new(left), right: Box::new(r) },
                p,
            ),
            Err(f) => Err(f),
        }
    } else {
        Ok((left, pos))
    }
}

fn parse_expr(toks: &Vec<Token>, pos: usize) -> (r: Result<(ASTNode, usize), ParseError>)
    requires
        pos <= toks.len(),
    ensures
        reports(r, p_expr(toks@, pos as int)),
        progress(p_expr(toks@, pos as int), pos as int, toks.len() as int),
    decreases toks.len() - pos, 6int,
{
    match parse_mul_div(toks, pos) {
        Ok((l, p)) => parse_add_sub_rest(toks, l, p),
        Err(f) => Err(f),
    }
}

fn parse_assignment(toks: &Vec<Token>, pos: usize) -> (r: Result<(ASTNode, usize), ParseError>)
    requires
        pos <= toks.len(),
    ensures
        reports(r, p_assignment(toks@, pos as int)),
        progress(p_assignment(toks@, pos as int), pos as int, toks.len() as int),
    decreases toks.len() - pos, 7int,
{
    match parse_expr(toks, pos) {
        Ok((l, p)) => {
            if p < toks.len() && matches!(toks[p], Token::Assign) {
                match parse_assignment(toks, p + 1) {
                    Ok((r, p2)) => Ok(
                        (ASTNode::BinaryOp { op: '=', left: Box::new(l), right: Box::new(r) }, p2),
                    ),
                    Err(f) => Err(f),
                }
            } else {
                Ok((l, p))
            }
        },
        Err(f) => Err(f),
    }
}

/// A parser over a token sequence, with one cursor that only moves forward.
pub struct Parser {
    tokens: Vec<Token>,
    pos: usize,
}

impl Parser {
    pub closed spec fn tokens_view(&self) -> Seq<Token> {
        self.tokens@
    }

    pub closed spec fn position(&self) -> int {
        self.pos as int
    }

    pub fn new(tokens: Vec<Token>) -> (r: Self)
        ensures
            r.tokens_view() == tokens@,
            r.position() == 0,
    {
        Self { tokens, pos: 0 }
    }

    /// Parses one assignment (or expression) from the cursor on. Tokens after it
    /// are left unread.
    pub fn parse(&mut self) -> (r: Result<ASTNode, ParseError>)
        requires
            old(self).position() <= old(self).tokens_view().len(),
        ensures
            final(self).tokens_view() == old(self).tokens_view(),
            match p_assignment(old(self).tokens_view(), old(self).position()) {
                Ok((e, p)) => r == Ok::<ASTNode, ParseError>(e) && final(self).position() == p
                    && op_count(e) < p - old(self).position(),
                Err(None) => r matches Err(ParseError::UnexpectedEndOfInput),
                Err(Some(t)) => r matches Err(ParseError::UnexpectedToken(m)) && m@ == token_label(
                    t,
                ),
            },
    {
        match parse_assignment(&self.tokens, self.pos) {
            Ok((e, p)) => {
                self.pos = p;
                Ok(e)
            },
            Err(f) => Err(f),
        }
    }
}

/// Optimizing never adds operator nodes.
pub proof fn lemma_opt_op_count<A: Fn(NumOp, u64, u64) -> u64>(e: ASTNode, a: A)
    ensures
        op_count(opt(e, a)) <= op_count(e),
    decreases e,
{
    match e {
        ASTNode::BinaryOp { op, left, right } => {
            lemma_opt_op_count(*left, a);
            lemma_opt_op_count(*right, a);
            let l = opt(*left, a);
            let r = opt(*right, a);
            assert(op_count(simplify(op, l, r)) <= 1 + op_count(l) + op_count(r));
        },
        ASTNode::UnaryOp { operand, .. } => {
            lemma_opt_op_count(*operand, a);
        },
        _ => {},
    }
}

/// Everything that one compilation produces.
pub struct ParseResult {
    pub tokens: Vec<Token>,
    pub ast: ASTNode,
    pub identifier_table: Vec<(String, usize)>,
    pub semantic_warnings: Vec<String>,
    pub three_address_code: Vec<String>,
    pub optimized_ast: ASTNode,
    pub optimized_three_address_code: Vec<String>,
}

/// The fields of a compilation of the token sequence `toks`, whose identifier
/// table is `names`.
pub open spec fn compiled<S, A>(
    res: ParseResult,
    toks: Seq<Token>,
    names: Seq<Seq<char>>,
    e: ASTNode,
    show: S,
    arith: A,
) -> bool where S: Fn(u64) -> String, A: Fn(NumOp, u64, u64) -> u64 {
    &&& res.tokens@ == toks
    &&& res.identifier_table.len() == names.len()
    &&& forall|i: int|
        0 <= i < names.len() ==> (#[trigger] res.identifier_table@[i]).0@ == names[i]
            && res.identifier_table@[i].1 == i + 1
    &&& res.ast == e
    &&& texts(res.semantic_warnings@) == warnings(e)
    &&& texts(res.three_address_code@) == tac(e, 1, show).0
    &&& res.optimized_ast == opt(e, arith)
    &&& texts(res.optimized_three_address_code@) == peephole(tac(opt(e, arith), 1, show).0)
}

/// What compiling the tokens `toks` gives.
pub open spec fn compiles_to<S, A>(
    r: Result<ParseResult, ParseError>,
    toks: Seq<Token>,
    names: Seq<Seq<char>>,
    show: S,
    arith: A,
) -> bool where S: Fn(u64) -> String, A: Fn(NumOp, u64, u64) -> u64 {
    match p_assignment(toks, 0) {
        Ok((e, _)) => r matches Ok(res) && compiled::<S, A>(res, toks, names, e, show, arith),
        Err(None) => r matches Err(ParseError::UnexpectedEndOfInput),
        Err(Some(t)) => r matches Err(ParseError::UnexpectedToken(m)) && m@ == token_label(t),
    }
}

fn copy_tokens(v: &Vec<Token>) -> (r: Vec<Token>)
    ensures
        r@ == v@,
{
    let mut r: Vec<Token> = Vec::new();
    let mut i: usize = 0;
    while i < v.len()
        invariant
            i <= v.len(),
            r@ == v@.subrange(0, i as int),
        decreases v.len() - i,
    {
        r.push(copy_token(&v[i]));
        i = i + 1;
        assert(r@ =~= v@.subrange(0, i as int));
    }
    assert(r@ =~= v@);
    r
}

impl ParseResult {
    /// Compiles one input line: lexing, parsing, semantic warnings, three-address
    /// code, and the optimized tree and code. `parse` reads number literals,
    /// `show` prints numbers, and `arith` computes with them.
    pub fn from_input<P, S, A>(input: &str, parse: &P, show: &S, arith: &A) -> (r: Result<
        Self,
        ParseError,
    >) where P: Fn(String) -> u64, S: Fn(u64) -> String, A: Fn(NumOp, u64, u64) -> u64
        requires
            parse_ok(*parse),
            show_ok(*show),
            arith_ok(*arith),
        ensures
            match lex(input@, *parse) {
                Err(f) => r matches Err(e) && reports_failure(e, f),
                Ok((ts, names)) => if ts.len() == 0 {
                    r matches Err(ParseError::UnexpectedEndOfInput)
                } else {
                    exists|toks: Seq<Token>|
                        token_views(toks) == ts && #[trigger] compiles_to::<S, A>(
                            r,
                            toks,
                            names,
                            *show,
                            *arith,
                        )
                },
            },
    {
        let mut lexer = Lexer::new(input);
        let tokens = match lexer.tokenize(parse) {
            Ok(t) => t,
            Err(e) => return Err(e),
        };
        if tokens.len() == 0 {
            return Err(ParseError::UnexpectedEndOfInput);
        }
        let ghost names = lexer.names();
        let identifier_table = lexer.into_identifier_table();
        let mut parser = Parser::new(copy_tokens(&tokens));
        let ast = match parser.parse() {
            Ok(e) => e,
            Err(e) => {
                assert(compiles_to::<S, A>(Err(e), tokens@, names, *show, *arith));
                return Err(e);
            },
        };
        let semantic_warnings = ast.semantic_check();
        let mut temp_counter: usize = 1;
        let (three_address_code, _) = ast.to_three_address_code(&mut temp_counter, show);
        let optimized_ast = ast.optimize(arith);
        proof {
            lemma_opt_op_count(ast, *arith);
        }
        let mut temp_counter: usize = 1;
        let (optimized_code, _) = optimized_ast.to_three_address_code(&mut temp_counter, show);
        let optimized_three_address_code = peephole_optimize(optimized_code);
        let res = Self {
            tokens,
            ast,
            identifier_table,
            semantic_warnings,
            three_address_code,
            optimized_ast,
            optimized_three_address_code,
        };
        assert(compiles_to::<S, A>(Ok(res), res.tokens@, names, *show, *arith));
        Ok(res)
    }

    /// The peephole pass over three-address code.
    pub fn peephole_optimize(code: Vec<String>) -> (r: Vec<String>)
        ensures
            texts(r@) == peephole(texts(code@)),
    {
        peephole_optimize(code)
    }
}

} // verus!

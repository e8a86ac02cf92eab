use vstd::prelude::*;
use std::collections::HashMap;

use crate::ast::{
    lemma_exprs_view_push, lemma_names_view_push, lemma_stmts_view_push, stmts_view,
    block_view, exprs_view, expr_view, names_view, stmt_view, BlockStatement, Boolean,
    CallExpression, Expression, ExpressionStatement, FunctionLiteral, IdentifierToken,
    IfExpression, InfixExpression, IntegerLiteral, LetStatement, PrefixExpression, Program,
    ReturnStatement, SpecBlock, SpecExpression, SpecStatement, Statement,
};
use crate::lexer::{lex, lex_fits, Lexer};
use crate::text::{parse_i64, parse_int, string_of};
use crate::token::{
    kind_of, token_debug, token_text, Keyword, SpecToken, Token, KIND_ASSIGN, KIND_COMMA, KIND_ELSE, KIND_EOF,
    KIND_IDENTIFIER, KIND_LBRACE, KIND_LPAREN, KIND_RBRACE, KIND_RPAREN, KIND_SEMICOLON, KIND_TRUE,
};

verus! {

// ---------------------------------------------------------------------------
// Precedences.

/// How tightly an operator binds, from loosest to tightest.
#[derive(Debug, PartialEq, Eq, Structural, PartialOrd, Clone, Copy)]
pub enum Precedence {
    Lowest,
    Equals,
    LessGreater,
    Sum,
    Product,
    Prefix,
    Call,
}

/// The place of a precedence in the order from loosest to tightest.
pub open spec fn rank(p: Precedence) -> int {
    match p {
        Precedence::Lowest => 0,
        Precedence::Equals => 1,
        Precedence::LessGreater => 2,
        Precedence::Sum => 3,
        Precedence::Product => 4,
        Precedence::Prefix => 5,
        Precedence::Call => 6,
    }
}

/// The precedence of the operator a token stands for, if it stands for one.
pub open spec fn operator_precedence(t: SpecToken) -> Option<Precedence> {
    match t {
        SpecToken::EQ => Some(Precedence::Equals),
        SpecToken::NOTEQ => Some(Precedence::Equals),
        SpecToken::LT => Some(Precedence::LessGreater),
        SpecToken::GT => Some(Precedence::LessGreater),
        SpecToken::PLUS => Some(Precedence::Sum),
        SpecToken::MINUS => Some(Precedence::Sum),
        SpecToken::SLASH => Some(Precedence::Product),
        SpecToken::ASTERISK => Some(Precedence::Product),
        SpecToken::LPAREN => Some(Precedence::Call),
        _ => None,
    }
}

/// The precedence of a token, `Lowest` for a token that is no operator.
pub open spec fn precedence_of(t: SpecToken) -> Precedence {
    match operator_precedence(t) {
        Some(p) => p,
        None => Precedence::Lowest,
    }
}

impl Precedence {
    /// The place of this precedence in the order from loosest to tightest.
    pub fn rank(&self) -> (r: u8)
        ensures
            r == rank(*self),
    {
        match self {
            Precedence::Lowest => 0,
            Precedence::Equals => 1,
            Precedence::LessGreater => 2,
            Precedence::Sum => 3,
            Precedence::Product => 4,
            Precedence::Prefix => 5,
            Precedence::Call => 6,
        }
    }
}

impl TryFrom<Token> for Precedence {
    type Error = ();

    /// The precedence of the operator `token` stands for, or `Err` for a token
    /// that is no operator.
    fn try_from(token: Token) -> (r: Result<Precedence, ()>) {
        match token {
            Token::EQ => Ok(Precedence::Equals),
            Token::NOTEQ => Ok(Precedence::Equals),
            Token::LT => Ok(Precedence::LessGreater),
            Token::GT => Ok(Precedence::LessGreater),
            Token::PLUS => Ok(Precedence::Sum),
            Token::MINUS => Ok(Precedence::Sum),
            Token::SLASH => Ok(Precedence::Product),
            Token::ASTERISK => Ok(Precedence::Product),
            Token::LPAREN => Ok(Precedence::Call),
            _ => Err(()),
        }
    }
}

impl vstd::std_specs::convert::TryFromSpecImpl<Token> for Precedence {
    open spec fn obeys_try_from_spec() -> bool {
        true
    }

    open spec fn try_from_spec(v: Token) -> Result<Self, Self::Error> {
        match operator_precedence(v@) {
            Some(p) => Ok(p),
            None => Err(()),
        }
    }
}

// ---------------------------------------------------------------------------
// The parse functions that can be registered for a kind of token.

/// A parse function that starts an expression at the current token.
#[derive(Debug, PartialEq, Eq, Structural, Clone, Copy)]
pub enum PrefixParseFn {
    Identifier,
    IntegerLiteral,
    PrefixExpression,
    GroupedExpression,
    IfExpression,
    Boolean,
    FunctionLiteral,
}

/// A parse function that continues an expression whose left operand is read.
#[derive(Debug, PartialEq, Eq, Structural, Clone, Copy)]
pub enum InfixParseFn {
    InfixExpression,
    CallExpression,
}

// ---------------------------------------------------------------------------
// The model of parsing.

/// Where a parse stands: the input and the lexer's position in it, the current
/// token and the token after it.
pub struct PState {
    pub input: Seq<char>,
    pub pos: int,
    pub cur: SpecToken,
    pub peek: SpecToken,
}

/// The parse functions registered for each kind of token.
pub struct Env {
    pub prefix: Map<u64, PrefixParseFn>,
    pub infix: Map<u64, InfixParseFn>,
}

/// How a parse step ends: with the state it leaves and a value, with a panic,
/// or not within the fuel it was given.
pub enum Run<T> {
    Done(PState, T),
    Panic,
    Stuck,
}

/// The step finished.
pub open spec fn done<T>(r: Run<T>) -> bool {
    r is Done
}

/// Some number satisfies `p`: here, some fuel lets a parse step finish.
pub open spec fn completes(p: spec_fn(nat) -> bool) -> bool {
    exists|f: nat| #[trigger] p(f)
}

/// A number that satisfies `p`, where there is one.
pub open spec fn witness(p: spec_fn(nat) -> bool) -> nat {
    choose|f: nat| #[trigger] p(f)
}

/// One step of the token stream: the peek token becomes the current one and
/// the lexer reads the next; `None` where the lexer's position would overflow.
#[verifier::opaque]
pub open spec fn advance(st: PState) -> Option<PState> {
    if lex_fits(st.input, st.pos) {
        let (t, p) = lex(st.input, st.pos);
        Some(PState { input: st.input, pos: p, cur: st.peek, peek: t })
    } else {
        None
    }
}

/// `expect_peek`, unwrapped: a step when the peek token has kind `k`; `None`
/// (a panic) otherwise.
pub open spec fn expect(st: PState, k: u64) -> Option<PState> {
    if kind_of(st.peek) == k {
        advance(st)
    } else {
        None
    }
}

/// A step past an optional semicolon after a statement.
pub open spec fn skip_semicolon(st: PState) -> Option<PState> {
    if kind_of(st.peek) == KIND_SEMICOLON {
        advance(st)
    } else {
        Some(st)
    }
}

/// The value `m` holds for `k`, if any.
pub open spec fn lookup<V>(m: Map<u64, V>, k: u64) -> Option<V> {
    if m.contains_key(k) {
        Some(m[k])
    } else {
        None
    }
}


/// `parse_program`: statements up to the first `EOF` current token.
pub open spec fn run_program(env: Env, f: nat, st: PState) -> Run<Seq<SpecStatement>> {
    if f == 0 {
        Run::Stuck
    } else {
        program_loop(env, (f - 1) as nat, st, Seq::empty())
    }
}

/// The statements of a program from `st` on, after those in `acc`.
pub open spec fn program_loop(env: Env, f: nat, st: PState, acc: Seq<SpecStatement>) -> Run<
    Seq<SpecStatement>,
>
    decreases f,
{
    if f == 0 {
        Run::Stuck
    } else if kind_of(st.cur) == KIND_EOF {
        Run::Done(st, acc)
    } else {
        match run_statement(env, (f - 1) as nat, st) {
            Run::Done(s1, s) => match advance(s1) {
                Some(s2) => program_loop(env, (f - 1) as nat, s2, acc.push(s)),
                None => Run::Panic,
            },
            Run::Panic => Run::Panic,
            Run::Stuck => Run::Stuck,
        }
    }
}

/// `parse_statement`.
pub open spec fn run_statement(env: Env, f: nat, st: PState) -> Run<SpecStatement>
    decreases f, 0nat,
{
    if f == 0 {
        Run::Stuck
    } else {
        match st.cur {
            SpecToken::KEYWORD(Keyword::LET) => match run_let(env, (f - 1) as nat, st) {
                Run::Done(s1, Some(x)) => Run::Done(s1, x),
                Run::Done(_, None) => Run::Panic,
                Run::Panic => Run::Panic,
                Run::Stuck => Run::Stuck,
            },
            SpecToken::KEYWORD(Keyword::RETURN) => match run_return(env, (f - 1) as nat, st) {
                Run::Done(s1, Some(x)) => Run::Done(s1, x),
                Run::Done(_, None) => Run::Panic,
                Run::Panic => Run::Panic,
                Run::Stuck => Run::Stuck,
            },
            _ => run_expression_statement(env, (f - 1) as nat, st),
        }
    }
}

/// `parse_let_statement`.
pub open spec fn run_let(env: Env, f: nat, st: PState) -> Run<Option<SpecStatement>>
    decreases f, 0nat,
{
    if f == 0 {
        Run::Stuck
    } else {
        match expect(st, KIND_IDENTIFIER) {
            None => Run::Panic,
            Some(s1) => match expect(s1, KIND_ASSIGN) {
                None => Run::Panic,
                Some(s2) => match advance(s2) {
                    None => Run::Panic,
                    Some(s3) => match run_expression(env, (f - 1) as nat, s3, Precedence::Lowest) {
                        Run::Done(s4, None) => Run::Done(s4, None),
                        Run::Done(s4, Some(v)) => match skip_semicolon(s4) {
                            None => Run::Panic,
                            Some(s5) => Run::Done(
                                s5,
                                Some(
                                    SpecStatement::Let {
                                        token: st.cur,
                                        name: token_text(s1.cur),
                                        value: v,
                                    },
                                ),
                            ),
                        },
                        Run::Panic => Run::Panic,
                        Run::Stuck => Run::Stuck,
                    },
                },
            },
        }
    }
}

/// `parse_return_statement`.
pub open spec fn run_return(env: Env, f: nat, st: PState) -> Run<Option<SpecStatement>>
    decreases f, 0nat,
{
    if f == 0 {
        Run::Stuck
    } else {
        match advance(st) {
            None => Run::Panic,
            Some(s1) => match run_expression(env, (f - 1) as nat, s1, Precedence::Lowest) {
                Run::Done(s2, None) => Run::Done(s2, None),
                Run::Done(s2, Some(v)) => match skip_semicolon(s2) {
                    None => Run::Panic,
                    Some(s3) => Run::Done(
                        s3,
                        Some(SpecStatement::Return { token: st.cur, value: v }),
                    ),
                },
                Run::Panic => Run::Panic,
                Run::Stuck => Run::Stuck,
            },
        }
    }
}

/// `parse_expression_statement`.
pub open spec fn run_expression_statement(env: Env, f: nat, st: PState) -> Run<SpecStatement>
    decreases f, 0nat,
{
    if f == 0 {
        Run::Stuck
    } else {
        match run_expression(env, (f - 1) as nat, st, Precedence::Lowest) {
            Run::Done(_, None) => Run::Panic,
            Run::Done(s1, Some(e)) => match skip_semicolon(s1) {
                None => Run::Panic,
                Some(s2) => Run::Done(
                    s2,
                    SpecStatement::Expression { token: st.cur, expression: e },
                ),
            },
            Run::Panic => Run::Panic,
            Run::Stuck => Run::Stuck,
        }
    }
}

/// `parse_block_statement`.
pub open spec fn run_block(env: Env, f: nat, st: PState) -> Run<SpecBlock>
    decreases f, 0nat,
{
    if f == 0 {
        Run::Stuck
    } else {
        match advance(st) {
            None => Run::Panic,
            Some(s1) => match block_loop(env, (f - 1) as nat, s1, Seq::empty()) {
                Run::Done(s2, stmts) => Run::Done(
                    s2,
                    SpecBlock { token: st.cur, statements: stmts },
                ),
                Run::Panic => Run::Panic,
                Run::Stuck => Run::Stuck,
            },
        }
    }
}

/// The loop of `parse_block_statement`: statements up to a `}` or `EOF`.
pub open spec fn block_loop(env: Env, f: nat, st: PState, acc: Seq<SpecStatement>) -> Run<
    Seq<SpecStatement>,
>
    decreases f, 0nat,
{
    if f == 0 {
        Run::Stuck
    } else if kind_of(st.cur) == KIND_RBRACE || kind_of(st.cur) == KIND_EOF {
        Run::Done(st, acc)
    } else {
        match run_statement(env, (f - 1) as nat, st) {
            Run::Done(s1, s) => match advance(s1) {
                Some(s2) => block_loop(env, (f - 1) as nat, s2, acc.push(s)),
                None => Run::Panic,
            },
            Run::Panic => Run::Panic,
            Run::Stuck => Run::Stuck,
        }
    }
}

/// `parse_expression`: the prefix parse function registered for the current
/// token, then infix parse functions while the next operator binds tighter
/// than `prec`.
pub open spec fn run_expression(env: Env, f: nat, st: PState, prec: Precedence) -> Run<
    Option<SpecExpression>,
>
    decreases f, 1nat,
{
    if f == 0 {
        Run::Stuck
    } else {
        match lookup(env.prefix, kind_of(st.cur)) {
            None => Run::Panic,
            Some(pf) => match run_prefix_fn(env, (f - 1) as nat, st, pf) {
                Run::Done(s1, None) => Run::Done(s1, None),
                Run::Done(s1, Some(left)) => infix_loop(env, (f - 1) as nat, s1, prec, left),
                Run::Panic => Run::Panic,
                Run::Stuck => Run::Stuck,
            },
        }
    }
}

/// A registered prefix parse function at work.
pub open spec fn run_prefix_fn(env: Env, f: nat, st: PState, pf: PrefixParseFn) -> Run<
    Option<SpecExpression>,
>
    decreases f, 1nat,
{
    match pf {
        PrefixParseFn::Identifier => Run::Done(
            st,
            Some(SpecExpression::Identifier(token_text(st.cur))),
        ),
        PrefixParseFn::IntegerLiteral => Run::Done(
            st,
            match parse_i64(token_text(st.cur)) {
                Some(v) => Some(SpecExpression::IntegerLiteral(v)),
                None => None,
            },
        ),
        PrefixParseFn::Boolean => Run::Done(
            st,
            Some(SpecExpression::Boolean(kind_of(st.cur) == KIND_TRUE)),
        ),
        PrefixParseFn::PrefixExpression => run_prefix_expression(env, f, st),
        PrefixParseFn::GroupedExpression => run_grouped(env, f, st),
        PrefixParseFn::IfExpression => run_if(env, f, st),
        PrefixParseFn::FunctionLiteral => run_function_literal(env, f, st),
    }
}

/// The loop of `parse_expression`.
pub open spec fn infix_loop(
    env: Env,
    f: nat,
    st: PState,
    prec: Precedence,
    left: SpecExpression,
) -> Run<Option<SpecExpression>>
    decreases f, 0nat,
{
    if f == 0 {
        Run::Stuck
    } else if kind_of(st.peek) == KIND_SEMICOLON || !(rank(prec) < rank(precedence_of(st.peek))) {
        Run::Done(st, Some(left))
    } else {
        match lookup(env.infix, kind_of(st.peek)) {
            None => Run::Done(st, Some(left)),
            Some(inf) => match advance(st) {
                None => Run::Panic,
                Some(s1) => match run_infix_fn(env, (f - 1) as nat, s1, inf, left) {
                    Run::Done(s2, None) => Run::Done(s2, None),
                    Run::Done(s2, Some(e)) => infix_loop(env, (f - 1) as nat, s2, prec, e),
                    Run::Panic => Run::Panic,
                    Run::Stuck => Run::Stuck,
                },
            },
        }
    }
}

/// A registered infix parse function at work.
pub open spec fn run_infix_fn(
    env: Env,
    f: nat,
    st: PState,
    inf: InfixParseFn,
    left: SpecExpression,
) -> Run<Option<SpecExpression>>
    decreases f, 1nat,
{
    match inf {
        InfixParseFn::InfixExpression => run_infix(env, f, st, left),
        InfixParseFn::CallExpression => run_call(env, f, st, left),
    }
}

/// `parse_prefix_expression`.
pub open spec fn run_prefix_expression(env: Env, f: nat, st: PState) -> Run<
    Option<SpecExpression>,
>
    decreases f, 0nat,
{
    if f == 0 {
        Run::Stuck
    } else {
        match advance(st) {
            None => Run::Panic,
            Some(s1) => match run_expression(env, (f - 1) as nat, s1, Precedence::Prefix) {
                Run::Done(s2, None) => Run::Done(s2, None),
                Run::Done(s2, Some(r)) => Run::Done(
                    s2,
                    Some(
                        SpecExpression::Prefix {
                            token: st.cur,
                            operator: token_text(st.cur),
                            right: Box::new(r),
                        },
                    ),
                ),
                Run::Panic => Run::Panic,
                Run::Stuck => Run::Stuck,
            },
        }
    }
}

/// `parse_infix_expression`.
pub open spec fn run_infix(env: Env, f: nat, st: PState, left: SpecExpression) -> Run<
    Option<SpecExpression>,
>
    decreases f, 0nat,
{
    if f == 0 {
        Run::Stuck
    } else {
        match advance(st) {
            None => Run::Panic,
            Some(s1) => match run_expression(env, (f - 1) as nat, s1, precedence_of(st.cur)) {
                Run::Done(s2, None) => Run::Done(s2, None),
                Run::Done(s2, Some(r)) => Run::Done(
                    s2,
                    Some(
                        SpecExpression::Infix {
                            token: st.cur,
                            left: Box::new(left),
                            operator: token_text(st.cur),
                            right: Box::new(r),
                        },
                    ),
                ),
                Run::Panic => Run::Panic,
                Run::Stuck => Run::Stuck,
            },
        }
    }
}

/// `parse_grouped_expression`.
pub open spec fn run_grouped(env: Env, f: nat, st: PState) -> Run<Option<SpecExpression>>
    decreases f, 0nat,
{
    if f == 0 {
        Run::Stuck
    } else {
        match advance(st) {
            None => Run::Panic,
            Some(s1) => match run_expression(env, (f - 1) as nat, s1, Precedence::Lowest) {
                Run::Done(s2, e) => match expect(s2, KIND_RPAREN) {
                    None => Run::Panic,
                    Some(s3) => Run::Done(s3, e),
                },
                Run::Panic => Run::Panic,
                Run::Stuck => Run::Stuck,
            },
        }
    }
}

/// `parse_if_expression`.
pub open spec fn run_if(env: Env, f: nat, st: PState) -> Run<Option<SpecExpression>>
    decreases f, 0nat,
{
    if f == 0 {
        Run::Stuck
    } else {
        match expect(st, KIND_LPAREN) {
            None => Run::Panic,
            Some(s1) => match advance(s1) {
                None => Run::Panic,
                Some(s2) => match run_expression(env, (f - 1) as nat, s2, Precedence::Lowest) {
                    Run::Done(s3, None) => Run::Done(s3, None),
                    Run::Done(s3, Some(c)) => match expect(s3, KIND_RPAREN) {
                        None => Run::Panic,
                        Some(s4) => match expect(s4, KIND_LBRACE) {
                            None => Run::Panic,
                            Some(s5) => match run_block(env, (f - 1) as nat, s5) {
                                Run::Done(s6, cons) => if kind_of(s6.peek) == KIND_ELSE {
                                    match advance(s6) {
                                        None => Run::Panic,
                                        Some(s7) => match expect(s7, KIND_LBRACE) {
                                            None => Run::Panic,
                                            Some(s8) => match run_block(env, (f - 1) as nat, s8) {
                                                Run::Done(s9, alt) => Run::Done(
                                                    s9,
                                                    Some(
                                                        SpecExpression::If {
                                                            token: st.cur,
                                                            condition: Box::new(c),
                                                            consequence: cons,
                                                            alternative: Some(alt),
                                                        },
                                                    ),
                                                ),
                                                Run::Panic => Run::Panic,
                                                Run::Stuck => Run::Stuck,
                                            },
                                        },
                                    }
                                } else {
                                    Run::Done(
                                        s6,
                                        Some(
                                            SpecExpression::If {
                                                token: st.cur,
                                                condition: Box::new(c),
                                                consequence: cons,
                                                alternative: None,
                                            },
                                        ),
                                    )
                                },
                                Run::Panic => Run::Panic,
                                Run::Stuck => Run::Stuck,
                            },
                        },
                    },
                    Run::Panic => Run::Panic,
                    Run::Stuck => Run::Stuck,
                },
            },
        }
    }
}

/// `parse_function_literal`.
pub open spec fn run_function_literal(env: Env, f: nat, st: PState) -> Run<
    Option<SpecExpression>,
>
    decreases f, 0nat,
{
    if f == 0 {
        Run::Stuck
    } else {
        match expect(st, KIND_LPAREN) {
            None => Run::Panic,
            Some(s1) => match run_parameters((f - 1) as nat, s1) {
                Run::Done(s2, params) => match expect(s2, KIND_LBRACE) {
                    None => Run::Panic,
                    Some(s3) => match run_block(env, (f - 1) as nat, s3) {
                        Run::Done(s4, body) => Run::Done(
                            s4,
                            Some(
                                SpecExpression::Function {
                                    token: st.cur,
                                    parameters: params,
                                    body: body,
                                },
                            ),
                        ),
                        Run::Panic => Run::Panic,
                        Run::Stuck => Run::Stuck,
                    },
                },
                Run::Panic => Run::Panic,
                Run::Stuck => Run::Stuck,
            },
        }
    }
}

/// `parse_call_expression`.
pub open spec fn run_call(env: Env, f: nat, st: PState, function: SpecExpression) -> Run<
    Option<SpecExpression>,
>
    decreases f, 0nat,
{
    if f == 0 {
        Run::Stuck
    } else {
        match run_arguments(env, (f - 1) as nat, st) {
            Run::Done(s1, None) => Run::Done(s1, None),
            Run::Done(s1, Some(args)) => Run::Done(
                s1,
                Some(
                    SpecExpression::Call {
                        token: st.cur,
                        function: Box::new(function),
                        arguments: args,
                    },
                ),
            ),
            Run::Panic => Run::Panic,
            Run::Stuck => Run::Stuck,
        }
    }
}

/// `parse_call_arguments`.
pub open spec fn run_arguments(env: Env, f: nat, st: PState) -> Run<
    Option<Seq<SpecExpression>>,
>
    decreases f, 0nat,
{
    if f == 0 {
        Run::Stuck
    } else if kind_of(st.peek) == KIND_RPAREN {
        match advance(st) {
            None => Run::Panic,
            Some(s1) => Run::Done(s1, Some(Seq::empty())),
        }
    } else {
        match advance(st) {
            None => Run::Panic,
            Some(s1) => match run_expression(env, (f - 1) as nat, s1, Precedence::Lowest) {
                Run::Done(s2, None) => Run::Done(s2, None),
                Run::Done(s2, Some(e)) => arguments_loop(env, (f - 1) as nat, s2, seq![e]),
                Run::Panic => Run::Panic,
                Run::Stuck => Run::Stuck,
            },
        }
    }
}

/// The loop of `parse_call_arguments`.
pub open spec fn arguments_loop(env: Env, f: nat, st: PState, acc: Seq<SpecExpression>) -> Run<
    Option<Seq<SpecExpression>>,
>
    decreases f, 0nat,
{
    if f == 0 {
        Run::Stuck
    } else if kind_of(st.peek) == KIND_COMMA {
        match advance(st) {
            None => Run::Panic,
            Some(s1) => match advance(s1) {
                None => Run::Panic,
                Some(s2) => match run_expression(env, (f - 1) as nat, s2, Precedence::Lowest) {
                    Run::Done(s3, None) => Run::Done(s3, None),
                    Run::Done(s3, Some(e)) => arguments_loop(env, (f - 1) as nat, s3, acc.push(e)),
                    Run::Panic => Run::Panic,
                    Run::Stuck => Run::Stuck,
                },
            },
        }
    } else {
        match expect(st, KIND_RPAREN) {
            None => Run::Panic,
            Some(s1) => Run::Done(s1, Some(acc)),
        }
    }
}

/// `parse_function_parameters`: the literal of each token in a
/// comma-separated list, up to `)`.
pub open spec fn run_parameters(f: nat, st: PState) -> Run<Seq<Seq<char>>> {
    if f == 0 {
        Run::Stuck
    } else if kind_of(st.peek) == KIND_RPAREN {
        match advance(st) {
            None => Run::Panic,
            Some(s1) => Run::Done(s1, Seq::empty()),
        }
    } else {
        match advance(st) {
            None => Run::Panic,
            Some(s1) => parameters_loop((f - 1) as nat, s1, seq![token_text(s1.cur)]),
        }
    }
}

/// The loop of `parse_function_parameters`.
pub open spec fn parameters_loop(f: nat, st: PState, acc: Seq<Seq<char>>) -> Run<Seq<Seq<char>>>
    decreases f,
{
    if f == 0 {
        Run::Stuck
    } else if kind_of(st.peek) == KIND_COMMA {
        match advance(st) {
            None => Run::Panic,
            Some(s1) => match advance(s1) {
                None => Run::Panic,
                Some(s2) => parameters_loop((f - 1) as nat, s2, acc.push(token_text(s2.cur))),
            },
        }
    } else {
        match expect(st, KIND_RPAREN) {
            None => Run::Panic,
            Some(s1) => Run::Done(s1, acc),
        }
    }
}



// ---------------------------------------------------------------------------
// More fuel does not change a finished parse.

/// Once a statement parse finishes with some fuel, any larger fuel gives the
/// same result.
pub proof fn lemma_statement_fuel(env: Env, f1: nat, f2: nat, st: PState)
    requires
        f1 <= f2,
        done(run_statement(env, f1, st)),
    ensures
        run_statement(env, f2, st) == run_statement(env, f1, st),
    decreases f1, 0nat,
{
    match st.cur {
        SpecToken::KEYWORD(Keyword::LET) => lemma_let_fuel(env, (f1 - 1) as nat, (f2 - 1) as nat, st),
        SpecToken::KEYWORD(Keyword::RETURN) => lemma_return_fuel(
            env,
            (f1 - 1) as nat,
            (f2 - 1) as nat,
            st,
        ),
        _ => lemma_expression_statement_fuel(env, (f1 - 1) as nat, (f2 - 1) as nat, st),
    }
}

/// The same for a `let` statement.
pub proof fn lemma_let_fuel(env: Env, f1: nat, f2: nat, st: PState)
    requires
        f1 <= f2,
        done(run_let(env, f1, st)),
    ensures
        run_let(env, f2, st) == run_let(env, f1, st),
    decreases f1, 0nat,
{
    if let Some(s1) = expect(st, KIND_IDENTIFIER) {
        if let Some(s2) = expect(s1, KIND_ASSIGN) {
            if let Some(s3) = advance(s2) {
                lemma_expression_fuel(env, (f1 - 1) as nat, (f2 - 1) as nat, s3, Precedence::Lowest);
            }
        }
    }
}

/// The same for a `return` statement.
pub proof fn lemma_return_fuel(env: Env, f1: nat, f2: nat, st: PState)
    requires
        f1 <= f2,
        done(run_return(env, f1, st)),
    ensures
        run_return(env, f2, st) == run_return(env, f1, st),
    decreases f1, 0nat,
{
    if let Some(s1) = advance(st) {
        lemma_expression_fuel(env, (f1 - 1) as nat, (f2 - 1) as nat, s1, Precedence::Lowest);
    }
}

/// The same for an expression statement.
pub proof fn lemma_expression_statement_fuel(env: Env, f1: nat, f2: nat, st: PState)
    requires
        f1 <= f2,
        done(run_expression_statement(env, f1, st)),
    ensures
        run_expression_statement(env, f2, st) == run_expression_statement(env, f1, st),
    decreases f1, 0nat,
{
    lemma_expression_fuel(env, (f1 - 1) as nat, (f2 - 1) as nat, st, Precedence::Lowest);
}

/// The same for a block.
pub proof fn lemma_block_fuel(env: Env, f1: nat, f2: nat, st: PState)
    requires
        f1 <= f2,
        done(run_block(env, f1, st)),
    ensures
        run_block(env, f2, st) == run_block(env, f1, st),
    decreases f1, 0nat,
{
    if let Some(s1) = advance(st) {
        lemma_block_loop_fuel(env, (f1 - 1) as nat, (f2 - 1) as nat, s1, Seq::empty());
    }
}

/// The same for the statements of a block.
pub proof fn lemma_block_loop_fuel(env: Env, f1: nat, f2: nat, st: PState, acc: Seq<SpecStatement>)
    requires
        f1 <= f2,
        done(block_loop(env, f1, st, acc)),
    ensures
        block_loop(env, f2, st, acc) == block_loop(env, f1, st, acc),
    decreases f1, 0nat,
{
    if !(kind_of(st.cur) == KIND_RBRACE || kind_of(st.cur) == KIND_EOF) {
        lemma_statement_fuel(env, (f1 - 1) as nat, (f2 - 1) as nat, st);
        if let Run::Done(s1, x) = run_statement(env, (f1 - 1) as nat, st) {
            if let Some(s2) = advance(s1) {
                lemma_block_loop_fuel(env, (f1 - 1) as nat, (f2 - 1) as nat, s2, acc.push(x));
            }
        }
    }
}

/// The same for an expression.
pub proof fn lemma_expression_fuel(env: Env, f1: nat, f2: nat, st: PState, prec: Precedence)
    requires
        f1 <= f2,
        done(run_expression(env, f1, st, prec)),
    ensures
        run_expression(env, f2, st, prec) == run_expression(env, f1, st, prec),
    decreases f1, 1nat,
{
    if let Some(pf) = lookup(env.prefix, kind_of(st.cur)) {
        lemma_prefix_fn_fuel(env, (f1 - 1) as nat, (f2 - 1) as nat, st, pf);
        if let Run::Done(s1, Some(left)) = run_prefix_fn(env, (f1 - 1) as nat, st, pf) {
            lemma_infix_loop_fuel(env, (f1 - 1) as nat, (f2 - 1) as nat, s1, prec, left);
        }
    }
}

/// The same for a registered prefix parse function.
pub proof fn lemma_prefix_fn_fuel(env: Env, f1: nat, f2: nat, st: PState, pf: PrefixParseFn)
    requires
        f1 <= f2,
        done(run_prefix_fn(env, f1, st, pf)),
    ensures
        run_prefix_fn(env, f2, st, pf) == run_prefix_fn(env, f1, st, pf),
    decreases f1, 1nat,
{
    match pf {
        PrefixParseFn::PrefixExpression => lemma_prefix_expression_fuel(env, f1, f2, st),
        PrefixParseFn::GroupedExpression => lemma_grouped_fuel(env, f1, f2, st),
        PrefixParseFn::IfExpression => lemma_if_fuel(env, f1, f2, st),
        PrefixParseFn::FunctionLiteral => lemma_function_literal_fuel(env, f1, f2, st),
        _ => {},
    }
}

/// The same for the operators after the left operand of an expression.
pub proof fn lemma_infix_loop_fuel(
    env: Env,
    f1: nat,
    f2: nat,
    st: PState,
    prec: Precedence,
    left: SpecExpression,
)
    requires
        f1 <= f2,
        done(infix_loop(env, f1, st, prec, left)),
    ensures
        infix_loop(env, f2, st, prec, left) == infix_loop(env, f1, st, prec, left),
    decreases f1, 0nat,
{
    if !(kind_of(st.peek) == KIND_SEMICOLON || !(rank(prec) < rank(precedence_of(st.peek)))) {
        if let Some(inf) = lookup(env.infix, kind_of(st.peek)) {
            if let Some(s1) = advance(st) {
                lemma_infix_fn_fuel(env, (f1 - 1) as nat, (f2 - 1) as nat, s1, inf, left);
                if let Run::Done(s2, Some(e)) = run_infix_fn(env, (f1 - 1) as nat, s1, inf, left) {
                    lemma_infix_loop_fuel(env, (f1 - 1) as nat, (f2 - 1) as nat, s2, prec, e);
                }
            }
        }
    }
}

/// The same for a registered infix parse function.
pub proof fn lemma_infix_fn_fuel(
    env: Env,
    f1: nat,
    f2: nat,
    st: PState,
    inf: InfixParseFn,
    left: SpecExpression,
)
    requires
        f1 <= f2,
        done(run_infix_fn(env, f1, st, inf, left)),
    ensures
        run_infix_fn(env, f2, st, inf, left) == run_infix_fn(env, f1, st, inf, left),
    decreases f1, 1nat,
{
    match inf {
        InfixParseFn::InfixExpression => lemma_infix_fuel(env, f1, f2, st, left),
        InfixParseFn::CallExpression => lemma_call_fuel(env, f1, f2, st, left),
    }
}

/// The same for a prefix expression.
pub proof fn lemma_prefix_expression_fuel(env: Env, f1: nat, f2: nat, st: PState)
    requires
        f1 <= f2,
        done(run_prefix_expression(env, f1, st)),
    ensures
        run_prefix_expression(env, f2, st) == run_prefix_expression(env, f1, st),
    decreases f1, 0nat,
{
    if let Some(s1) = advance(st) {
        lemma_expression_fuel(env, (f1 - 1) as nat, (f2 - 1) as nat, s1, Precedence::Prefix);
    }
}

/// The same for an infix expression.
pub proof fn lemma_infix_fuel(env: Env, f1: nat, f2: nat, st: PState, left: SpecExpression)
    requires
        f1 <= f2,
        done(run_infix(env, f1, st, left)),
    ensures
        run_infix(env, f2, st, left) == run_infix(env, f1, st, left),
    decreases f1, 0nat,
{
    if let Some(s1) = advance(st) {
        lemma_expression_fuel(env, (f1 - 1) as nat, (f2 - 1) as nat, s1, precedence_of(st.cur));
    }
}

/// The same for a grouped expression.
pub proof fn lemma_grouped_fuel(env: Env, f1: nat, f2: nat, st: PState)
    requires
        f1 <= f2,
        done(run_grouped(env, f1, st)),
    ensures
        run_grouped(env, f2, st) == run_grouped(env, f1, st),
    decreases f1, 0nat,
{
    if let Some(s1) = advance(st) {
        lemma_expression_fuel(env, (f1 - 1) as nat, (f2 - 1) as nat, s1, Precedence::Lowest);
    }
}

/// The same for an `if` expression.
pub proof fn lemma_if_fuel(env: Env, f1: nat, f2: nat, st: PState)
    requires
        f1 <= f2,
        done(run_if(env, f1, st)),
    ensures
        run_if(env, f2, st) == run_if(env, f1, st),
    decreases f1, 0nat,
{
    if let Some(s1) = expect(st, KIND_LPAREN) {
        if let Some(s2) = advance(s1) {
            lemma_expression_fuel(env, (f1 - 1) as nat, (f2 - 1) as nat, s2, Precedence::Lowest);
            if let Run::Done(s3, Some(c)) = run_expression(env, (f1 - 1) as nat, s2, Precedence::Lowest) {
                if let Some(s4) = expect(s3, KIND_RPAREN) {
                    if let Some(s5) = expect(s4, KIND_LBRACE) {
                        lemma_block_fuel(env, (f1 - 1) as nat, (f2 - 1) as nat, s5);
                        if let Run::Done(s6, cons) = run_block(env, (f1 - 1) as nat, s5) {
                            if kind_of(s6.peek) == KIND_ELSE {
                                if let Some(s7) = advance(s6) {
                                    if let Some(s8) = expect(s7, KIND_LBRACE) {
                                        lemma_block_fuel(env, (f1 - 1) as nat, (f2 - 1) as nat, s8);
                                    }
                                }
                            }
                        }
                    }
                }
            }
        }
    }
}

/// The same for a function literal.
pub proof fn lemma_function_literal_fuel(env: Env, f1: nat, f2: nat, st: PState)
    requires
        f1 <= f2,
        done(run_function_literal(env, f1, st)),
    ensures
        run_function_literal(env, f2, st) == run_function_literal(env, f1, st),
    decreases f1, 0nat,
{
    if let Some(s1) = expect(st, KIND_LPAREN) {
        lemma_parameters_fuel((f1 - 1) as nat, (f2 - 1) as nat, s1);
        if let Run::Done(s2, params) = run_parameters((f1 - 1) as nat, s1) {
            if let Some(s3) = expect(s2, KIND_LBRACE) {
                lemma_block_fuel(env, (f1 - 1) as nat, (f2 - 1) as nat, s3);
            }
        }
    }
}

/// The same for a call.
pub proof fn lemma_call_fuel(env: Env, f1: nat, f2: nat, st: PState, function: SpecExpression)
    requires
        f1 <= f2,
        done(run_call(env, f1, st, function)),
    ensures
        run_call(env, f2, st, function) == run_call(env, f1, st, function),
    decreases f1, 0nat,
{
    lemma_arguments_fuel(env, (f1 - 1) as nat, (f2 - 1) as nat, st);
}

/// The same for the arguments of a call.
pub proof fn lemma_arguments_fuel(env: Env, f1: nat, f2: nat, st: PState)
    requires
        f1 <= f2,
        done(run_arguments(env, f1, st)),
    ensures
        run_arguments(env, f2, st) == run_arguments(env, f1, st),
    decreases f1, 0nat,
{
    if kind_of(st.peek) != KIND_RPAREN {
        if let Some(s1) = advance(st) {
            lemma_expression_fuel(env, (f1 - 1) as nat, (f2 - 1) as nat, s1, Precedence::Lowest);
            if let Run::Done(s2, Some(e)) = run_expression(env, (f1 - 1) as nat, s1, Precedence::Lowest) {
                lemma_arguments_loop_fuel(env, (f1 - 1) as nat, (f2 - 1) as nat, s2, seq![e]);
            }
        }
    }
}

/// The same for the arguments after the first.
pub proof fn lemma_arguments_loop_fuel(env: Env, f1: nat, f2: nat, st: PState, acc: Seq<SpecExpression>)
    requires
        f1 <= f2,
        done(arguments_loop(env, f1, st, acc)),
    ensures
        arguments_loop(env, f2, st, acc) == arguments_loop(env, f1, st, acc),
    decreases f1, 0nat,
{
    if kind_of(st.peek) == KIND_COMMA {
        if let Some(s1) = advance(st) {
            if let Some(s2) = advance(s1) {
                lemma_expression_fuel(env, (f1 - 1) as nat, (f2 - 1) as nat, s2, Precedence::Lowest);
                if let Run::Done(s3, Some(e)) = run_expression(env, (f1 - 1) as nat, s2, Precedence::Lowest) {
                    lemma_arguments_loop_fuel(env, (f1 - 1) as nat, (f2 - 1) as nat, s3, acc.push(e));
                }
            }
        }
    }
}

/// The same for a parameter list.
pub proof fn lemma_parameters_fuel(f1: nat, f2: nat, st: PState)
    requires
        f1 <= f2,
        done(run_parameters(f1, st)),
    ensures
        run_parameters(f2, st) == run_parameters(f1, st),
{
    if kind_of(st.peek) != KIND_RPAREN {
        if let Some(s1) = advance(st) {
            lemma_parameters_loop_fuel((f1 - 1) as nat, (f2 - 1) as nat, s1, seq![token_text(s1.cur)]);
        }
    }
}

/// The same for the parameters after the first.
pub proof fn lemma_parameters_loop_fuel(f1: nat, f2: nat, st: PState, acc: Seq<Seq<char>>)
    requires
        f1 <= f2,
        done(parameters_loop(f1, st, acc)),
    ensures
        parameters_loop(f2, st, acc) == parameters_loop(f1, st, acc),
    decreases f1,
{
    if kind_of(st.peek) == KIND_COMMA {
        if let Some(s1) = advance(st) {
            if let Some(s2) = advance(s1) {
                lemma_parameters_loop_fuel((f1 - 1) as nat, (f2 - 1) as nat, s2, acc.push(token_text(s2.cur)));
            }
        }
    }
}

/// The same for a program.
pub proof fn lemma_program_fuel(env: Env, f1: nat, f2: nat, st: PState)
    requires
        f1 <= f2,
        done(run_program(env, f1, st)),
    ensures
        run_program(env, f2, st) == run_program(env, f1, st),
{
    lemma_program_loop_fuel(env, (f1 - 1) as nat, (f2 - 1) as nat, st, Seq::empty());
}

/// The same for the statements of a program.
pub proof fn lemma_program_loop_fuel(env: Env, f1: nat, f2: nat, st: PState, acc: Seq<SpecStatement>)
    requires
        f1 <= f2,
        done(program_loop(env, f1, st, acc)),
    ensures
        program_loop(env, f2, st, acc) == program_loop(env, f1, st, acc),
    decreases f1,
{
    if kind_of(st.cur) != KIND_EOF {
        lemma_statement_fuel(env, (f1 - 1) as nat, (f2 - 1) as nat, st);
        if let Run::Done(s1, x) = run_statement(env, (f1 - 1) as nat, st) {
            if let Some(s2) = advance(s1) {
                lemma_program_loop_fuel(env, (f1 - 1) as nat, (f2 - 1) as nat, s2, acc.push(x));
            }
        }
    }
}

// ---------------------------------------------------------------------------
// Laws of the parse.

/// A program that parses ends where the token stream does: the current token
/// is then `EOF`.
pub proof fn lemma_program_ends_at_eof(env: Env, f: nat, st: PState)
    requires
        done(run_program(env, f, st)),
    ensures
        run_program(env, f, st) matches Run::Done(s, _) && kind_of(s.cur) == KIND_EOF,
{
    lemma_program_loop_ends_at_eof(env, (f - 1) as nat, st, Seq::empty());
}

/// The same for the statements of a program after `acc`.
pub proof fn lemma_program_loop_ends_at_eof(env: Env, f: nat, st: PState, acc: Seq<SpecStatement>)
    requires
        done(program_loop(env, f, st, acc)),
    ensures
        program_loop(env, f, st, acc) matches Run::Done(s, _) && kind_of(s.cur) == KIND_EOF,
    decreases f,
{
    if kind_of(st.cur) != KIND_EOF {
        if let Run::Done(s1, x) = run_statement(env, (f - 1) as nat, st) {
            if let Some(s2) = advance(s1) {
                lemma_program_loop_ends_at_eof(env, (f - 1) as nat, s2, acc.push(x));
            }
        }
    }
}

/// A block that parses ends at its closing `}`, or at `EOF` where the input
/// ends first; it is the block of the token it started at.
pub proof fn lemma_block_ends_at_brace(env: Env, f: nat, st: PState)
    requires
        done(run_block(env, f, st)),
    ensures
        run_block(env, f, st) matches Run::Done(s, b) && (kind_of(s.cur) == KIND_RBRACE
            || kind_of(s.cur) == KIND_EOF) && b.token == st.cur,
{
    if let Some(s1) = advance(st) {
        lemma_block_loop_ends_at_brace(env, (f - 1) as nat, s1, Seq::empty());
    }
}

/// The same for the statements of a block after `acc`.
pub proof fn lemma_block_loop_ends_at_brace(env: Env, f: nat, st: PState, acc: Seq<SpecStatement>)
    requires
        done(block_loop(env, f, st, acc)),
    ensures
        block_loop(env, f, st, acc) matches Run::Done(s, _) && (kind_of(s.cur) == KIND_RBRACE
            || kind_of(s.cur) == KIND_EOF),
    decreases f,
{
    if !(kind_of(st.cur) == KIND_RBRACE || kind_of(st.cur) == KIND_EOF) {
        if let Run::Done(s1, x) = run_statement(env, (f - 1) as nat, st) {
            if let Some(s2) = advance(s1) {
                lemma_block_loop_ends_at_brace(env, (f - 1) as nat, s2, acc.push(x));
            }
        }
    }
}

/// A `let` must be followed by a name and `=`: where it is not, its model
/// panics at every fuel that reaches that check.
pub proof fn lemma_let_needs_name_and_assign(env: Env, f: nat, st: PState)
    requires
        f > 0,
        !(kind_of(st.peek) == KIND_IDENTIFIER && (advance(st) matches Some(s1) && kind_of(s1.peek)
            == KIND_ASSIGN)),
    ensures
        run_let(env, f, st) == Run::<Option<SpecStatement>>::Panic,
{
}

/// A program that starts with such a `let` does not parse: no fuel lets its
/// model finish.
pub proof fn lemma_program_with_bad_let(env: Env, st: PState)
    requires
        st.cur == SpecToken::KEYWORD(Keyword::LET),
        !(kind_of(st.peek) == KIND_IDENTIFIER && (advance(st) matches Some(s1) && kind_of(s1.peek)
            == KIND_ASSIGN)),
    ensures
        forall|f: nat| !done(#[trigger] run_program(env, f, st)),
{
    assert forall|f: nat| !done(#[trigger] run_program(env, f, st)) by {
        if f >= 4 {
            lemma_let_needs_name_and_assign(env, (f - 3) as nat, st);
        }
    }
}

/// Where an expression parsed at precedence `prec` ends: before a `;`, before
/// a token that binds no tighter than `prec`, or before one with no infix
/// parse function.
pub open spec fn ends_operand(env: Env, st: PState, prec: Precedence) -> bool {
    kind_of(st.peek) == KIND_SEMICOLON || rank(precedence_of(st.peek)) <= rank(prec) || lookup(
        env.infix,
        kind_of(st.peek),
    ) is None
}

/// An expression parsed at precedence `prec` takes in every operator that
/// binds tighter than `prec` and stops at the first that does not. So a
/// higher precedence binds tighter, and since the right operand of an infix
/// operator is parsed at that operator's own precedence, operators of equal
/// precedence associate to the left.
pub proof fn lemma_expression_ends_at_weaker_operator(env: Env, f: nat, st: PState, prec: Precedence)
    requires
        run_expression(env, f, st, prec) matches Run::Done(_, Some(_)),
    ensures
        run_expression(env, f, st, prec) matches Run::Done(s, _) && ends_operand(env, s, prec),
{
    let pf = lookup(env.prefix, kind_of(st.cur))->0;
    if let Run::Done(s1, Some(left)) = run_prefix_fn(env, (f - 1) as nat, st, pf) {
        lemma_infix_loop_ends_at_weaker_operator(env, (f - 1) as nat, s1, prec, left);
    }
}

/// The same for the loop of `parse_expression`.
pub proof fn lemma_infix_loop_ends_at_weaker_operator(
    env: Env,
    f: nat,
    st: PState,
    prec: Precedence,
    left: SpecExpression,
)
    requires
        infix_loop(env, f, st, prec, left) matches Run::Done(_, Some(_)),
    ensures
        infix_loop(env, f, st, prec, left) matches Run::Done(s, _) && ends_operand(env, s, prec),
    decreases f,
{
    if !(kind_of(st.peek) == KIND_SEMICOLON || !(rank(prec) < rank(precedence_of(st.peek)))) {
        if let Some(inf) = lookup(env.infix, kind_of(st.peek)) {
            if let Some(s1) = advance(st) {
                if let Run::Done(s2, Some(e)) = run_infix_fn(env, (f - 1) as nat, s1, inf, left) {
                    lemma_infix_loop_ends_at_weaker_operator(env, (f - 1) as nat, s2, prec, e);
                }
            }
        }
    }
}

/// The right operand of an infix operator is parsed at the operator's own
/// precedence.
pub proof fn lemma_infix_right_operand(env: Env, f: nat, st: PState, left: SpecExpression)
    requires
        run_infix(env, f, st, left) matches Run::Done(_, Some(_)),
    ensures
        advance(st) matches Some(s1) && run_expression(env, (f - 1) as nat, s1, precedence_of(st.cur))
            matches Run::Done(s2, Some(r)) && run_infix(env, f, st, left) == Run::Done(
            s2,
            Some(
                SpecExpression::Infix {
                    token: st.cur,
                    left: Box::new(left),
                    operator: token_text(st.cur),
                    right: Box::new(r),
                },
            ),
        ),
{
}

/// Parentheses reset the precedence: whatever surrounds them, what they hold
/// is parsed at `Lowest`, and must be followed by `)`.
pub proof fn lemma_parentheses_reset_precedence(env: Env, f: nat, st: PState)
    requires
        run_grouped(env, f, st) matches Run::Done(_, Some(_)),
    ensures
        advance(st) matches Some(s1) && run_expression(env, (f - 1) as nat, s1, Precedence::Lowest)
            matches Run::Done(s2, e) && expect(s2, KIND_RPAREN) matches Some(s3)
            && run_grouped(env, f, st) == Run::Done(s3, e),
{
}

/// An expression cannot start with a token for which no prefix parse
/// function is registered: its model panics at every fuel.
pub proof fn lemma_expression_needs_prefix_fn(env: Env, f: nat, st: PState, prec: Precedence)
    requires
        f > 0,
        lookup(env.prefix, kind_of(st.cur)) is None,
    ensures
        run_expression(env, f, st, prec) == Run::<Option<SpecExpression>>::Panic,
{
}

/// The tokens with which an expression can start in a new parser: an
/// identifier, an integer, `!`, `-`, `(`, `if`, `TRUE`, `FALSE` and `fn`.
pub proof fn lemma_default_prefix_tokens(t: SpecToken)
    ensures
        lookup(default_env().prefix, kind_of(t)) is Some <==> (t is IDENTIFIER || t is INT
            || t is BANG || t is MINUS || t is LPAREN || t is IF || t is TRUE || t is FALSE
            || t is FUNCTION),
{
}

/// How tightly the operator tokens bind: `==` and `!=` loosest, then `<` and
/// `>`, then `+` and `-`, then `*` and `/`, then the prefix operators, then a
/// call's `(`; the two operators of each pair bind alike, and no other token
/// is an operator.
pub proof fn lemma_operator_order(t: SpecToken)
    ensures
        precedence_of(SpecToken::EQ) == precedence_of(SpecToken::NOTEQ),
        precedence_of(SpecToken::LT) == precedence_of(SpecToken::GT),
        precedence_of(SpecToken::PLUS) == precedence_of(SpecToken::MINUS),
        precedence_of(SpecToken::ASTERISK) == precedence_of(SpecToken::SLASH),
        rank(Precedence::Lowest) < rank(precedence_of(SpecToken::EQ)),
        rank(precedence_of(SpecToken::EQ)) < rank(precedence_of(SpecToken::LT)),
        rank(precedence_of(SpecToken::LT)) < rank(precedence_of(SpecToken::PLUS)),
        rank(precedence_of(SpecToken::PLUS)) < rank(precedence_of(SpecToken::ASTERISK)),
        rank(precedence_of(SpecToken::ASTERISK)) < rank(Precedence::Prefix),
        rank(Precedence::Prefix) < rank(precedence_of(SpecToken::LPAREN)),
        operator_precedence(t) is Some <==> (t is EQ || t is NOTEQ || t is LT || t is GT
            || t is PLUS || t is MINUS || t is ASTERISK || t is SLASH || t is LPAREN),
        operator_precedence(t) is None ==> precedence_of(t) == Precedence::Lowest,
{
}

/// The right operand of `+` or `-` is parsed at the precedence of `+`, so it
/// stops before the next `+` or `-`: a chain of them associates to the left.
pub proof fn lemma_additive_right_operand(env: Env, f: nat, st: PState, left: SpecExpression)
    requires
        st.cur is PLUS || st.cur is MINUS,
        run_infix(env, f, st, left) matches Run::Done(_, Some(_)),
    ensures
        advance(st) matches Some(s1) && run_expression(
            env,
            (f - 1) as nat,
            s1,
            precedence_of(SpecToken::PLUS),
        ) matches Run::Done(s2, Some(r)) && ends_operand(env, s2, precedence_of(SpecToken::PLUS))
            && run_infix(env, f, st, left) == Run::Done(
            s2,
            Some(
                SpecExpression::Infix {
                    token: st.cur,
                    left: Box::new(left),
                    operator: token_text(st.cur),
                    right: Box::new(r),
                },
            ),
        ),
{
    let s1 = advance(st)->0;
    lemma_expression_ends_at_weaker_operator(env, (f - 1) as nat, s1, precedence_of(SpecToken::PLUS));
}

/// The operand of a prefix operator is parsed at the prefix precedence, which
/// is below a call's: it takes in a call that follows it, so after a prefix
/// expression the next token is never a `(` with a call registered for it.
pub proof fn lemma_prefix_operand(env: Env, f: nat, st: PState)
    requires
        run_prefix_expression(env, f, st) matches Run::Done(_, Some(_)),
    ensures
        advance(st) matches Some(s1) && run_expression(env, (f - 1) as nat, s1, Precedence::Prefix)
            matches Run::Done(s2, Some(r)) && run_prefix_expression(env, f, st) == Run::Done(
            s2,
            Some(
                SpecExpression::Prefix {
                    token: st.cur,
                    operator: token_text(st.cur),
                    right: Box::new(r),
                },
            ),
        ),
        run_prefix_expression(env, f, st) matches Run::Done(s, _) && ends_operand(
            env,
            s,
            Precedence::Prefix,
        ) && !(kind_of(s.peek) == KIND_LPAREN && lookup(env.infix, KIND_LPAREN) is Some),
{
    let s1 = advance(st)->0;
    lemma_expression_ends_at_weaker_operator(env, (f - 1) as nat, s1, Precedence::Prefix);
}

// ---------------------------------------------------------------------------
// The parser.

/// The parse functions that `Parser::new` registers.
pub open spec fn default_env() -> Env {
    Env {
        prefix: Map::empty()
            .insert(18u64, PrefixParseFn::Identifier)
            .insert(16u64, PrefixParseFn::IntegerLiteral)
            .insert(3u64, PrefixParseFn::PrefixExpression)
            .insert(2u64, PrefixParseFn::PrefixExpression)
            .insert(10u64, PrefixParseFn::GroupedExpression)
            .insert(23u64, PrefixParseFn::IfExpression)
            .insert(21u64, PrefixParseFn::Boolean)
            .insert(22u64, PrefixParseFn::Boolean)
            .insert(25u64, PrefixParseFn::FunctionLiteral),
        infix: Map::empty()
            .insert(1u64, InfixParseFn::InfixExpression)
            .insert(2u64, InfixParseFn::InfixExpression)
            .insert(7u64, InfixParseFn::InfixExpression)
            .insert(4u64, InfixParseFn::InfixExpression)
            .insert(19u64, InfixParseFn::InfixExpression)
            .insert(20u64, InfixParseFn::InfixExpression)
            .insert(5u64, InfixParseFn::InfixExpression)
            .insert(6u64, InfixParseFn::InfixExpression)
            .insert(10u64, InfixParseFn::CallExpression),
    }
}

/// Where a new parser stands over a lexer at position `pos`: two tokens read,
/// the first current and the second ahead.
pub open spec fn start_state(input: Seq<char>, pos: int) -> Option<PState> {
    match advance(PState { input, pos, cur: SpecToken::EOF, peek: SpecToken::EOF }) {
        Some(s1) => advance(s1),
        None => None,
    }
}

/// The value of an optional `let` statement.
pub open spec fn let_view(o: Option<LetStatement>) -> Option<SpecStatement> {
    match o {
        Some(l) => Some(stmt_view(Statement::Let(l))),
        None => None,
    }
}

/// The value of an optional `return` statement.
pub open spec fn return_view(o: Option<ReturnStatement>) -> Option<SpecStatement> {
    match o {
        Some(r) => Some(stmt_view(Statement::Return(r))),
        None => None,
    }
}

/// The value of an optional expression.
pub open spec fn expr_option_view(o: Option<Expression>) -> Option<SpecExpression> {
    match o {
        Some(e) => Some(expr_view(e)),
        None => None,
    }
}

/// The values of an optional list of arguments.
pub open spec fn args_view(o: Option<Vec<Expression>>) -> Option<Seq<SpecExpression>> {
    match o {
        Some(v) => Some(exprs_view(v@)),
        None => None,
    }
}

/// The names of an optional list of parameters.
pub open spec fn params_view(o: Option<Vec<IdentifierToken>>) -> Option<Seq<Seq<char>>> {
    match o {
        Some(v) => Some(names_view(v@)),
        None => None,
    }
}

/// The fuels with which `run_statement` finishes from `st`.
pub open spec fn statement_fuel(env: Env, st: PState) -> spec_fn(nat) -> bool {
    |f: nat| done(run_statement(env, f, st))
}

/// The fuels with which `run_let` finishes from `st`.
pub open spec fn let_fuel(env: Env, st: PState) -> spec_fn(nat) -> bool {
    |f: nat| done(run_let(env, f, st))
}

/// The fuels with which `run_return` finishes from `st`.
pub open spec fn return_fuel(env: Env, st: PState) -> spec_fn(nat) -> bool {
    |f: nat| done(run_return(env, f, st))
}

/// The fuels with which `run_expression_statement` finishes from `st`.
pub open spec fn expression_statement_fuel(env: Env, st: PState) -> spec_fn(nat) -> bool {
    |f: nat| done(run_expression_statement(env, f, st))
}

/// The fuels with which `run_block` finishes from `st`.
pub open spec fn block_fuel(env: Env, st: PState) -> spec_fn(nat) -> bool {
    |f: nat| done(run_block(env, f, st))
}

/// The fuels with which `run_expression` finishes from `st`.
pub open spec fn expression_fuel(env: Env, st: PState, prec: Precedence) -> spec_fn(nat) -> bool {
    |f: nat| done(run_expression(env, f, st, prec))
}

/// The fuels with which `run_prefix_expression` finishes from `st`.
pub open spec fn prefix_expression_fuel(env: Env, st: PState) -> spec_fn(nat) -> bool {
    |f: nat| done(run_prefix_expression(env, f, st))
}

/// The fuels with which `run_infix` finishes from `st`.
pub open spec fn infix_fuel(env: Env, st: PState, left: SpecExpression) -> spec_fn(nat) -> bool {
    |f: nat| done(run_infix(env, f, st, left))
}

/// The fuels with which `run_grouped` finishes from `st`.
pub open spec fn grouped_fuel(env: Env, st: PState) -> spec_fn(nat) -> bool {
    |f: nat| done(run_grouped(env, f, st))
}

/// The fuels with which `run_if` finishes from `st`.
pub open spec fn if_fuel(env: Env, st: PState) -> spec_fn(nat) -> bool {
    |f: nat| done(run_if(env, f, st))
}

/// The fuels with which `run_function_literal` finishes from `st`.
pub open spec fn function_literal_fuel(env: Env, st: PState) -> spec_fn(nat) -> bool {
    |f: nat| done(run_function_literal(env, f, st))
}

/// The fuels with which `run_call` finishes from `st`.
pub open spec fn call_fuel(env: Env, st: PState, function: SpecExpression) -> spec_fn(nat) -> bool {
    |f: nat| done(run_call(env, f, st, function))
}

/// The fuels with which `run_parameters` finishes from `st`.
pub open spec fn parameters_fuel(st: PState) -> spec_fn(nat) -> bool {
    |f: nat| done(run_parameters(f, st))
}

/// The fuels with which `run_program` finishes from `st`.
pub open spec fn program_fuel(env: Env, st: PState) -> spec_fn(nat) -> bool {
    |f: nat| done(run_program(env, f, st))
}

/// The message of a failed expectation: the token expected and the one
/// found, in their `Debug` forms.
pub open spec fn expectation_text(expected: SpecToken, found: SpecToken) -> Seq<char> {
    "expected next token to be "@ + token_debug(expected) + ", got "@ + token_debug(found)
        + " instead"@
}

/// A parser reading tokens from a lexer.
pub struct Parser<'a> {
    lexer: &'a mut Lexer,
    current_token: Token,
    peek_token: Token,
    prefix_parse_fns: HashMap<u64, PrefixParseFn>,
    infix_parse_fns: HashMap<u64, InfixParseFn>,
}

impl<'a> Parser<'a> {
    /// Where the parse stands.
    pub closed spec fn state(&self) -> PState {
        PState {
            input: self.lexer.chars(),
            pos: self.lexer.pos(),
            cur: self.current_token@,
            peek: self.peek_token@,
        }
    }

    /// The lexer the parser reads from, as it stands now.
    pub closed spec fn lexer_now(&self) -> Lexer {
        *self.lexer
    }

    /// The registered parse functions.
    pub closed spec fn env(&self) -> Env {
        Env { prefix: self.prefix_parse_fns@, infix: self.infix_parse_fns@ }
    }

    /// The lexer is in a consistent state.
    pub closed spec fn wf(&self) -> bool {
        self.lexer.wf()
    }

    /// A parser over `lexer` with the standard parse functions registered and
    /// the first two tokens read. The lexer stands after those two tokens, and
    /// a parser that is dropped without further use leaves it there.
    pub fn new(lexer: &'a mut Lexer) -> (parser: Self)
        requires
            old(lexer).wf(),
            start_state(old(lexer).chars(), old(lexer).pos()) is Some,
        ensures
            parser.wf(),
            parser.env() == default_env(),
            Some(parser.state()) == start_state(old(lexer).chars(), old(lexer).pos()),
            parser.lexer_now().wf(),
            parser.lexer_now().chars() == old(lexer).chars(),
            parser.lexer_now().pos() == lex(
                old(lexer).chars(),
                lex(old(lexer).chars(), old(lexer).pos()).1,
            ).1,
            has_resolved(parser) ==> *final(lexer) == parser.lexer_now(),
    {
        broadcast use vstd::std_specs::hash::group_hash_axioms;

        let mut prefix_parse_fns: HashMap<u64, PrefixParseFn> = HashMap::new();
        prefix_parse_fns.insert(Token::IDENTIFIER(string_of("")).kind(), PrefixParseFn::Identifier);
        prefix_parse_fns.insert(Token::INT(string_of("")).kind(), PrefixParseFn::IntegerLiteral);
        prefix_parse_fns.insert(Token::BANG.kind(), PrefixParseFn::PrefixExpression);
        prefix_parse_fns.insert(Token::MINUS.kind(), PrefixParseFn::PrefixExpression);
        prefix_parse_fns.insert(Token::LPAREN.kind(), PrefixParseFn::GroupedExpression);
        prefix_parse_fns.insert(Token::IF.kind(), PrefixParseFn::IfExpression);
        prefix_parse_fns.insert(Token::TRUE.kind(), PrefixParseFn::Boolean);
        prefix_parse_fns.insert(Token::FALSE.kind(), PrefixParseFn::Boolean);
        prefix_parse_fns.insert(Token::FUNCTION.kind(), PrefixParseFn::FunctionLiteral);

        let mut infix_parse_fns: HashMap<u64, InfixParseFn> = HashMap::new();
        infix_parse_fns.insert(Token::PLUS.kind(), InfixParseFn::InfixExpression);
        infix_parse_fns.insert(Token::MINUS.kind(), InfixParseFn::InfixExpression);
        infix_parse_fns.insert(Token::SLASH.kind(), InfixParseFn::InfixExpression);
        infix_parse_fns.insert(Token::ASTERISK.kind(), InfixParseFn::InfixExpression);
        infix_parse_fns.insert(Token::EQ.kind(), InfixParseFn::InfixExpression);
        infix_parse_fns.insert(Token::NOTEQ.kind(), InfixParseFn::InfixExpression);
        infix_parse_fns.insert(Token::LT.kind(), InfixParseFn::InfixExpression);
        infix_parse_fns.insert(Token::GT.kind(), InfixParseFn::InfixExpression);
        infix_parse_fns.insert(Token::LPAREN.kind(), InfixParseFn::CallExpression);

        proof {
            reveal(advance);
        }
        let current_token = lexer.next_token();
        let peek_token = lexer.next_token();
        let parser = Self { lexer, current_token, peek_token, prefix_parse_fns, infix_parse_fns };
        assert(parser.env() =~= default_env());
        assert(has_resolved(parser) ==> has_resolved(parser.lexer));
        assert(has_resolved(parser.lexer) ==> *parser.lexer == *final(parser.lexer));
        parser
    }

    /// Registers `f` as the prefix parse function for tokens of the kind of `token`.
    pub fn register_prefix(&mut self, token: Token, f: PrefixParseFn)
        ensures
            final(self).wf() == old(self).wf(),
            final(self).state() == old(self).state(),
            final(self).env().prefix == old(self).env().prefix.insert(kind_of(token@), f),
            final(self).env().infix == old(self).env().infix,
    {
        broadcast use vstd::std_specs::hash::group_hash_axioms;

        self.prefix_parse_fns.insert(token.kind(), f);
    }

    /// Registers `f` as the infix parse function for tokens of the kind of `token`.
    pub fn register_infix(&mut self, token: Token, f: InfixParseFn)
        ensures
            final(self).wf() == old(self).wf(),
            final(self).state() == old(self).state(),
            final(self).env().infix == old(self).env().infix.insert(kind_of(token@), f),
            final(self).env().prefix == old(self).env().prefix,
    {
        broadcast use vstd::std_specs::hash::group_hash_axioms;

        self.infix_parse_fns.insert(token.kind(), f);
    }

    /// The peek token becomes the current one, and the lexer reads the next.
    pub fn next_token(&mut self)
        requires
            old(self).wf(),
            advance(old(self).state()) is Some,
        ensures
            final(self).wf(),
            final(self).env() == old(self).env(),
            Some(final(self).state()) == advance(old(self).state()),
    {
        proof {
            reveal(advance);
        }
        self.current_token = self.peek_token.clone();
        self.peek_token = self.lexer.next_token();
    }

    /// The prefix parse function registered for tokens of kind `key`.
    fn prefix_fn(&self, key: u64) -> (r: Option<PrefixParseFn>)
        ensures
            r == lookup(self.env().prefix, key),
    {
        broadcast use vstd::std_specs::hash::group_hash_axioms;

        match self.prefix_parse_fns.get(&key) {
            Some(f) => Some(*f),
            None => None,
        }
    }

    /// The infix parse function registered for tokens of kind `key`.
    fn infix_fn(&self, key: u64) -> (r: Option<InfixParseFn>)
        ensures
            r == lookup(self.env().infix, key),
    {
        broadcast use vstd::std_specs::hash::group_hash_axioms;

        match self.infix_parse_fns.get(&key) {
            Some(f) => Some(*f),
            None => None,
        }
    }

    /// Whether the current token has the kind of `token`.
    pub fn current_token_is(&self, token: &Token) -> (r: bool)
        ensures
            r == (kind_of(self.state().cur) == kind_of(token@)),
    {
        self.current_token.kind() == token.kind()
    }

    /// Whether the peek token has the kind of `token`.
    pub fn peek_token_is(&self, token: &Token) -> (r: bool)
        ensures
            r == (kind_of(self.state().peek) == kind_of(token@)),
    {
        self.peek_token.kind() == token.kind()
    }

    /// The precedence of the peek token.
    pub fn peek_precedence(&self) -> (p: Precedence)
        ensures
            p == precedence_of(self.state().peek),
    {
        match Precedence::try_from(self.peek_token.clone()) {
            Ok(p) => p,
            Err(_) => Precedence::Lowest,
        }
    }

    /// The precedence of the current token.
    pub fn current_precedence(&self) -> (p: Precedence)
        ensures
            p == precedence_of(self.state().cur),
    {
        match Precedence::try_from(self.current_token.clone()) {
            Ok(p) => p,
            Err(_) => Precedence::Lowest,
        }
    }

    /// Steps on when the peek token has the kind of `token`; an error that
    /// names both tokens otherwise.
    pub fn expect_peek(&mut self, token: &Token) -> (r: Result<bool, String>)
        requires
            old(self).wf(),
            kind_of(old(self).state().peek) == kind_of(token@) ==> advance(old(self).state()) is Some,
        ensures
            final(self).wf(),
            final(self).env() == old(self).env(),
            r is Ok <==> kind_of(old(self).state().peek) == kind_of(token@),
            kind_of(old(self).state().peek) == kind_of(token@) ==> r == Ok::<bool, String>(true)
                && Some(final(self).state()) == advance(old(self).state()),
            r matches Err(m) ==> m@ == expectation_text(token@, old(self).state().peek)
                && final(self).state() == old(self).state(),
    {
        if self.peek_token_is(token) {
            self.next_token();
            return Ok(true);
        }
        let mut message = string_of("expected next token to be ");
        let expected = token.debug_text();
        message.append(expected.as_str());
        message.append(", got ");
        let found = self.peek_token.debug_text();
        message.append(found.as_str());
        message.append(" instead");
        Err(message)
    }

    /// Parses statements up to the first `EOF` current token.
    pub fn parse_program(parser: &mut Parser) -> (program: Program)
        requires
            old(parser).wf(),
            completes(program_fuel(old(parser).env(), old(parser).state())),
        ensures
            final(parser).wf(),
            final(parser).env() == old(parser).env(),
            forall|f: nat|
                done(#[trigger] run_program(old(parser).env(), f, old(parser).state()))
                    ==> run_program(old(parser).env(), f, old(parser).state()) == Run::Done(
                    final(parser).state(),
                    program@,
                ),
    {
        let ghost env = parser.env();
        let ghost st0 = parser.state();
        let ghost fuel = witness(program_fuel(env, st0));
        proof {
            assert(program_fuel(env, st0)(fuel));
        }
        let mut statements: Vec<Statement> = Vec::new();
        let ghost mut g: nat = (fuel - 1) as nat;
        while !parser.current_token_is(&Token::EOF)
            invariant
                parser.wf(),
                parser.env() == env,
                env == old(parser).env(),
                st0 == old(parser).state(),
                done(program_loop(env, g, parser.state(), stmts_view(statements@))),
                run_program(env, fuel, st0) == program_loop(
                    env,
                    g,
                    parser.state(),
                    stmts_view(statements@),
                ),
            decreases g,
        {
            let statement = Parser::parse_statement_within(parser, Ghost((g - 1) as nat));
            proof {
                lemma_stmts_view_push(statements@, statement);
            }
            statements.push(statement);
            parser.next_token();
            proof {
                g = (g - 1) as nat;
            }
        }
        proof {
            assert forall|f: nat| done(#[trigger] run_program(env, f, st0)) implies run_program(
                env,
                f,
                st0,
            ) == run_program(env, fuel, st0) by {
                if f <= fuel {
                    lemma_program_fuel(env, f, fuel, st0);
                } else {
                    lemma_program_fuel(env, fuel, f, st0);
                }
            }
        }
        Program { statements }
    }

    /// Parses the statement that starts at the current token.
    pub fn parse_statement(parser: &mut Parser) -> (statement: Statement)
        requires
            old(parser).wf(),
            completes(statement_fuel(old(parser).env(), old(parser).state())),
        ensures
            final(parser).wf(),
            final(parser).env() == old(parser).env(),
            forall|f: nat|
                done(#[trigger] run_statement(old(parser).env(), f, old(parser).state()))
                    ==> run_statement(old(parser).env(), f, old(parser).state()) == Run::Done(
                    final(parser).state(),
                    stmt_view(statement),
                ),
    {
        let ghost env = parser.env();
        let ghost st0 = parser.state();
        let ghost w = witness(statement_fuel(env, st0));
        proof {
            assert(statement_fuel(env, st0)(w));
        }
        let r = Parser::parse_statement_within(parser, Ghost(w));
        proof {
            assert forall|f: nat| done(#[trigger] run_statement(env, f, st0)) implies run_statement(
                env,
                f,
                st0,
            ) == run_statement(env, w, st0) by {
                if f <= w {
                    lemma_statement_fuel(env, f, w, st0);
                } else {
                    lemma_statement_fuel(env, w, f, st0);
                }
            }
        }
        r
    }

    fn parse_statement_within(parser: &mut Parser, Ghost(fuel): Ghost<nat>) -> (statement: Statement)
        requires
            old(parser).wf(),
            done(run_statement(old(parser).env(), fuel, old(parser).state())),
        ensures
            final(parser).wf(),
            final(parser).env() == old(parser).env(),
            run_statement(old(parser).env(), fuel, old(parser).state()) == Run::Done(
                final(parser).state(),
                stmt_view(statement),
            ),
        decreases fuel, 2nat,
    {
        match parser.current_token {
            Token::KEYWORD(Keyword::LET) => {
                let r = Parser::parse_let_statement_within(parser, Ghost((fuel - 1) as nat));
                Statement::Let(r.unwrap())
            },
            Token::KEYWORD(Keyword::RETURN) => {
                let r = Parser::parse_return_statement_within(parser, Ghost((fuel - 1) as nat));
                Statement::Return(r.unwrap())
            },
            _ => Statement::Expression(
                Parser::parse_expression_statement_within(parser, Ghost((fuel - 1) as nat)),
            ),
        }
    }

    /// An identifier named by the literal of the current token.
    pub fn parse_identifier(parser: &mut Parser) -> (e: Option<Expression>)
        ensures
            final(parser).wf() == old(parser).wf(),
            final(parser).env() == old(parser).env(),
            final(parser).state() == old(parser).state(),
            expr_option_view(e) == Some(SpecExpression::Identifier(token_text(old(parser).state().cur))),
    {
        Some(Expression::Identifier(IdentifierToken(parser.current_token.to_string())))
    }

    /// Parses `let <identifier> = <expression>` with an optional `;`.
    pub fn parse_let_statement(parser: &mut Parser) -> (statement: Option<LetStatement>)
        requires
            old(parser).wf(),
            completes(let_fuel(old(parser).env(), old(parser).state())),
        ensures
            final(parser).wf(),
            final(parser).env() == old(parser).env(),
            forall|f: nat|
                done(#[trigger] run_let(old(parser).env(), f, old(parser).state()))
                    ==> run_let(old(parser).env(), f, old(parser).state()) == Run::Done(
                    final(parser).state(),
                    let_view(statement),
                ),
    {
        let ghost env = parser.env();
        let ghost st0 = parser.state();
        let ghost w = witness(let_fuel(env, st0));
        proof {
            assert(let_fuel(env, st0)(w));
        }
        let r = Parser::parse_let_statement_within(parser, Ghost(w));
        proof {
            assert forall|f: nat| done(#[trigger] run_let(env, f, st0)) implies run_let(
                env,
                f,
                st0,
            ) == run_let(env, w, st0) by {
                if f <= w {
                    lemma_let_fuel(env, f, w, st0);
                } else {
                    lemma_let_fuel(env, w, f, st0);
                }
            }
        }
        r
    }

    fn parse_let_statement_within(parser: &mut Parser, Ghost(fuel): Ghost<nat>) -> (statement: Option<LetStatement>)
        requires
            old(parser).wf(),
            done(run_let(old(parser).env(), fuel, old(parser).state())),
        ensures
            final(parser).wf(),
            final(parser).env() == old(parser).env(),
            run_let(old(parser).env(), fuel, old(parser).state()) == Run::Done(
                final(parser).state(),
                let_view(statement),
            ),
        decreases fuel, 2nat,
    {
        let token = parser.current_token.clone();

        if !parser.expect_peek(&Token::IDENTIFIER(string_of(""))).unwrap() {
            return None;
        }

        let name = IdentifierToken(parser.current_token.to_string());

        if !parser.expect_peek(&Token::ASSIGN).unwrap() {
            return None;
        }

        parser.next_token();
        let value = match Parser::parse_expression_within(
            parser,
            Precedence::Lowest,
            Ghost((fuel - 1) as nat),
        ) {
            Some(value) => value,
            None => {
                return None;
            },
        };

        if parser.peek_token_is(&Token::SEMICOLON) {
            parser.next_token();
        }

        Some(LetStatement { token, name, value })
    }

    /// Parses `return <expression>` with an optional `;`.
    pub fn parse_return_statement(parser: &mut Parser) -> (statement: Option<ReturnStatement>)
        requires
            old(parser).wf(),
            completes(return_fuel(old(parser).env(), old(parser).state())),
        ensures
            final(parser).wf(),
            final(parser).env() == old(parser).env(),
            forall|f: nat|
                done(#[trigger] run_return(old(parser).env(), f, old(parser).state()))
                    ==> run_return(old(parser).env(), f, old(parser).state()) == Run::Done(
                    final(parser).state(),
                    return_view(statement),
                ),
    {
        let ghost env = parser.env();
        let ghost st0 = parser.state();
        let ghost w = witness(return_fuel(env, st0));
        proof {
            assert(return_fuel(env, st0)(w));
        }
        let r = Parser::parse_return_statement_within(parser, Ghost(w));
        proof {
            assert forall|f: nat| done(#[trigger] run_return(env, f, st0)) implies run_return(
                env,
                f,
                st0,
            ) == run_return(env, w, st0) by {
                if f <= w {
                    lemma_return_fuel(env, f, w, st0);
                } else {
                    lemma_return_fuel(env, w, f, st0);
                }
            }
        }
        r
    }

    fn parse_return_statement_within(parser: &mut Parser, Ghost(fuel): Ghost<nat>) -> (statement: Option<ReturnStatement>)
        requires
            old(parser).wf(),
            done(run_return(old(parser).env(), fuel, old(parser).state())),
        ensures
            final(parser).wf(),
            final(parser).env() == old(parser).env(),
            run_return(old(parser).env(), fuel, old(parser).state()) == Run::Done(
                final(parser).state(),
                return_view(statement),
            ),
        decreases fuel, 2nat,
    {
        let token = parser.current_token.clone();
        parser.next_token();

        let return_value = match Parser::parse_expression_within(
            parser,
            Precedence::Lowest,
            Ghost((fuel - 1) as nat),
        ) {
            Some(value) => value,
            None => {
                return None;
            },
        };

        if parser.peek_token_is(&Token::SEMICOLON) {
            parser.next_token();
        }

        Some(ReturnStatement { token, return_value })
    }

    /// Parses an expression standing as a statement, with an optional `;`.
    pub fn parse_expression_statement(parser: &mut Parser) -> (statement: ExpressionStatement)
        requires
            old(parser).wf(),
            completes(expression_statement_fuel(old(parser).env(), old(parser).state())),
        ensures
            final(parser).wf(),
            final(parser).env() == old(parser).env(),
            forall|f: nat|
                done(#[trigger] run_expression_statement(old(parser).env(), f, old(parser).state()))
                    ==> run_expression_statement(old(parser).env(), f, old(parser).state()) == Run::Done(
                    final(parser).state(),
                    stmt_view(Statement::Expression(statement)),
                ),
    {
        let ghost env = parser.env();
        let ghost st0 = parser.state();
        let ghost w = witness(expression_statement_fuel(env, st0));
        proof {
            assert(expression_statement_fuel(env, st0)(w));
        }
        let r = Parser::parse_expression_statement_within(parser, Ghost(w));
        proof {
            assert forall|f: nat| done(#[trigger] run_expression_statement(env, f, st0)) implies run_expression_statement(
                env,
                f,
                st0,
            ) == run_expression_statement(env, w, st0) by {
                if f <= w {
                    lemma_expression_statement_fuel(env, f, w, st0);
                } else {
                    lemma_expression_statement_fuel(env, w, f, st0);
                }
            }
        }
        r
    }

    fn parse_expression_statement_within(parser: &mut Parser, Ghost(fuel): Ghost<nat>) -> (statement: ExpressionStatement)
        requires
            old(parser).wf(),
            done(run_expression_statement(old(parser).env(), fuel, old(parser).state())),
        ensures
            final(parser).wf(),
            final(parser).env() == old(parser).env(),
            run_expression_statement(old(parser).env(), fuel, old(parser).state()) == Run::Done(
                final(parser).state(),
                stmt_view(Statement::Expression(statement)),
            ),
        decreases fuel, 2nat,
    {
        let token = parser.current_token.clone();
        let expression = Parser::parse_expression_within(
            parser,
            Precedence::Lowest,
            Ghost((fuel - 1) as nat),
        ).unwrap();

        if parser.peek_token_is(&Token::SEMICOLON) {
            parser.next_token();
        }

        ExpressionStatement { token, expression }
    }

    /// Parses `{ <statements> }`: statements up to a `}` or `EOF` current token.
    pub fn parse_block_statement(parser: &mut Parser) -> (block: BlockStatement)
        requires
            old(parser).wf(),
            completes(block_fuel(old(parser).env(), old(parser).state())),
        ensures
            final(parser).wf(),
            final(parser).env() == old(parser).env(),
            forall|f: nat|
                done(#[trigger] run_block(old(parser).env(), f, old(parser).state()))
                    ==> run_block(old(parser).env(), f, old(parser).state()) == Run::Done(
                    final(parser).state(),
                    block_view(block),
                ),
    {
        let ghost env = parser.env();
        let ghost st0 = parser.state();
        let ghost w = witness(block_fuel(env, st0));
        proof {
            assert(block_fuel(env, st0)(w));
        }
        let r = Parser::parse_block_statement_within(parser, Ghost(w));
        proof {
            assert forall|f: nat| done(#[trigger] run_block(env, f, st0)) implies run_block(
                env,
                f,
                st0,
            ) == run_block(env, w, st0) by {
                if f <= w {
                    lemma_block_fuel(env, f, w, st0);
                } else {
                    lemma_block_fuel(env, w, f, st0);
                }
            }
        }
        r
    }

    fn parse_block_statement_within(parser: &mut Parser, Ghost(fuel): Ghost<nat>) -> (block: BlockStatement)
        requires
            old(parser).wf(),
            done(run_block(old(parser).env(), fuel, old(parser).state())),
        ensures
            final(parser).wf(),
            final(parser).env() == old(parser).env(),
            run_block(old(parser).env(), fuel, old(parser).state()) == Run::Done(
                final(parser).state(),
                block_view(block),
            ),
        decreases fuel, 2nat,
    {
        let ghost env = parser.env();
        let ghost st0 = parser.state();
        let token = parser.current_token.clone();
        let mut statements: Vec<Statement> = Vec::new();

        parser.next_token();
        let ghost s1 = parser.state();

        let ghost mut g: nat = (fuel - 1) as nat;
        while !parser.current_token_is(&Token::RBRACE) && !parser.current_token_is(&Token::EOF)
            invariant
                parser.wf(),
                parser.env() == env,
                env == old(parser).env(),
                st0 == old(parser).state(),
                g < fuel,
                done(block_loop(env, g, parser.state(), stmts_view(statements@))),
                block_loop(env, (fuel - 1) as nat, s1, Seq::empty()) == block_loop(
                    env,
                    g,
                    parser.state(),
                    stmts_view(statements@),
                ),
            decreases g,
        {
            let statement = Parser::parse_statement_within(parser, Ghost((g - 1) as nat));
            proof {
                lemma_stmts_view_push(statements@, statement);
            }
            statements.push(statement);
            parser.next_token();
            proof {
                g = (g - 1) as nat;
            }
        }
        proof {
            assert(stmts_view(Seq::<Statement>::empty()) =~= Seq::<SpecStatement>::empty());
        }

        BlockStatement { token, statements }
    }

    /// Parses an expression whose operators bind tighter than `precedence`,
    /// starting with the prefix parse function registered for the current
    /// token.
    pub fn parse_expression(parser: &mut Parser, precedence: Precedence) -> (e: Option<Expression>)
        requires
            old(parser).wf(),
            completes(expression_fuel(old(parser).env(), old(parser).state(), precedence)),
        ensures
            final(parser).wf(),
            final(parser).env() == old(parser).env(),
            forall|f: nat|
                done(#[trigger] run_expression(old(parser).env(), f, old(parser).state(), precedence))
                    ==> run_expression(old(parser).env(), f, old(parser).state(), precedence) == Run::Done(
                    final(parser).state(),
                    expr_option_view(e),
                ),
    {
        let ghost env = parser.env();
        let ghost st0 = parser.state();
        let ghost w = witness(expression_fuel(env, st0, precedence));
        proof {
            assert(expression_fuel(env, st0, precedence)(w));
        }
        let r = Parser::parse_expression_within(parser, precedence, Ghost(w));
        proof {
            assert forall|f: nat| done(#[trigger] run_expression(env, f, st0, precedence)) implies
                run_expression(env, f, st0, precedence) == run_expression(env, w, st0, precedence) by {
                if f <= w {
                    lemma_expression_fuel(env, f, w, st0, precedence);
                } else {
                    lemma_expression_fuel(env, w, f, st0, precedence);
                }
            }
        }
        r
    }

    fn parse_expression_within(parser: &mut Parser, precedence: Precedence, Ghost(fuel): Ghost<nat>) -> (e: Option<Expression>)
        requires
            old(parser).wf(),
            done(run_expression(old(parser).env(), fuel, old(parser).state(), precedence)),
        ensures
            final(parser).wf(),
            final(parser).env() == old(parser).env(),
            run_expression(old(parser).env(), fuel, old(parser).state(), precedence)
                == Run::Done(final(parser).state(), expr_option_view(e)),
        decreases fuel, 2nat,
    {
        let ghost env = parser.env();
        let ghost st0 = parser.state();
        let key = parser.current_token.kind();
        let prefix = match parser.prefix_fn(key) {
            Some(prefix) => prefix,
            None => {
                return None;
            },
        };

        let left = match prefix {
            PrefixParseFn::Identifier => Parser::parse_identifier(parser),
            PrefixParseFn::IntegerLiteral => Parser::parse_integer_literal(parser),
            PrefixParseFn::Boolean => Parser::parse_boolean(parser),
            PrefixParseFn::PrefixExpression => Parser::parse_prefix_expression_within(
                parser,
                Ghost((fuel - 1) as nat),
            ),
            PrefixParseFn::GroupedExpression => Parser::parse_grouped_expression_within(
                parser,
                Ghost((fuel - 1) as nat),
            ),
            PrefixParseFn::IfExpression => Parser::parse_if_expression_within(
                parser,
                Ghost((fuel - 1) as nat),
            ),
            PrefixParseFn::FunctionLiteral => Parser::parse_function_literal_within(
                parser,
                Ghost((fuel - 1) as nat),
            ),
        };

        let mut left_expression = match left {
            Some(left) => left,
            None => {
                return None;
            },
        };

        let ghost mut g: nat = (fuel - 1) as nat;
        while !parser.peek_token_is(&Token::SEMICOLON) && precedence.rank()
            < parser.peek_precedence().rank()
            invariant
                parser.wf(),
                parser.env() == env,
                env == old(parser).env(),
                st0 == old(parser).state(),
                g < fuel,
                done(infix_loop(env, g, parser.state(), precedence, expr_view(left_expression))),
                run_expression(env, fuel, st0, precedence) == infix_loop(
                    env,
                    g,
                    parser.state(),
                    precedence,
                    expr_view(left_expression),
                ),
            decreases g,
        {
            let ghost st = parser.state();
            let ghost lv = expr_view(left_expression);
            let key = parser.peek_token.kind();
            let infix = match parser.infix_fn(key) {
                Some(infix) => infix,
                None => {
                    return Some(left_expression);
                },
            };
            parser.next_token();
            proof {
                assert(run_infix_fn(env, (g - 1) as nat, parser.state(), infix, lv) is Done);
            }
            let r = match infix {
                InfixParseFn::InfixExpression => Parser::parse_infix_expression_within(
                    parser,
                    left_expression,
                    Ghost((g - 1) as nat),
                ),
                InfixParseFn::CallExpression => Parser::parse_call_expression_within(
                    parser,
                    left_expression,
                    Ghost((g - 1) as nat),
                ),
            };
            left_expression = match r {
                Some(e) => e,
                None => {
                    return None;
                },
            };
            proof {
                g = (g - 1) as nat;
            }
        }

        Some(left_expression)
    }

    /// Parses `<operator><expression>` for the operator at the current token.
    pub fn parse_prefix_expression(parser: &mut Parser) -> (e: Option<Expression>)
        requires
            old(parser).wf(),
            completes(prefix_expression_fuel(old(parser).env(), old(parser).state())),
        ensures
            final(parser).wf(),
            final(parser).env() == old(parser).env(),
            forall|f: nat|
                done(#[trigger] run_prefix_expression(old(parser).env(), f, old(parser).state()))
                    ==> run_prefix_expression(old(parser).env(), f, old(parser).state()) == Run::Done(
                    final(parser).state(),
                    expr_option_view(e),
                ),
    {
        let ghost env = parser.env();
        let ghost st0 = parser.state();
        let ghost w = witness(prefix_expression_fuel(env, st0));
        proof {
            assert(prefix_expression_fuel(env, st0)(w));
        }
        let r = Parser::parse_prefix_expression_within(parser, Ghost(w));
        proof {
            assert forall|f: nat| done(#[trigger] run_prefix_expression(env, f, st0)) implies run_prefix_expression(
                env,
                f,
                st0,
            ) == run_prefix_expression(env, w, st0) by {
                if f <= w {
                    lemma_prefix_expression_fuel(env, f, w, st0);
                } else {
                    lemma_prefix_expression_fuel(env, w, f, st0);
                }
            }
        }
        r
    }

    fn parse_prefix_expression_within(parser: &mut Parser, Ghost(fuel): Ghost<nat>) -> (e: Option<Expression>)
        requires
            old(parser).wf(),
            done(run_prefix_expression(old(parser).env(), fuel, old(parser).state())),
        ensures
            final(parser).wf(),
            final(parser).env() == old(parser).env(),
            run_prefix_expression(old(parser).env(), fuel, old(parser).state()) == Run::Done(
                final(parser).state(),
                expr_option_view(e),
            ),
        decreases fuel, 2nat,
    {
        let token = parser.current_token.clone();
        let operator = parser.current_token.to_string();
        parser.next_token();
        let right = match Parser::parse_expression_within(
            parser,
            Precedence::Prefix,
            Ghost((fuel - 1) as nat),
        ) {
            Some(right) => right,
            None => {
                return None;
            },
        };
        Some(Expression::PrefixExpression(Box::new(PrefixExpression { token, operator, right })))
    }

    /// Parses the right operand of the operator at the current token.
    pub fn parse_infix_expression(parser: &mut Parser, left: Expression) -> (e: Option<Expression>)
        requires
            old(parser).wf(),
            completes(infix_fuel(old(parser).env(), old(parser).state(), expr_view(left))),
        ensures
            final(parser).wf(),
            final(parser).env() == old(parser).env(),
            forall|f: nat|
                done(#[trigger] run_infix(old(parser).env(), f, old(parser).state(), expr_view(left)))
                    ==> run_infix(old(parser).env(), f, old(parser).state(), expr_view(left)) == Run::Done(
                    final(parser).state(),
                    expr_option_view(e),
                ),
    {
        let ghost env = parser.env();
        let ghost st0 = parser.state();
        let ghost av = expr_view(left);
        let ghost w = witness(infix_fuel(env, st0, av));
        proof {
            assert(infix_fuel(env, st0, av)(w));
        }
        let r = Parser::parse_infix_expression_within(parser, left, Ghost(w));
        proof {
            assert forall|f: nat| done(#[trigger] run_infix(env, f, st0, av)) implies run_infix(env, f, st0, av)
                == run_infix(env, w, st0, av) by {
                if f <= w {
                    lemma_infix_fuel(env, f, w, st0, av);
                } else {
                    lemma_infix_fuel(env, w, f, st0, av);
                }
            }
        }
        r
    }

    fn parse_infix_expression_within(parser: &mut Parser, left: Expression, Ghost(fuel): Ghost<nat>) -> (e: Option<Expression>)
        requires
            old(parser).wf(),
            done(run_infix(old(parser).env(), fuel, old(parser).state(), expr_view(left))),
        ensures
            final(parser).wf(),
            final(parser).env() == old(parser).env(),
            run_infix(old(parser).env(), fuel, old(parser).state(), expr_view(left)) == Run::Done(
                final(parser).state(),
                expr_option_view(e),
            ),
        decreases fuel, 2nat,
    {
        let token = parser.current_token.clone();
        let operator = parser.current_token.to_string();
        let precedence = parser.current_precedence();
        parser.next_token();
        let right = match Parser::parse_expression_within(
            parser,
            precedence,
            Ghost((fuel - 1) as nat),
        ) {
            Some(right) => right,
            None => {
                return None;
            },
        };
        Some(
            Expression::InfixExpression(
                Box::new(InfixExpression { token, left, operator, right }),
            ),
        )
    }

    /// Parses `(<expression>)`.
    pub fn parse_grouped_expression(parser: &mut Parser) -> (e: Option<Expression>)
        requires
            old(parser).wf(),
            completes(grouped_fuel(old(parser).env(), old(parser).state())),
        ensures
            final(parser).wf(),
            final(parser).env() == old(parser).env(),
            forall|f: nat|
                done(#[trigger] run_grouped(old(parser).env(), f, old(parser).state()))
                    ==> run_grouped(old(parser).env(), f, old(parser).state()) == Run::Done(
                    final(parser).state(),
                    expr_option_view(e),
                ),
    {
        let ghost env = parser.env();
        let ghost st0 = parser.state();
        let ghost w = witness(grouped_fuel(env, st0));
        proof {
            assert(grouped_fuel(env, st0)(w));
        }
        let r = Parser::parse_grouped_expression_within(parser, Ghost(w));
        proof {
            assert forall|f: nat| done(#[trigger] run_grouped(env, f, st0)) implies run_grouped(
                env,
                f,
                st0,
            ) == run_grouped(env, w, st0) by {
                if f <= w {
                    lemma_grouped_fuel(env, f, w, st0);
                } else {
                    lemma_grouped_fuel(env, w, f, st0);
                }
            }
        }
        r
    }

    fn parse_grouped_expression_within(parser: &mut Parser, Ghost(fuel): Ghost<nat>) -> (e: Option<Expression>)
        requires
            old(parser).wf(),
            done(run_grouped(old(parser).env(), fuel, old(parser).state())),
        ensures
            final(parser).wf(),
            final(parser).env() == old(parser).env(),
            run_grouped(old(parser).env(), fuel, old(parser).state()) == Run::Done(
                final(parser).state(),
                expr_option_view(e),
            ),
        decreases fuel, 2nat,
    {
        parser.next_token();
        let expression = Parser::parse_expression_within(
            parser,
            Precedence::Lowest,
            Ghost((fuel - 1) as nat),
        );
        if !parser.expect_peek(&Token::RPAREN).unwrap() {
            return None;
        }

        expression
    }

    /// An integer literal holding the value of the current token's literal,
    /// read as `str::parse::<i64>` reads it; `None` where that fails.
    pub fn parse_integer_literal(parser: &mut Parser) -> (e: Option<Expression>)
        ensures
            final(parser).wf() == old(parser).wf(),
            final(parser).env() == old(parser).env(),
            final(parser).state() == old(parser).state(),
            expr_option_view(e) == match parse_i64(token_text(old(parser).state().cur)) {
                Some(v) => Some(SpecExpression::IntegerLiteral(v)),
                None => None,
            },
    {
        let literal = parser.current_token.to_string();
        if let Some(value) = parse_int(literal.as_str()) {
            return Some(Expression::IntegerLiteral(IntegerLiteral(value)));
        }
        None
    }

    /// A boolean literal: `true` when the current token is `TRUE`.
    pub fn parse_boolean(parser: &mut Parser) -> (e: Option<Expression>)
        ensures
            final(parser).wf() == old(parser).wf(),
            final(parser).env() == old(parser).env(),
            final(parser).state() == old(parser).state(),
            expr_option_view(e) == Some(
                SpecExpression::Boolean(kind_of(old(parser).state().cur) == KIND_TRUE),
            ),
    {
        Some(Expression::Boolean(Boolean(parser.current_token_is(&Token::TRUE))))
    }

    /// Parses `if (<condition>) { ... }`, with an optional `else { ... }`.
    pub fn parse_if_expression(parser: &mut Parser) -> (e: Option<Expression>)
        requires
            old(parser).wf(),
            completes(if_fuel(old(parser).env(), old(parser).state())),
        ensures
            final(parser).wf(),
            final(parser).env() == old(parser).env(),
            forall|f: nat|
                done(#[trigger] run_if(old(parser).env(), f, old(parser).state()))
                    ==> run_if(old(parser).env(), f, old(parser).state()) == Run::Done(
                    final(parser).state(),
                    expr_option_view(e),
                ),
    {
        let ghost env = parser.env();
        let ghost st0 = parser.state();
        let ghost w = witness(if_fuel(env, st0));
        proof {
            assert(if_fuel(env, st0)(w));
        }
        let r = Parser::parse_if_expression_within(parser, Ghost(w));
        proof {
            assert forall|f: nat| done(#[trigger] run_if(env, f, st0)) implies run_if(
                env,
                f,
                st0,
            ) == run_if(env, w, st0) by {
                if f <= w {
                    lemma_if_fuel(env, f, w, st0);
                } else {
                    lemma_if_fuel(env, w, f, st0);
                }
            }
        }
        r
    }

    fn parse_if_expression_within(parser: &mut Parser, Ghost(fuel): Ghost<nat>) -> (e: Option<Expression>)
        requires
            old(parser).wf(),
            done(run_if(old(parser).env(), fuel, old(parser).state())),
        ensures
            final(parser).wf(),
            final(parser).env() == old(parser).env(),
            run_if(old(parser).env(), fuel, old(parser).state()) == Run::Done(
                final(parser).state(),
                expr_option_view(e),
            ),
        decreases fuel, 2nat,
    {
        let token = parser.current_token.clone();

        if !parser.expect_peek(&Token::LPAREN).unwrap() {
            return None;
        }

        parser.next_token();
        let condition = match Parser::parse_expression_within(
            parser,
            Precedence::Lowest,
            Ghost((fuel - 1) as nat),
        ) {
            Some(condition) => condition,
            None => {
                return None;
            },
        };

        if !parser.expect_peek(&Token::RPAREN).unwrap() || !parser.expect_peek(
            &Token::LBRACE,
        ).unwrap() {
            return None;
        }

        let consequence = Parser::parse_block_statement_within(parser, Ghost((fuel - 1) as nat));
        let mut alternative = None;
        if parser.peek_token_is(&Token::ELSE) {
            parser.next_token();
            if !parser.expect_peek(&Token::LBRACE).unwrap() {
                return None;
            }
            alternative = Some(
                Parser::parse_block_statement_within(parser, Ghost((fuel - 1) as nat)),
            );
        }

        Some(
            Expression::IfExpression(
                Box::new(IfExpression { token, condition, consequence, alternative }),
            ),
        )
    }

    /// Parses `fn(<parameters>) { ... }`.
    pub fn parse_function_literal(parser: &mut Parser) -> (e: Option<Expression>)
        requires
            old(parser).wf(),
            completes(function_literal_fuel(old(parser).env(), old(parser).state())),
        ensures
            final(parser).wf(),
            final(parser).env() == old(parser).env(),
            forall|f: nat|
                done(#[trigger] run_function_literal(old(parser).env(), f, old(parser).state()))
                    ==> run_function_literal(old(parser).env(), f, old(parser).state()) == Run::Done(
                    final(parser).state(),
                    expr_option_view(e),
                ),
    {
        let ghost env = parser.env();
        let ghost st0 = parser.state();
        let ghost w = witness(function_literal_fuel(env, st0));
        proof {
            assert(function_literal_fuel(env, st0)(w));
        }
        let r = Parser::parse_function_literal_within(parser, Ghost(w));
        proof {
            assert forall|f: nat| done(#[trigger] run_function_literal(env, f, st0)) implies run_function_literal(
                env,
                f,
                st0,
            ) == run_function_literal(env, w, st0) by {
                if f <= w {
                    lemma_function_literal_fuel(env, f, w, st0);
                } else {
                    lemma_function_literal_fuel(env, w, f, st0);
                }
            }
        }
        r
    }

    fn parse_function_literal_within(parser: &mut Parser, Ghost(fuel): Ghost<nat>) -> (e: Option<Expression>)
        requires
            old(parser).wf(),
            done(run_function_literal(old(parser).env(), fuel, old(parser).state())),
        ensures
            final(parser).wf(),
            final(parser).env() == old(parser).env(),
            run_function_literal(old(parser).env(), fuel, old(parser).state()) == Run::Done(
                final(parser).state(),
                expr_option_view(e),
            ),
        decreases fuel, 2nat,
    {
        let token = parser.current_token.clone();

        if !parser.expect_peek(&Token::LPAREN).unwrap() {
            return None;
        }

        let parameters = match Parser::parse_function_parameters_within(
            parser,
            Ghost((fuel - 1) as nat),
        ) {
            Some(parameters) => parameters,
            None => {
                return None;
            },
        };

        if !parser.expect_peek(&Token::LBRACE).unwrap() {
            return None;
        }

        let body = Parser::parse_block_statement_within(parser, Ghost((fuel - 1) as nat));

        return Some(Expression::FunctionLiteral(FunctionLiteral { token, parameters, body }));
    }

    /// Parses the names of a parameter list, up to `)`: the literal of each
    /// token in a comma-separated list.
    pub fn parse_function_parameters(parser: &mut Parser) -> (parameters: Option<Vec<IdentifierToken>>)
        requires
            old(parser).wf(),
            completes(parameters_fuel(old(parser).state())),
        ensures
            final(parser).wf(),
            final(parser).env() == old(parser).env(),
            parameters is Some,
            forall|f: nat|
                done(#[trigger] run_parameters(f, old(parser).state())) ==> run_parameters(
                    f,
                    old(parser).state(),
                ) == Run::Done(final(parser).state(), params_view(parameters)->0),
    {
        let ghost st0 = parser.state();
        let ghost w = witness(parameters_fuel(st0));
        proof {
            assert(parameters_fuel(st0)(w));
        }
        let r = Parser::parse_function_parameters_within(parser, Ghost(w));
        proof {
            assert forall|f: nat| done(#[trigger] run_parameters(f, st0)) implies run_parameters(
                f,
                st0,
            ) == run_parameters(w, st0) by {
                if f <= w {
                    lemma_parameters_fuel(f, w, st0);
                } else {
                    lemma_parameters_fuel(w, f, st0);
                }
            }
        }
        r
    }

    fn parse_function_parameters_within(parser: &mut Parser, Ghost(fuel): Ghost<nat>) -> (parameters: Option<Vec<IdentifierToken>>)
        requires
            old(parser).wf(),
            done(run_parameters(fuel, old(parser).state())),
        ensures
            final(parser).wf(),
            final(parser).env() == old(parser).env(),
            parameters is Some,
            run_parameters(fuel, old(parser).state()) == Run::Done(
                final(parser).state(),
                params_view(parameters)->0,
            ),
    {
        let ghost env = parser.env();
        let ghost st0 = parser.state();
        let mut identifiers: Vec<IdentifierToken> = Vec::new();

        if parser.peek_token_is(&Token::RPAREN) {
            parser.next_token();
            proof {
                assert(names_view(identifiers@) =~= Seq::<Seq<char>>::empty());
            }
            return Some(identifiers);
        }

        parser.next_token();

        let identifier = IdentifierToken(parser.current_token.to_string());
        proof {
            lemma_names_view_push(identifiers@, identifier);
            assert(names_view(identifiers@) =~= Seq::<Seq<char>>::empty());
        }
        identifiers.push(identifier);
        let ghost mut g: nat = (fuel - 1) as nat;
        while parser.peek_token_is(&Token::COMMA)
            invariant
                parser.wf(),
                parser.env() == env,
                env == old(parser).env(),
                st0 == old(parser).state(),
                done(parameters_loop(g, parser.state(), names_view(identifiers@))),
                run_parameters(fuel, st0) == parameters_loop(g, parser.state(), names_view(identifiers@)),
            decreases g,
        {
            parser.next_token();
            parser.next_token();
            let identifier = IdentifierToken(parser.current_token.to_string());
            proof {
                lemma_names_view_push(identifiers@, identifier);
            }
            identifiers.push(identifier);
            proof {
                g = (g - 1) as nat;
            }
        }

        if !parser.expect_peek(&Token::RPAREN).unwrap() {
            return None;
        }

        return Some(identifiers);
    }

    /// Parses the arguments of a call to `function`.
    pub fn parse_call_expression(parser: &mut Parser, function: Expression) -> (e: Option<Expression>)
        requires
            old(parser).wf(),
            completes(call_fuel(old(parser).env(), old(parser).state(), expr_view(function))),
        ensures
            final(parser).wf(),
            final(parser).env() == old(parser).env(),
            forall|f: nat|
                done(#[trigger] run_call(old(parser).env(), f, old(parser).state(), expr_view(function)))
                    ==> run_call(old(parser).env(), f, old(parser).state(), expr_view(function)) == Run::Done(
                    final(parser).state(),
                    expr_option_view(e),
                ),
    {
        let ghost env = parser.env();
        let ghost st0 = parser.state();
        let ghost av = expr_view(function);
        let ghost w = witness(call_fuel(env, st0, av));
        proof {
            assert(call_fuel(env, st0, av)(w));
        }
        let r = Parser::parse_call_expression_within(parser, function, Ghost(w));
        proof {
            assert forall|f: nat| done(#[trigger] run_call(env, f, st0, av)) implies run_call(env, f, st0, av)
                == run_call(env, w, st0, av) by {
                if f <= w {
                    lemma_call_fuel(env, f, w, st0, av);
                } else {
                    lemma_call_fuel(env, w, f, st0, av);
                }
            }
        }
        r
    }

    fn parse_call_expression_within(parser: &mut Parser, function: Expression, Ghost(fuel): Ghost<nat>) -> (e: Option<Expression>)
        requires
            old(parser).wf(),
            done(run_call(old(parser).env(), fuel, old(parser).state(), expr_view(function))),
        ensures
            final(parser).wf(),
            final(parser).env() == old(parser).env(),
            run_call(old(parser).env(), fuel, old(parser).state(), expr_view(function))
                == Run::Done(final(parser).state(), expr_option_view(e)),
        decreases fuel, 2nat,
    {
        let token = parser.current_token.clone();
        let arguments = match Parser::parse_call_arguments(parser, Ghost((fuel - 1) as nat)) {
            Some(arguments) => arguments,
            None => {
                return None;
            },
        };
        Some(Expression::CallExpression(Box::new(CallExpression { token, function, arguments })))
    }

    /// Parses a comma-separated list of expressions, up to `)`.
    fn parse_call_arguments(parser: &mut Parser, Ghost(fuel): Ghost<nat>) -> (arguments: Option<Vec<Expression>>)
        requires
            old(parser).wf(),
            done(run_arguments(old(parser).env(), fuel, old(parser).state())),
        ensures
            final(parser).wf(),
            final(parser).env() == old(parser).env(),
            run_arguments(old(parser).env(), fuel, old(parser).state()) == Run::Done(
                final(parser).state(),
                args_view(arguments),
            ),
        decreases fuel, 2nat,
    {
        let ghost env = parser.env();
        let ghost st0 = parser.state();
        let mut args: Vec<Expression> = Vec::new();

        if parser.peek_token_is(&Token::RPAREN) {
            parser.next_token();
            proof {
                assert(exprs_view(args@) =~= Seq::<SpecExpression>::empty());
            }
            return Some(args);
        }

        parser.next_token();
        let first = match Parser::parse_expression_within(
            parser,
            Precedence::Lowest,
            Ghost((fuel - 1) as nat),
        ) {
            Some(first) => first,
            None => {
                return None;
            },
        };
        proof {
            lemma_exprs_view_push(args@, first);
            assert(exprs_view(args@) =~= Seq::<SpecExpression>::empty());
        }
        args.push(first);
        let ghost mut g: nat = (fuel - 1) as nat;
        while parser.peek_token_is(&Token::COMMA)
            invariant
                parser.wf(),
                parser.env() == env,
                env == old(parser).env(),
                st0 == old(parser).state(),
                g < fuel,
                done(arguments_loop(env, g, parser.state(), exprs_view(args@))),
                run_arguments(env, fuel, st0) == arguments_loop(
                    env,
                    g,
                    parser.state(),
                    exprs_view(args@),
                ),
            decreases g,
        {
            parser.next_token();
            parser.next_token();
            let next = match Parser::parse_expression_within(
                parser,
                Precedence::Lowest,
                Ghost((g - 1) as nat),
            ) {
                Some(next) => next,
                None => {
                    return None;
                },
            };
            proof {
                lemma_exprs_view_push(args@, next);
            }
            args.push(next);
            proof {
                g = (g - 1) as nat;
            }
        }

        if !parser.expect_peek(&Token::RPAREN).unwrap() {
            return None;
        }

        Some(args)
    }

}

} // verus!

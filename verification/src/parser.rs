//! The parser: recursive descent over the token sequence for statement
//! forms, and precedence climbing for expressions, building an abstract
//! syntax tree bottom-up in a single left-to-right pass.
//!
//! The executable entry points are the methods of [`Parser`]; their contracts
//! equate the outcome with the mathematical parser ([`spec_parse_program`]
//! and its helpers), so the tree built for every token sequence, and the
//! first error reported for every ill-formed one, are pinned down exactly.

use vstd::prelude::*;

use crate::lexer::LoggedToken;
use crate::lexer::LoggedTokenView;
use crate::lexer::Token;
use crate::lexer::TokenView;
use crate::lexer::view_of_tokens;

verus! {

// ---------------------------------------------------------------------------
// Syntax tree
// ---------------------------------------------------------------------------

/// One node of the abstract syntax tree. A `Program` is an ordered
/// `Vec<ExprAST>` of function definitions and free-standing statements.
#[derive(Debug, PartialEq)]
pub enum ExprAST {
    /// A numeric literal, carrying its lexeme text as scanned.
    NumberLiteral(String),
    /// A boolean literal.
    BooleanLiteral(bool),
    /// A reference to a variable by name.
    Variable(String),
    /// A binary operation; the operator token is retained for diagnostics
    /// and evaluator dispatch.
    BinaryExpr(LoggedToken, Box<ExprAST>, Box<ExprAST>),
    /// A call of a named function with ordered argument expressions.
    Call(String, Vec<ExprAST>),
    /// A function definition: name, ordered parameter names, body statements.
    FunctionDef(String, Vec<String>, Vec<ExprAST>),
    /// `let name = initializer`, introducing a binding.
    LetBinding(String, Box<ExprAST>),
    /// `name = expression`, reassigning an existing binding.
    Assignment(String, Box<ExprAST>),
    /// `if (condition) { then } else { else }`; the else branch is optional.
    Conditional(Box<ExprAST>, Vec<ExprAST>, Option<Vec<ExprAST>>),
    /// `while (condition) { body }`.
    WhileLoop(Box<ExprAST>, Vec<ExprAST>),
    /// `return` with an optional result expression.
    Return(Option<Box<ExprAST>>),
    Break,
    Continue,
}

/// The mathematical value of an [`ExprAST`] node.
pub enum AstView {
    NumberLiteral(Seq<char>),
    BooleanLiteral(bool),
    Variable(Seq<char>),
    BinaryExpr(LoggedTokenView, Box<AstView>, Box<AstView>),
    Call(Seq<char>, Seq<AstView>),
    FunctionDef(Seq<char>, Seq<Seq<char>>, Seq<AstView>),
    LetBinding(Seq<char>, Box<AstView>),
    Assignment(Seq<char>, Box<AstView>),
    Conditional(Box<AstView>, Seq<AstView>, Option<Seq<AstView>>),
    WhileLoop(Box<AstView>, Seq<AstView>),
    Return(Option<Box<AstView>>),
    Break,
    Continue,
}

/// The mathematical value of a syntax tree node.
pub open spec fn view_of_ast(e: ExprAST) -> AstView
    decreases e,
{
    match e {
        ExprAST::NumberLiteral(s) => AstView::NumberLiteral(s@),
        ExprAST::BooleanLiteral(b) => AstView::BooleanLiteral(b),
        ExprAST::Variable(s) => AstView::Variable(s@),
        ExprAST::BinaryExpr(op, l, r) => AstView::BinaryExpr(
            op@,
            Box::new(view_of_ast(*l)),
            Box::new(view_of_ast(*r)),
        ),
        ExprAST::Call(name, args) => AstView::Call(name@, view_of_asts(args@)),
        ExprAST::FunctionDef(name, ps, body) => AstView::FunctionDef(
            name@,
            view_of_names(ps@),
            view_of_asts(body@),
        ),
        ExprAST::LetBinding(n, init) => AstView::LetBinding(n@, Box::new(view_of_ast(*init))),
        ExprAST::Assignment(n, v) => AstView::Assignment(n@, Box::new(view_of_ast(*v))),
        ExprAST::Conditional(c, t, els) => AstView::Conditional(
            Box::new(view_of_ast(*c)),
            view_of_asts(t@),
            match els {
                Some(v) => Some(view_of_asts(v@)),
                None => None,
            },
        ),
        ExprAST::WhileLoop(c, b) => AstView::WhileLoop(Box::new(view_of_ast(*c)), view_of_asts(b@)),
        ExprAST::Return(opt) => AstView::Return(
            match opt {
                Some(b) => Some(Box::new(view_of_ast(*b))),
                None => None,
            },
        ),
        ExprAST::Break => AstView::Break,
        ExprAST::Continue => AstView::Continue,
    }
}

/// The mathematical value of a list of syntax tree nodes.
pub open spec fn view_of_asts(s: Seq<ExprAST>) -> Seq<AstView>
    decreases s,
{
    if s.len() == 0 {
        Seq::empty()
    } else {
        view_of_asts(s.subrange(0, s.len() - 1)).push(view_of_ast(s[s.len() - 1]))
    }
}

/// The mathematical value of a list of names.
pub open spec fn view_of_names(s: Seq<String>) -> Seq<Seq<char>> {
    Seq::new(s.len(), |k: int| s[k]@)
}

pub proof fn lemma_view_of_asts_push(s: Seq<ExprAST>, e: ExprAST)
    ensures
        view_of_asts(s.push(e)) == view_of_asts(s).push(view_of_ast(e)),
{
    assert(s.push(e).subrange(0, s.push(e).len() - 1) =~= s);
}

pub proof fn lemma_view_of_names_push(s: Seq<String>, n: String)
    ensures
        view_of_names(s.push(n)) == view_of_names(s).push(n@),
{
    assert(view_of_names(s.push(n)) =~= view_of_names(s).push(n@));
}

// ---------------------------------------------------------------------------
// Parse errors
// ---------------------------------------------------------------------------

/// The construct a grammar production was looking for when it failed.
#[derive(Debug, PartialEq, Eq, Structural, Clone, Copy)]
pub enum Expected {
    Expression,
    Statement,
    Identifier,
    ParameterName,
    Equal,
    OpenParen,
    CloseParen,
    OpenCurly,
    CloseCurly,
    CommaOrCloseParen,
}

/// The first parse error found.
#[derive(Debug, PartialEq)]
pub enum ParseError {
    /// A production met a token it cannot accept.
    UnexpectedToken { expected: Expected, found: Token, line: usize },
    /// The input ended while a production was still incomplete.
    UnexpectedEnd { expected: Expected },
}

/// The mathematical value of a [`ParseError`].
pub enum ParseErrorView {
    UnexpectedToken { expected: Expected, found: TokenView, line: nat },
    UnexpectedEnd { expected: Expected },
}

impl View for ParseError {
    type V = ParseErrorView;

    open spec fn view(&self) -> ParseErrorView {
        match self {
            ParseError::UnexpectedToken { expected, found, line } => ParseErrorView::UnexpectedToken {
                expected: *expected,
                found: found@,
                line: *line as nat,
            },
            ParseError::UnexpectedEnd { expected } => ParseErrorView::UnexpectedEnd {
                expected: *expected,
            },
        }
    }
}

/// The error reported at position `i`: the token found there, or the end of
/// the input.
pub open spec fn err_at(ts: Seq<LoggedTokenView>, i: int, exp: Expected) -> ParseErrorView {
    if 0 <= i < ts.len() {
        ParseErrorView::UnexpectedToken { expected: exp, found: ts[i].token, line: ts[i].line }
    } else {
        ParseErrorView::UnexpectedEnd { expected: exp }
    }
}

// ---------------------------------------------------------------------------
// The grammar, mathematically
// ---------------------------------------------------------------------------

/// Binding strength of a binary operator token, or 0 for any other token.
/// `* /` bind tighter than `+ -`, which bind tighter than the comparisons;
/// all are left-associative.
pub open spec fn precedence_of(t: TokenView) -> int {
    match t {
        TokenView::Times(_) => 3,
        TokenView::Divide(_) => 3,
        TokenView::Plus(_) => 2,
        TokenView::Minus(_) => 2,
        TokenView::LessThan(_) => 1,
        TokenView::GreaterThan(_) => 1,
        TokenView::LessThanEqual(_) => 1,
        TokenView::GreaterThanEqual(_) => 1,
        TokenView::EqualEqual(_) => 1,
        _ => 0,
    }
}

/// The tokens that may open an expression; used to decide whether `return`
/// carries a result expression.
pub open spec fn starts_expression(t: TokenView) -> bool {
    match t {
        TokenView::Number(_) => true,
        TokenView::True(_) => true,
        TokenView::False(_) => true,
        TokenView::Identifier(_) => true,
        TokenView::OpenParen(_) => true,
        _ => false,
    }
}

/// The name carried by an identifier token.
pub open spec fn ident_name(t: TokenView) -> Seq<char> {
    match t {
        TokenView::Identifier(n) => n,
        _ => Seq::empty(),
    }
}

/// Tokens remaining from position `i`; the termination measure of the
/// recursive descent.
pub open spec fn remaining(ts: Seq<LoggedTokenView>, i: int) -> int {
    if i <= ts.len() {
        ts.len() - i
    } else {
        0
    }
}

/// `j` if it lies beyond `i`, else `i + 1`. The parser always hands back a
/// position beyond the one it started from, so the fallback is never taken;
/// it makes the advance evident to the termination checker.
pub open spec fn advanced(i: int, j: int) -> int {
    if i < j {
        j
    } else {
        i + 1
    }
}

/// A primary expression: a literal, a variable, a call, or a parenthesized
/// sub-expression. On success the result carries the node and the position
/// just past it.
pub open spec fn spec_parse_primary(ts: Seq<LoggedTokenView>, i: int) -> Result<
    (AstView, int),
    ParseErrorView,
>
    decreases remaining(ts, i), 0int,
{
    if i < 0 || i >= ts.len() {
        Err(err_at(ts, i, Expected::Expression))
    } else {
        match ts[i].token {
            TokenView::Number(lexeme) => Ok((AstView::NumberLiteral(lexeme), i + 1)),
            TokenView::True(_) => Ok((AstView::BooleanLiteral(true), i + 1)),
            TokenView::False(_) => Ok((AstView::BooleanLiteral(false), i + 1)),
            TokenView::Identifier(name) => {
                if i + 1 < ts.len() && ts[i + 1].token is OpenParen {
                    match spec_parse_call_args(ts, i + 2, Seq::empty()) {
                        Ok((args, j)) => Ok((AstView::Call(name, args), j)),
                        Err(e) => Err(e),
                    }
                } else {
                    Ok((AstView::Variable(name), i + 1))
                }
            },
            TokenView::OpenParen(_) => match spec_parse_expr(ts, i + 1, 0) {
                Ok((inner, j)) => {
                    if 0 <= j < ts.len() && ts[j].token is CloseParen {
                        Ok((inner, j + 1))
                    } else {
                        Err(err_at(ts, j, Expected::CloseParen))
                    }
                },
                Err(e) => Err(e),
            },
            _ => Err(err_at(ts, i, Expected::Expression)),
        }
    }
}

/// The comma-separated argument list of a call, from the position just after
/// the opening parenthesis, with the arguments parsed so far in `acc`; ends
/// at the closing parenthesis.
pub open spec fn spec_parse_call_args(
    ts: Seq<LoggedTokenView>,
    i: int,
    acc: Seq<AstView>,
) -> Result<(Seq<AstView>, int), ParseErrorView>
    decreases remaining(ts, i), 2int,
{
    if i < 0 || i >= ts.len() {
        Err(ParseErrorView::UnexpectedEnd { expected: Expected::CloseParen })
    } else if ts[i].token is CloseParen && acc.len() == 0 {
        Ok((acc, i + 1))
    } else {
        match spec_parse_expr(ts, i, 0) {
            Ok((arg, j)) => {
                if 0 <= j < ts.len() && ts[j].token is Comma {
                    spec_parse_call_args(ts, advanced(i, j + 1), acc.push(arg))
                } else if 0 <= j < ts.len() && ts[j].token is CloseParen {
                    Ok((acc.push(arg), j + 1))
                } else {
                    Err(err_at(ts, j, Expected::CommaOrCloseParen))
                }
            },
            Err(e) => Err(e),
        }
    }
}

/// An expression whose binary operators all bind at least as tightly as
/// `min_prec`: a primary expression extended by precedence climbing.
pub open spec fn spec_parse_expr(ts: Seq<LoggedTokenView>, i: int, min_prec: int) -> Result<
    (AstView, int),
    ParseErrorView,
>
    decreases remaining(ts, i), 1int,
{
    if i < 0 || i >= ts.len() {
        Err(err_at(ts, i, Expected::Expression))
    } else {
        match spec_parse_primary(ts, i) {
            Ok((lhs, j)) => spec_parse_binary_rest(ts, advanced(i, j), min_prec, lhs),
            Err(e) => Err(e),
        }
    }
}

/// Precedence climbing to the right of a parsed left operand: while the next
/// token is a binary operator binding at least as tightly as `min_prec`,
/// parse its right operand with a strictly higher minimum (left
/// associativity) and fold the two into a `BinaryExpr`.
pub open spec fn spec_parse_binary_rest(
    ts: Seq<LoggedTokenView>,
    i: int,
    min_prec: int,
    lhs: AstView,
) -> Result<(AstView, int), ParseErrorView>
    decreases remaining(ts, i), 1int,
{
    if 0 <= i < ts.len() && precedence_of(ts[i].token) >= 1 && precedence_of(ts[i].token)
        >= min_prec {
        let p = precedence_of(ts[i].token);
        match spec_parse_expr(ts, i + 1, p + 1) {
            Ok((rhs, j)) => spec_parse_binary_rest(
                ts,
                advanced(i, j),
                min_prec,
                AstView::BinaryExpr(ts[i], Box::new(lhs), Box::new(rhs)),
            ),
            Err(e) => Err(e),
        }
    } else {
        Ok((lhs, i))
    }
}

/// One statement: `let`, assignment, `if`, `while`, `return`, `break`,
/// `continue`, or a free-standing expression.
pub open spec fn spec_parse_statement(ts: Seq<LoggedTokenView>, i: int) -> Result<
    (AstView, int),
    ParseErrorView,
>
    decreases remaining(ts, i), 3int,
{
    if i < 0 || i >= ts.len() {
        Err(ParseErrorView::UnexpectedEnd { expected: Expected::Statement })
    } else {
        match ts[i].token {
            TokenView::Let(_) => {
                if i + 1 < ts.len() && ts[i + 1].token is Identifier {
                    if i + 2 < ts.len() && ts[i + 2].token is Equal {
                        match spec_parse_expr(ts, i + 3, 0) {
                            Ok((init, j)) => Ok(
                                (
                                    AstView::LetBinding(
                                        ident_name(ts[i + 1].token),
                                        Box::new(init),
                                    ),
                                    j,
                                ),
                            ),
                            Err(e) => Err(e),
                        }
                    } else {
                        Err(err_at(ts, i + 2, Expected::Equal))
                    }
                } else {
                    Err(err_at(ts, i + 1, Expected::Identifier))
                }
            },
            TokenView::If(_) => {
                if i + 1 < ts.len() && ts[i + 1].token is OpenParen {
                    match spec_parse_expr(ts, i + 2, 0) {
                        Ok((cond, j)) => {
                            if 0 <= j < ts.len() && ts[j].token is CloseParen {
                                match spec_parse_block(ts, advanced(i, j + 1)) {
                                    Ok((then_stmts, k)) => {
                                        if 0 <= k < ts.len() && ts[k].token is Else {
                                            match spec_parse_block(ts, advanced(i, k + 1)) {
                                                Ok((else_stmts, m)) => Ok(
                                                    (
                                                        AstView::Conditional(
                                                            Box::new(cond),
                                                            then_stmts,
                                                            Some(else_stmts),
                                                        ),
                                                        m,
                                                    ),
                                                ),
                                                Err(e) => Err(e),
                                            }
                                        } else {
                                            Ok(
                                                (
                                                    AstView::Conditional(
                                                        Box::new(cond),
                                                        then_stmts,
                                                        None,
                                                    ),
                                                    k,
                                                ),
                                            )
                                        }
                                    },
                                    Err(e) => Err(e),
                                }
                            } else {
                                Err(err_at(ts, j, Expected::CloseParen))
                            }
                        },
                        Err(e) => Err(e),
                    }
                } else {
                    Err(err_at(ts, i + 1, Expected::OpenParen))
                }
            },
            TokenView::While(_) => {
                if i + 1 < ts.len() && ts[i + 1].token is OpenParen {
                    match spec_parse_expr(ts, i + 2, 0) {
                        Ok((cond, j)) => {
                            if 0 <= j < ts.len() && ts[j].token is CloseParen {
                                match spec_parse_block(ts, advanced(i, j + 1)) {
                                    Ok((body, k)) => Ok(
                                        (AstView::WhileLoop(Box::new(cond), body), k),
                                    ),
                                    Err(e) => Err(e),
                                }
                            } else {
                                Err(err_at(ts, j, Expected::CloseParen))
                            }
                        },
                        Err(e) => Err(e),
                    }
                } else {
                    Err(err_at(ts, i + 1, Expected::OpenParen))
                }
            },
            TokenView::Return(_) => {
                if i + 1 < ts.len() && starts_expression(ts[i + 1].token) {
                    match spec_parse_expr(ts, i + 1, 0) {
                        Ok((e, j)) => Ok((AstView::Return(Some(Box::new(e))), j)),
                        Err(e) => Err(e),
                    }
                } else {
                    Ok((AstView::Return(None), i + 1))
                }
            },
            TokenView::Break(_) => Ok((AstView::Break, i + 1)),
            TokenView::Continue(_) => Ok((AstView::Continue, i + 1)),
            TokenView::Identifier(name) => {
                if i + 1 < ts.len() && ts[i + 1].token is Equal {
                    match spec_parse_expr(ts, i + 2, 0) {
                        Ok((v, j)) => Ok((AstView::Assignment(name, Box::new(v)), j)),
                        Err(e) => Err(e),
                    }
                } else {
                    spec_parse_expr(ts, i, 0)
                }
            },
            _ => spec_parse_expr(ts, i, 0),
        }
    }
}

/// A brace-delimited block: `{` followed by statements up to the matching
/// `}`.
pub open spec fn spec_parse_block(ts: Seq<LoggedTokenView>, i: int) -> Result<
    (Seq<AstView>, int),
    ParseErrorView,
>
    decreases remaining(ts, i), 3int,
{
    if i < 0 || i >= ts.len() {
        Err(ParseErrorView::UnexpectedEnd { expected: Expected::OpenCurly })
    } else if ts[i].token is OpenCurly {
        spec_parse_block_items(ts, i + 1, Seq::empty())
    } else {
        Err(err_at(ts, i, Expected::OpenCurly))
    }
}

/// The statements of a block, with those parsed so far in `acc`; ends at the
/// closing brace.
pub open spec fn spec_parse_block_items(
    ts: Seq<LoggedTokenView>,
    i: int,
    acc: Seq<AstView>,
) -> Result<(Seq<AstView>, int), ParseErrorView>
    decreases remaining(ts, i), 4int,
{
    if i < 0 || i >= ts.len() {
        Err(ParseErrorView::UnexpectedEnd { expected: Expected::CloseCurly })
    } else if ts[i].token is CloseCurly {
        Ok((acc, i + 1))
    } else {
        match spec_parse_statement(ts, i) {
            Ok((st, j)) => spec_parse_block_items(ts, advanced(i, j), acc.push(st)),
            Err(e) => Err(e),
        }
    }
}

/// The parameter list of a function definition, from the position just after
/// the opening parenthesis, with the names parsed so far in `acc`; ends at
/// the closing parenthesis.
pub open spec fn spec_parse_params(
    ts: Seq<LoggedTokenView>,
    i: int,
    acc: Seq<Seq<char>>,
) -> Result<(Seq<Seq<char>>, int), ParseErrorView>
    decreases remaining(ts, i),
{
    if i < 0 || i >= ts.len() {
        Err(ParseErrorView::UnexpectedEnd { expected: Expected::CloseParen })
    } else if ts[i].token is CloseParen && acc.len() == 0 {
        Ok((acc, i + 1))
    } else if ts[i].token is Identifier {
        let name = ident_name(ts[i].token);
        if i + 1 < ts.len() && ts[i + 1].token is Comma {
            spec_parse_params(ts, i + 2, acc.push(name))
        } else if i + 1 < ts.len() && ts[i + 1].token is CloseParen {
            Ok((acc.push(name), i + 2))
        } else {
            Err(err_at(ts, i + 1, Expected::CommaOrCloseParen))
        }
    } else {
        Err(err_at(ts, i, Expected::ParameterName))
    }
}

/// A function definition, from the position of its `def` keyword.
pub open spec fn spec_parse_function_def(ts: Seq<LoggedTokenView>, i: int) -> Result<
    (AstView, int),
    ParseErrorView,
> {
    if i + 1 < ts.len() && ts[i + 1].token is Identifier {
        let name = ident_name(ts[i + 1].token);
        if i + 2 < ts.len() && ts[i + 2].token is OpenParen {
            match spec_parse_params(ts, i + 3, Seq::empty()) {
                Ok((ps, j)) => match spec_parse_block(ts, j) {
                    Ok((body, k)) => Ok((AstView::FunctionDef(name, ps, body), k)),
                    Err(e) => Err(e),
                },
                Err(e) => Err(e),
            }
        } else {
            Err(err_at(ts, i + 2, Expected::OpenParen))
        }
    } else {
        Err(err_at(ts, i + 1, Expected::Identifier))
    }
}

/// The top-level items from position `i` on, with those parsed so far in
/// `acc`: function definitions where a `def` keyword stands, statements
/// otherwise, in source order, to the end of the input.
pub open spec fn spec_parse_program_from(
    ts: Seq<LoggedTokenView>,
    i: int,
    acc: Seq<AstView>,
) -> Result<Seq<AstView>, ParseErrorView>
    decreases remaining(ts, i),
{
    if i < 0 || i >= ts.len() {
        Ok(acc)
    } else if ts[i].token is Def {
        match spec_parse_function_def(ts, i) {
            Ok((f, j)) => spec_parse_program_from(ts, advanced(i, j), acc.push(f)),
            Err(e) => Err(e),
        }
    } else {
        match spec_parse_statement(ts, i) {
            Ok((st, j)) => spec_parse_program_from(ts, advanced(i, j), acc.push(st)),
            Err(e) => Err(e),
        }
    }
}

/// The whole program for a token sequence, or its first parse error.
pub open spec fn spec_parse_program(ts: Seq<LoggedTokenView>) -> Result<
    Seq<AstView>,
    ParseErrorView,
> {
    spec_parse_program_from(ts, 0, Seq::empty())
}

// ---------------------------------------------------------------------------
// The executable parser
// ---------------------------------------------------------------------------

fn precedence_of_token(t: &Token) -> (p: usize)
    ensures
        p as int == precedence_of(t@),
        p <= 3,
{
    match t {
        Token::Times(_) => 3,
        Token::Divide(_) => 3,
        Token::Plus(_) => 2,
        Token::Minus(_) => 2,
        Token::LessThan(_) => 1,
        Token::GreaterThan(_) => 1,
        Token::LessThanEqual(_) => 1,
        Token::GreaterThanEqual(_) => 1,
        Token::EqualEqual(_) => 1,
        _ => 0,
    }
}

fn token_starts_expression(t: &Token) -> (b: bool)
    ensures
        b == starts_expression(t@),
{
    match t {
        Token::Number(_) => true,
        Token::True(_) => true,
        Token::False(_) => true,
        Token::Identifier(_) => true,
        Token::OpenParen(_) => true,
        _ => false,
    }
}

/// The name carried by the identifier token at position `k`.
fn get_identifier_text(ts: &Vec<LoggedToken>, k: usize) -> (name: String)
    requires
        k < ts@.len(),
        view_of_tokens(ts@)[k as int].token is Identifier,
    ensures
        name@ == ident_name(view_of_tokens(ts@)[k as int].token),
{
    match &ts[k].token {
        Token::Identifier(s) => s.clone(),
        _ => {
            proof {
                assert(false);
            }
            String::new()
        },
    }
}

/// The error reported at position `i`: the token found there, or the end of
/// the input.
fn error_at(ts: &Vec<LoggedToken>, i: usize, exp: Expected) -> (e: ParseError)
    ensures
        e@ == err_at(view_of_tokens(ts@), i as int, exp),
{
    if i < ts.len() {
        ParseError::UnexpectedToken {
            expected: exp,
            found: ts[i].token.clone(),
            line: ts[i].line_num,
        }
    } else {
        ParseError::UnexpectedEnd { expected: exp }
    }
}

/// A primary expression starting at position `i`; see [`spec_parse_primary`].
#[verifier::loop_isolation(false)]
fn parse_primary(ts: &Vec<LoggedToken>, i: usize) -> (r: Result<(ExprAST, usize), ParseError>)
    requires
        i <= ts@.len(),
    ensures
        match r {
            Ok((e, j)) => spec_parse_primary(view_of_tokens(ts@), i as int) == Ok::<
                (AstView, int),
                ParseErrorView,
            >((view_of_ast(e), j as int)) && i < j <= ts@.len(),
            Err(pe) => spec_parse_primary(view_of_tokens(ts@), i as int) == Err::<
                (AstView, int),
                ParseErrorView,
            >(pe@),
        },
    decreases ts@.len() - i, 0int,
{
    if i >= ts.len() {
        return Err(error_at(ts, i, Expected::Expression));
    }
    match &ts[i].token {
        Token::Number(lexeme) => Ok((ExprAST::NumberLiteral(lexeme.clone()), i + 1)),
        Token::True(_) => Ok((ExprAST::BooleanLiteral(true), i + 1)),
        Token::False(_) => Ok((ExprAST::BooleanLiteral(false), i + 1)),
        Token::Identifier(name) => {
            if i + 1 < ts.len() && matches!(&ts[i + 1].token, Token::OpenParen(_)) {
                match parse_call_args(ts, i + 2) {
                    Ok((args, j)) => Ok((ExprAST::Call(name.clone(), args), j)),
                    Err(e) => Err(e),
                }
            } else {
                Ok((ExprAST::Variable(name.clone()), i + 1))
            }
        },
        Token::OpenParen(_) => {
            match parse_expr_prec(ts, i + 1, 0) {
                Ok((inner, j)) => {
                    if j < ts.len() && matches!(&ts[j].token, Token::CloseParen(_)) {
                        Ok((inner, j + 1))
                    } else {
                        Err(error_at(ts, j, Expected::CloseParen))
                    }
                },
                Err(e) => Err(e),
            }
        },
        _ => Err(error_at(ts, i, Expected::Expression)),
    }
}

/// The argument list of a call, from the position just after the opening
/// parenthesis; see [`spec_parse_call_args`].
#[verifier::loop_isolation(false)]
fn parse_call_args(ts: &Vec<LoggedToken>, i: usize) -> (r: Result<
    (Vec<ExprAST>, usize),
    ParseError,
>)
    requires
        i <= ts@.len(),
    ensures
        match r {
            Ok((args, j)) => spec_parse_call_args(view_of_tokens(ts@), i as int, Seq::empty())
                == Ok::<(Seq<AstView>, int), ParseErrorView>((view_of_asts(args@), j as int)) && i
                < j <= ts@.len(),
            Err(pe) => spec_parse_call_args(view_of_tokens(ts@), i as int, Seq::empty()) == Err::<
                (Seq<AstView>, int),
                ParseErrorView,
            >(pe@),
        },
    decreases ts@.len() - i, 2int,
{
    let ghost tsv = view_of_tokens(ts@);
    let mut args: Vec<ExprAST> = Vec::new();
    let mut cur: usize = i;
    proof {
        assert(view_of_asts(args@) =~= Seq::<AstView>::empty());
    }
    loop
        invariant
            i <= cur <= ts@.len(),
            args@.len() == 0 ==> cur == i,
            args@.len() > 0 ==> i < cur,
            spec_parse_call_args(tsv, i as int, Seq::empty()) == spec_parse_call_args(
                tsv,
                cur as int,
                view_of_asts(args@),
            ),
        decreases ts@.len() - cur,
    {
        if cur >= ts.len() {
            return Err(ParseError::UnexpectedEnd { expected: Expected::CloseParen });
        }
        if args.len() == 0 && matches!(&ts[cur].token, Token::CloseParen(_)) {
            return Ok((args, cur + 1));
        }
        match parse_expr_prec(ts, cur, 0) {
            Ok((arg, j)) => {
                let ghost garg = arg;
                let ghost pre = args@;
                if j < ts.len() && matches!(&ts[j].token, Token::Comma(_)) {
                    args.push(arg);
                    proof {
                        lemma_view_of_asts_push(pre, garg);
                    }
                    cur = j + 1;
                } else if j < ts.len() && matches!(&ts[j].token, Token::CloseParen(_)) {
                    args.push(arg);
                    proof {
                        lemma_view_of_asts_push(pre, garg);
                    }
                    return Ok((args, j + 1));
                } else {
                    return Err(error_at(ts, j, Expected::CommaOrCloseParen));
                }
            },
            Err(e) => return Err(e),
        }
    }
}

/// An expression starting at position `i` whose operators bind at least as
/// tightly as `min_prec`; see [`spec_parse_expr`].
#[verifier::loop_isolation(false)]
fn parse_expr_prec(ts: &Vec<LoggedToken>, i: usize, min_prec: usize) -> (r: Result<
    (ExprAST, usize),
    ParseError,
>)
    requires
        i <= ts@.len(),
    ensures
        match r {
            Ok((e, j)) => spec_parse_expr(view_of_tokens(ts@), i as int, min_prec as int) == Ok::<
                (AstView, int),
                ParseErrorView,
            >((view_of_ast(e), j as int)) && i < j <= ts@.len(),
            Err(pe) => spec_parse_expr(view_of_tokens(ts@), i as int, min_prec as int) == Err::<
                (AstView, int),
                ParseErrorView,
            >(pe@),
        },
    decreases ts@.len() - i, 1int,
{
    let ghost tsv = view_of_tokens(ts@);
    if i >= ts.len() {
        return Err(error_at(ts, i, Expected::Expression));
    }
    let mut lhs: ExprAST;
    let mut cur: usize;
    match parse_primary(ts, i) {
        Ok((e, j)) => {
            lhs = e;
            cur = j;
        },
        Err(e) => {
            return Err(e);
        },
    }
    loop
        invariant
            i < cur <= ts@.len(),
            spec_parse_expr(tsv, i as int, min_prec as int) == spec_parse_binary_rest(
                tsv,
                cur as int,
                min_prec as int,
                view_of_ast(lhs),
            ),
        decreases ts@.len() - cur,
    {
        if cur >= ts.len() {
            return Ok((lhs, cur));
        }
        let p = precedence_of_token(&ts[cur].token);
        if p >= 1 && p >= min_prec {
            let op = ts[cur].clone();
            match parse_expr_prec(ts, cur + 1, p + 1) {
                Ok((rhs, j)) => {
                    lhs = ExprAST::BinaryExpr(op, Box::new(lhs), Box::new(rhs));
                    cur = j;
                },
                Err(e) => {
                    return Err(e);
                },
            }
        } else {
            return Ok((lhs, cur));
        }
    }
}

/// One statement starting at position `i`; see [`spec_parse_statement`].
#[verifier::loop_isolation(false)]
fn parse_statement(ts: &Vec<LoggedToken>, i: usize) -> (r: Result<(ExprAST, usize), ParseError>)
    requires
        i <= ts@.len(),
    ensures
        match r {
            Ok((e, j)) => spec_parse_statement(view_of_tokens(ts@), i as int) == Ok::<
                (AstView, int),
                ParseErrorView,
            >((view_of_ast(e), j as int)) && i < j <= ts@.len(),
            Err(pe) => spec_parse_statement(view_of_tokens(ts@), i as int) == Err::<
                (AstView, int),
                ParseErrorView,
            >(pe@),
        },
    decreases ts@.len() - i, 3int,
{
    if i >= ts.len() {
        return Err(ParseError::UnexpectedEnd { expected: Expected::Statement });
    }
    match &ts[i].token {
        Token::Let(_) => {
            if !(i + 1 < ts.len() && matches!(&ts[i + 1].token, Token::Identifier(_))) {
                return Err(error_at(ts, i + 1, Expected::Identifier));
            }
            if !(i + 2 < ts.len() && matches!(&ts[i + 2].token, Token::Equal(_))) {
                return Err(error_at(ts, i + 2, Expected::Equal));
            }
            let name = get_identifier_text(ts, i + 1);
            match parse_expr_prec(ts, i + 3, 0) {
                Ok((init, j)) => Ok((ExprAST::LetBinding(name, Box::new(init)), j)),
                Err(e) => Err(e),
            }
        },
        Token::If(_) => {
            if !(i + 1 < ts.len() && matches!(&ts[i + 1].token, Token::OpenParen(_))) {
                return Err(error_at(ts, i + 1, Expected::OpenParen));
            }
            let (cond, j) = match parse_expr_prec(ts, i + 2, 0) {
                Ok(x) => x,
                Err(e) => return Err(e),
            };
            if !(j < ts.len() && matches!(&ts[j].token, Token::CloseParen(_))) {
                return Err(error_at(ts, j, Expected::CloseParen));
            }
            let (then_stmts, k) = match parse_block(ts, j + 1) {
                Ok(x) => x,
                Err(e) => return Err(e),
            };
            if k < ts.len() && matches!(&ts[k].token, Token::Else(_)) {
                let (else_stmts, m) = match parse_block(ts, k + 1) {
                    Ok(x) => x,
                    Err(e) => return Err(e),
                };
                Ok((ExprAST::Conditional(Box::new(cond), then_stmts, Some(else_stmts)), m))
            } else {
                Ok((ExprAST::Conditional(Box::new(cond), then_stmts, None), k))
            }
        },
        Token::While(_) => {
            if !(i + 1 < ts.len() && matches!(&ts[i + 1].token, Token::OpenParen(_))) {
                return Err(error_at(ts, i + 1, Expected::OpenParen));
            }
            let (cond, j) = match parse_expr_prec(ts, i + 2, 0) {
                Ok(x) => x,
                Err(e) => return Err(e),
            };
            if !(j < ts.len() && matches!(&ts[j].token, Token::CloseParen(_))) {
                return Err(error_at(ts, j, Expected::CloseParen));
            }
            let (body, k) = match parse_block(ts, j + 1) {
                Ok(x) => x,
                Err(e) => return Err(e),
            };
            Ok((ExprAST::WhileLoop(Box::new(cond), body), k))
        },
        Token::Return(_) => {
            if i + 1 < ts.len() && token_starts_expression(&ts[i + 1].token) {
                match parse_expr_prec(ts, i + 1, 0) {
                    Ok((e, j)) => Ok((ExprAST::Return(Some(Box::new(e))), j)),
                    Err(e) => Err(e),
                }
            } else {
                Ok((ExprAST::Return(None), i + 1))
            }
        },
        Token::Break(_) => Ok((ExprAST::Break, i + 1)),
        Token::Continue(_) => Ok((ExprAST::Continue, i + 1)),
        Token::Identifier(name) => {
            if i + 1 < ts.len() && matches!(&ts[i + 1].token, Token::Equal(_)) {
                let n = name.clone();
                match parse_expr_prec(ts, i + 2, 0) {
                    Ok((v, j)) => Ok((ExprAST::Assignment(n, Box::new(v)), j)),
                    Err(e) => Err(e),
                }
            } else {
                parse_expr_prec(ts, i, 0)
            }
        },
        _ => parse_expr_prec(ts, i, 0),
    }
}

/// A brace-delimited block starting at position `i`; see
/// [`spec_parse_block`].
#[verifier::loop_isolation(false)]
fn parse_block(ts: &Vec<LoggedToken>, i: usize) -> (r: Result<(Vec<ExprAST>, usize), ParseError>)
    requires
        i <= ts@.len(),
    ensures
        match r {
            Ok((stmts, j)) => spec_parse_block(view_of_tokens(ts@), i as int) == Ok::<
                (Seq<AstView>, int),
                ParseErrorView,
            >((view_of_asts(stmts@), j as int)) && i < j <= ts@.len(),
            Err(pe) => spec_parse_block(view_of_tokens(ts@), i as int) == Err::<
                (Seq<AstView>, int),
                ParseErrorView,
            >(pe@),
        },
    decreases ts@.len() - i, 3int,
{
    let ghost tsv = view_of_tokens(ts@);
    if i >= ts.len() {
        return Err(ParseError::UnexpectedEnd { expected: Expected::OpenCurly });
    }
    if !matches!(&ts[i].token, Token::OpenCurly(_)) {
        return Err(error_at(ts, i, Expected::OpenCurly));
    }
    let mut stmts: Vec<ExprAST> = Vec::new();
    let mut cur: usize = i + 1;
    proof {
        assert(view_of_asts(stmts@) =~= Seq::<AstView>::empty());
    }
    loop
        invariant
            i < cur <= ts@.len(),
            spec_parse_block(tsv, i as int) == spec_parse_block_items(
                tsv,
                cur as int,
                view_of_asts(stmts@),
            ),
        decreases ts@.len() - cur,
    {
        if cur >= ts.len() {
            return Err(ParseError::UnexpectedEnd { expected: Expected::CloseCurly });
        }
        if matches!(&ts[cur].token, Token::CloseCurly(_)) {
            return Ok((stmts, cur + 1));
        }
        match parse_statement(ts, cur) {
            Ok((st, j)) => {
                let ghost gst = st;
                let ghost pre = stmts@;
                stmts.push(st);
                proof {
                    lemma_view_of_asts_push(pre, gst);
                }
                cur = j;
            },
            Err(e) => {
                return Err(e);
            },
        }
    }
}

/// The parameter list of a function definition, from the position just
/// after the opening parenthesis; see [`spec_parse_params`].
#[verifier::loop_isolation(false)]
fn parse_params(ts: &Vec<LoggedToken>, i: usize) -> (r: Result<(Vec<String>, usize), ParseError>)
    requires
        i <= ts@.len(),
    ensures
        match r {
            Ok((names, j)) => spec_parse_params(view_of_tokens(ts@), i as int, Seq::empty())
                == Ok::<(Seq<Seq<char>>, int), ParseErrorView>(
                (view_of_names(names@), j as int),
            ) && i < j <= ts@.len(),
            Err(pe) => spec_parse_params(view_of_tokens(ts@), i as int, Seq::empty()) == Err::<
                (Seq<Seq<char>>, int),
                ParseErrorView,
            >(pe@),
        },
{
    let ghost tsv = view_of_tokens(ts@);
    let mut names: Vec<String> = Vec::new();
    let mut cur: usize = i;
    proof {
        assert(view_of_names(names@) =~= Seq::<Seq<char>>::empty());
    }
    loop
        invariant
            i <= cur <= ts@.len(),
            names@.len() == 0 ==> cur == i,
            names@.len() > 0 ==> i < cur,
            spec_parse_params(tsv, i as int, Seq::empty()) == spec_parse_params(
                tsv,
                cur as int,
                view_of_names(names@),
            ),
        decreases ts@.len() - cur,
    {
        if cur >= ts.len() {
            return Err(ParseError::UnexpectedEnd { expected: Expected::CloseParen });
        }
        if names.len() == 0 && matches!(&ts[cur].token, Token::CloseParen(_)) {
            return Ok((names, cur + 1));
        }
        if !matches!(&ts[cur].token, Token::Identifier(_)) {
            return Err(error_at(ts, cur, Expected::ParameterName));
        }
        let name = get_identifier_text(ts, cur);
        let ghost gname = name;
        let ghost pre = names@;
        if cur + 1 < ts.len() && matches!(&ts[cur + 1].token, Token::Comma(_)) {
            names.push(name);
            proof {
                lemma_view_of_names_push(pre, gname);
            }
            cur = cur + 2;
        } else if cur + 1 < ts.len() && matches!(&ts[cur + 1].token, Token::CloseParen(_)) {
            names.push(name);
            proof {
                lemma_view_of_names_push(pre, gname);
            }
            return Ok((names, cur + 2));
        } else {
            return Err(error_at(ts, cur + 1, Expected::CommaOrCloseParen));
        }
    }
}

/// A function definition, from the position of its `def` keyword; see
/// [`spec_parse_function_def`].
fn parse_function_def(ts: &Vec<LoggedToken>, i: usize) -> (r: Result<
    (ExprAST, usize),
    ParseError,
>)
    requires
        i < ts@.len(),
    ensures
        match r {
            Ok((f, j)) => spec_parse_function_def(view_of_tokens(ts@), i as int) == Ok::<
                (AstView, int),
                ParseErrorView,
            >((view_of_ast(f), j as int)) && i < j <= ts@.len(),
            Err(pe) => spec_parse_function_def(view_of_tokens(ts@), i as int) == Err::<
                (AstView, int),
                ParseErrorView,
            >(pe@),
        },
{
    let n = ts.len();
    if !(i + 1 < n && matches!(&ts[i + 1].token, Token::Identifier(_))) {
        return Err(error_at(ts, i + 1, Expected::Identifier));
    }
    if !(i + 2 < n && matches!(&ts[i + 2].token, Token::OpenParen(_))) {
        return Err(error_at(ts, i + 2, Expected::OpenParen));
    }
    let name = get_identifier_text(ts, i + 1);
    let (ps, j) = match parse_params(ts, i + 3) {
        Ok(x) => x,
        Err(e) => return Err(e),
    };
    let (body, k) = match parse_block(ts, j) {
        Ok(x) => x,
        Err(e) => return Err(e),
    };
    Ok((ExprAST::FunctionDef(name, ps, body), k))
}

/// The parser over a lexed token sequence. It holds no state beyond the
/// tokens themselves; each call to a method is an independent pass.
pub struct Parser {
    pub tokens: Vec<LoggedToken>,
}

impl Parser {
    /// Parses the whole token sequence into the ordered list of top-level
    /// items (function definitions and free-standing statements), or returns
    /// the first parse error; see [`spec_parse_program`].
    #[verifier::loop_isolation(false)]
    pub fn parse(&self) -> (r: Result<Vec<ExprAST>, ParseError>)
        ensures
            match r {
                Ok(prog) => spec_parse_program(view_of_tokens(self.tokens@)) == Ok::<
                    Seq<AstView>,
                    ParseErrorView,
                >(view_of_asts(prog@)),
                Err(pe) => spec_parse_program(view_of_tokens(self.tokens@)) == Err::<
                    Seq<AstView>,
                    ParseErrorView,
                >(pe@),
            },
    {
        let ts = &self.tokens;
        let ghost tsv = view_of_tokens(ts@);
        let mut items: Vec<ExprAST> = Vec::new();
        let mut cur: usize = 0;
        proof {
            assert(view_of_asts(items@) =~= Seq::<AstView>::empty());
        }
        loop
            invariant
                cur <= ts@.len(),
                spec_parse_program(tsv) == spec_parse_program_from(
                    tsv,
                    cur as int,
                    view_of_asts(items@),
                ),
            decreases ts@.len() - cur,
        {
            if cur >= ts.len() {
                return Ok(items);
            }
            let step = if matches!(&ts[cur].token, Token::Def(_)) {
                parse_function_def(ts, cur)
            } else {
                parse_statement(ts, cur)
            };
            match step {
                Ok((node, j)) => {
                    let ghost gnode = node;
                    let ghost pre = items@;
                    items.push(node);
                    proof {
                        lemma_view_of_asts_push(pre, gnode);
                    }
                    cur = j;
                },
                Err(e) => {
                    return Err(e);
                },
            }
        }
    }

    /// Parses one expression from the start of the token sequence; tokens
    /// after it are left unconsumed. See [`spec_parse_expr`].
    #[allow(non_snake_case)]
    pub fn parseExpr(&self) -> (r: Result<ExprAST, ParseError>)
        ensures
            match r {
                Ok(e) => spec_parse_expr(view_of_tokens(self.tokens@), 0, 0) matches Ok(p) && p.0
                    == view_of_ast(e),
                Err(pe) => spec_parse_expr(view_of_tokens(self.tokens@), 0, 0) == Err::<
                    (AstView, int),
                    ParseErrorView,
                >(pe@),
            },
    {
        match parse_expr_prec(&self.tokens, 0, 0) {
            Ok((e, _j)) => Ok(e),
            Err(e) => Err(e),
        }
    }

    /// Parses one primary expression from the start of the token sequence;
    /// tokens after it are left unconsumed. See [`spec_parse_primary`].
    #[allow(non_snake_case)]
    pub fn parsePrimaryExpr(&self) -> (r: Result<ExprAST, ParseError>)
        ensures
            match r {
                Ok(e) => spec_parse_primary(view_of_tokens(self.tokens@), 0) matches Ok(p) && p.0
                    == view_of_ast(e),
                Err(pe) => spec_parse_primary(view_of_tokens(self.tokens@), 0) == Err::<
                    (AstView, int),
                    ParseErrorView,
                >(pe@),
            },
    {
        match parse_primary(&self.tokens, 0) {
            Ok((e, _j)) => Ok(e),
            Err(e) => Err(e),
        }
    }
}

} // verus!

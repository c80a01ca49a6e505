//! The parser: recursive descent with precedence climbing over a token
//! sequence (newline tokens already filtered out by the caller), producing
//! a single `Program` node or aborting on the first mismatch.
//!
//! The `spec_*` functions are the mathematical statement of the grammar:
//! each takes the token models and a cursor position and gives the parsed
//! node with the position after it, or the error. Every executable parsing
//! method is proved to agree with its spec function exactly.
//!
//! Sub-parses always advance the cursor within bounds; the spec functions
//! still guard each recursion at a derived position (`pos < p <= len`) so
//! that they are total, with a vacuous error on the impossible branch.
use crate::nodes::{AssignmentOperator, BinaryOperator, LogicalOperator, Node, NodeV, UnaryOperator, lemma_views_of_push, views_of};
use crate::token::{Token, TokenKind, TokenV, token_views};
use vstd::prelude::*;

verus! {

/// A fatal parse failure; any such failure aborts the whole parse.
#[derive(Debug)]
pub enum ParseError {
    /// The current token's kind did not match what the grammar required
    /// (the found kind, with its line and column).
    UnexpectedToken(TokenKind, usize, usize),
    /// A `const` declaration lacked an initializer (the constant's name,
    /// with the line and column of its identifier token).
    ConstantNotInitialized(String, usize, usize),
    /// A function declaration's name position did not resolve to an
    /// identifier node.
    InvalidFunctionName(Box<Node>),
    /// The cursor ran past the end of the token sequence.
    UnexpectedEOF,
}

/// The mathematical model of a `ParseError`.
pub enum ParseErrorV {
    UnexpectedToken(TokenKind, nat, nat),
    ConstantNotInitialized(Seq<char>, nat, nat),
    InvalidFunctionName(Box<NodeV>),
    UnexpectedEOF,
}

impl View for ParseError {
    type V = ParseErrorV;

    open spec fn view(&self) -> ParseErrorV {
        match self {
            ParseError::UnexpectedToken(kind, line, column) => ParseErrorV::UnexpectedToken(
                *kind,
                *line as nat,
                *column as nat,
            ),
            ParseError::ConstantNotInitialized(name, line, column) => {
                ParseErrorV::ConstantNotInitialized(name@, *line as nat, *column as nat)
            },
            ParseError::InvalidFunctionName(node) => ParseErrorV::InvalidFunctionName(
                Box::new((**node)@),
            ),
            ParseError::UnexpectedEOF => ParseErrorV::UnexpectedEOF,
        }
    }
}

// ----------------------------------------------------------------------
// primitive token operations, as specifications
// ----------------------------------------------------------------------
/// The token under the cursor, or the error for a cursor past the end.
pub open spec fn spec_current(toks: Seq<TokenV>, pos: nat) -> Result<TokenV, ParseErrorV> {
    if pos < toks.len() {
        Ok(toks[pos as int])
    } else {
        Err(ParseErrorV::UnexpectedEOF)
    }
}

/// Consuming one token of the required kind: the token and the position
/// after it, or the mismatch error carrying the found kind and position.
pub open spec fn spec_eat(toks: Seq<TokenV>, pos: nat, kind: TokenKind) -> Result<
    (TokenV, nat),
    ParseErrorV,
> {
    if pos >= toks.len() {
        Err(ParseErrorV::UnexpectedEOF)
    } else if toks[pos as int].kind() == kind {
        Ok((toks[pos as int], (pos + 1) as nat))
    } else {
        Err(
            ParseErrorV::UnexpectedToken(
                toks[pos as int].kind(),
                toks[pos as int].line(),
                toks[pos as int].column(),
            ),
        )
    }
}

// ----------------------------------------------------------------------
// the grammar, loosest binding first
// ----------------------------------------------------------------------
/// The statement list of a whole program: statements until the `EOF`
/// token (or the end of the sequence), which stays unconsumed.
pub open spec fn spec_parse_program(toks: Seq<TokenV>, pos: nat) -> Result<
    (Seq<NodeV>, nat),
    ParseErrorV,
>
    decreases toks.len() - pos, 13int,
{
    if pos >= toks.len() || toks[pos as int].kind() == TokenKind::EOF {
        Ok((Seq::empty(), pos))
    } else {
        match spec_statement(toks, pos) {
            Ok((n, p1)) => if pos < p1 <= toks.len() {
                match spec_parse_program(toks, p1) {
                    Ok((rest, p2)) => Ok((seq![n] + rest, p2)),
                    Err(e) => Err(e),
                }
            } else {
                Err(ParseErrorV::UnexpectedEOF)
            },
            Err(e) => Err(e),
        }
    }
}

/// A statement, selected by the current token's kind; anything not
/// introduced by a statement keyword parses as an expression statement.
pub open spec fn spec_statement(toks: Seq<TokenV>, pos: nat) -> Result<(NodeV, nat), ParseErrorV>
    decreases toks.len() - pos, 12int,
{
    match spec_current(toks, pos) {
        Err(e) => Err(e),
        Ok(t) => match t.kind() {
            TokenKind::Let => spec_variable_declaration(toks, pos),
            TokenKind::Const => spec_variable_declaration(toks, pos),
            TokenKind::Def => spec_function_declaration(toks, pos),
            TokenKind::If => spec_if_statement(toks, pos),
            TokenKind::For => spec_for_statement(toks, pos),
            TokenKind::Return => spec_return_statement(toks, pos),
            _ => spec_expression(toks, pos),
        },
    }
}

/// `let`/`const` name, with an optional `=` initializer; a `const`
/// without an initializer is rejected with the constant's name.
pub open spec fn spec_variable_declaration(toks: Seq<TokenV>, pos: nat) -> Result<
    (NodeV, nat),
    ParseErrorV,
>
    decreases toks.len() - pos, 11int,
{
    match spec_current(toks, pos) {
        Err(e) => Err(e),
        Ok(t0) => {
            let is_const = t0.kind() == TokenKind::Const;
            let keyword = if is_const {
                TokenKind::Const
            } else {
                TokenKind::Let
            };
            match spec_eat(toks, pos, keyword) {
                Err(e) => Err(e),
                Ok((_, p1)) => match spec_eat(toks, p1, TokenKind::Identifier) {
                    Err(e) => Err(e),
                    Ok((idt, p2)) => match idt {
                        TokenV::Identifier { value: name, line, column } => {
                            match spec_current(toks, p2) {
                                Err(e) => Err(e),
                                Ok(t2) => if t2.kind() == TokenKind::Equals {
                                    match spec_expression(toks, (p2 + 1) as nat) {
                                        Ok((v, p3)) => Ok(
                                            (
                                                NodeV::VariableDeclaration(
                                                    name,
                                                    Some(Box::new(v)),
                                                    is_const,
                                                ),
                                                p3,
                                            ),
                                        ),
                                        Err(e) => Err(e),
                                    }
                                } else if is_const {
                                    Err(ParseErrorV::ConstantNotInitialized(name, line, column))
                                } else {
                                    Ok((NodeV::VariableDeclaration(name, None, false), p2))
                                },
                            }
                        },
                        _ => Err(
                            ParseErrorV::UnexpectedToken(idt.kind(), idt.line(), idt.column()),
                        ),
                    },
                },
            }
        },
    }
}

/// `def` name `(` parameters `)` block.
pub open spec fn spec_function_declaration(toks: Seq<TokenV>, pos: nat) -> Result<
    (NodeV, nat),
    ParseErrorV,
>
    decreases toks.len() - pos, 11int,
{
    match spec_eat(toks, pos, TokenKind::Def) {
        Err(e) => Err(e),
        Ok((_, p1)) => match spec_identifier(toks, p1) {
            Err(e) => Err(e),
            Ok((idn, p2)) => match idn {
                NodeV::Identifier(name) => if pos < p2 <= toks.len() {
                    match spec_parameters(toks, p2) {
                        Err(e) => Err(e),
                        Ok((params, p3)) => if pos < p3 <= toks.len() {
                            match spec_block_statement(toks, p3) {
                                Err(e) => Err(e),
                                Ok((body, p4)) => Ok(
                                    (
                                        NodeV::FunctionDeclaration(name, params, Box::new(body)),
                                        p4,
                                    ),
                                ),
                            }
                        } else {
                            Err(ParseErrorV::UnexpectedEOF)
                        },
                    }
                } else {
                    Err(ParseErrorV::UnexpectedEOF)
                },
                _ => Err(ParseErrorV::InvalidFunctionName(Box::new(idn))),
            },
        },
    }
}

/// `(` comma-separated identifiers `)`, possibly empty: the parameter
/// list of a function declaration. A parameter that is not an identifier
/// is a fatal mismatch.
pub open spec fn spec_parameters(toks: Seq<TokenV>, pos: nat) -> Result<
    (Seq<NodeV>, nat),
    ParseErrorV,
>
    decreases toks.len() - pos, 3int,
{
    match spec_eat(toks, pos, TokenKind::OpenParen) {
        Err(e) => Err(e),
        Ok((_, p1)) => match spec_current(toks, p1) {
            Err(e) => Err(e),
            Ok(t) => if t.kind() != TokenKind::CloseParen {
                match spec_identifier(toks, p1) {
                    Err(e) => Err(e),
                    Ok((first, p2)) => if pos < p2 <= toks.len() {
                        spec_parameters_rest(toks, seq![first], p2)
                    } else {
                        Err(ParseErrorV::UnexpectedEOF)
                    },
                }
            } else {
                match spec_eat(toks, p1, TokenKind::CloseParen) {
                    Err(e) => Err(e),
                    Ok((_, p2)) => Ok((Seq::empty(), p2)),
                }
            },
        },
    }
}

/// Further `, identifier` parameters up to the closing `)`.
pub open spec fn spec_parameters_rest(toks: Seq<TokenV>, params: Seq<NodeV>, pos: nat) -> Result<
    (Seq<NodeV>, nat),
    ParseErrorV,
>
    decreases toks.len() - pos, 0int,
{
    match spec_current(toks, pos) {
        Err(e) => Err(e),
        Ok(t) => if t.kind() == TokenKind::Comma {
            match spec_identifier(toks, (pos + 1) as nat) {
                Err(e) => Err(e),
                Ok((n, p1)) => if pos < p1 <= toks.len() {
                    spec_parameters_rest(toks, params.push(n), p1)
                } else {
                    Err(ParseErrorV::UnexpectedEOF)
                },
            }
        } else {
            match spec_eat(toks, pos, TokenKind::CloseParen) {
                Err(e) => Err(e),
                Ok((_, p1)) => Ok((params, p1)),
            }
        },
    }
}

/// `{` statement* `}`.
pub open spec fn spec_block_statement(toks: Seq<TokenV>, pos: nat) -> Result<
    (NodeV, nat),
    ParseErrorV,
>
    decreases toks.len() - pos, 11int,
{
    match spec_eat(toks, pos, TokenKind::OpenCurlyBrace) {
        Err(e) => Err(e),
        Ok((_, p1)) => spec_block_rest(toks, Seq::empty(), p1),
    }
}

/// The statements of a block up to its closing `}`.
pub open spec fn spec_block_rest(toks: Seq<TokenV>, stmts: Seq<NodeV>, pos: nat) -> Result<
    (NodeV, nat),
    ParseErrorV,
>
    decreases toks.len() - pos, 13int,
{
    match spec_current(toks, pos) {
        Err(e) => Err(e),
        Ok(t) => if t.kind() == TokenKind::CloseCurlyBrace {
            Ok((NodeV::BlockStatement(stmts), (pos + 1) as nat))
        } else {
            match spec_statement(toks, pos) {
                Err(e) => Err(e),
                Ok((n, p1)) => if pos < p1 <= toks.len() {
                    spec_block_rest(toks, stmts.push(n), p1)
                } else {
                    Err(ParseErrorV::UnexpectedEOF)
                },
            }
        },
    }
}

/// `if` condition block, with an optional `else` block or `else if` chain.
pub open spec fn spec_if_statement(toks: Seq<TokenV>, pos: nat) -> Result<
    (NodeV, nat),
    ParseErrorV,
>
    decreases toks.len() - pos, 11int,
{
    match spec_eat(toks, pos, TokenKind::If) {
        Err(e) => Err(e),
        Ok((_, p1)) => match spec_expression(toks, p1) {
            Err(e) => Err(e),
            Ok((cond, p2)) => if pos < p2 <= toks.len() {
                match spec_block_statement(toks, p2) {
                    Err(e) => Err(e),
                    Ok((cons, p3)) => match spec_current(toks, p3) {
                        Err(e) => Err(e),
                        Ok(t3) => if t3.kind() == TokenKind::Else {
                            match spec_current(toks, (p3 + 1) as nat) {
                                Err(e) => Err(e),
                                Ok(t4) => if t4.kind() == TokenKind::If {
                                    if pos < p3 + 1 <= toks.len() {
                                        match spec_if_statement(toks, (p3 + 1) as nat) {
                                            Err(e) => Err(e),
                                            Ok((alt, p4)) => Ok(
                                                (
                                                    NodeV::IfStatement(
                                                        Box::new(cond),
                                                        Box::new(cons),
                                                        Some(Box::new(alt)),
                                                    ),
                                                    p4,
                                                ),
                                            ),
                                        }
                                    } else {
                                        Err(ParseErrorV::UnexpectedEOF)
                                    }
                                } else {
                                    if pos < p3 + 1 <= toks.len() {
                                        match spec_block_statement(toks, (p3 + 1) as nat) {
                                            Err(e) => Err(e),
                                            Ok((alt, p4)) => Ok(
                                                (
                                                    NodeV::IfStatement(
                                                        Box::new(cond),
                                                        Box::new(cons),
                                                        Some(Box::new(alt)),
                                                    ),
                                                    p4,
                                                ),
                                            ),
                                        }
                                    } else {
                                        Err(ParseErrorV::UnexpectedEOF)
                                    }
                                },
                            }
                        } else {
                            Ok((NodeV::IfStatement(Box::new(cond), Box::new(cons), None), p3))
                        },
                    },
                }
            } else {
                Err(ParseErrorV::UnexpectedEOF)
            },
        },
    }
}

/// `for` loop-variable `in` iterable block.
pub open spec fn spec_for_statement(toks: Seq<TokenV>, pos: nat) -> Result<
    (NodeV, nat),
    ParseErrorV,
>
    decreases toks.len() - pos, 11int,
{
    match spec_eat(toks, pos, TokenKind::For) {
        Err(e) => Err(e),
        Ok((_, p1)) => match spec_expression(toks, p1) {
            Err(e) => Err(e),
            Ok((left, p2)) => match spec_eat(toks, p2, TokenKind::In) {
                Err(e) => Err(e),
                Ok((_, p3)) => if pos < p3 <= toks.len() {
                    spec_for_tail(toks, left, p3)
                } else {
                    Err(ParseErrorV::UnexpectedEOF)
                },
            },
        },
    }
}

/// Continues a `for` statement after `in`: the iterable, then the body.
pub open spec fn spec_for_tail(toks: Seq<TokenV>, left: NodeV, pos: nat) -> Result<
    (NodeV, nat),
    ParseErrorV,
>
    decreases toks.len() - pos, 12int,
{
    match spec_expression(toks, pos) {
        Err(e) => Err(e),
        Ok((right, p4)) => if pos < p4 <= toks.len() {
            match spec_block_statement(toks, p4) {
                Err(e) => Err(e),
                Ok((body, p5)) => Ok(
                    (
                        NodeV::ForInStatement(Box::new(left), Box::new(right), Box::new(body)),
                        p5,
                    ),
                ),
            }
        } else {
            Err(ParseErrorV::UnexpectedEOF)
        },
    }
}

/// `return` value.
pub open spec fn spec_return_statement(toks: Seq<TokenV>, pos: nat) -> Result<
    (NodeV, nat),
    ParseErrorV,
>
    decreases toks.len() - pos, 11int,
{
    match spec_eat(toks, pos, TokenKind::Return) {
        Err(e) => Err(e),
        Ok((_, p1)) => match spec_expression(toks, p1) {
            Err(e) => Err(e),
            Ok((v, p2)) => Ok((NodeV::ReturnStatement(Box::new(v)), p2)),
        },
    }
}

/// An expression: the assignment level.
pub open spec fn spec_expression(toks: Seq<TokenV>, pos: nat) -> Result<(NodeV, nat), ParseErrorV>
    decreases toks.len() - pos, 11int,
{
    spec_assignment_expression(toks, pos)
}

/// Assignment: a logical expression, optionally `=` a right-associative
/// assignment value.
pub open spec fn spec_assignment_expression(toks: Seq<TokenV>, pos: nat) -> Result<
    (NodeV, nat),
    ParseErrorV,
>
    decreases toks.len() - pos, 10int,
{
    match spec_logical_expression(toks, pos) {
        Err(e) => Err(e),
        Ok((left, p1)) => if pos < p1 <= toks.len() {
            spec_assignment_tail(toks, left, p1)
        } else {
            Err(ParseErrorV::UnexpectedEOF)
        },
    }
}

/// Continues an assignment after its left-hand side: `=` recurses
/// right-associatively into the assigned value.
pub open spec fn spec_assignment_tail(toks: Seq<TokenV>, left: NodeV, pos: nat) -> Result<
    (NodeV, nat),
    ParseErrorV,
>
    decreases toks.len() - pos, 10int,
{
    match spec_current(toks, pos) {
        Err(e) => Err(e),
        Ok(t) => if t.kind() == TokenKind::Equals {
            match spec_assignment_expression(toks, (pos + 1) as nat) {
                Err(e) => Err(e),
                Ok((value, p2)) => Ok(
                    (
                        NodeV::AssignmentExpression(
                            Box::new(left),
                            AssignmentOperator::Equals,
                            Box::new(value),
                        ),
                        p2,
                    ),
                ),
            }
        } else {
            Ok((left, pos))
        },
    }
}

/// The `and`/`or` level: a left-associative chain over condition
/// expressions.
pub open spec fn spec_logical_expression(toks: Seq<TokenV>, pos: nat) -> Result<
    (NodeV, nat),
    ParseErrorV,
>
    decreases toks.len() - pos, 9int,
{
    match spec_condition_expression(toks, pos) {
        Err(e) => Err(e),
        Ok((left, p1)) => if pos < p1 <= toks.len() {
            spec_logical_rest(toks, left, p1)
        } else {
            Err(ParseErrorV::UnexpectedEOF)
        },
    }
}

/// The operator kind for the logical level, if the token is one.
pub open spec fn logical_op(kind: TokenKind) -> Option<LogicalOperator> {
    if kind == TokenKind::And {
        Some(LogicalOperator::And)
    } else if kind == TokenKind::Or {
        Some(LogicalOperator::Or)
    } else {
        None
    }
}

/// Continues a logical chain to the left of `left`.
pub open spec fn spec_logical_rest(toks: Seq<TokenV>, left: NodeV, pos: nat) -> Result<
    (NodeV, nat),
    ParseErrorV,
>
    decreases toks.len() - pos, 0int,
{
    match spec_current(toks, pos) {
        Err(e) => Err(e),
        Ok(t) => match logical_op(t.kind()) {
            Some(op) => match spec_condition_expression(toks, (pos + 1) as nat) {
                Err(e) => Err(e),
                Ok((right, p1)) => if pos < p1 <= toks.len() {
                    spec_logical_rest(
                        toks,
                        NodeV::LogicalExpression(Box::new(left), op, Box::new(right)),
                        p1,
                    )
                } else {
                    Err(ParseErrorV::UnexpectedEOF)
                },
            },
            None => Ok((left, pos)),
        },
    }
}

/// The relational level: `<`, `>`, `==`, `!=`, left-associative over
/// additive expressions.
pub open spec fn spec_condition_expression(toks: Seq<TokenV>, pos: nat) -> Result<
    (NodeV, nat),
    ParseErrorV,
>
    decreases toks.len() - pos, 8int,
{
    match spec_additive_expression(toks, pos) {
        Err(e) => Err(e),
        Ok((left, p1)) => if pos < p1 <= toks.len() {
            spec_condition_rest(toks, left, p1)
        } else {
            Err(ParseErrorV::UnexpectedEOF)
        },
    }
}

/// The operator for the relational level, if the token is one.
pub open spec fn condition_op(kind: TokenKind) -> Option<BinaryOperator> {
    if kind == TokenKind::LessThan {
        Some(BinaryOperator::LessThan)
    } else if kind == TokenKind::GreaterThan {
        Some(BinaryOperator::GreaterThan)
    } else if kind == TokenKind::IsEquals {
        Some(BinaryOperator::IsEquals)
    } else if kind == TokenKind::NotEquals {
        Some(BinaryOperator::NotEquals)
    } else {
        None
    }
}

/// Continues a relational chain to the left of `left`.
pub open spec fn spec_condition_rest(toks: Seq<TokenV>, left: NodeV, pos: nat) -> Result<
    (NodeV, nat),
    ParseErrorV,
>
    decreases toks.len() - pos, 0int,
{
    match spec_current(toks, pos) {
        Err(e) => Err(e),
        Ok(t) => match condition_op(t.kind()) {
            Some(op) => match spec_additive_expression(toks, (pos + 1) as nat) {
                Err(e) => Err(e),
                Ok((right, p1)) => if pos < p1 <= toks.len() {
                    spec_condition_rest(
                        toks,
                        NodeV::BinaryExpression(Box::new(left), op, Box::new(right)),
                        p1,
                    )
                } else {
                    Err(ParseErrorV::UnexpectedEOF)
                },
            },
            None => Ok((left, pos)),
        },
    }
}

/// The additive level: `+`, `-`, left-associative over multiplicative
/// expressions.
pub open spec fn spec_additive_expression(toks: Seq<TokenV>, pos: nat) -> Result<
    (NodeV, nat),
    ParseErrorV,
>
    decreases toks.len() - pos, 7int,
{
    match spec_multiplicative_expression(toks, pos) {
        Err(e) => Err(e),
        Ok((left, p1)) => if pos < p1 <= toks.len() {
            spec_additive_rest(toks, left, p1)
        } else {
            Err(ParseErrorV::UnexpectedEOF)
        },
    }
}

/// The operator for the additive level, if the token is one.
pub open spec fn additive_op(kind: TokenKind) -> Option<BinaryOperator> {
    if kind == TokenKind::Plus {
        Some(BinaryOperator::Plus)
    } else if kind == TokenKind::Minus {
        Some(BinaryOperator::Minus)
    } else {
        None
    }
}

/// Continues an additive chain to the left of `left`.
pub open spec fn spec_additive_rest(toks: Seq<TokenV>, left: NodeV, pos: nat) -> Result<
    (NodeV, nat),
    ParseErrorV,
>
    decreases toks.len() - pos, 0int,
{
    match spec_current(toks, pos) {
        Err(e) => Err(e),
        Ok(t) => match additive_op(t.kind()) {
            Some(op) => match spec_multiplicative_expression(toks, (pos + 1) as nat) {
                Err(e) => Err(e),
                Ok((right, p1)) => if pos < p1 <= toks.len() {
                    spec_additive_rest(
                        toks,
                        NodeV::BinaryExpression(Box::new(left), op, Box::new(right)),
                        p1,
                    )
                } else {
                    Err(ParseErrorV::UnexpectedEOF)
                },
            },
            None => Ok((left, pos)),
        },
    }
}

/// The multiplicative level: `*`, `/`, `%`, left-associative over
/// call-member expressions.
pub open spec fn spec_multiplicative_expression(toks: Seq<TokenV>, pos: nat) -> Result<
    (NodeV, nat),
    ParseErrorV,
>
    decreases toks.len() - pos, 6int,
{
    match spec_call_member_expression(toks, pos) {
        Err(e) => Err(e),
        Ok((left, p1)) => if pos < p1 <= toks.len() {
            spec_multiplicative_rest(toks, left, p1)
        } else {
            Err(ParseErrorV::UnexpectedEOF)
        },
    }
}

/// The operator for the multiplicative level, if the token is one.
pub open spec fn multiplicative_op(kind: TokenKind) -> Option<BinaryOperator> {
    if kind == TokenKind::Multiply {
        Some(BinaryOperator::Multiply)
    } else if kind == TokenKind::Divide {
        Some(BinaryOperator::Divide)
    } else if kind == TokenKind::Modulo {
        Some(BinaryOperator::Modulo)
    } else {
        None
    }
}

/// Continues a multiplicative chain to the left of `left`.
pub open spec fn spec_multiplicative_rest(toks: Seq<TokenV>, left: NodeV, pos: nat) -> Result<
    (NodeV, nat),
    ParseErrorV,
>
    decreases toks.len() - pos, 0int,
{
    match spec_current(toks, pos) {
        Err(e) => Err(e),
        Ok(t) => match multiplicative_op(t.kind()) {
            Some(op) => match spec_call_member_expression(toks, (pos + 1) as nat) {
                Err(e) => Err(e),
                Ok((right, p1)) => if pos < p1 <= toks.len() {
                    spec_multiplicative_rest(
                        toks,
                        NodeV::BinaryExpression(Box::new(left), op, Box::new(right)),
                        p1,
                    )
                } else {
                    Err(ParseErrorV::UnexpectedEOF)
                },
            },
            None => Ok((left, pos)),
        },
    }
}

/// A member expression, wrapped in call expressions while `(` follows
/// (supporting chained calls).
pub open spec fn spec_call_member_expression(toks: Seq<TokenV>, pos: nat) -> Result<
    (NodeV, nat),
    ParseErrorV,
>
    decreases toks.len() - pos, 5int,
{
    match spec_member_expression(toks, pos) {
        Err(e) => Err(e),
        Ok((member, p1)) => match spec_current(toks, p1) {
            Err(e) => Err(e),
            Ok(t) => if t.kind() == TokenKind::OpenParen {
                if pos < p1 <= toks.len() {
                    spec_call_expression(toks, member, p1)
                } else {
                    Err(ParseErrorV::UnexpectedEOF)
                }
            } else {
                Ok((member, p1))
            },
        },
    }
}

/// One call: an argument list applied to `callee`, then recursively to
/// the result while another `(` follows.
pub open spec fn spec_call_expression(toks: Seq<TokenV>, callee: NodeV, pos: nat) -> Result<
    (NodeV, nat),
    ParseErrorV,
>
    decreases toks.len() - pos, 4int,
{
    match spec_arguments(toks, pos) {
        Err(e) => Err(e),
        Ok((args, p1)) => {
            let call = NodeV::CallExpression(Box::new(callee), args);
            match spec_current(toks, p1) {
                Err(e) => Err(e),
                Ok(t) => if t.kind() == TokenKind::OpenParen {
                    if pos < p1 <= toks.len() {
                        spec_call_expression(toks, call, p1)
                    } else {
                        Err(ParseErrorV::UnexpectedEOF)
                    }
                } else {
                    Ok((call, p1))
                },
            }
        },
    }
}

/// `(` comma-separated expressions `)`, possibly empty.
pub open spec fn spec_arguments(toks: Seq<TokenV>, pos: nat) -> Result<
    (Seq<NodeV>, nat),
    ParseErrorV,
>
    decreases toks.len() - pos, 3int,
{
    match spec_eat(toks, pos, TokenKind::OpenParen) {
        Err(e) => Err(e),
        Ok((_, p1)) => match spec_current(toks, p1) {
            Err(e) => Err(e),
            Ok(t) => if t.kind() != TokenKind::CloseParen {
                match spec_arguments_list(toks, p1) {
                    Err(e) => Err(e),
                    Ok((args, p2)) => match spec_eat(toks, p2, TokenKind::CloseParen) {
                        Err(e) => Err(e),
                        Ok((_, p3)) => Ok((args, p3)),
                    },
                }
            } else {
                match spec_eat(toks, p1, TokenKind::CloseParen) {
                    Err(e) => Err(e),
                    Ok((_, p2)) => Ok((Seq::empty(), p2)),
                }
            },
        },
    }
}

/// One or more comma-separated expressions.
pub open spec fn spec_arguments_list(toks: Seq<TokenV>, pos: nat) -> Result<
    (Seq<NodeV>, nat),
    ParseErrorV,
>
    decreases toks.len() - pos, 12int,
{
    match spec_expression(toks, pos) {
        Err(e) => Err(e),
        Ok((first, p1)) => if pos < p1 <= toks.len() {
            spec_arguments_list_rest(toks, seq![first], p1)
        } else {
            Err(ParseErrorV::UnexpectedEOF)
        },
    }
}

/// Further `, expression` items while a comma (before `EOF`) follows.
pub open spec fn spec_arguments_list_rest(toks: Seq<TokenV>, args: Seq<NodeV>, pos: nat) -> Result<
    (Seq<NodeV>, nat),
    ParseErrorV,
>
    decreases toks.len() - pos, 0int,
{
    if pos < toks.len() && toks[pos as int].kind() != TokenKind::EOF && toks[pos as int].kind()
        == TokenKind::Comma {
        match spec_expression(toks, (pos + 1) as nat) {
            Err(e) => Err(e),
            Ok((n, p1)) => if pos < p1 <= toks.len() {
                spec_arguments_list_rest(toks, args.push(n), p1)
            } else {
                Err(ParseErrorV::UnexpectedEOF)
            },
        }
    } else {
        Ok((args, pos))
    }
}

/// A primary expression, extended by `.name` and `[expression]` accesses
/// while one follows.
pub open spec fn spec_member_expression(toks: Seq<TokenV>, pos: nat) -> Result<
    (NodeV, nat),
    ParseErrorV,
>
    decreases toks.len() - pos, 4int,
{
    match spec_primary_expression(toks, pos) {
        Err(e) => Err(e),
        Ok((obj, p1)) => if pos < p1 <= toks.len() {
            spec_member_rest(toks, obj, p1)
        } else {
            Err(ParseErrorV::UnexpectedEOF)
        },
    }
}

/// Continues member accesses on `obj`: `.name` (non-computed) or
/// `[expression]` (computed).
pub open spec fn spec_member_rest(toks: Seq<TokenV>, obj: NodeV, pos: nat) -> Result<
    (NodeV, nat),
    ParseErrorV,
>
    decreases toks.len() - pos, 0int,
{
    match spec_current(toks, pos) {
        Err(e) => Err(e),
        Ok(t) => if t.kind() == TokenKind::Point {
            match spec_identifier(toks, (pos + 1) as nat) {
                Err(e) => Err(e),
                Ok((prop, p1)) => if pos < p1 <= toks.len() {
                    spec_member_rest(
                        toks,
                        NodeV::MemberExpression(Box::new(obj), Box::new(prop), false),
                        p1,
                    )
                } else {
                    Err(ParseErrorV::UnexpectedEOF)
                },
            }
        } else if t.kind() == TokenKind::OpenSquareBracket {
            match spec_expression(toks, (pos + 1) as nat) {
                Err(e) => Err(e),
                Ok((prop, p1)) => match spec_eat(toks, p1, TokenKind::CloseSquareBracket) {
                    Err(e) => Err(e),
                    Ok((_, p2)) => if pos < p2 <= toks.len() {
                        spec_member_rest(
                            toks,
                            NodeV::MemberExpression(Box::new(obj), Box::new(prop), true),
                            p2,
                        )
                    } else {
                        Err(ParseErrorV::UnexpectedEOF)
                    },
                },
            }
        } else {
            Ok((obj, pos))
        },
    }
}

/// A primary expression: a literal, an array literal, a parenthesized
/// expression, or a prefix unary expression.
pub open spec fn spec_primary_expression(toks: Seq<TokenV>, pos: nat) -> Result<
    (NodeV, nat),
    ParseErrorV,
>
    decreases toks.len() - pos, 3int,
{
    match spec_current(toks, pos) {
        Err(e) => Err(e),
        Ok(t) => match t.kind() {
            TokenKind::Identifier => spec_identifier(toks, pos),
            TokenKind::Integer => match t {
                TokenV::Integer { value, .. } => Ok((NodeV::IntegerLiteral(value), (pos + 1) as nat)),
                _ => Err(ParseErrorV::UnexpectedToken(t.kind(), t.line(), t.column())),
            },
            TokenKind::Decimal => match t {
                TokenV::Decimal { text, .. } => Ok((NodeV::DecimalLiteral(text), (pos + 1) as nat)),
                _ => Err(ParseErrorV::UnexpectedToken(t.kind(), t.line(), t.column())),
            },
            TokenKind::Null => Ok((NodeV::NullLiteral, (pos + 1) as nat)),
            TokenKind::StringLiteral => match t {
                TokenV::StringLiteral { value, .. } => Ok(
                    (NodeV::StringLiteral(value), (pos + 1) as nat),
                ),
                _ => Err(ParseErrorV::UnexpectedToken(t.kind(), t.line(), t.column())),
            },
            TokenKind::OpenSquareBracket => match spec_expression(toks, (pos + 1) as nat) {
                Err(e) => Err(e),
                Ok((first, p1)) => if pos < p1 <= toks.len() {
                    spec_array_items_rest(toks, seq![first], p1)
                } else {
                    Err(ParseErrorV::UnexpectedEOF)
                },
            },
            TokenKind::True => Ok((NodeV::BoolLiteral(true), (pos + 1) as nat)),
            TokenKind::False => Ok((NodeV::BoolLiteral(false), (pos + 1) as nat)),
            TokenKind::OpenParen => match spec_expression(toks, (pos + 1) as nat) {
                Err(e) => Err(e),
                Ok((n, p1)) => match spec_eat(toks, p1, TokenKind::CloseParen) {
                    Err(e) => Err(e),
                    Ok((_, p2)) => Ok((n, p2)),
                },
            },
            _ => spec_unary_expression(toks, pos),
        },
    }
}

/// Further `, expression` array items up to the closing `]`.
pub open spec fn spec_array_items_rest(toks: Seq<TokenV>, items: Seq<NodeV>, pos: nat) -> Result<
    (NodeV, nat),
    ParseErrorV,
>
    decreases toks.len() - pos, 12int,
{
    match spec_current(toks, pos) {
        Err(e) => Err(e),
        Ok(t) => if t.kind() == TokenKind::Comma {
            match spec_expression(toks, (pos + 1) as nat) {
                Err(e) => Err(e),
                Ok((n, p1)) => if pos < p1 <= toks.len() {
                    spec_array_items_rest(toks, items.push(n), p1)
                } else {
                    Err(ParseErrorV::UnexpectedEOF)
                },
            }
        } else {
            match spec_eat(toks, pos, TokenKind::CloseSquareBracket) {
                Err(e) => Err(e),
                Ok((_, p1)) => Ok((NodeV::ArrayExpression(items), p1)),
            }
        },
    }
}

/// The prefix operator for a unary expression, if the token is one.
pub open spec fn unary_op(kind: TokenKind) -> Option<UnaryOperator> {
    if kind == TokenKind::Increment {
        Some(UnaryOperator::Increment)
    } else if kind == TokenKind::Decrement {
        Some(UnaryOperator::Decrement)
    } else if kind == TokenKind::Plus {
        Some(UnaryOperator::Plus)
    } else if kind == TokenKind::Minus {
        Some(UnaryOperator::Minus)
    } else if kind == TokenKind::Not {
        Some(UnaryOperator::Negation)
    } else {
        None
    }
}

/// A prefix operator applied to a primary expression; any other token is
/// a fatal mismatch.
pub open spec fn spec_unary_expression(toks: Seq<TokenV>, pos: nat) -> Result<
    (NodeV, nat),
    ParseErrorV,
>
    decreases toks.len() - pos, 2int,
{
    match spec_current(toks, pos) {
        Err(e) => Err(e),
        Ok(t) => match unary_op(t.kind()) {
            Some(op) => match spec_primary_expression(toks, (pos + 1) as nat) {
                Err(e) => Err(e),
                Ok((n, p1)) => Ok((NodeV::UnaryExpression(Box::new(n), op), p1)),
            },
            None => Err(ParseErrorV::UnexpectedToken(t.kind(), t.line(), t.column())),
        },
    }
}

/// An identifier token as an `Identifier` node.
pub open spec fn spec_identifier(toks: Seq<TokenV>, pos: nat) -> Result<(NodeV, nat), ParseErrorV>
    decreases toks.len() - pos, 1int,
{
    match spec_eat(toks, pos, TokenKind::Identifier) {
        Err(e) => Err(e),
        Ok((t, p1)) => match t {
            TokenV::Identifier { value, .. } => Ok((NodeV::Identifier(value), p1)),
            _ => Err(ParseErrorV::UnexpectedToken(t.kind(), t.line(), t.column())),
        },
    }
}

/// What parsing a whole token sequence produces: a `Program` node, or
/// the first fatal error.
pub open spec fn spec_produce_ast(toks: Seq<TokenV>, pos: nat) -> Result<(NodeV, nat), ParseErrorV> {
    match spec_parse_program(toks, pos) {
        Err(e) => Err(e),
        Ok((stmts, p)) => Ok((NodeV::Program(stmts), p)),
    }
}

// ----------------------------------------------------------------------
// the parser
// ----------------------------------------------------------------------
/// The parser: owns the token sequence (newlines already filtered out)
/// and a cursor over it.
pub struct Parser {
    pub tokens: Vec<Token>,
    pub position: usize,
}

impl Parser {
    /// The models of the owned tokens.
    pub open spec fn toks(&self) -> Seq<TokenV> {
        token_views(self.tokens@)
    }

    /// The cursor position.
    pub open spec fn pos(&self) -> nat {
        self.position as nat
    }

    /// The cursor stays within the token sequence.
    pub open spec fn wf(&self) -> bool {
        self.position <= self.tokens@.len()
    }

    /// A fresh parser over `tokens`, cursor at the start.
    pub fn new(tokens: Vec<Token>) -> (r: Parser)
        ensures
            r.wf(),
            r.pos() == 0,
            r.toks() == token_views(tokens@),
    {
        Parser { tokens, position: 0 }
    }

    /// Whether the cursor sits on a token other than `EOF`.
    fn not_eof(&self) -> (b: bool)
        requires
            self.wf(),
        ensures
            b == (self.pos() < self.toks().len() && self.toks()[self.pos() as int].kind()
                != TokenKind::EOF),
    {
        if self.position < self.tokens.len() {
            let k = self.tokens[self.position].kind();
            k != TokenKind::EOF
        } else {
            false
        }
    }

    /// The token under the cursor, or `UnexpectedEOF` past the end.
    fn get_current_token(&self) -> (r: Result<Token, ParseError>)
        requires
            self.wf(),
        ensures
            match r {
                Ok(t) => spec_current(self.toks(), self.pos()) == Ok::<TokenV, ParseErrorV>(t@),
                Err(e) => spec_current(self.toks(), self.pos()) == Err::<TokenV, ParseErrorV>(e@),
            },
    {
        if self.position < self.tokens.len() {
            Ok(self.tokens[self.position].clone())
        } else {
            Err(ParseError::UnexpectedEOF)
        }
    }

    /// Consumes the current token, which must have the required kind;
    /// a mismatch or a cursor past the end is a fatal error.
    fn eat(&mut self, kind: TokenKind) -> (r: Result<Token, ParseError>)
        requires
            old(self).wf(),
        ensures
            final(self).wf(),
            final(self).tokens == old(self).tokens,
            old(self).pos() <= final(self).pos(),
            match r {
                Ok(t) => spec_eat(old(self).toks(), old(self).pos(), kind) == Ok::<
                    (TokenV, nat),
                    ParseErrorV,
                >((t@, final(self).pos())) && final(self).pos() == old(self).pos() + 1,
                Err(e) => spec_eat(old(self).toks(), old(self).pos(), kind) == Err::<
                    (TokenV, nat),
                    ParseErrorV,
                >(e@),
            },
    {
        if self.position >= self.tokens.len() {
            return Err(ParseError::UnexpectedEOF);
        }
        let t = self.tokens[self.position].clone();
        self.bump();
        let k = t.kind();
        if k == kind {
            Ok(t)
        } else {
            let line = t.line();
            let column = t.column();
            Err(ParseError::UnexpectedToken(k, line, column))
        }
    }

    /// Advances the cursor over the already-inspected current token.
    fn bump(&mut self)
        requires
            old(self).wf(),
            old(self).pos() < old(self).toks().len(),
        ensures
            final(self).wf(),
            final(self).tokens == old(self).tokens,
            final(self).pos() == old(self).pos() + 1,
    {
        let n = self.tokens.len();
        if self.position < n {
            self.position += 1;
        }
    }

    /// An identifier token as an `Identifier` node.
    #[verifier::rlimit(100)]
    fn identifier(&mut self) -> (r: Result<Node, ParseError>)
        requires
            old(self).wf(),
        ensures
            final(self).wf(),
            final(self).tokens == old(self).tokens,
            old(self).pos() <= final(self).pos(),
            match r {
                Ok(n) => spec_identifier(old(self).toks(), old(self).pos()) == Ok::<
                    (NodeV, nat),
                    ParseErrorV,
                >((n@, final(self).pos())) && old(self).pos() < final(self).pos(),
                Err(e) => spec_identifier(old(self).toks(), old(self).pos()) == Err::<
                    (NodeV, nat),
                    ParseErrorV,
                >(e@),
            },
        decreases old(self).tokens@.len() - old(self).position, 1int,
    {
        match self.eat(TokenKind::Identifier) {
            Err(e) => Err(e),
            Ok(t) => match t {
                Token::Identifier(id) => Ok(Node::Identifier(id.value)),
                _ => {
                    let k = t.kind();
                    let line = t.line();
                    let column = t.column();
                    Err(ParseError::UnexpectedToken(k, line, column))
                },
            },
        }
    }

    /// A prefix operator applied to a primary expression.
    #[verifier::rlimit(100)]
    fn unary_expression(&mut self) -> (r: Result<Node, ParseError>)
        requires
            old(self).wf(),
        ensures
            final(self).wf(),
            final(self).tokens == old(self).tokens,
            old(self).pos() <= final(self).pos(),
            match r {
                Ok(n) => spec_unary_expression(old(self).toks(), old(self).pos()) == Ok::<
                    (NodeV, nat),
                    ParseErrorV,
                >((n@, final(self).pos())) && old(self).pos() < final(self).pos(),
                Err(e) => spec_unary_expression(old(self).toks(), old(self).pos()) == Err::<
                    (NodeV, nat),
                    ParseErrorV,
                >(e@),
            },
        decreases old(self).tokens@.len() - old(self).position, 2int,
    {
        let t = match self.get_current_token() {
            Ok(t) => t,
            Err(e) => {
                return Err(e);
            },
        };
        let k = t.kind();
        let op: Option<UnaryOperator> = if k == TokenKind::Increment {
            Some(UnaryOperator::Increment)
        } else if k == TokenKind::Decrement {
            Some(UnaryOperator::Decrement)
        } else if k == TokenKind::Plus {
            Some(UnaryOperator::Plus)
        } else if k == TokenKind::Minus {
            Some(UnaryOperator::Minus)
        } else if k == TokenKind::Not {
            Some(UnaryOperator::Negation)
        } else {
            None
        };
        match op {
            Some(op) => {
                let eaten = self.eat(k);
                proof {
                    if eaten is Err {
                        assert(false);
                    }
                }
                match self.primary_expression() {
                    Ok(n) => Ok(Node::UnaryExpression(Box::new(n), op)),
                    Err(e) => Err(e),
                }
            },
            None => {
                let line = t.line();
                let column = t.column();
                Err(ParseError::UnexpectedToken(k, line, column))
            },
        }
    }

    /// A primary expression: a literal, an array literal, a parenthesized
    /// expression, or a prefix unary expression.
    #[verifier::rlimit(100)]
    fn primary_expression(&mut self) -> (r: Result<Node, ParseError>)
        requires
            old(self).wf(),
        ensures
            final(self).wf(),
            final(self).tokens == old(self).tokens,
            old(self).pos() <= final(self).pos(),
            match r {
                Ok(n) => spec_primary_expression(old(self).toks(), old(self).pos()) == Ok::<
                    (NodeV, nat),
                    ParseErrorV,
                >((n@, final(self).pos())) && old(self).pos() < final(self).pos(),
                Err(e) => spec_primary_expression(old(self).toks(), old(self).pos()) == Err::<
                    (NodeV, nat),
                    ParseErrorV,
                >(e@),
            },
        decreases old(self).tokens@.len() - old(self).position, 3int,
    {
        let ghost toks = self.toks();
        let ghost pos0 = self.pos();
        let t = match self.get_current_token() {
            Ok(t) => t,
            Err(e) => {
                return Err(e);
            },
        };
        let k = t.kind();
        match k {
            TokenKind::Identifier => self.identifier(),
            TokenKind::Integer => match t {
                Token::Integer(tok) => {
                    self.bump();
                    Ok(Node::IntegerLiteral(tok.value))
                },
                _ => {
                    let line = t.line();
                    let column = t.column();
                    Err(ParseError::UnexpectedToken(k, line, column))
                },
            },
            TokenKind::Decimal => match t {
                Token::Decimal(tok) => {
                    self.bump();
                    Ok(Node::DecimalLiteral(tok.text))
                },
                _ => {
                    let line = t.line();
                    let column = t.column();
                    Err(ParseError::UnexpectedToken(k, line, column))
                },
            },
            TokenKind::Null => {
                self.bump();
                Ok(Node::NullLiteral)
            },
            TokenKind::StringLiteral => match t {
                Token::StringLiteral(tok) => {
                    self.bump();
                    Ok(Node::StringLiteral(tok.value))
                },
                _ => {
                    let line = t.line();
                    let column = t.column();
                    Err(ParseError::UnexpectedToken(k, line, column))
                },
            },
            TokenKind::OpenSquareBracket => {
                self.bump();
                let first = match self.expression() {
                    Ok(n) => n,
                    Err(e) => {
                        return Err(e);
                    },
                };
                let mut items: Vec<Node> = Vec::new();
                let ghost firstv = first@;
                items.push(first);
                proof {
                    reveal_with_fuel(views_of, 3);
                    assert(views_of(items@) =~= seq![firstv]);
                }
                loop
                    invariant
                        self.wf(),
                        toks == old(self).toks(),
                        pos0 == old(self).pos(),
                        self.tokens == old(self).tokens,
                        pos0 < self.pos() <= toks.len(),
                        spec_primary_expression(toks, pos0) == spec_array_items_rest(
                            toks,
                            views_of(items@),
                            self.pos(),
                        ),
                    decreases toks.len() - self.pos(),
                {
                    let t2 = match self.get_current_token() {
                        Ok(t2) => t2,
                        Err(e) => {
                            return Err(e);
                        },
                    };
                    if t2.kind() == TokenKind::Comma {
                        self.bump();
                        match self.expression() {
                            Ok(n) => {
                                let ghost items_before = items@;
                                let ghost n_saved = n;
                                items.push(n);
                                proof {
                                    lemma_views_of_push(items_before, n_saved);
                                }
                            },
                            Err(e) => {
                                return Err(e);
                            },
                        }
                    } else {
                        match self.eat(TokenKind::CloseSquareBracket) {
                            Ok(_) => {
                                return Ok(Node::ArrayExpression(items));
                            },
                            Err(e) => {
                                return Err(e);
                            },
                        }
                    }
                }
            },
            TokenKind::True => {
                self.bump();
                Ok(Node::BoolLiteral(true))
            },
            TokenKind::False => {
                self.bump();
                Ok(Node::BoolLiteral(false))
            },
            TokenKind::OpenParen => {
                self.bump();
                let n = match self.expression() {
                    Ok(n) => n,
                    Err(e) => {
                        return Err(e);
                    },
                };
                match self.eat(TokenKind::CloseParen) {
                    Ok(_) => Ok(n),
                    Err(e) => Err(e),
                }
            },
            _ => self.unary_expression(),
        }
    }

    /// A primary expression, extended by member accesses while `.` or `[`
    /// follows.
    #[verifier::rlimit(100)]
    fn member_expression(&mut self) -> (r: Result<Node, ParseError>)
        requires
            old(self).wf(),
        ensures
            final(self).wf(),
            final(self).tokens == old(self).tokens,
            old(self).pos() <= final(self).pos(),
            match r {
                Ok(n) => spec_member_expression(old(self).toks(), old(self).pos()) == Ok::<
                    (NodeV, nat),
                    ParseErrorV,
                >((n@, final(self).pos())) && old(self).pos() < final(self).pos(),
                Err(e) => spec_member_expression(old(self).toks(), old(self).pos()) == Err::<
                    (NodeV, nat),
                    ParseErrorV,
                >(e@),
            },
        decreases old(self).tokens@.len() - old(self).position, 4int,
    {
        let ghost toks = self.toks();
        let ghost pos0 = self.pos();
        let mut object = match self.primary_expression() {
            Ok(n) => n,
            Err(e) => {
                return Err(e);
            },
        };
        loop
            invariant
                self.wf(),
                toks == old(self).toks(),
                pos0 == old(self).pos(),
                self.tokens == old(self).tokens,
                pos0 < self.pos() <= toks.len(),
                spec_member_expression(toks, pos0) == spec_member_rest(toks, object@, self.pos()),
            decreases toks.len() - self.pos(),
        {
            let t = match self.get_current_token() {
                Ok(t) => t,
                Err(e) => {
                    return Err(e);
                },
            };
            let k = t.kind();
            if k == TokenKind::Point {
                self.bump();
                match self.identifier() {
                    Ok(prop) => {
                        object = Node::MemberExpression(
                            Box::new(object),
                            Box::new(prop),
                            false,
                        );
                    },
                    Err(e) => {
                        return Err(e);
                    },
                }
            } else if k == TokenKind::OpenSquareBracket {
                self.bump();
                let prop = match self.expression() {
                    Ok(n) => n,
                    Err(e) => {
                        return Err(e);
                    },
                };
                match self.eat(TokenKind::CloseSquareBracket) {
                    Ok(_) => {
                        object = Node::MemberExpression(Box::new(object), Box::new(prop), true);
                    },
                    Err(e) => {
                        return Err(e);
                    },
                }
            } else {
                return Ok(object);
            }
        }
    }

    /// `(` comma-separated expressions `)`, possibly empty.
    #[verifier::rlimit(100)]
    #[verifier::spinoff_prover]
    fn arguments(&mut self) -> (r: Result<Vec<Node>, ParseError>)
        requires
            old(self).wf(),
        ensures
            final(self).wf(),
            final(self).tokens == old(self).tokens,
            old(self).pos() <= final(self).pos(),
            match r {
                Ok(args) => spec_arguments(old(self).toks(), old(self).pos()) == Ok::<
                    (Seq<NodeV>, nat),
                    ParseErrorV,
                >((views_of(args@), final(self).pos())) && old(self).pos() < final(self).pos(),
                Err(e) => spec_arguments(old(self).toks(), old(self).pos()) == Err::<
                    (Seq<NodeV>, nat),
                    ParseErrorV,
                >(e@),
            },
        decreases old(self).tokens@.len() - old(self).position, 3int,
    {
        match self.eat(TokenKind::OpenParen) {
            Ok(_) => {},
            Err(e) => {
                return Err(e);
            },
        }
        let t = match self.get_current_token() {
            Ok(t) => t,
            Err(e) => {
                return Err(e);
            },
        };
        if t.kind() != TokenKind::CloseParen {
            let args = match self.arguments_list() {
                Ok(args) => args,
                Err(e) => {
                    return Err(e);
                },
            };
            match self.eat(TokenKind::CloseParen) {
                Ok(_) => Ok(args),
                Err(e) => Err(e),
            }
        } else {
            match self.eat(TokenKind::CloseParen) {
                Ok(_) => {
                    let args: Vec<Node> = Vec::new();
                    proof {
                        reveal_with_fuel(views_of, 3);
                        assert(views_of(args@) =~= Seq::<NodeV>::empty());
                    }
                    Ok(args)
                },
                Err(e) => Err(e),
            }
        }
    }

    /// One or more comma-separated expressions.
    #[verifier::rlimit(100)]
    fn arguments_list(&mut self) -> (r: Result<Vec<Node>, ParseError>)
        requires
            old(self).wf(),
        ensures
            final(self).wf(),
            final(self).tokens == old(self).tokens,
            old(self).pos() <= final(self).pos(),
            match r {
                Ok(args) => spec_arguments_list(old(self).toks(), old(self).pos()) == Ok::<
                    (Seq<NodeV>, nat),
                    ParseErrorV,
                >((views_of(args@), final(self).pos())) && old(self).pos() < final(self).pos(),
                Err(e) => spec_arguments_list(old(self).toks(), old(self).pos()) == Err::<
                    (Seq<NodeV>, nat),
                    ParseErrorV,
                >(e@),
            },
        decreases old(self).tokens@.len() - old(self).position, 12int,
    {
        let ghost toks = self.toks();
        let ghost pos0 = self.pos();
        let first = match self.expression() {
            Ok(n) => n,
            Err(e) => {
                return Err(e);
            },
        };
        let mut args: Vec<Node> = Vec::new();
        let ghost firstv = first@;
        args.push(first);
        proof {
            reveal_with_fuel(views_of, 3);
            assert(views_of(args@) =~= seq![firstv]);
        }
        loop
            invariant
                self.wf(),
                toks == old(self).toks(),
                pos0 == old(self).pos(),
                self.tokens == old(self).tokens,
                pos0 < self.pos() <= toks.len(),
                spec_arguments_list(toks, pos0) == spec_arguments_list_rest(
                    toks,
                    views_of(args@),
                    self.pos(),
                ),
            decreases toks.len() - self.pos(),
        {
            let more = if self.not_eof() {
                let t = match self.get_current_token() {
                    Ok(t) => t,
                    Err(e) => {
                        return Err(e);
                    },
                };
                t.kind() == TokenKind::Comma
            } else {
                false
            };
            if more {
                self.bump();
                match self.expression() {
                    Ok(n) => {
                        let ghost args_before = args@;
                        let ghost n_saved = n;
                        args.push(n);
                        proof {
                            lemma_views_of_push(args_before, n_saved);
                        }
                    },
                    Err(e) => {
                        return Err(e);
                    },
                }
            } else {
                return Ok(args);
            }
        }
    }

    /// One call of `callee`, then recursively of the result while another
    /// `(` follows.
    #[verifier::rlimit(100)]
    fn call_expression(&mut self, callee: Node) -> (r: Result<Node, ParseError>)
        requires
            old(self).wf(),
        ensures
            final(self).wf(),
            final(self).tokens == old(self).tokens,
            old(self).pos() <= final(self).pos(),
            match r {
                Ok(n) => spec_call_expression(old(self).toks(), callee@, old(self).pos()) == Ok::<
                    (NodeV, nat),
                    ParseErrorV,
                >((n@, final(self).pos())) && old(self).pos() < final(self).pos(),
                Err(e) => spec_call_expression(old(self).toks(), callee@, old(self).pos()) == Err::<
                    (NodeV, nat),
                    ParseErrorV,
                >(e@),
            },
        decreases old(self).tokens@.len() - old(self).position, 4int,
    {
        let args = match self.arguments() {
            Ok(args) => args,
            Err(e) => {
                return Err(e);
            },
        };
        let result = Node::CallExpression(Box::new(callee), args);
        let t = match self.get_current_token() {
            Ok(t) => t,
            Err(e) => {
                return Err(e);
            },
        };
        if t.kind() == TokenKind::OpenParen {
            self.call_expression(result)
        } else {
            Ok(result)
        }
    }

    /// A member expression, wrapped in call expressions while `(` follows.
    #[verifier::rlimit(100)]
    fn call_member_expression(&mut self) -> (r: Result<Node, ParseError>)
        requires
            old(self).wf(),
        ensures
            final(self).wf(),
            final(self).tokens == old(self).tokens,
            old(self).pos() <= final(self).pos(),
            match r {
                Ok(n) => spec_call_member_expression(old(self).toks(), old(self).pos()) == Ok::<
                    (NodeV, nat),
                    ParseErrorV,
                >((n@, final(self).pos())) && old(self).pos() < final(self).pos(),
                Err(e) => spec_call_member_expression(old(self).toks(), old(self).pos()) == Err::<
                    (NodeV, nat),
                    ParseErrorV,
                >(e@),
            },
        decreases old(self).tokens@.len() - old(self).position, 5int,
    {
        let member = match self.member_expression() {
            Ok(n) => n,
            Err(e) => {
                return Err(e);
            },
        };
        let t = match self.get_current_token() {
            Ok(t) => t,
            Err(e) => {
                return Err(e);
            },
        };
        if t.kind() == TokenKind::OpenParen {
            self.call_expression(member)
        } else {
            Ok(member)
        }
    }
}

impl Parser {
    /// The multiplicative level: `*`, `/`, `%`, left-associative.
    #[verifier::rlimit(100)]
    fn multiplicative_expression(&mut self) -> (r: Result<Node, ParseError>)
        requires
            old(self).wf(),
        ensures
            final(self).wf(),
            final(self).tokens == old(self).tokens,
            old(self).pos() <= final(self).pos(),
            match r {
                Ok(n) => spec_multiplicative_expression(old(self).toks(), old(self).pos()) == Ok::<
                    (NodeV, nat),
                    ParseErrorV,
                >((n@, final(self).pos())) && old(self).pos() < final(self).pos(),
                Err(e) => spec_multiplicative_expression(old(self).toks(), old(self).pos())
                    == Err::<(NodeV, nat), ParseErrorV>(e@),
            },
        decreases old(self).tokens@.len() - old(self).position, 6int,
    {
        let ghost toks = self.toks();
        let ghost pos0 = self.pos();
        let mut result = match self.call_member_expression() {
            Ok(n) => n,
            Err(e) => {
                return Err(e);
            },
        };
        loop
            invariant
                self.wf(),
                toks == old(self).toks(),
                pos0 == old(self).pos(),
                self.tokens == old(self).tokens,
                pos0 < self.pos() <= toks.len(),
                spec_multiplicative_expression(toks, pos0) == spec_multiplicative_rest(
                    toks,
                    result@,
                    self.pos(),
                ),
            decreases toks.len() - self.pos(),
        {
            let ghost p_before = self.pos();
            let ghost leftv = result@;
            let t = match self.get_current_token() {
                Ok(t) => t,
                Err(e) => {
                    return Err(e);
                },
            };
            let k = t.kind();
            let op: Option<BinaryOperator> = if k == TokenKind::Multiply {
                Some(BinaryOperator::Multiply)
            } else if k == TokenKind::Divide {
                Some(BinaryOperator::Divide)
            } else if k == TokenKind::Modulo {
                Some(BinaryOperator::Modulo)
            } else {
                None
            };
            match op {
                Some(op) => {
                    self.bump();
                    match self.call_member_expression() {
                        Ok(right) => {
                            result = Node::BinaryExpression(Box::new(result), op, Box::new(right));
                            proof {
                                assert(spec_multiplicative_rest(toks, leftv, p_before) == spec_multiplicative_rest(
                                    toks,
                                    result@,
                                    self.pos(),
                                ));
                            }
                        },
                        Err(e) => {
                            proof {
                                assert(spec_multiplicative_rest(toks, leftv, p_before) == Err::<
                                    (NodeV, nat),
                                    ParseErrorV,
                                >(e@));
                            }
                            return Err(e);
                        },
                    }
                },
                None => {
                    proof {
                        assert(spec_multiplicative_rest(toks, leftv, p_before) == Ok::<
                            (NodeV, nat),
                            ParseErrorV,
                        >((leftv, p_before)));
                    }
                    return Ok(result);
                },
            }
        }
    }

    /// The additive level: `+`, `-`, left-associative.
    #[verifier::rlimit(100)]
    fn additive_expression(&mut self) -> (r: Result<Node, ParseError>)
        requires
            old(self).wf(),
        ensures
            final(self).wf(),
            final(self).tokens == old(self).tokens,
            old(self).pos() <= final(self).pos(),
            match r {
                Ok(n) => spec_additive_expression(old(self).toks(), old(self).pos()) == Ok::<
                    (NodeV, nat),
                    ParseErrorV,
                >((n@, final(self).pos())) && old(self).pos() < final(self).pos(),
                Err(e) => spec_additive_expression(old(self).toks(), old(self).pos()) == Err::<
                    (NodeV, nat),
                    ParseErrorV,
                >(e@),
            },
        decreases old(self).tokens@.len() - old(self).position, 7int,
    {
        let ghost toks = self.toks();
        let ghost pos0 = self.pos();
        let mut result = match self.multiplicative_expression() {
            Ok(n) => n,
            Err(e) => {
                return Err(e);
            },
        };
        loop
            invariant
                self.wf(),
                toks == old(self).toks(),
                pos0 == old(self).pos(),
                self.tokens == old(self).tokens,
                pos0 < self.pos() <= toks.len(),
                spec_additive_expression(toks, pos0) == spec_additive_rest(
                    toks,
                    result@,
                    self.pos(),
                ),
            decreases toks.len() - self.pos(),
        {
            let ghost p_before = self.pos();
            let ghost leftv = result@;
            let t = match self.get_current_token() {
                Ok(t) => t,
                Err(e) => {
                    return Err(e);
                },
            };
            let k = t.kind();
            let op: Option<BinaryOperator> = if k == TokenKind::Plus {
                Some(BinaryOperator::Plus)
            } else if k == TokenKind::Minus {
                Some(BinaryOperator::Minus)
            } else {
                None
            };
            match op {
                Some(op) => {
                    self.bump();
                    match self.multiplicative_expression() {
                        Ok(right) => {
                            result = Node::BinaryExpression(Box::new(result), op, Box::new(right));
                            proof {
                                assert(spec_additive_rest(toks, leftv, p_before) == spec_additive_rest(
                                    toks,
                                    result@,
                                    self.pos(),
                                ));
                            }
                        },
                        Err(e) => {
                            proof {
                                assert(spec_additive_rest(toks, leftv, p_before) == Err::<
                                    (NodeV, nat),
                                    ParseErrorV,
                                >(e@));
                            }
                            return Err(e);
                        },
                    }
                },
                None => {
                    proof {
                        assert(spec_additive_rest(toks, leftv, p_before) == Ok::<
                            (NodeV, nat),
                            ParseErrorV,
                        >((leftv, p_before)));
                    }
                    return Ok(result);
                },
            }
        }
    }

    /// The relational level: `<`, `>`, `==`, `!=`, left-associative.
    #[verifier::rlimit(100)]
    fn condition_expression(&mut self) -> (r: Result<Node, ParseError>)
        requires
            old(self).wf(),
        ensures
            final(self).wf(),
            final(self).tokens == old(self).tokens,
            old(self).pos() <= final(self).pos(),
            match r {
                Ok(n) => spec_condition_expression(old(self).toks(), old(self).pos()) == Ok::<
                    (NodeV, nat),
                    ParseErrorV,
                >((n@, final(self).pos())) && old(self).pos() < final(self).pos(),
                Err(e) => spec_condition_expression(old(self).toks(), old(self).pos()) == Err::<
                    (NodeV, nat),
                    ParseErrorV,
                >(e@),
            },
        decreases old(self).tokens@.len() - old(self).position, 8int,
    {
        let ghost toks = self.toks();
        let ghost pos0 = self.pos();
        let mut result = match self.additive_expression() {
            Ok(n) => n,
            Err(e) => {
                return Err(e);
            },
        };
        loop
            invariant
                self.wf(),
                toks == old(self).toks(),
                pos0 == old(self).pos(),
                self.tokens == old(self).tokens,
                pos0 < self.pos() <= toks.len(),
                spec_condition_expression(toks, pos0) == spec_condition_rest(
                    toks,
                    result@,
                    self.pos(),
                ),
            decreases toks.len() - self.pos(),
        {
            let ghost p_before = self.pos();
            let ghost leftv = result@;
            let t = match self.get_current_token() {
                Ok(t) => t,
                Err(e) => {
                    return Err(e);
                },
            };
            let k = t.kind();
            let op: Option<BinaryOperator> = if k == TokenKind::LessThan {
                Some(BinaryOperator::LessThan)
            } else if k == TokenKind::GreaterThan {
                Some(BinaryOperator::GreaterThan)
            } else if k == TokenKind::IsEquals {
                Some(BinaryOperator::IsEquals)
            } else if k == TokenKind::NotEquals {
                Some(BinaryOperator::NotEquals)
            } else {
                None
            };
            match op {
                Some(op) => {
                    self.bump();
                    match self.additive_expression() {
                        Ok(right) => {
                            result = Node::BinaryExpression(Box::new(result), op, Box::new(right));
                            proof {
                                assert(spec_condition_rest(toks, leftv, p_before) == spec_condition_rest(
                                    toks,
                                    result@,
                                    self.pos(),
                                ));
                            }
                        },
                        Err(e) => {
                            proof {
                                assert(spec_condition_rest(toks, leftv, p_before) == Err::<
                                    (NodeV, nat),
                                    ParseErrorV,
                                >(e@));
                            }
                            return Err(e);
                        },
                    }
                },
                None => {
                    proof {
                        assert(spec_condition_rest(toks, leftv, p_before) == Ok::<
                            (NodeV, nat),
                            ParseErrorV,
                        >((leftv, p_before)));
                    }
                    return Ok(result);
                },
            }
        }
    }

    /// The `and`/`or` level, left-associative.
    #[verifier::rlimit(100)]
    fn logical_expression(&mut self) -> (r: Result<Node, ParseError>)
        requires
            old(self).wf(),
        ensures
            final(self).wf(),
            final(self).tokens == old(self).tokens,
            old(self).pos() <= final(self).pos(),
            match r {
                Ok(n) => spec_logical_expression(old(self).toks(), old(self).pos()) == Ok::<
                    (NodeV, nat),
                    ParseErrorV,
                >((n@, final(self).pos())) && old(self).pos() < final(self).pos(),
                Err(e) => spec_logical_expression(old(self).toks(), old(self).pos()) == Err::<
                    (NodeV, nat),
                    ParseErrorV,
                >(e@),
            },
        decreases old(self).tokens@.len() - old(self).position, 9int,
    {
        let ghost toks = self.toks();
        let ghost pos0 = self.pos();
        let mut result = match self.condition_expression() {
            Ok(n) => n,
            Err(e) => {
                return Err(e);
            },
        };
        loop
            invariant
                self.wf(),
                toks == old(self).toks(),
                pos0 == old(self).pos(),
                self.tokens == old(self).tokens,
                pos0 < self.pos() <= toks.len(),
                spec_logical_expression(toks, pos0) == spec_logical_rest(
                    toks,
                    result@,
                    self.pos(),
                ),
            decreases toks.len() - self.pos(),
        {
            let ghost p_before = self.pos();
            let ghost leftv = result@;
            let t = match self.get_current_token() {
                Ok(t) => t,
                Err(e) => {
                    return Err(e);
                },
            };
            let k = t.kind();
            let op: Option<LogicalOperator> = if k == TokenKind::And {
                Some(LogicalOperator::And)
            } else if k == TokenKind::Or {
                Some(LogicalOperator::Or)
            } else {
                None
            };
            match op {
                Some(op) => {
                    self.bump();
                    match self.condition_expression() {
                        Ok(right) => {
                            result = Node::LogicalExpression(Box::new(result), op, Box::new(right));
                            proof {
                                assert(spec_logical_rest(toks, leftv, p_before) == spec_logical_rest(
                                    toks,
                                    result@,
                                    self.pos(),
                                ));
                            }
                        },
                        Err(e) => {
                            proof {
                                assert(spec_logical_rest(toks, leftv, p_before) == Err::<
                                    (NodeV, nat),
                                    ParseErrorV,
                                >(e@));
                            }
                            return Err(e);
                        },
                    }
                },
                None => {
                    proof {
                        assert(spec_logical_rest(toks, leftv, p_before) == Ok::<
                            (NodeV, nat),
                            ParseErrorV,
                        >((leftv, p_before)));
                    }
                    return Ok(result);
                },
            }
        }
    }

    /// Assignment: a logical expression, optionally `=` a right-associative
    /// assignment value.
    #[verifier::rlimit(100)]
    fn assignment_expression(&mut self) -> (r: Result<Node, ParseError>)
        requires
            old(self).wf(),
        ensures
            final(self).wf(),
            final(self).tokens == old(self).tokens,
            old(self).pos() <= final(self).pos(),
            match r {
                Ok(n) => spec_assignment_expression(old(self).toks(), old(self).pos()) == Ok::<
                    (NodeV, nat),
                    ParseErrorV,
                >((n@, final(self).pos())) && old(self).pos() < final(self).pos(),
                Err(e) => spec_assignment_expression(old(self).toks(), old(self).pos()) == Err::<
                    (NodeV, nat),
                    ParseErrorV,
                >(e@),
            },
        decreases old(self).tokens@.len() - old(self).position, 10int,
    {
        let left = match self.logical_expression() {
            Ok(n) => n,
            Err(e) => {
                return Err(e);
            },
        };
        self.assignment_tail(left)
    }

    /// Continues an assignment after its left-hand side.
    #[verifier::rlimit(100)]
    fn assignment_tail(&mut self, left: Node) -> (r: Result<Node, ParseError>)
        requires
            old(self).wf(),
        ensures
            final(self).wf(),
            final(self).tokens == old(self).tokens,
            old(self).pos() <= final(self).pos(),
            match r {
                Ok(n) => spec_assignment_tail(old(self).toks(), left@, old(self).pos()) == Ok::<
                    (NodeV, nat),
                    ParseErrorV,
                >((n@, final(self).pos())),
                Err(e) => spec_assignment_tail(old(self).toks(), left@, old(self).pos()) == Err::<
                    (NodeV, nat),
                    ParseErrorV,
                >(e@),
            },
        decreases old(self).tokens@.len() - old(self).position, 10int,
    {
        let t = match self.get_current_token() {
            Ok(t) => t,
            Err(e) => {
                return Err(e);
            },
        };
        if t.kind() == TokenKind::Equals {
            self.bump();
            match self.assignment_expression() {
                Ok(value) => Ok(
                    Node::AssignmentExpression(
                        Box::new(left),
                        AssignmentOperator::Equals,
                        Box::new(value),
                    ),
                ),
                Err(e) => Err(e),
            }
        } else {
            Ok(left)
        }
    }

    /// An expression: the assignment level.
    #[verifier::rlimit(100)]
    fn expression(&mut self) -> (r: Result<Node, ParseError>)
        requires
            old(self).wf(),
        ensures
            final(self).wf(),
            final(self).tokens == old(self).tokens,
            old(self).pos() <= final(self).pos(),
            match r {
                Ok(n) => spec_expression(old(self).toks(), old(self).pos()) == Ok::<
                    (NodeV, nat),
                    ParseErrorV,
                >((n@, final(self).pos())) && old(self).pos() < final(self).pos(),
                Err(e) => spec_expression(old(self).toks(), old(self).pos()) == Err::<
                    (NodeV, nat),
                    ParseErrorV,
                >(e@),
            },
        decreases old(self).tokens@.len() - old(self).position, 11int,
    {
        self.assignment_expression()
    }

    /// `return` value.
    #[verifier::rlimit(100)]
    fn return_statement(&mut self) -> (r: Result<Node, ParseError>)
        requires
            old(self).wf(),
        ensures
            final(self).wf(),
            final(self).tokens == old(self).tokens,
            old(self).pos() <= final(self).pos(),
            match r {
                Ok(n) => spec_return_statement(old(self).toks(), old(self).pos()) == Ok::<
                    (NodeV, nat),
                    ParseErrorV,
                >((n@, final(self).pos())) && old(self).pos() < final(self).pos(),
                Err(e) => spec_return_statement(old(self).toks(), old(self).pos()) == Err::<
                    (NodeV, nat),
                    ParseErrorV,
                >(e@),
            },
        decreases old(self).tokens@.len() - old(self).position, 11int,
    {
        match self.eat(TokenKind::Return) {
            Ok(_) => {},
            Err(e) => {
                return Err(e);
            },
        }
        match self.expression() {
            Ok(v) => Ok(Node::ReturnStatement(Box::new(v))),
            Err(e) => Err(e),
        }
    }

    /// `(` comma-separated identifiers `)`, possibly empty: the parameter
    /// list of a function declaration.
    #[verifier::rlimit(100)]
    fn parameters(&mut self) -> (r: Result<Vec<Node>, ParseError>)
        requires
            old(self).wf(),
        ensures
            final(self).wf(),
            final(self).tokens == old(self).tokens,
            old(self).pos() <= final(self).pos(),
            match r {
                Ok(params) => spec_parameters(old(self).toks(), old(self).pos()) == Ok::<
                    (Seq<NodeV>, nat),
                    ParseErrorV,
                >((views_of(params@), final(self).pos())) && old(self).pos() < final(self).pos(),
                Err(e) => spec_parameters(old(self).toks(), old(self).pos()) == Err::<
                    (Seq<NodeV>, nat),
                    ParseErrorV,
                >(e@),
            },
        decreases old(self).tokens@.len() - old(self).position, 3int,
    {
        let ghost toks = old(self).toks();
        let ghost pos0 = old(self).pos();
        match self.eat(TokenKind::OpenParen) {
            Ok(_) => {},
            Err(e) => {
                return Err(e);
            },
        }
        let t = match self.get_current_token() {
            Ok(t) => t,
            Err(e) => {
                return Err(e);
            },
        };
        if t.kind() == TokenKind::CloseParen {
            match self.eat(TokenKind::CloseParen) {
                Ok(_) => {
                    let params: Vec<Node> = Vec::new();
                    proof {
                        assert(views_of(params@) =~= Seq::<NodeV>::empty());
                    }
                    Ok(params)
                },
                Err(e) => Err(e),
            }
        } else {
            let first = match self.identifier() {
                Ok(n) => n,
                Err(e) => {
                    return Err(e);
                },
            };
            let mut params: Vec<Node> = Vec::new();
            let ghost firstv = first@;
            params.push(first);
            proof {
                reveal_with_fuel(views_of, 3);
                assert(views_of(params@) =~= seq![firstv]);
            }
            loop
                invariant
                    self.wf(),
                    toks == old(self).toks(),
                    pos0 == old(self).pos(),
                    self.tokens == old(self).tokens,
                    pos0 < self.pos() <= toks.len(),
                    spec_parameters(toks, pos0) == spec_parameters_rest(
                        toks,
                        views_of(params@),
                        self.pos(),
                    ),
                decreases toks.len() - self.pos(),
            {
                let t2 = match self.get_current_token() {
                    Ok(t2) => t2,
                    Err(e) => {
                        return Err(e);
                    },
                };
                if t2.kind() == TokenKind::Comma {
                    self.bump();
                    match self.identifier() {
                        Ok(n) => {
                            let ghost nv = n@;
                            let ghost params_before = params@;
                            let ghost n_saved = n;
                            params.push(n);
                            proof {
                                lemma_views_of_push(params_before, n_saved);
                            }
                        },
                        Err(e) => {
                            return Err(e);
                        },
                    }
                } else {
                    match self.eat(TokenKind::CloseParen) {
                        Ok(_) => {
                            return Ok(params);
                        },
                        Err(e) => {
                            return Err(e);
                        },
                    }
                }
            }
        }
    }

    /// `def` name `(` parameters `)` block.
    #[verifier::rlimit(100)]
    #[verifier::spinoff_prover]
    fn function_declaration(&mut self) -> (r: Result<Node, ParseError>)
        requires
            old(self).wf(),
        ensures
            final(self).wf(),
            final(self).tokens == old(self).tokens,
            old(self).pos() <= final(self).pos(),
            match r {
                Ok(n) => spec_function_declaration(old(self).toks(), old(self).pos()) == Ok::<
                    (NodeV, nat),
                    ParseErrorV,
                >((n@, final(self).pos())) && old(self).pos() < final(self).pos(),
                Err(e) => spec_function_declaration(old(self).toks(), old(self).pos()) == Err::<
                    (NodeV, nat),
                    ParseErrorV,
                >(e@),
            },
        decreases old(self).tokens@.len() - old(self).position, 11int,
    {
        match self.eat(TokenKind::Def) {
            Ok(_) => {},
            Err(e) => {
                return Err(e);
            },
        }
        let name = match self.identifier() {
            Ok(idn) => match idn {
                Node::Identifier(name) => name,
                other => {
                    return Err(ParseError::InvalidFunctionName(Box::new(other)));
                },
            },
            Err(e) => {
                return Err(e);
            },
        };
        let params = match self.parameters() {
            Ok(params) => params,
            Err(e) => {
                return Err(e);
            },
        };
        let body = match self.block_statement() {
            Ok(body) => body,
            Err(e) => {
                return Err(e);
            },
        };
        Ok(Node::FunctionDeclaration(name, params, Box::new(body)))
    }

    /// `{` statement* `}`.
    #[verifier::rlimit(100)]
    fn block_statement(&mut self) -> (r: Result<Node, ParseError>)
        requires
            old(self).wf(),
        ensures
            final(self).wf(),
            final(self).tokens == old(self).tokens,
            old(self).pos() <= final(self).pos(),
            match r {
                Ok(n) => spec_block_statement(old(self).toks(), old(self).pos()) == Ok::<
                    (NodeV, nat),
                    ParseErrorV,
                >((n@, final(self).pos())) && old(self).pos() < final(self).pos(),
                Err(e) => spec_block_statement(old(self).toks(), old(self).pos()) == Err::<
                    (NodeV, nat),
                    ParseErrorV,
                >(e@),
            },
        decreases old(self).tokens@.len() - old(self).position, 11int,
    {
        let ghost toks = self.toks();
        let ghost pos0 = self.pos();
        match self.eat(TokenKind::OpenCurlyBrace) {
            Ok(_) => {},
            Err(e) => {
                return Err(e);
            },
        }
        let mut statements: Vec<Node> = Vec::new();
        proof {
            reveal_with_fuel(views_of, 3);
            assert(views_of(statements@) =~= Seq::<NodeV>::empty());
        }
        loop
            invariant
                self.wf(),
                toks == old(self).toks(),
                pos0 == old(self).pos(),
                self.tokens == old(self).tokens,
                pos0 < self.pos() <= toks.len(),
                spec_block_statement(toks, pos0) == spec_block_rest(
                    toks,
                    views_of(statements@),
                    self.pos(),
                ),
            decreases toks.len() - self.pos(),
        {
            let t = match self.get_current_token() {
                Ok(t) => t,
                Err(e) => {
                    return Err(e);
                },
            };
            if t.kind() == TokenKind::CloseCurlyBrace {
                self.bump();
                return Ok(Node::BlockStatement(statements));
            }
            match self.statement() {
                Ok(n) => {
                    let ghost stmts_before = statements@;
                    let ghost n_saved = n;
                    statements.push(n);
                    proof {
                        lemma_views_of_push(stmts_before, n_saved);
                    }
                },
                Err(e) => {
                    return Err(e);
                },
            }
        }
    }

    /// `if` condition block, with an optional `else` block or `else if`
    /// chain.
    #[verifier::rlimit(100)]
    #[verifier::spinoff_prover]
    fn if_statement(&mut self) -> (r: Result<Node, ParseError>)
        requires
            old(self).wf(),
        ensures
            final(self).wf(),
            final(self).tokens == old(self).tokens,
            old(self).pos() <= final(self).pos(),
            match r {
                Ok(n) => spec_if_statement(old(self).toks(), old(self).pos()) == Ok::<
                    (NodeV, nat),
                    ParseErrorV,
                >((n@, final(self).pos())) && old(self).pos() < final(self).pos(),
                Err(e) => spec_if_statement(old(self).toks(), old(self).pos()) == Err::<
                    (NodeV, nat),
                    ParseErrorV,
                >(e@),
            },
        decreases old(self).tokens@.len() - old(self).position, 11int,
    {
        match self.eat(TokenKind::If) {
            Ok(_) => {},
            Err(e) => {
                return Err(e);
            },
        }
        let condition = match self.expression() {
            Ok(n) => n,
            Err(e) => {
                return Err(e);
            },
        };
        let consequent = match self.block_statement() {
            Ok(n) => n,
            Err(e) => {
                return Err(e);
            },
        };
        let t = match self.get_current_token() {
            Ok(t) => t,
            Err(e) => {
                return Err(e);
            },
        };
        if t.kind() == TokenKind::Else {
            self.bump();
            let t2 = match self.get_current_token() {
                Ok(t2) => t2,
                Err(e) => {
                    return Err(e);
                },
            };
            let alternate = if t2.kind() == TokenKind::If {
                match self.if_statement() {
                    Ok(n) => n,
                    Err(e) => {
                        return Err(e);
                    },
                }
            } else {
                match self.block_statement() {
                    Ok(n) => n,
                    Err(e) => {
                        return Err(e);
                    },
                }
            };
            Ok(
                Node::IfStatement(
                    Box::new(condition),
                    Box::new(consequent),
                    Some(Box::new(alternate)),
                ),
            )
        } else {
            Ok(Node::IfStatement(Box::new(condition), Box::new(consequent), None))
        }
    }

    /// `let`/`const` name, with an optional `=` initializer.
    #[verifier::rlimit(100)]
    fn variable_declaration(&mut self) -> (r: Result<Node, ParseError>)
        requires
            old(self).wf(),
        ensures
            final(self).wf(),
            final(self).tokens == old(self).tokens,
            old(self).pos() <= final(self).pos(),
            match r {
                Ok(n) => spec_variable_declaration(old(self).toks(), old(self).pos()) == Ok::<
                    (NodeV, nat),
                    ParseErrorV,
                >((n@, final(self).pos())) && old(self).pos() < final(self).pos(),
                Err(e) => spec_variable_declaration(old(self).toks(), old(self).pos()) == Err::<
                    (NodeV, nat),
                    ParseErrorV,
                >(e@),
            },
        decreases old(self).tokens@.len() - old(self).position, 11int,
    {
        let t0 = match self.get_current_token() {
            Ok(t) => t,
            Err(e) => {
                return Err(e);
            },
        };
        let is_constant = t0.kind() == TokenKind::Const;
        let keyword = if is_constant {
            TokenKind::Const
        } else {
            TokenKind::Let
        };
        match self.eat(keyword) {
            Ok(_) => {},
            Err(e) => {
                return Err(e);
            },
        }
        let (name, line, column) = match self.eat(TokenKind::Identifier) {
            Ok(t) => match t {
                Token::Identifier(id) => (id.value, id.line, id.column),
                other => {
                    let k = other.kind();
                    let l = other.line();
                    let c = other.column();
                    return Err(ParseError::UnexpectedToken(k, l, c));
                },
            },
            Err(e) => {
                return Err(e);
            },
        };
        let t2 = match self.get_current_token() {
            Ok(t) => t,
            Err(e) => {
                return Err(e);
            },
        };
        if t2.kind() == TokenKind::Equals {
            self.bump();
            match self.expression() {
                Ok(value) => Ok(
                    Node::VariableDeclaration(name, Some(Box::new(value)), is_constant),
                ),
                Err(e) => Err(e),
            }
        } else if is_constant {
            Err(ParseError::ConstantNotInitialized(name, line, column))
        } else {
            Ok(Node::VariableDeclaration(name, None, is_constant))
        }
    }

    /// `for` loop-variable `in` iterable block.
    #[verifier::rlimit(100)]
    fn for_statement(&mut self) -> (r: Result<Node, ParseError>)
        requires
            old(self).wf(),
        ensures
            final(self).wf(),
            final(self).tokens == old(self).tokens,
            old(self).pos() <= final(self).pos(),
            match r {
                Ok(n) => spec_for_statement(old(self).toks(), old(self).pos()) == Ok::<
                    (NodeV, nat),
                    ParseErrorV,
                >((n@, final(self).pos())) && old(self).pos() < final(self).pos(),
                Err(e) => spec_for_statement(old(self).toks(), old(self).pos()) == Err::<
                    (NodeV, nat),
                    ParseErrorV,
                >(e@),
            },
        decreases old(self).tokens@.len() - old(self).position, 11int,
    {
        match self.eat(TokenKind::For) {
            Ok(_) => {},
            Err(e) => {
                return Err(e);
            },
        }
        let left = match self.expression() {
            Ok(n) => n,
            Err(e) => {
                return Err(e);
            },
        };
        match self.eat(TokenKind::In) {
            Ok(_) => {},
            Err(e) => {
                return Err(e);
            },
        }
        self.for_tail(left)
    }

    /// Continues a `for` statement after `in`: the iterable, then the body.
    #[verifier::rlimit(100)]
    fn for_tail(&mut self, left: Node) -> (r: Result<Node, ParseError>)
        requires
            old(self).wf(),
        ensures
            final(self).wf(),
            final(self).tokens == old(self).tokens,
            old(self).pos() <= final(self).pos(),
            match r {
                Ok(n) => spec_for_tail(old(self).toks(), left@, old(self).pos()) == Ok::<
                    (NodeV, nat),
                    ParseErrorV,
                >((n@, final(self).pos())) && old(self).pos() < final(self).pos(),
                Err(e) => spec_for_tail(old(self).toks(), left@, old(self).pos()) == Err::<
                    (NodeV, nat),
                    ParseErrorV,
                >(e@),
            },
        decreases old(self).tokens@.len() - old(self).position, 12int,
    {
        let right = match self.expression() {
            Ok(n) => n,
            Err(e) => {
                return Err(e);
            },
        };
        let body = match self.block_statement() {
            Ok(n) => n,
            Err(e) => {
                return Err(e);
            },
        };
        Ok(Node::ForInStatement(Box::new(left), Box::new(right), Box::new(body)))
    }

    /// A statement, selected by the current token's kind.
    #[verifier::rlimit(100)]
    fn statement(&mut self) -> (r: Result<Node, ParseError>)
        requires
            old(self).wf(),
        ensures
            final(self).wf(),
            final(self).tokens == old(self).tokens,
            old(self).pos() <= final(self).pos(),
            match r {
                Ok(n) => spec_statement(old(self).toks(), old(self).pos()) == Ok::<
                    (NodeV, nat),
                    ParseErrorV,
                >((n@, final(self).pos())) && old(self).pos() < final(self).pos(),
                Err(e) => spec_statement(old(self).toks(), old(self).pos()) == Err::<
                    (NodeV, nat),
                    ParseErrorV,
                >(e@),
            },
        decreases old(self).tokens@.len() - old(self).position, 12int,
    {
        let t = match self.get_current_token() {
            Ok(t) => t,
            Err(e) => {
                return Err(e);
            },
        };
        match t.kind() {
            TokenKind::Let => self.variable_declaration(),
            TokenKind::Const => self.variable_declaration(),
            TokenKind::Def => self.function_declaration(),
            TokenKind::If => self.if_statement(),
            TokenKind::For => self.for_statement(),
            TokenKind::Return => self.return_statement(),
            _ => self.expression(),
        }
    }

    /// Parses the whole token sequence into a single `Program` node: the
    /// statements before the `EOF` token, in order. Fails exactly where
    /// the grammar (`spec_produce_ast`) fails, with that error.
    #[verifier::rlimit(100)]
    pub fn produce_ast(&mut self) -> (r: Result<Node, ParseError>)
        requires
            old(self).wf(),
        ensures
            final(self).wf(),
            final(self).tokens == old(self).tokens,
            match r {
                Ok(program) => spec_produce_ast(old(self).toks(), old(self).pos()) == Ok::<
                    (NodeV, nat),
                    ParseErrorV,
                >((program@, final(self).pos())),
                Err(e) => spec_produce_ast(old(self).toks(), old(self).pos()) == Err::<
                    (NodeV, nat),
                    ParseErrorV,
                >(e@),
            },
    {
        let ghost toks = self.toks();
        let ghost pos0 = self.pos();
        let mut stmts: Vec<Node> = Vec::new();
        proof {
            reveal_with_fuel(views_of, 3);
            assert(views_of(stmts@) =~= Seq::<NodeV>::empty());
            assert(Seq::<NodeV>::empty() + spec_parse_program(toks, pos0)->Ok_0.0
                =~= spec_parse_program(toks, pos0)->Ok_0.0);
        }
        while self.not_eof()
            invariant
                self.wf(),
                toks == old(self).toks(),
                pos0 == old(self).pos(),
                self.tokens == old(self).tokens,
                pos0 <= self.pos() <= toks.len(),
                spec_parse_program(toks, pos0) == (match spec_parse_program(toks, self.pos()) {
                    Ok((rest, p)) => Ok::<(Seq<NodeV>, nat), ParseErrorV>(
                        (views_of(stmts@) + rest, p),
                    ),
                    Err(e) => Err(e),
                }),
            decreases toks.len() - self.pos(),
        {
            let ghost stmts_views = views_of(stmts@);
            match self.statement() {
                Ok(n) => {
                    let ghost nv = n@;
                    let ghost stmts_before = stmts@;
                    let ghost n_saved = n;
                    stmts.push(n);
                    proof {
                        lemma_views_of_push(stmts_before, n_saved);
                        let rest_r = spec_parse_program(toks, self.pos());
                        if rest_r is Ok {
                            let rest = rest_r->Ok_0.0;
                            assert(stmts_views + (seq![nv] + rest) =~= views_of(stmts@) + rest);
                        }
                    }
                },
                Err(e) => {
                    return Err(e);
                },
            }
        }
        proof {
            assert(spec_parse_program(toks, self.pos()) == Ok::<(Seq<NodeV>, nat), ParseErrorV>(
                (Seq::<NodeV>::empty(), self.pos()),
            ));
            reveal_with_fuel(views_of, 3);
            assert(views_of(stmts@) + Seq::<NodeV>::empty() =~= views_of(stmts@));
        }
        Ok(Node::Program(stmts))
    }
}

/// A successfully parsed program holds statements exactly when the token
/// stream holds at least one token before `EOF`: parsing never invents a
/// statement for an empty stream, and never drops the statements of a
/// non-empty one.
pub proof fn lemma_program_nonempty_iff(toks: Seq<TokenV>, program: NodeV, p: nat)
    requires
        spec_produce_ast(toks, 0) == Ok::<(NodeV, nat), ParseErrorV>((program, p)),
    ensures
        program matches NodeV::Program(stmts) && (stmts.len() > 0 <==> (toks.len() > 0
            && toks[0].kind() != TokenKind::EOF)),
{
    match spec_parse_program(toks, 0) {
        Ok((stmts, _)) => {
            assert(program == NodeV::Program(stmts));
            if toks.len() == 0 || toks[0].kind() == TokenKind::EOF {
                assert(stmts.len() == 0);
            } else {
                match spec_statement(toks, 0) {
                    Ok((n, p1)) => {
                        if 0 < p1 <= toks.len() {
                            match spec_parse_program(toks, p1) {
                                Ok((rest, _)) => {
                                    assert(stmts == seq![n] + rest);
                                    assert(stmts.len() == 1 + rest.len());
                                },
                                Err(_) => {
                                    assert(false);
                                },
                            }
                        } else {
                            assert(false);
                        }
                    },
                    Err(_) => {
                        assert(false);
                    },
                }
            }
        },
        Err(_) => {
            assert(false);
        },
    }
}

} // verus!

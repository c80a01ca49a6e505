use pl_ast::lexer::Lexer;
use pl_ast::nodes::{AssignmentOperator, BinaryOperator, LogicalOperator, Node, UnaryOperator};
use pl_ast::parser::{ParseError, Parser};
use pl_ast::token::{filter_newlines, Character, Token, TokenKind};

fn parse_source(source: &str) -> Result<Node, ParseError> {
    let mut lexer = Lexer::new(source.to_string());
    lexer.tokenize().expect("tokenization should succeed");
    let mut parser = Parser::new(filter_newlines(lexer.tokens));
    parser.produce_ast()
}

fn program_statements(node: Node) -> Vec<Node> {
    match node {
        Node::Program(stmts) => stmts,
        other => panic!("expected a Program, got {:?}", other),
    }
}

fn single_statement(source: &str) -> Node {
    let mut stmts = program_statements(parse_source(source).expect("parse should succeed"));
    assert_eq!(stmts.len(), 1);
    stmts.remove(0)
}

fn as_integer(node: &Node) -> usize {
    match node {
        Node::IntegerLiteral(v) => *v,
        other => panic!("expected an IntegerLiteral, got {:?}", other),
    }
}

#[test]
fn precedence_multiplication_binds_tighter() {
    // 1 + 2 * 3 parses as 1 + (2 * 3), never (1 + 2) * 3
    let stmt = single_statement("1 + 2 * 3");
    match stmt {
        Node::BinaryExpression(left, BinaryOperator::Plus, right) => {
            assert_eq!(as_integer(&left), 1);
            match *right {
                Node::BinaryExpression(rl, BinaryOperator::Multiply, rr) => {
                    assert_eq!(as_integer(&rl), 2);
                    assert_eq!(as_integer(&rr), 3);
                }
                other => panic!("expected 2 * 3 on the right, got {:?}", other),
            }
        }
        other => panic!("expected a Plus at the top, got {:?}", other),
    }
}

#[test]
fn subtraction_is_left_associative() {
    // 8 - 3 - 2 parses as (8 - 3) - 2
    let stmt = single_statement("8 - 3 - 2");
    match stmt {
        Node::BinaryExpression(left, BinaryOperator::Minus, right) => {
            assert_eq!(as_integer(&right), 2);
            match *left {
                Node::BinaryExpression(ll, BinaryOperator::Minus, lr) => {
                    assert_eq!(as_integer(&ll), 8);
                    assert_eq!(as_integer(&lr), 3);
                }
                other => panic!("expected 8 - 3 on the left, got {:?}", other),
            }
        }
        other => panic!("expected a Minus at the top, got {:?}", other),
    }
}

#[test]
fn const_without_initializer_is_rejected() {
    match parse_source("const x") {
        Err(ParseError::ConstantNotInitialized(name, _, _)) => assert_eq!(name, "x"),
        other => panic!("expected ConstantNotInitialized, got {:?}", other),
    }
}

#[test]
fn let_without_initializer_parses() {
    let stmt = single_statement("let x");
    match stmt {
        Node::VariableDeclaration(name, init, is_const) => {
            assert_eq!(name, "x");
            assert!(init.is_none());
            assert!(!is_const);
        }
        other => panic!("expected a VariableDeclaration, got {:?}", other),
    }
}

#[test]
fn chained_calls_nest_leftwards() {
    // f()() parses as CallExpression(CallExpression(f, []), [])
    let stmt = single_statement("f()()");
    match stmt {
        Node::CallExpression(outer_callee, outer_args) => {
            assert_eq!(outer_args.len(), 0);
            match *outer_callee {
                Node::CallExpression(inner_callee, inner_args) => {
                    assert_eq!(inner_args.len(), 0);
                    match *inner_callee {
                        Node::Identifier(name) => assert_eq!(name, "f"),
                        other => panic!("expected the identifier f, got {:?}", other),
                    }
                }
                other => panic!("expected an inner CallExpression, got {:?}", other),
            }
        }
        other => panic!("expected a CallExpression, got {:?}", other),
    }
}

#[test]
fn program_statements_nonempty_iff_input_nonempty() {
    let program = parse_source("").expect("empty source parses");
    assert_eq!(program_statements(program).len(), 0);
    let program = parse_source("42").expect("a literal parses");
    assert_eq!(program_statements(program).len(), 1);
}

#[test]
fn variable_declaration_with_initializer() {
    let stmt = single_statement("let x = 5");
    match stmt {
        Node::VariableDeclaration(name, Some(init), false) => {
            assert_eq!(name, "x");
            assert_eq!(as_integer(&init), 5);
        }
        other => panic!("expected an initialized declaration, got {:?}", other),
    }
}

#[test]
fn function_declaration_shape() {
    let stmt = single_statement("def add(a, b) { return a + b }");
    match stmt {
        Node::FunctionDeclaration(name, params, body) => {
            assert_eq!(name, "add");
            assert_eq!(params.len(), 2);
            assert!(matches!(&params[0], Node::Identifier(p) if p == "a"));
            assert!(matches!(&params[1], Node::Identifier(p) if p == "b"));
            match *body {
                Node::BlockStatement(stmts) => {
                    assert_eq!(stmts.len(), 1);
                    assert!(matches!(&stmts[0], Node::ReturnStatement(_)));
                }
                other => panic!("expected a BlockStatement body, got {:?}", other),
            }
        }
        other => panic!("expected a FunctionDeclaration, got {:?}", other),
    }
}

#[test]
fn if_else_if_chain() {
    let stmt = single_statement("if a { b } else if c { d } else { e }");
    match stmt {
        Node::IfStatement(_, consequent, Some(alternate)) => {
            assert!(matches!(*consequent, Node::BlockStatement(_)));
            match *alternate {
                Node::IfStatement(_, _, Some(inner_alt)) => {
                    assert!(matches!(*inner_alt, Node::BlockStatement(_)));
                }
                other => panic!("expected a nested IfStatement, got {:?}", other),
            }
        }
        other => panic!("expected an IfStatement with alternate, got {:?}", other),
    }
}

#[test]
fn for_in_statement_shape() {
    let stmt = single_statement("for i in items { use(i) }");
    match stmt {
        Node::ForInStatement(left, right, body) => {
            assert!(matches!(*left, Node::Identifier(name) if name == "i"));
            assert!(matches!(*right, Node::Identifier(name) if name == "items"));
            assert!(matches!(*body, Node::BlockStatement(_)));
        }
        other => panic!("expected a ForInStatement, got {:?}", other),
    }
}

#[test]
fn logical_operators_chain() {
    let stmt = single_statement("a and b or c");
    // left-associative: (a and b) or c
    match stmt {
        Node::LogicalExpression(left, LogicalOperator::Or, right) => {
            assert!(matches!(*right, Node::Identifier(name) if name == "c"));
            assert!(matches!(
                *left,
                Node::LogicalExpression(_, LogicalOperator::And, _)
            ));
        }
        other => panic!("expected an Or at the top, got {:?}", other),
    }
}

#[test]
fn assignment_is_right_associative() {
    let stmt = single_statement("a = b = 1");
    match stmt {
        Node::AssignmentExpression(target, AssignmentOperator::Equals, value) => {
            assert!(matches!(*target, Node::Identifier(name) if name == "a"));
            assert!(matches!(
                *value,
                Node::AssignmentExpression(_, AssignmentOperator::Equals, _)
            ));
        }
        other => panic!("expected an AssignmentExpression, got {:?}", other),
    }
}

#[test]
fn member_access_forms() {
    let stmt = single_statement("a.b[0]");
    match stmt {
        Node::MemberExpression(object, property, true) => {
            assert_eq!(as_integer(&property), 0);
            assert!(matches!(*object, Node::MemberExpression(_, _, false)));
        }
        other => panic!("expected a computed MemberExpression, got {:?}", other),
    }
}

#[test]
fn unary_operators_apply_to_primary() {
    let stmt = single_statement("-5");
    match stmt {
        Node::UnaryExpression(operand, UnaryOperator::Minus) => {
            assert_eq!(as_integer(&operand), 5);
        }
        other => panic!("expected a UnaryExpression, got {:?}", other),
    }
    let stmt = single_statement("!x");
    assert!(matches!(stmt, Node::UnaryExpression(_, UnaryOperator::Negation)));
}

#[test]
fn array_literal_and_literals() {
    let stmt = single_statement("[1, true, null, \"s\", 2.5]");
    match stmt {
        Node::ArrayExpression(items) => {
            assert_eq!(items.len(), 5);
            assert_eq!(as_integer(&items[0]), 1);
            assert!(matches!(&items[1], Node::BoolLiteral(true)));
            assert!(matches!(&items[2], Node::NullLiteral));
            assert!(matches!(&items[3], Node::StringLiteral(s) if s == "s"));
            assert!(matches!(&items[4], Node::DecimalLiteral(text) if text == "2.5"));
        }
        other => panic!("expected an ArrayExpression, got {:?}", other),
    }
}

#[test]
fn grouping_overrides_precedence() {
    let stmt = single_statement("(1 + 2) * 3");
    match stmt {
        Node::BinaryExpression(left, BinaryOperator::Multiply, right) => {
            assert_eq!(as_integer(&right), 3);
            assert!(matches!(
                *left,
                Node::BinaryExpression(_, BinaryOperator::Plus, _)
            ));
        }
        other => panic!("expected a Multiply at the top, got {:?}", other),
    }
}

#[test]
fn unexpected_token_aborts_parse() {
    match parse_source("let 5") {
        Err(ParseError::UnexpectedToken(_, _, _)) => {}
        other => panic!("expected UnexpectedToken, got {:?}", other),
    }
}

#[test]
fn parser_reports_eof_past_end() {
    // without any EOF token, the parser runs off the end of the sequence
    let mut parser = Parser::new(vec![]);
    let program = parser.produce_ast().expect("an empty sequence parses");
    assert_eq!(program_statements(program).len(), 0);
}

#[test]
fn parser_unexpected_eof_without_terminator() {
    // a declaration cut off before its name, with no End-of-Input token
    let tokens = vec![Token::Character(Character {
        kind: TokenKind::Let,
        line: 1,
        column: 0,
    })];
    let mut parser = Parser::new(tokens);
    match parser.produce_ast() {
        Err(ParseError::UnexpectedEOF) => {}
        other => panic!("expected UnexpectedEOF, got {:?}", other),
    }
}

#[test]
fn bare_token_claiming_identifier_kind_is_rejected() {
    // a hand-made bare token that claims the Identifier kind carries no
    // text; the parser rejects it instead of producing a node
    let tokens = vec![
        Token::Character(Character { kind: TokenKind::Identifier, line: 1, column: 0 }),
        Token::Character(Character { kind: TokenKind::EOF, line: 1, column: 1 }),
    ];
    let mut parser = Parser::new(tokens);
    match parser.produce_ast() {
        Err(ParseError::UnexpectedToken(TokenKind::Identifier, 1, 0)) => {}
        other => panic!("expected UnexpectedToken, got {:?}", other),
    }
}

#[test]
fn function_parameters_must_be_identifiers() {
    // a declaration parameter list admits identifiers only
    match parse_source("def f(1 + 2) { }") {
        Err(ParseError::UnexpectedToken(TokenKind::Integer, _, _)) => {}
        other => panic!("expected UnexpectedToken on the parameter, got {:?}", other),
    }
}

#[test]
fn function_with_empty_parameter_list() {
    let stmt = single_statement("def f() { return 1 }");
    match stmt {
        Node::FunctionDeclaration(name, params, _) => {
            assert_eq!(name, "f");
            assert_eq!(params.len(), 0);
        }
        other => panic!("expected a FunctionDeclaration, got {:?}", other),
    }
}

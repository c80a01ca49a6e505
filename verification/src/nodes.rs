//! The abstract syntax tree: operator enumerations and the closed set of
//! node variants, together with their mathematical models.
use vstd::prelude::*;

verus! {

broadcast use
    vstd::std_specs::vec::axiom_vec_index_decreases,
    vstd::std_specs::vec::axiom_vec_decreases_to_view,
    vstd::seq::axiom_seq_index_decreases,
    vstd::seq::axiom_seq_subrange_decreases;

/// Binary (arithmetic and relational) operators of the grammar.
#[derive(Debug, Clone, Copy, PartialEq, Eq, Structural)]
pub enum BinaryOperator {
    Plus,
    Minus,
    Multiply,
    Divide,
    Modulo,
    LessThan,
    GreaterThan,
    IsEquals,
    NotEquals,
}

/// Short-circuit logical operators of the grammar.
#[derive(Debug, Clone, Copy, PartialEq, Eq, Structural)]
pub enum LogicalOperator {
    And,
    Or,
}

/// Prefix operators accepted by the unary-expression rule.
#[derive(Debug, Clone, Copy, PartialEq, Eq, Structural)]
pub enum UnaryOperator {
    Increment,
    Decrement,
    Plus,
    Minus,
    Negation,
}

/// Assignment operators; the grammar currently produces only `Equals`.
#[derive(Debug, Clone, Copy, PartialEq, Eq, Structural)]
pub enum AssignmentOperator {
    Equals,
    Addition,
    Subtraction,
    Multiplication,
    Division,
    Modulation,
}

/// A node of the abstract syntax tree produced by the parser.
///
/// A decimal literal carries the scanned digit text (digits with exactly one
/// `.`), leaving any conversion to a machine float to the caller.
#[derive(Debug)]
pub enum Node {
    // statements
    Program(Vec<Node>),
    VariableDeclaration(String, Option<Box<Node>>, bool),
    BlockStatement(Vec<Node>),
    FunctionDeclaration(String, Vec<Node>, Box<Node>),
    IfStatement(Box<Node>, Box<Node>, Option<Box<Node>>),
    ForInStatement(Box<Node>, Box<Node>, Box<Node>),
    ReturnStatement(Box<Node>),
    // literals
    IntegerLiteral(usize),
    DecimalLiteral(String),
    Identifier(String),
    StringLiteral(String),
    BoolLiteral(bool),
    NullLiteral,
    // expressions
    BinaryExpression(Box<Node>, BinaryOperator, Box<Node>),
    ArrayExpression(Vec<Node>),
    LogicalExpression(Box<Node>, LogicalOperator, Box<Node>),
    UnaryExpression(Box<Node>, UnaryOperator),
    MemberExpression(Box<Node>, Box<Node>, bool),
    CallExpression(Box<Node>, Vec<Node>),
    AssignmentExpression(Box<Node>, AssignmentOperator, Box<Node>),
}

/// The mathematical model of a `Node`: strings become `Seq<char>` and
/// child vectors become `Seq`, so that contracts can state tree equality.
pub enum NodeV {
    Program(Seq<NodeV>),
    VariableDeclaration(Seq<char>, Option<Box<NodeV>>, bool),
    BlockStatement(Seq<NodeV>),
    FunctionDeclaration(Seq<char>, Seq<NodeV>, Box<NodeV>),
    IfStatement(Box<NodeV>, Box<NodeV>, Option<Box<NodeV>>),
    ForInStatement(Box<NodeV>, Box<NodeV>, Box<NodeV>),
    ReturnStatement(Box<NodeV>),
    IntegerLiteral(nat),
    DecimalLiteral(Seq<char>),
    Identifier(Seq<char>),
    StringLiteral(Seq<char>),
    BoolLiteral(bool),
    NullLiteral,
    BinaryExpression(Box<NodeV>, BinaryOperator, Box<NodeV>),
    ArrayExpression(Seq<NodeV>),
    LogicalExpression(Box<NodeV>, LogicalOperator, Box<NodeV>),
    UnaryExpression(Box<NodeV>, UnaryOperator),
    MemberExpression(Box<NodeV>, Box<NodeV>, bool),
    CallExpression(Box<NodeV>, Seq<NodeV>),
    AssignmentExpression(Box<NodeV>, AssignmentOperator, Box<NodeV>),
}

/// The models of a sequence of nodes, elementwise.
pub open spec fn views_of(nodes: Seq<Node>) -> Seq<NodeV>
    decreases nodes,
{
    if nodes.len() == 0 {
        Seq::empty()
    } else {
        views_of(nodes.drop_last()).push(nodes.last()@)
    }
}

/// Element views distribute over appending one node.
pub proof fn lemma_views_of_push(nodes: Seq<Node>, n: Node)
    ensures
        views_of(nodes.push(n)) == views_of(nodes).push(n@),
{
    reveal_with_fuel(views_of, 2);
    assert(nodes.push(n).len() == nodes.len() + 1);
    assert(nodes.push(n).drop_last() =~= nodes);
    assert(nodes.push(n).last() == n);
}

/// The model of each node in a sequence stands at its own index.
pub proof fn lemma_views_of_index(nodes: Seq<Node>, i: int)
    requires
        0 <= i < nodes.len(),
    ensures
        views_of(nodes).len() == nodes.len(),
        views_of(nodes)[i] == nodes[i]@,
    decreases nodes.len(),
{
    reveal_with_fuel(views_of, 2);
    lemma_views_of_len(nodes);
    lemma_views_of_len(nodes.drop_last());
    assert(views_of(nodes) == views_of(nodes.drop_last()).push(nodes.last()@));
    if i < nodes.len() - 1 {
        lemma_views_of_index(nodes.drop_last(), i);
        assert(nodes.drop_last()[i] == nodes[i]);
        assert(views_of(nodes)[i] == views_of(nodes.drop_last())[i]);
    } else {
        assert(i == nodes.len() - 1);
        assert(views_of(nodes)[i] == nodes.last()@);
        assert(nodes.last() == nodes[i]);
    }
}

/// A node sequence and its models have the same length.
pub proof fn lemma_views_of_len(nodes: Seq<Node>)
    ensures
        views_of(nodes).len() == nodes.len(),
    decreases nodes.len(),
{
    reveal_with_fuel(views_of, 2);
    if nodes.len() > 0 {
        lemma_views_of_len(nodes.drop_last());
        assert(views_of(nodes) == views_of(nodes.drop_last()).push(nodes.last()@));
        assert(views_of(nodes).len() == views_of(nodes.drop_last()).len() + 1);
        assert(nodes.drop_last().len() == nodes.len() - 1);
    } else {
        assert(views_of(nodes) == Seq::<NodeV>::empty());
        assert(views_of(nodes).len() == 0);
    }
}

impl View for Node {
    type V = NodeV;

    open spec fn view(&self) -> NodeV
        decreases self,
    {
        match self {
            Node::Program(stmts) => NodeV::Program(views_of(stmts@)),
            Node::VariableDeclaration(name, init, is_const) => NodeV::VariableDeclaration(
                name@,
                match init {
                    Some(n) => Some(Box::new((**n)@)),
                    None => None,
                },
                *is_const,
            ),
            Node::BlockStatement(stmts) => NodeV::BlockStatement(views_of(stmts@)),
            Node::FunctionDeclaration(name, params, body) => NodeV::FunctionDeclaration(
                name@,
                views_of(params@),
                Box::new((**body)@),
            ),
            Node::IfStatement(cond, cons, alt) => NodeV::IfStatement(
                Box::new((**cond)@),
                Box::new((**cons)@),
                match alt {
                    Some(n) => Some(Box::new((**n)@)),
                    None => None,
                },
            ),
            Node::ForInStatement(left, right, body) => NodeV::ForInStatement(
                Box::new((**left)@),
                Box::new((**right)@),
                Box::new((**body)@),
            ),
            Node::ReturnStatement(value) => NodeV::ReturnStatement(Box::new((**value)@)),
            Node::IntegerLiteral(v) => NodeV::IntegerLiteral(*v as nat),
            Node::DecimalLiteral(text) => NodeV::DecimalLiteral(text@),
            Node::Identifier(name) => NodeV::Identifier(name@),
            Node::StringLiteral(text) => NodeV::StringLiteral(text@),
            Node::BoolLiteral(b) => NodeV::BoolLiteral(*b),
            Node::NullLiteral => NodeV::NullLiteral,
            Node::BinaryExpression(left, op, right) => NodeV::BinaryExpression(
                Box::new((**left)@),
                *op,
                Box::new((**right)@),
            ),
            Node::ArrayExpression(items) => NodeV::ArrayExpression(views_of(items@)),
            Node::LogicalExpression(left, op, right) => NodeV::LogicalExpression(
                Box::new((**left)@),
                *op,
                Box::new((**right)@),
            ),
            Node::UnaryExpression(operand, op) => NodeV::UnaryExpression(
                Box::new((**operand)@),
                *op,
            ),
            Node::MemberExpression(object, property, computed) => NodeV::MemberExpression(
                Box::new((**object)@),
                Box::new((**property)@),
                *computed,
            ),
            Node::CallExpression(callee, args) => NodeV::CallExpression(
                Box::new((**callee)@),
                views_of(args@),
            ),
            Node::AssignmentExpression(target, op, value) => NodeV::AssignmentExpression(
                Box::new((**target)@),
                *op,
                Box::new((**value)@),
            ),
        }
    }
}

} // verus!

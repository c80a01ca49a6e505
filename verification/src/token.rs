//! The token model: the closed set of lexical categories, the data each
//! token kind carries, and the lexer's error taxonomy.
use vstd::prelude::*;

verus! {

/// Every lexical category the lexer can emit.
///
/// `Identifier`, `Integer`, `Decimal` and `StringLiteral` tokens carry a
/// literal payload; all other kinds are bare punctuation, operators,
/// keywords, the `Newline` layout token, or the final `EOF` marker.
#[derive(Debug, Clone, Copy, PartialEq, Eq, Structural)]
pub enum TokenKind {
    Identifier,
    Integer,
    Decimal,
    StringLiteral,
    Plus,
    Minus,
    Increment,
    Decrement,
    Addition,
    Subtraction,
    Multiplication,
    Division,
    Modulation,
    OpenParen,
    CloseParen,
    OpenSquareBracket,
    CloseSquareBracket,
    OpenCurlyBrace,
    CloseCurlyBrace,
    Colon,
    Comma,
    Point,
    Multiply,
    Divide,
    Modulo,
    Not,
    GreaterThan,
    LessThan,
    Equals,
    IsEquals,
    NotEquals,
    Newline,
    // keywords
    Def,
    True,
    False,
    Null,
    Return,
    If,
    Else,
    And,
    Or,
    For,
    In,
    Let,
    Const,
    Class,
    From,
    Import,
    Static,
    EOF,
}

/// A payload-less token: punctuation, an operator, a keyword, `Newline`
/// or `EOF`, together with its source position.
#[derive(Debug, Clone, Copy)]
pub struct Character {
    pub kind: TokenKind,
    pub line: usize,
    pub column: usize,
}

/// An identifier token carrying its text.
#[derive(Debug)]
pub struct Identifier {
    pub value: String,
    pub line: usize,
    pub column: usize,
}

/// An integer literal token carrying its decoded value.
#[derive(Debug, Clone, Copy)]
pub struct Integer {
    pub value: usize,
    pub line: usize,
    pub column: usize,
}

/// A decimal literal token carrying the scanned digit text (digits with
/// exactly one `.`); conversion to a machine float is left to the caller.
#[derive(Debug)]
pub struct Decimal {
    pub text: String,
    pub line: usize,
    pub column: usize,
}

/// A string literal token carrying its text with escapes already decoded.
#[derive(Debug)]
pub struct StringLiteral {
    pub value: String,
    pub line: usize,
    pub column: usize,
}

/// A classified lexical unit: the payload's presence is statically tied
/// to the tag, so no token can claim a literal kind without carrying one.
#[derive(Debug)]
pub enum Token {
    Character(Character),
    Identifier(Identifier),
    Integer(Integer),
    Decimal(Decimal),
    StringLiteral(StringLiteral),
}

/// The mathematical model of a `Token`: text as `Seq<char>`, numbers and
/// positions as `nat`.
pub enum TokenV {
    Character { kind: TokenKind, line: nat, column: nat },
    Identifier { value: Seq<char>, line: nat, column: nat },
    Integer { value: nat, line: nat, column: nat },
    Decimal { text: Seq<char>, line: nat, column: nat },
    StringLiteral { value: Seq<char>, line: nat, column: nat },
}

impl TokenV {
    /// The lexical category of the modelled token.
    pub open spec fn kind(self) -> TokenKind {
        match self {
            TokenV::Character { kind, .. } => kind,
            TokenV::Identifier { .. } => TokenKind::Identifier,
            TokenV::Integer { .. } => TokenKind::Integer,
            TokenV::Decimal { .. } => TokenKind::Decimal,
            TokenV::StringLiteral { .. } => TokenKind::StringLiteral,
        }
    }

    /// 1-based source line of the modelled token.
    pub open spec fn line(self) -> nat {
        match self {
            TokenV::Character { line, .. } => line,
            TokenV::Identifier { line, .. } => line,
            TokenV::Integer { line, .. } => line,
            TokenV::Decimal { line, .. } => line,
            TokenV::StringLiteral { line, .. } => line,
        }
    }

    /// 0-based source column of the modelled token.
    pub open spec fn column(self) -> nat {
        match self {
            TokenV::Character { column, .. } => column,
            TokenV::Identifier { column, .. } => column,
            TokenV::Integer { column, .. } => column,
            TokenV::Decimal { column, .. } => column,
            TokenV::StringLiteral { column, .. } => column,
        }
    }

    /// A bare token never claims one of the payload-carrying kinds.
    pub open spec fn wf(self) -> bool {
        match self {
            TokenV::Character { kind, .. } => {
                &&& kind != TokenKind::Identifier
                &&& kind != TokenKind::Integer
                &&& kind != TokenKind::Decimal
                &&& kind != TokenKind::StringLiteral
            },
            _ => true,
        }
    }
}

impl View for Token {
    type V = TokenV;

    open spec fn view(&self) -> TokenV {
        match self {
            Token::Character(t) => TokenV::Character {
                kind: t.kind,
                line: t.line as nat,
                column: t.column as nat,
            },
            Token::Identifier(t) => TokenV::Identifier {
                value: t.value@,
                line: t.line as nat,
                column: t.column as nat,
            },
            Token::Integer(t) => TokenV::Integer {
                value: t.value as nat,
                line: t.line as nat,
                column: t.column as nat,
            },
            Token::Decimal(t) => TokenV::Decimal {
                text: t.text@,
                line: t.line as nat,
                column: t.column as nat,
            },
            Token::StringLiteral(t) => TokenV::StringLiteral {
                value: t.value@,
                line: t.line as nat,
                column: t.column as nat,
            },
        }
    }
}

/// The models of a sequence of tokens, elementwise.
pub open spec fn token_views(tokens: Seq<Token>) -> Seq<TokenV> {
    tokens.map_values(|t: Token| t@)
}

impl Token {
    /// The lexical category of this token.
    pub fn kind(&self) -> (k: TokenKind)
        ensures
            k == self@.kind(),
    {
        match self {
            Token::Character(t) => t.kind,
            Token::Identifier(_) => TokenKind::Identifier,
            Token::Integer(_) => TokenKind::Integer,
            Token::Decimal(_) => TokenKind::Decimal,
            Token::StringLiteral(_) => TokenKind::StringLiteral,
        }
    }

    /// 1-based source line at which this token starts.
    pub fn line(&self) -> (l: usize)
        ensures
            l as nat == self@.line(),
    {
        match self {
            Token::Character(t) => t.line,
            Token::Identifier(t) => t.line,
            Token::Integer(t) => t.line,
            Token::Decimal(t) => t.line,
            Token::StringLiteral(t) => t.line,
        }
    }

    /// 0-based source column at which this token starts.
    pub fn column(&self) -> (c: usize)
        ensures
            c as nat == self@.column(),
    {
        match self {
            Token::Character(t) => t.column,
            Token::Identifier(t) => t.column,
            Token::Integer(t) => t.column,
            Token::Decimal(t) => t.column,
            Token::StringLiteral(t) => t.column,
        }
    }
}

impl Identifier {
    /// The identifier's text.
    pub fn value(&self) -> (r: String)
        ensures
            r@ == self.value@,
    {
        self.value.clone()
    }
}

impl Integer {
    /// The integer literal's decoded value.
    pub fn value(&self) -> (r: usize)
        ensures
            r == self.value,
    {
        self.value
    }
}

impl Decimal {
    /// The decimal literal's digit text (digits with exactly one `.`).
    pub fn value(&self) -> (r: String)
        ensures
            r@ == self.text@,
    {
        self.text.clone()
    }
}

impl StringLiteral {
    /// The string literal's decoded text.
    pub fn value(&self) -> (r: String)
        ensures
            r@ == self.value@,
    {
        self.value.clone()
    }
}

impl Clone for Identifier {
    /// An exact copy.
    fn clone(&self) -> (res: Self)
        ensures
            res == *self,
    {
        Identifier { value: self.value.clone(), line: self.line, column: self.column }
    }
}

impl Clone for Decimal {
    /// An exact copy.
    fn clone(&self) -> (res: Self)
        ensures
            res == *self,
    {
        Decimal { text: self.text.clone(), line: self.line, column: self.column }
    }
}

impl Clone for StringLiteral {
    /// An exact copy.
    fn clone(&self) -> (res: Self)
        ensures
            res == *self,
    {
        StringLiteral { value: self.value.clone(), line: self.line, column: self.column }
    }
}

impl Clone for Token {
    /// An exact copy.
    fn clone(&self) -> (res: Self)
        ensures
            res == *self,
    {
        match self {
            Token::Character(t) => Token::Character(*t),
            Token::Identifier(t) => Token::Identifier(t.clone()),
            Token::Integer(t) => Token::Integer(*t),
            Token::Decimal(t) => Token::Decimal(t.clone()),
            Token::StringLiteral(t) => Token::StringLiteral(t.clone()),
        }
    }
}

/// The token sequence with `Newline` layout tokens removed; the parser
/// expects its input in this form.
pub open spec fn spec_remove_newlines(ts: Seq<TokenV>) -> Seq<TokenV> {
    ts.filter(|t: TokenV| t.kind() != TokenKind::Newline)
}

/// Removes the `Newline` layout tokens, keeping every other token in
/// order: the form of a lexed stream that the parser expects.
pub fn filter_newlines(tokens: Vec<Token>) -> (r: Vec<Token>)
    ensures
        token_views(r@) == spec_remove_newlines(token_views(tokens@)),
{
    let mut r: Vec<Token> = Vec::new();
    let mut i: usize = 0;
    while i < tokens.len()
        invariant
            0 <= i <= tokens@.len(),
            token_views(r@) == spec_remove_newlines(token_views(tokens@.subrange(0, i as int))),
        decreases tokens@.len() - i,
    {
        let ghost views_before = token_views(tokens@.subrange(0, i as int));
        let keep = match tokens[i].kind() {
            TokenKind::Newline => false,
            _ => true,
        };
        if keep {
            let ghost r_before = r@;
            let t = tokens[i].clone();
            proof {
                assert(t@ == tokens@[i as int]@);
            }
            r.push(t);
            proof {
                assert(token_views(r@) =~= token_views(r_before).push(t@));
            }
        }
        i += 1;
        proof {
            reveal(Seq::filter);
            let views_now = token_views(tokens@.subrange(0, i as int));
            assert(tokens@.subrange(0, i as int).drop_last() =~= tokens@.subrange(0, i - 1));
            assert(views_now.drop_last() =~= views_before);
            assert(views_now.last() == tokens@[i - 1]@);
        }
    }
    proof {
        assert(tokens@.subrange(0, tokens@.len() as int) =~= tokens@);
    }
    r
}

/// A fatal tokenization failure; any such failure aborts the whole
/// `tokenize` call.
#[derive(Debug, PartialEq)]
pub enum LexerError {
    /// A character matched no lexical rule, or a numeric literal held
    /// more than one `.` (the payload is the offending text).
    UnexpectedToken(String),
    /// Accumulated digit text failed to convert to an integer value.
    ParseNumberError(String),
    /// An unsupported character followed `\` inside a string literal.
    UnexpectedEscapeCharacter(char),
    /// The cursor ran past the input while a token was still expected.
    UnexpectedEOF,
}

/// The mathematical model of a `LexerError`.
pub enum LexerErrorV {
    UnexpectedToken(Seq<char>),
    ParseNumberError(Seq<char>),
    UnexpectedEscapeCharacter(char),
    UnexpectedEOF,
}

impl View for LexerError {
    type V = LexerErrorV;

    open spec fn view(&self) -> LexerErrorV {
        match self {
            LexerError::UnexpectedToken(s) => LexerErrorV::UnexpectedToken(s@),
            LexerError::ParseNumberError(s) => LexerErrorV::ParseNumberError(s@),
            LexerError::UnexpectedEscapeCharacter(c) => LexerErrorV::UnexpectedEscapeCharacter(*c),
            LexerError::UnexpectedEOF => LexerErrorV::UnexpectedEOF,
        }
    }
}

} // verus!

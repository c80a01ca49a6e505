//! The lexer: consumes source text one codepoint at a time and produces an
//! ordered token sequence, tracking 1-based lines and 0-based columns.
//!
//! `spec_lex` is the mathematical statement of the whole tokenization rule
//! set; `Lexer::tokenize` is proved to agree with it exactly.
use crate::text::{chars_of, string_from_chars, text_is};
use crate::token::{
    Character, Decimal, Identifier, Integer, LexerError, LexerErrorV, StringLiteral, Token,
    TokenKind, TokenV, token_views,
};
use vstd::prelude::*;

verus! {

// ----------------------------------------------------------------------
// character classes
// ----------------------------------------------------------------------
/// An ASCII decimal digit.
pub open spec fn is_digit_char(c: char) -> bool {
    48 <= c as u32 && c as u32 <= 57
}

/// An ASCII letter; identifiers and keywords start with one.
pub open spec fn is_alpha_char(c: char) -> bool {
    (65 <= c as u32 && c as u32 <= 90) || (97 <= c as u32 && c as u32 <= 122)
}

/// A character that may continue an identifier: a letter, digit or `_`.
pub open spec fn is_ident_char(c: char) -> bool {
    c == '_' || is_alpha_char(c) || is_digit_char(c)
}

/// A character that may continue a numeric literal: a digit or `.`.
pub open spec fn is_number_char(c: char) -> bool {
    is_digit_char(c) || c == '.'
}

/// A character that stays inside a line comment.
pub open spec fn is_comment_char(c: char) -> bool {
    c != '\n' && c != '\r'
}

fn digit_char(c: char) -> (b: bool)
    ensures
        b == is_digit_char(c),
{
    let u = c as u32;
    48 <= u && u <= 57
}

fn alpha_char(c: char) -> (b: bool)
    ensures
        b == is_alpha_char(c),
{
    let u = c as u32;
    (65 <= u && u <= 90) || (97 <= u && u <= 122)
}

fn ident_char(c: char) -> (b: bool)
    ensures
        b == is_ident_char(c),
{
    c == '_' || alpha_char(c) || digit_char(c)
}

fn number_char(c: char) -> (b: bool)
    ensures
        b == is_number_char(c),
{
    digit_char(c) || c == '.'
}

fn comment_char(c: char) -> (b: bool)
    ensures
        b == is_comment_char(c),
{
    c != '\n' && c != '\r'
}

// ----------------------------------------------------------------------
// cursor advancement
// ----------------------------------------------------------------------
/// How consuming one character moves the (line, column) cursor: a newline
/// starts the next line at column 0, anything else moves one column right.
pub open spec fn advance(line: nat, col: nat, c: char) -> (nat, nat) {
    if c == '\n' {
        ((line + 1) as nat, 0 as nat)
    } else {
        (line, (col + 1) as nat)
    }
}

/// The cursor after consuming a whole character sequence.
pub open spec fn advance_seq(line: nat, col: nat, s: Seq<char>) -> (nat, nat)
    decreases s.len(),
{
    if s.len() == 0 {
        (line, col)
    } else {
        let (l, c) = advance(line, col, s[0]);
        advance_seq(l, c, s.drop_first())
    }
}

/// Consuming `s1 + s2` is consuming `s1`, then `s2`.
pub proof fn lemma_advance_seq_app(line: nat, col: nat, s1: Seq<char>, s2: Seq<char>)
    ensures
        advance_seq(line, col, s1 + s2) == ({
            let (l, c) = advance_seq(line, col, s1);
            advance_seq(l, c, s2)
        }),
    decreases s1.len(),
{
    if s1.len() == 0 {
        assert(s1 + s2 =~= s2);
    } else {
        let (l, c) = advance(line, col, s1[0]);
        assert((s1 + s2)[0] == s1[0]);
        assert((s1 + s2).drop_first() =~= s1.drop_first() + s2);
        lemma_advance_seq_app(l, c, s1.drop_first(), s2);
    }
}

/// Consuming one more character advances the cursor once more.
pub proof fn lemma_advance_seq_push(line: nat, col: nat, s: Seq<char>, c: char)
    ensures
        advance_seq(line, col, s.push(c)) == ({
            let (l, c2) = advance_seq(line, col, s);
            advance(l, c2, c)
        }),
{
    assert(s.push(c) =~= s + seq![c]);
    lemma_advance_seq_app(line, col, s, seq![c]);
    let (l, c2) = advance_seq(line, col, s);
    assert(seq![c].drop_first() =~= Seq::<char>::empty());
    assert(advance_seq(l, c2, seq![c]) == ({
        let (l3, c3) = advance(l, c2, c);
        advance_seq(l3, c3, seq![c].drop_first())
    }));
}

// ----------------------------------------------------------------------
// scan extents
// ----------------------------------------------------------------------
/// First index at or after `pos` that does not continue an identifier.
pub open spec fn scan_ident(src: Seq<char>, pos: nat) -> nat
    decreases src.len() - pos,
{
    if pos >= src.len() || !is_ident_char(src[pos as int]) {
        pos
    } else {
        scan_ident(src, (pos + 1) as nat)
    }
}

/// First index at or after `pos` that does not continue a numeric literal.
pub open spec fn scan_number(src: Seq<char>, pos: nat) -> nat
    decreases src.len() - pos,
{
    if pos >= src.len() || !is_number_char(src[pos as int]) {
        pos
    } else {
        scan_number(src, (pos + 1) as nat)
    }
}

/// First index at or after `pos` that ends a line comment.
pub open spec fn scan_comment(src: Seq<char>, pos: nat) -> nat
    decreases src.len() - pos,
{
    if pos >= src.len() || !is_comment_char(src[pos as int]) {
        pos
    } else {
        scan_comment(src, (pos + 1) as nat)
    }
}

/// The characterization of `scan_ident`: it is the maximal run's end.
pub proof fn lemma_scan_ident(src: Seq<char>, pos: nat)
    requires
        pos <= src.len(),
    ensures
        pos <= scan_ident(src, pos) <= src.len(),
        forall|i: int| pos <= i < scan_ident(src, pos) ==> is_ident_char(src[i]),
        scan_ident(src, pos) < src.len() ==> !is_ident_char(src[scan_ident(src, pos) as int]),
    decreases src.len() - pos,
{
    if pos < src.len() && is_ident_char(src[pos as int]) {
        lemma_scan_ident(src, (pos + 1) as nat);
    }
}

/// A run of identifier characters ended by a non-continuing position is
/// exactly what `scan_ident` returns.
pub proof fn lemma_scan_ident_exact(src: Seq<char>, pos: nat, end: nat)
    requires
        pos <= end <= src.len(),
        forall|i: int| pos <= i < end ==> is_ident_char(src[i]),
        end < src.len() ==> !is_ident_char(src[end as int]),
    ensures
        scan_ident(src, pos) == end,
    decreases end - pos,
{
    if pos < end {
        lemma_scan_ident_exact(src, (pos + 1) as nat, end);
    }
}

/// The characterization of `scan_number`.
pub proof fn lemma_scan_number(src: Seq<char>, pos: nat)
    requires
        pos <= src.len(),
    ensures
        pos <= scan_number(src, pos) <= src.len(),
        forall|i: int| pos <= i < scan_number(src, pos) ==> is_number_char(src[i]),
        scan_number(src, pos) < src.len() ==> !is_number_char(src[scan_number(src, pos) as int]),
    decreases src.len() - pos,
{
    if pos < src.len() && is_number_char(src[pos as int]) {
        lemma_scan_number(src, (pos + 1) as nat);
    }
}

/// A run of numeric characters ended by a non-continuing position is
/// exactly what `scan_number` returns.
pub proof fn lemma_scan_number_exact(src: Seq<char>, pos: nat, end: nat)
    requires
        pos <= end <= src.len(),
        forall|i: int| pos <= i < end ==> is_number_char(src[i]),
        end < src.len() ==> !is_number_char(src[end as int]),
    ensures
        scan_number(src, pos) == end,
    decreases end - pos,
{
    if pos < end {
        lemma_scan_number_exact(src, (pos + 1) as nat, end);
    }
}

/// The characterization of `scan_comment`.
pub proof fn lemma_scan_comment(src: Seq<char>, pos: nat)
    requires
        pos <= src.len(),
    ensures
        pos <= scan_comment(src, pos) <= src.len(),
        forall|i: int| pos <= i < scan_comment(src, pos) ==> is_comment_char(src[i]),
        scan_comment(src, pos) < src.len() ==> !is_comment_char(src[scan_comment(src, pos) as int]),
    decreases src.len() - pos,
{
    if pos < src.len() && is_comment_char(src[pos as int]) {
        lemma_scan_comment(src, (pos + 1) as nat);
    }
}

/// A run of comment characters ended by a non-continuing position is
/// exactly what `scan_comment` returns.
pub proof fn lemma_scan_comment_exact(src: Seq<char>, pos: nat, end: nat)
    requires
        pos <= end <= src.len(),
        forall|i: int| pos <= i < end ==> is_comment_char(src[i]),
        end < src.len() ==> !is_comment_char(src[end as int]),
    ensures
        scan_comment(src, pos) == end,
    decreases end - pos,
{
    if pos < end {
        lemma_scan_comment_exact(src, (pos + 1) as nat, end);
    }
}

// ----------------------------------------------------------------------
// token formation
// ----------------------------------------------------------------------
/// The keyword kind for a scanned word, if the word is a keyword.
pub open spec fn keyword_kind(text: Seq<char>) -> Option<TokenKind> {
    if text == "def"@ {
        Some(TokenKind::Def)
    } else if text == "true"@ {
        Some(TokenKind::True)
    } else if text == "false"@ {
        Some(TokenKind::False)
    } else if text == "null"@ {
        Some(TokenKind::Null)
    } else if text == "return"@ {
        Some(TokenKind::Return)
    } else if text == "if"@ {
        Some(TokenKind::If)
    } else if text == "else"@ {
        Some(TokenKind::Else)
    } else if text == "and"@ {
        Some(TokenKind::And)
    } else if text == "or"@ {
        Some(TokenKind::Or)
    } else if text == "for"@ {
        Some(TokenKind::For)
    } else if text == "in"@ {
        Some(TokenKind::In)
    } else if text == "let"@ {
        Some(TokenKind::Let)
    } else if text == "const"@ {
        Some(TokenKind::Const)
    } else if text == "class"@ {
        Some(TokenKind::Class)
    } else if text == "from"@ {
        Some(TokenKind::From)
    } else if text == "import"@ {
        Some(TokenKind::Import)
    } else if text == "static"@ {
        Some(TokenKind::Static)
    } else {
        None
    }
}

/// The token emitted for a scanned word: its keyword kind takes precedence
/// over the generic identifier classification.
pub open spec fn ident_token(text: Seq<char>, line: nat, column: nat) -> TokenV {
    match keyword_kind(text) {
        Some(kind) => TokenV::Character { kind, line, column },
        None => TokenV::Identifier { value: text, line, column },
    }
}

/// The decoded form of the character following `\` in a string literal.
pub open spec fn escape_of(c: char) -> Option<char> {
    if c == 't' {
        Some('\t')
    } else if c == 'n' {
        Some('\n')
    } else if c == 'r' {
        Some('\r')
    } else if c == '"' {
        Some('"')
    } else if c == '\'' {
        Some('\'')
    } else {
        None
    }
}

/// How many `.` characters a scanned numeric text holds.
pub open spec fn dot_count(s: Seq<char>) -> nat
    decreases s.len(),
{
    if s.len() == 0 {
        0
    } else {
        dot_count(s.drop_last()) + (if s.last() == '.' {
            1nat
        } else {
            0nat
        })
    }
}

/// The value of a digit string read in base 10.
pub open spec fn digits_val(s: Seq<char>) -> nat
    decreases s.len(),
{
    if s.len() == 0 {
        0
    } else {
        (digits_val(s.drop_last()) * 10 + (s.last() as u32 - 48)) as nat
    }
}

/// The token (or fatal error) for a scanned numeric text: more than one
/// `.` is malformed, exactly one makes a decimal, none makes an integer
/// whose value must fit the machine word.
pub open spec fn number_result(text: Seq<char>, line: nat, column: nat) -> Result<
    TokenV,
    LexerErrorV,
> {
    if dot_count(text) > 1 {
        Err(LexerErrorV::UnexpectedToken(text))
    } else if dot_count(text) == 1 {
        Ok(TokenV::Decimal { text, line, column })
    } else if digits_val(text) > usize::MAX {
        Err(LexerErrorV::ParseNumberError(text))
    } else {
        Ok(TokenV::Integer { value: digits_val(text), line, column })
    }
}

/// The kind of a two-character operator, by its two characters.
pub open spec fn two_char_kind(c1: char, c2: char) -> Option<TokenKind> {
    if c1 == '+' && c2 == '+' {
        Some(TokenKind::Increment)
    } else if c1 == '+' && c2 == '=' {
        Some(TokenKind::Addition)
    } else if c1 == '-' && c2 == '-' {
        Some(TokenKind::Decrement)
    } else if c1 == '-' && c2 == '=' {
        Some(TokenKind::Subtraction)
    } else if c1 == '*' && c2 == '=' {
        Some(TokenKind::Multiplication)
    } else if c1 == '/' && c2 == '=' {
        Some(TokenKind::Division)
    } else if c1 == '%' && c2 == '=' {
        Some(TokenKind::Modulation)
    } else if c1 == '=' && c2 == '=' {
        Some(TokenKind::IsEquals)
    } else if c1 == '!' && c2 == '=' {
        Some(TokenKind::NotEquals)
    } else {
        None
    }
}

/// The kind of a single-character token, `Newline` included.
pub open spec fn single_char_kind(c: char) -> Option<TokenKind> {
    if c == '+' {
        Some(TokenKind::Plus)
    } else if c == '-' {
        Some(TokenKind::Minus)
    } else if c == '*' {
        Some(TokenKind::Multiply)
    } else if c == '/' {
        Some(TokenKind::Divide)
    } else if c == '%' {
        Some(TokenKind::Modulo)
    } else if c == '=' {
        Some(TokenKind::Equals)
    } else if c == '!' {
        Some(TokenKind::Not)
    } else if c == '<' {
        Some(TokenKind::LessThan)
    } else if c == '>' {
        Some(TokenKind::GreaterThan)
    } else if c == '(' {
        Some(TokenKind::OpenParen)
    } else if c == ')' {
        Some(TokenKind::CloseParen)
    } else if c == '[' {
        Some(TokenKind::OpenSquareBracket)
    } else if c == ']' {
        Some(TokenKind::CloseSquareBracket)
    } else if c == '{' {
        Some(TokenKind::OpenCurlyBrace)
    } else if c == '}' {
        Some(TokenKind::CloseCurlyBrace)
    } else if c == ':' {
        Some(TokenKind::Colon)
    } else if c == '.' {
        Some(TokenKind::Point)
    } else if c == ',' {
        Some(TokenKind::Comma)
    } else if c == '\n' {
        Some(TokenKind::Newline)
    } else {
        None
    }
}

// ----------------------------------------------------------------------
// string literal bodies
// ----------------------------------------------------------------------
/// Scans a string literal body starting just after the opening quote:
/// yields the decoded text and the index of the closing quote, or the
/// fatal error. A `\` decodes the following character or is fatal; a
/// literal ending before its closing quote is fatal.
pub open spec fn scan_string(src: Seq<char>, i: nat) -> Result<(Seq<char>, nat), LexerErrorV>
    decreases src.len() - i,
{
    if i >= src.len() {
        Err(LexerErrorV::UnexpectedEOF)
    } else if src[i as int] == '"' {
        Ok((Seq::empty(), i))
    } else if src[i as int] == '\\' {
        if i + 1 >= src.len() {
            Err(LexerErrorV::UnexpectedEOF)
        } else {
            match escape_of(src[i as int + 1]) {
                Some(e) => match scan_string(src, (i + 2) as nat) {
                    Ok((rest, end)) => Ok((seq![e] + rest, end)),
                    Err(err) => Err(err),
                },
                None => Err(LexerErrorV::UnexpectedEscapeCharacter(src[i as int + 1])),
            }
        }
    } else {
        match scan_string(src, (i + 1) as nat) {
            Ok((rest, end)) => Ok((seq![src[i as int]] + rest, end)),
            Err(err) => Err(err),
        }
    }
}

/// A successful string scan ends at a closing quote inside the source.
pub proof fn lemma_scan_string_bounds(src: Seq<char>, i: nat)
    ensures
        scan_string(src, i) matches Ok((text, end)) ==> i <= end < src.len() && src[end as int]
            == '"',
    decreases src.len() - i,
{
    if i < src.len() && src[i as int] != '"' {
        if src[i as int] == '\\' {
            if i + 1 < src.len() {
                lemma_scan_string_bounds(src, (i + 2) as nat);
            }
        } else {
            lemma_scan_string_bounds(src, (i + 1) as nat);
        }
    }
}

// ----------------------------------------------------------------------
// the lexing rule set
// ----------------------------------------------------------------------
/// What tokenizing the source from position `pos` (cursor at `line`,
/// `col`) produces: the remaining token sequence ending in one `EOF`
/// token, or the first fatal error. Dispatch priority at each position:
/// two-character operators (maximal munch), single-character tokens,
/// discarded whitespace, line comments, string literals, numeric
/// literals, identifiers/keywords; anything else is fatal.
pub open spec fn spec_lex(src: Seq<char>, pos: nat, line: nat, col: nat) -> Result<
    Seq<TokenV>,
    LexerErrorV,
>
    decreases src.len() - pos,
    via spec_lex_decreases
{
    if pos >= src.len() {
        Ok(seq![TokenV::Character { kind: TokenKind::EOF, line, column: col }])
    } else {
        let c = src[pos as int];
        let two = if pos + 1 < src.len() {
            two_char_kind(c, src[pos as int + 1])
        } else {
            None
        };
        if two is Some {
            let tok = TokenV::Character { kind: two->Some_0, line, column: col };
            match spec_lex(src, (pos + 2) as nat, line, (col + 2) as nat) {
                Ok(rest) => Ok(seq![tok] + rest),
                Err(e) => Err(e),
            }
        } else if single_char_kind(c) is Some {
            let kind = single_char_kind(c)->Some_0;
            let tok = TokenV::Character { kind, line, column: col };
            let next = if kind == TokenKind::Newline {
                ((line + 1) as nat, 0nat)
            } else {
                (line, (col + 1) as nat)
            };
            match spec_lex(src, (pos + 1) as nat, next.0, next.1) {
                Ok(rest) => Ok(seq![tok] + rest),
                Err(e) => Err(e),
            }
        } else if c == ' ' || c == '\r' {
            spec_lex(src, (pos + 1) as nat, line, (col + 1) as nat)
        } else if c == '#' {
            let end = scan_comment(src, pos);
            spec_lex(src, end, line, (col + (end - pos)) as nat)
        } else if c == '"' {
            match scan_string(src, (pos + 1) as nat) {
                Ok((text, endq)) => {
                    let tok = TokenV::StringLiteral { value: text, line, column: col };
                    let next = advance_seq(line, col, src.subrange(pos as int, endq as int + 1));
                    match spec_lex(src, (endq + 1) as nat, next.0, next.1) {
                        Ok(rest) => Ok(seq![tok] + rest),
                        Err(e) => Err(e),
                    }
                },
                Err(e) => Err(e),
            }
        } else if is_digit_char(c) {
            let end = scan_number(src, pos);
            let text = src.subrange(pos as int, end as int);
            match number_result(text, line, col) {
                Ok(tok) => match spec_lex(src, end, line, (col + (end - pos)) as nat) {
                    Ok(rest) => Ok(seq![tok] + rest),
                    Err(e) => Err(e),
                },
                Err(e) => Err(e),
            }
        } else if is_alpha_char(c) {
            let end = scan_ident(src, pos);
            let text = src.subrange(pos as int, end as int);
            let tok = ident_token(text, line, col);
            match spec_lex(src, end, line, (col + (end - pos)) as nat) {
                Ok(rest) => Ok(seq![tok] + rest),
                Err(e) => Err(e),
            }
        } else {
            Err(LexerErrorV::UnexpectedToken(seq![c]))
        }
    }
}

#[via_fn]
proof fn spec_lex_decreases(src: Seq<char>, pos: nat, line: nat, col: nat) {
    if pos < src.len() {
        let c = src[pos as int];
        if c == '#' {
            lemma_scan_comment(src, pos);
        }
        if c == '"' {
            lemma_scan_string_bounds(src, (pos + 1) as nat);
        }
        if is_digit_char(c) {
            lemma_scan_number(src, pos);
        }
        if is_alpha_char(c) {
            lemma_scan_ident(src, pos);
        }
    }
}

/// What tokenizing a whole source text produces.
pub open spec fn spec_tokenize(src: Seq<char>) -> Result<Seq<TokenV>, LexerErrorV> {
    spec_lex(src, 0, 1, 0)
}

// ----------------------------------------------------------------------
// the lexer
// ----------------------------------------------------------------------
/// The lexer: owns the source characters, the cursor (position, line,
/// column) and the tokens produced so far.
pub struct Lexer {
    pub tokens: Vec<Token>,
    pub position: usize,
    pub line: usize,
    pub column: usize,
    pub source: Vec<char>,
}

impl Lexer {
    /// The source text being tokenized.
    pub open spec fn src(&self) -> Seq<char> {
        self.source@
    }

    /// The cursor position, in characters from the start of the source.
    pub open spec fn pos(&self) -> nat {
        self.position as nat
    }

    /// The 1-based line the cursor is on.
    pub open spec fn cur_line(&self) -> nat {
        self.line as nat
    }

    /// The 0-based column the cursor is at.
    pub open spec fn cur_column(&self) -> nat {
        self.column as nat
    }

    /// The cursor stays within the source, and the line and column
    /// counters stay small enough that advancing cannot overflow.
    pub open spec fn wf(&self) -> bool {
        &&& self.position <= self.source@.len()
        &&& self.source@.len() < usize::MAX
        &&& self.column <= self.position
        &&& self.line as int <= 1 + self.position as int
    }

    /// A fresh lexer over `source`, cursor at the start (line 1, column
    /// 0), with no tokens produced yet. The source must leave headroom
    /// for the line counter, which no in-memory text exhausts.
    pub fn new(source: String) -> (r: Lexer)
        requires
            source@.len() < usize::MAX,
        ensures
            r.wf(),
            r.src() == source@,
            r.pos() == 0,
            r.cur_line() == 1,
            r.cur_column() == 0,
            r.tokens@ == Seq::<Token>::empty(),
    {
        Lexer {
            position: 0,
            line: 1,
            column: 0,
            tokens: Vec::new(),
            source: chars_of(source.as_str()),
        }
    }

    /// The character under the cursor, if any.
    fn peek(&self) -> (r: Option<char>)
        requires
            self.wf(),
        ensures
            r == (if self.pos() < self.src().len() {
                Some(self.src()[self.pos() as int])
            } else {
                None::<char>
            }),
    {
        if self.position < self.source.len() {
            Some(self.source[self.position])
        } else {
            None
        }
    }

    /// The character one past the cursor, if any.
    fn peek_ahead(&self) -> (r: Option<char>)
        requires
            self.wf(),
        ensures
            r == (if self.pos() + 1 < self.src().len() {
                Some(self.src()[self.pos() as int + 1])
            } else {
                None::<char>
            }),
    {
        if self.position < self.source.len() && self.position + 1 < self.source.len() {
            Some(self.source[self.position + 1])
        } else {
            None
        }
    }

    /// Whether the cursor has consumed the whole source.
    fn is_end(&self) -> (b: bool)
        ensures
            b == (self.pos() >= self.src().len()),
    {
        self.position >= self.source.len()
    }

    /// Consumes the character under the cursor, advancing the line and
    /// column counters by the newline rule.
    fn next_char(&mut self) -> (c: char)
        requires
            old(self).wf(),
            old(self).pos() < old(self).src().len(),
        ensures
            final(self).wf(),
            c == old(self).src()[old(self).pos() as int],
            final(self).src() == old(self).src(),
            final(self).tokens == old(self).tokens,
            final(self).pos() == old(self).pos() + 1,
            (final(self).cur_line(), final(self).cur_column()) == advance(
                old(self).cur_line(),
                old(self).cur_column(),
                c,
            ),
    {
        let c = self.source[self.position];
        self.position += 1;
        if c != '\n' {
            self.column += 1;
        } else {
            self.line += 1;
            self.column = 0;
        }
        c
    }
}

/// The single character `c`, as an owned string.
fn char_to_string(c: char) -> (s: String)
    ensures
        s@ == seq![c],
{
    let mut v: Vec<char> = Vec::new();
    v.push(c);
    proof {
        assert(v@ =~= seq![c]);
    }
    string_from_chars(&v)
}

/// Decodes the character following `\` in a string literal.
fn escape_character(c: char) -> (r: Option<char>)
    ensures
        r == escape_of(c),
{
    if c == 't' {
        Some('\t')
    } else if c == 'n' {
        Some('\n')
    } else if c == 'r' {
        Some('\r')
    } else if c == '"' {
        Some('"')
    } else if c == '\'' {
        Some('\'')
    } else {
        None
    }
}

/// Classifies a two-character operator.
fn two_char(c1: char, c2: char) -> (r: Option<TokenKind>)
    ensures
        r == two_char_kind(c1, c2),
{
    if c1 == '+' && c2 == '+' {
        Some(TokenKind::Increment)
    } else if c1 == '+' && c2 == '=' {
        Some(TokenKind::Addition)
    } else if c1 == '-' && c2 == '-' {
        Some(TokenKind::Decrement)
    } else if c1 == '-' && c2 == '=' {
        Some(TokenKind::Subtraction)
    } else if c1 == '*' && c2 == '=' {
        Some(TokenKind::Multiplication)
    } else if c1 == '/' && c2 == '=' {
        Some(TokenKind::Division)
    } else if c1 == '%' && c2 == '=' {
        Some(TokenKind::Modulation)
    } else if c1 == '=' && c2 == '=' {
        Some(TokenKind::IsEquals)
    } else if c1 == '!' && c2 == '=' {
        Some(TokenKind::NotEquals)
    } else {
        None
    }
}

/// Classifies a single-character token.
fn single_char(c: char) -> (r: Option<TokenKind>)
    ensures
        r == single_char_kind(c),
{
    if c == '+' {
        Some(TokenKind::Plus)
    } else if c == '-' {
        Some(TokenKind::Minus)
    } else if c == '*' {
        Some(TokenKind::Multiply)
    } else if c == '/' {
        Some(TokenKind::Divide)
    } else if c == '%' {
        Some(TokenKind::Modulo)
    } else if c == '=' {
        Some(TokenKind::Equals)
    } else if c == '!' {
        Some(TokenKind::Not)
    } else if c == '<' {
        Some(TokenKind::LessThan)
    } else if c == '>' {
        Some(TokenKind::GreaterThan)
    } else if c == '(' {
        Some(TokenKind::OpenParen)
    } else if c == ')' {
        Some(TokenKind::CloseParen)
    } else if c == '[' {
        Some(TokenKind::OpenSquareBracket)
    } else if c == ']' {
        Some(TokenKind::CloseSquareBracket)
    } else if c == '{' {
        Some(TokenKind::OpenCurlyBrace)
    } else if c == '}' {
        Some(TokenKind::CloseCurlyBrace)
    } else if c == ':' {
        Some(TokenKind::Colon)
    } else if c == '.' {
        Some(TokenKind::Point)
    } else if c == ',' {
        Some(TokenKind::Comma)
    } else if c == '\n' {
        Some(TokenKind::Newline)
    } else {
        None
    }
}

/// Looks a scanned word up in the keyword table.
fn keyword_lookup(text: &Vec<char>) -> (r: Option<TokenKind>)
    ensures
        r == keyword_kind(text@),
{
    if text_is(text, "def") {
        Some(TokenKind::Def)
    } else if text_is(text, "true") {
        Some(TokenKind::True)
    } else if text_is(text, "false") {
        Some(TokenKind::False)
    } else if text_is(text, "null") {
        Some(TokenKind::Null)
    } else if text_is(text, "return") {
        Some(TokenKind::Return)
    } else if text_is(text, "if") {
        Some(TokenKind::If)
    } else if text_is(text, "else") {
        Some(TokenKind::Else)
    } else if text_is(text, "and") {
        Some(TokenKind::And)
    } else if text_is(text, "or") {
        Some(TokenKind::Or)
    } else if text_is(text, "for") {
        Some(TokenKind::For)
    } else if text_is(text, "in") {
        Some(TokenKind::In)
    } else if text_is(text, "let") {
        Some(TokenKind::Let)
    } else if text_is(text, "const") {
        Some(TokenKind::Const)
    } else if text_is(text, "class") {
        Some(TokenKind::Class)
    } else if text_is(text, "from") {
        Some(TokenKind::From)
    } else if text_is(text, "import") {
        Some(TokenKind::Import)
    } else if text_is(text, "static") {
        Some(TokenKind::Static)
    } else {
        None
    }
}

/// Decodes a digit string to a machine integer, detecting overflow.
fn parse_usize(text: &Vec<char>) -> (r: Option<usize>)
    requires
        forall|i: int| 0 <= i < text@.len() ==> is_digit_char(text@[i]),
    ensures
        match r {
            Some(v) => v as nat == digits_val(text@),
            None => digits_val(text@) > usize::MAX,
        },
{
    let mut acc: usize = 0;
    let mut i: usize = 0;
    while i < text.len()
        invariant
            0 <= i <= text@.len(),
            forall|j: int| 0 <= j < text@.len() ==> is_digit_char(text@[j]),
            acc as nat == digits_val(text@.subrange(0, i as int)),
        decreases text@.len() - i,
    {
        let d = (text[i] as u32 - 48) as usize;
        proof {
            assert(text@.subrange(0, i + 1).drop_last() =~= text@.subrange(0, i as int));
            assert(text@.subrange(0, i + 1).last() == text@[i as int]);
        }
        if acc > (usize::MAX - d) / 10 {
            proof {
                assert(acc * 10 + d > usize::MAX) by (nonlinear_arith)
                    requires
                        acc > (usize::MAX - d) / 10,
                        d <= 9,
                ;
                lemma_digits_val_grows(text@, (i + 1) as nat);
            }
            return None;
        }
        proof {
            assert(acc * 10 + d <= usize::MAX) by (nonlinear_arith)
                requires
                    acc <= (usize::MAX - d) / 10,
                    d <= 9,
            ;
        }
        acc = acc * 10 + d;
        i += 1;
    }
    proof {
        assert(text@.subrange(0, text@.len() as int) =~= text@);
    }
    Some(acc)
}

/// The value of a digit string only grows as more digits are read.
proof fn lemma_digits_val_grows(s: Seq<char>, i: nat)
    requires
        i <= s.len(),
        forall|j: int| 0 <= j < s.len() ==> is_digit_char(s[j]),
    ensures
        digits_val(s) >= digits_val(s.subrange(0, i as int)),
    decreases s.len() - i,
{
    if i < s.len() {
        lemma_digits_val_grows(s, (i + 1) as nat);
        let a = s.subrange(0, i as int);
        let b = s.subrange(0, i as int + 1);
        assert(b.drop_last() =~= a);
        assert(digits_val(b) >= digits_val(a) * 10) by (nonlinear_arith)
            requires
                digits_val(b) == digits_val(a) * 10 + (b.last() as u32 - 48),
                is_digit_char(b.last()),
        ;
        assert(digits_val(a) * 10 >= digits_val(a)) by (nonlinear_arith);
    } else {
        assert(s.subrange(0, i as int) =~= s);
    }
}

/// A numeric text without `.` characters consists of digits only.
proof fn lemma_dot_count_zero(s: Seq<char>)
    requires
        dot_count(s) == 0,
    ensures
        forall|i: int| 0 <= i < s.len() ==> s[i] != '.',
    decreases s.len(),
{
    if s.len() > 0 {
        lemma_dot_count_zero(s.drop_last());
        assert(forall|i: int| 0 <= i < s.len() ==> s[i] == (if i < s.len() - 1 {
            s.drop_last()[i]
        } else {
            s.last()
        }));
    }
}

impl Lexer {
    /// Scans an identifier or keyword starting at the cursor (which must
    /// sit on a letter) and forms its token; a keyword kind takes
    /// precedence over the generic identifier classification.
    fn tokenize_ident(&mut self) -> (t: Token)
        requires
            old(self).wf(),
            old(self).pos() < old(self).src().len(),
            is_alpha_char(old(self).src()[old(self).pos() as int]),
        ensures
            final(self).wf(),
            final(self).src() == old(self).src(),
            final(self).tokens == old(self).tokens,
            final(self).pos() == scan_ident(old(self).src(), old(self).pos()),
            final(self).cur_line() == old(self).cur_line(),
            final(self).cur_column() == old(self).cur_column() + (final(self).pos()
                - old(self).pos()),
            t@ == ident_token(
                old(self).src().subrange(old(self).pos() as int, final(self).pos() as int),
                old(self).cur_line(),
                old(self).cur_column(),
            ),
    {
        let line = self.line;
        let column = self.column;
        let ghost pos0 = self.pos();
        let ghost src = self.src();
        let mut text: Vec<char> = Vec::new();
        loop
            invariant
                self.wf(),
                self.src() == src,
                self.tokens == old(self).tokens,
                pos0 <= self.pos() <= src.len(),
                self.cur_line() == old(self).cur_line(),
                self.cur_column() == old(self).cur_column() + (self.pos() - pos0),
                text@ == src.subrange(pos0 as int, self.pos() as int),
                forall|i: int| pos0 <= i < self.pos() ==> is_ident_char(src[i]),
            ensures
                self.pos() >= src.len() || !is_ident_char(src[self.pos() as int]),
            decreases src.len() - self.pos(),
        {
            if self.position >= self.source.len() {
                break;
            }
            let c = self.source[self.position];
            if !ident_char(c) {
                break;
            }
            let c2 = self.next_char();
            text.push(c2);
            proof {
                assert(text@ =~= src.subrange(pos0 as int, self.pos() as int));
            }
        }
        proof {
            lemma_scan_ident_exact(src, pos0, self.pos());
        }
        match keyword_lookup(&text) {
            Some(kind) => Token::Character(Character { kind, line, column }),
            None => Token::Identifier(
                Identifier { value: string_from_chars(&text), line, column },
            ),
        }
    }

    /// Scans a numeric literal starting at the cursor (which must sit on
    /// a digit) and forms its token: more than one `.` or an integer too
    /// large for the machine word is fatal.
    fn tokenize_number(&mut self) -> (r: Result<Token, LexerError>)
        requires
            old(self).wf(),
            old(self).pos() < old(self).src().len(),
            is_digit_char(old(self).src()[old(self).pos() as int]),
        ensures
            final(self).wf(),
            final(self).src() == old(self).src(),
            final(self).tokens == old(self).tokens,
            ({
                let end = scan_number(old(self).src(), old(self).pos());
                let text = old(self).src().subrange(old(self).pos() as int, end as int);
                match r {
                    Ok(t) => {
                        &&& number_result(text, old(self).cur_line(), old(self).cur_column())
                            == Ok::<TokenV, LexerErrorV>(t@)
                        &&& final(self).pos() == end
                        &&& final(self).cur_line() == old(self).cur_line()
                        &&& final(self).cur_column() == old(self).cur_column() + (end - old(
                            self,
                        ).pos())
                    },
                    Err(e) => number_result(text, old(self).cur_line(), old(self).cur_column())
                        == Err::<TokenV, LexerErrorV>(e@),
                }
            }),
    {
        let line = self.line;
        let column = self.column;
        let ghost pos0 = self.pos();
        let ghost src = self.src();
        let mut text: Vec<char> = Vec::new();
        let mut dots: usize = 0;
        loop
            invariant
                self.wf(),
                self.src() == src,
                self.tokens == old(self).tokens,
                pos0 <= self.pos() <= src.len(),
                self.cur_line() == old(self).cur_line(),
                self.cur_column() == old(self).cur_column() + (self.pos() - pos0),
                text@ == src.subrange(pos0 as int, self.pos() as int),
                forall|i: int| pos0 <= i < self.pos() ==> is_number_char(src[i]),
                dots as nat == dot_count(text@),
                dots <= text@.len(),
            ensures
                self.pos() >= src.len() || !is_number_char(src[self.pos() as int]),
            decreases src.len() - self.pos(),
        {
            if self.position >= self.source.len() {
                break;
            }
            let c = self.source[self.position];
            if !number_char(c) {
                break;
            }
            let ghost text_before = text@;
            let c2 = self.next_char();
            text.push(c2);
            if c2 == '.' {
                dots += 1;
            }
            proof {
                assert(text@.drop_last() =~= text_before);
                assert(text@ =~= src.subrange(pos0 as int, self.pos() as int));
            }
        }
        proof {
            lemma_scan_number_exact(src, pos0, self.pos());
        }
        if dots > 1 {
            return Err(LexerError::UnexpectedToken(string_from_chars(&text)));
        }
        if dots == 1 {
            return Ok(
                Token::Decimal(Decimal { text: string_from_chars(&text), line, column }),
            );
        }
        proof {
            lemma_dot_count_zero(text@);
        }
        match parse_usize(&text) {
            Some(v) => Ok(Token::Integer(Integer { value: v, line, column })),
            None => Err(LexerError::ParseNumberError(string_from_chars(&text))),
        }
    }

    /// Discards a line comment: every character from the `#` under the
    /// cursor up to (but excluding) the next line break.
    fn parse_comment(&mut self)
        requires
            old(self).wf(),
            old(self).pos() < old(self).src().len(),
            old(self).src()[old(self).pos() as int] == '#',
        ensures
            final(self).wf(),
            final(self).src() == old(self).src(),
            final(self).tokens == old(self).tokens,
            final(self).pos() == scan_comment(old(self).src(), old(self).pos()),
            final(self).cur_line() == old(self).cur_line(),
            final(self).cur_column() == old(self).cur_column() + (final(self).pos()
                - old(self).pos()),
    {
        let ghost pos0 = self.pos();
        let ghost src = self.src();
        loop
            invariant
                self.wf(),
                self.src() == src,
                self.tokens == old(self).tokens,
                pos0 <= self.pos() <= src.len(),
                self.cur_line() == old(self).cur_line(),
                self.cur_column() == old(self).cur_column() + (self.pos() - pos0),
                forall|i: int| pos0 <= i < self.pos() ==> is_comment_char(src[i]),
            ensures
                self.pos() >= src.len() || !is_comment_char(src[self.pos() as int]),
            decreases src.len() - self.pos(),
        {
            if self.position >= self.source.len() {
                break;
            }
            let c = self.source[self.position];
            if !comment_char(c) {
                break;
            }
            self.next_char();
        }
        proof {
            lemma_scan_comment_exact(src, pos0, self.pos());
        }
    }

    /// Scans a string literal starting at the cursor (which must sit on
    /// the opening quote): characters are taken verbatim, `\` decodes the
    /// following character, and a missing closing quote or an unsupported
    /// escape is fatal.
    fn tokenize_string_literal(&mut self) -> (r: Result<StringLiteral, LexerError>)
        requires
            old(self).wf(),
            old(self).pos() < old(self).src().len(),
            old(self).src()[old(self).pos() as int] == '"',
        ensures
            final(self).wf(),
            final(self).src() == old(self).src(),
            final(self).tokens == old(self).tokens,
            ({
                let scanned = scan_string(old(self).src(), (old(self).pos() + 1) as nat);
                match r {
                    Ok(t) => {
                        &&& scanned matches Ok(sc)
                        &&& t.value@ == scanned->Ok_0.0
                        &&& t.line as nat == old(self).cur_line()
                        &&& t.column as nat == old(self).cur_column()
                        &&& final(self).pos() == scanned->Ok_0.1 + 1
                        &&& (final(self).cur_line(), final(self).cur_column()) == advance_seq(
                            old(self).cur_line(),
                            old(self).cur_column(),
                            old(self).src().subrange(
                                old(self).pos() as int,
                                scanned->Ok_0.1 as int + 1,
                            ),
                        )
                    },
                    Err(e) => scanned matches Err(ev) && e@ == ev,
                }
            }),
    {
        let line = self.line;
        let column = self.column;
        let ghost pos0 = self.pos();
        let ghost src = self.src();
        let ghost line0 = self.cur_line();
        let ghost col0 = self.cur_column();
        self.next_char();
        proof {
            assert(src.subrange(pos0 as int, pos0 as int + 1) =~= Seq::<char>::empty().push(
                src[pos0 as int],
            ));
            lemma_advance_seq_push(line0, col0, Seq::<char>::empty(), src[pos0 as int]);
        }
        let mut text: Vec<char> = Vec::new();
        loop
            invariant
                self.wf(),
                src == old(self).src(),
                pos0 == old(self).pos(),
                line0 == old(self).cur_line(),
                col0 == old(self).cur_column(),
                self.src() == src,
                self.tokens == old(self).tokens,
                pos0 < self.pos() <= src.len(),
                (self.cur_line(), self.cur_column()) == advance_seq(
                    line0,
                    col0,
                    src.subrange(pos0 as int, self.pos() as int),
                ),
                scan_string(src, (pos0 + 1) as nat) == (match scan_string(src, self.pos()) {
                    Ok((rest, end)) => Ok::<(Seq<char>, nat), LexerErrorV>((text@ + rest, end)),
                    Err(e) => Err(e),
                }),
            ensures
                self.pos() < src.len() && src[self.pos() as int] == '"',
            decreases src.len() - self.pos(),
        {
            if self.position >= self.source.len() {
                return Err(LexerError::UnexpectedEOF);
            }
            let c = self.source[self.position];
            if c == '"' {
                break;
            }
            let ghost p = self.pos();
            let ghost text_before = text@;
            if c == '\\' {
                if self.position + 1 >= self.source.len() {
                    return Err(LexerError::UnexpectedEOF);
                }
                let e = self.source[self.position + 1];
                match escape_character(e) {
                    Some(d) => {
                        self.next_char();
                        proof {
                            assert(src.subrange(pos0 as int, p as int + 1) =~= src.subrange(
                                pos0 as int,
                                p as int,
                            ).push(src[p as int]));
                            lemma_advance_seq_push(
                                line0,
                                col0,
                                src.subrange(pos0 as int, p as int),
                                src[p as int],
                            );
                        }
                        self.next_char();
                        text.push(d);
                        proof {
                            assert(src.subrange(pos0 as int, p as int + 2) =~= src.subrange(
                                pos0 as int,
                                p as int + 1,
                            ).push(src[p as int + 1]));
                            lemma_advance_seq_push(
                                line0,
                                col0,
                                src.subrange(pos0 as int, p as int + 1),
                                src[p as int + 1],
                            );
                            let s1 = scan_string(src, (p + 2) as nat);
                            if s1 is Ok {
                                let rest = s1->Ok_0.0;
                                assert(text_before + (seq![d] + rest) =~= text@ + rest);
                            }
                        }
                    },
                    None => {
                        return Err(LexerError::UnexpectedEscapeCharacter(e));
                    },
                }
            } else {
                let d = self.next_char();
                text.push(d);
                proof {
                    assert(src.subrange(pos0 as int, p as int + 1) =~= src.subrange(
                        pos0 as int,
                        p as int,
                    ).push(src[p as int]));
                    lemma_advance_seq_push(
                        line0,
                        col0,
                        src.subrange(pos0 as int, p as int),
                        src[p as int],
                    );
                    let s1 = scan_string(src, (p + 1) as nat);
                    if s1 is Ok {
                        let rest = s1->Ok_0.0;
                        assert(text_before + (seq![d] + rest) =~= text@ + rest);
                    }
                }
            }
        }
        // the cursor sits on the closing quote
        let ghost endq = self.pos();
        self.next_char();
        proof {
            assert(text@ + Seq::<char>::empty() =~= text@);
            assert(src.subrange(pos0 as int, endq as int + 1) =~= src.subrange(
                pos0 as int,
                endq as int,
            ).push(src[endq as int]));
            lemma_advance_seq_push(line0, col0, src.subrange(pos0 as int, endq as int), src[
                endq as int
            ]);
        }
        Ok(StringLiteral { value: string_from_chars(&text), line, column })
    }
}

// ----------------------------------------------------------------------
// laws of the token stream
// ----------------------------------------------------------------------
/// Every token stream the lexing rules produce ends with exactly one
/// `EOF` token — one at the end, and none anywhere before it — and every
/// token in it is well-formed: none claims a literal kind without its
/// payload.
pub proof fn lemma_lex_ends_eof(src: Seq<char>, pos: nat, line: nat, col: nat)
    ensures
        spec_lex(src, pos, line, col) matches Ok(ts) ==> {
            &&& ts.len() >= 1
            &&& ts.last().kind() == TokenKind::EOF
            &&& forall|i: int| 0 <= i < ts.len() - 1 ==> (#[trigger] ts[i].kind()) != TokenKind::EOF
            &&& forall|i: int| 0 <= i < ts.len() ==> (#[trigger] ts[i]).wf()
        },
    decreases src.len() - pos,
{
    if pos >= src.len() {
    } else {
        let c = src[pos as int];
        let two = if pos + 1 < src.len() {
            two_char_kind(c, src[pos as int + 1])
        } else {
            None
        };
        if two is Some {
            lemma_lex_ends_eof(src, (pos + 2) as nat, line, (col + 2) as nat);
        } else if single_char_kind(c) is Some {
            let kind = single_char_kind(c)->Some_0;
            let next = if kind == TokenKind::Newline {
                ((line + 1) as nat, 0nat)
            } else {
                (line, (col + 1) as nat)
            };
            lemma_lex_ends_eof(src, (pos + 1) as nat, next.0, next.1);
        } else if c == ' ' || c == '\r' {
            lemma_lex_ends_eof(src, (pos + 1) as nat, line, (col + 1) as nat);
        } else if c == '#' {
            lemma_scan_comment(src, pos);
            let end = scan_comment(src, pos);
            lemma_lex_ends_eof(src, end, line, (col + (end - pos)) as nat);
        } else if c == '"' {
            lemma_scan_string_bounds(src, (pos + 1) as nat);
            if scan_string(src, (pos + 1) as nat) is Ok {
                let endq = scan_string(src, (pos + 1) as nat)->Ok_0.1;
                let next = advance_seq(line, col, src.subrange(pos as int, endq as int + 1));
                lemma_lex_ends_eof(src, (endq + 1) as nat, next.0, next.1);
            }
        } else if is_digit_char(c) {
            lemma_scan_number(src, pos);
            let end = scan_number(src, pos);
            lemma_lex_ends_eof(src, end, line, (col + (end - pos)) as nat);
        } else if is_alpha_char(c) {
            lemma_scan_ident(src, pos);
            let end = scan_ident(src, pos);
            lemma_lex_ends_eof(src, end, line, (col + (end - pos)) as nat);
        }
    }
}

/// Maximal munch: where a two-character operator starts, the lexing rules
/// emit that one token and continue past both characters, never two
/// single-character tokens.
pub proof fn lemma_maximal_munch(src: Seq<char>, pos: nat, line: nat, col: nat)
    requires
        pos + 1 < src.len(),
        two_char_kind(src[pos as int], src[pos as int + 1]) is Some,
    ensures
        spec_lex(src, pos, line, col) == lex_prepend(
            seq![
                TokenV::Character {
                    kind: two_char_kind(src[pos as int], src[pos as int + 1])->Some_0,
                    line,
                    column: col,
                },
            ],
            spec_lex(src, (pos + 2) as nat, line, (col + 2) as nat),
        ),
{
}

/// A line comment contributes no tokens: lexing at its `#` continues at
/// the line break that ends it, only the column moved.
pub proof fn lemma_comment_skipped(src: Seq<char>, pos: nat, line: nat, col: nat)
    requires
        pos < src.len(),
        src[pos as int] == '#',
    ensures
        spec_lex(src, pos, line, col) == spec_lex(
            src,
            scan_comment(src, pos),
            line,
            (col + (scan_comment(src, pos) - pos)) as nat,
        ),
{
    lemma_scan_comment(src, pos);
}

/// A single-character operator or punctuation input tokenizes to exactly
/// two tokens: the corresponding kind, then `EOF`.
pub proof fn lemma_single_char_token(c: char)
    requires
        single_char_kind(c) is Some,
    ensures
        spec_tokenize(seq![c]) == Ok::<Seq<TokenV>, LexerErrorV>(
            seq![
                TokenV::Character { kind: single_char_kind(c)->Some_0, line: 1, column: 0 },
                TokenV::Character {
                    kind: TokenKind::EOF,
                    line: if c == '\n' { 2nat } else { 1nat },
                    column: if c == '\n' { 0nat } else { 1nat },
                },
            ],
        ),
{
    let src = seq![c];
    let kind = single_char_kind(c)->Some_0;
    assert(src.len() == 1 && src[0] == c);
    let next: (nat, nat) = if kind == TokenKind::Newline {
        (2nat, 0nat)
    } else {
        (1nat, 1nat)
    };
    assert(spec_lex(src, 1, next.0, next.1) == Ok::<Seq<TokenV>, LexerErrorV>(
        seq![TokenV::Character { kind: TokenKind::EOF, line: next.0, column: next.1 }],
    ));
    assert(kind == TokenKind::Newline <==> c == '\n');
    let tok = TokenV::Character { kind, line: 1, column: 0 };
    let eof = TokenV::Character {
        kind: TokenKind::EOF,
        line: if c == '\n' { 2nat } else { 1nat },
        column: if c == '\n' { 0nat } else { 1nat },
    };
    assert(seq![tok] + seq![eof] =~= seq![tok, eof]);
}

/// A word made of identifier characters tokenizes to its word token
/// (keyword kind, or identifier), then `EOF`.
proof fn lemma_lex_word(text: Seq<char>)
    requires
        text.len() > 0,
        is_alpha_char(text[0]),
        forall|i: int| 0 <= i < text.len() ==> is_ident_char(#[trigger] text[i]),
    ensures
        spec_tokenize(text) == Ok::<Seq<TokenV>, LexerErrorV>(
            seq![
                ident_token(text, 1, 0),
                TokenV::Character { kind: TokenKind::EOF, line: 1, column: text.len() },
            ],
        ),
{
    let c = text[0];
    assert(two_char_kind(c, if text.len() > 1 { text[1] } else { c }) is None);
    assert(single_char_kind(c) is None);
    assert(!is_digit_char(c));
    assert(c != ' ' && c != '\r' && c != '#' && c != '"');
    lemma_scan_ident_exact(text, 0, text.len());
    assert(text.subrange(0, text.len() as int) =~= text);
    assert(spec_lex(text, text.len(), 1, text.len()) == Ok::<Seq<TokenV>, LexerErrorV>(
        seq![TokenV::Character { kind: TokenKind::EOF, line: 1, column: text.len() }],
    ));
    let tok = ident_token(text, 1, 0);
    let eof = TokenV::Character { kind: TokenKind::EOF, line: 1, column: text.len() };
    assert(seq![tok] + seq![eof] =~= seq![tok, eof]);
}

/// Keyword precedence: keyword text always tokenizes as its keyword kind,
/// never as a generic `Identifier`, although it matches the identifier
/// scan rule.
pub proof fn lemma_keyword_precedence(text: Seq<char>)
    requires
        keyword_kind(text) is Some,
    ensures
        spec_tokenize(text) == Ok::<Seq<TokenV>, LexerErrorV>(
            seq![
                TokenV::Character { kind: keyword_kind(text)->Some_0, line: 1, column: 0 },
                TokenV::Character { kind: TokenKind::EOF, line: 1, column: text.len() },
            ],
        ),
        !(spec_tokenize(text)->Ok_0[0] is Identifier),
{
    reveal_strlit("def");
    reveal_strlit("true");
    reveal_strlit("false");
    reveal_strlit("null");
    reveal_strlit("return");
    reveal_strlit("if");
    reveal_strlit("else");
    reveal_strlit("and");
    reveal_strlit("or");
    reveal_strlit("for");
    reveal_strlit("in");
    reveal_strlit("let");
    reveal_strlit("const");
    reveal_strlit("class");
    reveal_strlit("from");
    reveal_strlit("import");
    reveal_strlit("static");
    assert(text.len() > 0 && is_alpha_char(text[0]) && forall|i: int|
        0 <= i < text.len() ==> is_ident_char(#[trigger] text[i]));
    lemma_lex_word(text);
}


/// Prepends already-produced tokens to the outcome of lexing the rest.
pub open spec fn lex_prepend(ts: Seq<TokenV>, r: Result<Seq<TokenV>, LexerErrorV>) -> Result<
    Seq<TokenV>,
    LexerErrorV,
> {
    match r {
        Ok(rest) => Ok(ts + rest),
        Err(e) => Err(e),
    }
}

proof fn lemma_prepend_step(news: Seq<TokenV>, t: TokenV, r: Result<Seq<TokenV>, LexerErrorV>)
    ensures
        lex_prepend(news, lex_prepend(seq![t], r)) == lex_prepend(news.push(t), r),
{
    match r {
        Ok(rest) => {
            assert(news + (seq![t] + rest) =~= news.push(t) + rest);
        },
        Err(_) => {},
    }
}

proof fn lemma_token_views_push(ts: Seq<Token>, t: Token, n: int)
    requires
        0 <= n <= ts.len(),
    ensures
        token_views(ts.push(t).skip(n)) == token_views(ts.skip(n)).push(t@),
        ts.push(t).subrange(0, n) == ts.subrange(0, n),
{
    assert(ts.push(t).skip(n) =~= ts.skip(n).push(t));
    assert(token_views(ts.skip(n).push(t)) =~= token_views(ts.skip(n)).push(t@));
    assert(ts.push(t).subrange(0, n) =~= ts.subrange(0, n));
}

impl Lexer {
    /// Tokenizes the source from the cursor to its end, appending the
    /// produced tokens, which end in exactly one `EOF` token; the first
    /// fatal condition aborts the call with exactly the error that
    /// `spec_lex` names, discarding the tokens this call had produced.
    pub fn tokenize(&mut self) -> (r: Result<(), LexerError>)
        requires
            old(self).wf(),
        ensures
            final(self).wf(),
            final(self).src() == old(self).src(),
            match r {
                Ok(()) => {
                    &&& final(self).tokens@.len() >= old(self).tokens@.len()
                    &&& final(self).tokens@.subrange(0, old(self).tokens@.len() as int) == old(
                        self,
                    ).tokens@
                    &&& spec_lex(
                        old(self).src(),
                        old(self).pos(),
                        old(self).cur_line(),
                        old(self).cur_column(),
                    ) == Ok::<Seq<TokenV>, LexerErrorV>(
                        token_views(
                            final(self).tokens@.skip(old(self).tokens@.len() as int),
                        ),
                    )
                    &&& final(self).pos() == final(self).src().len()
                },
                Err(e) => {
                    &&& spec_lex(
                        old(self).src(),
                        old(self).pos(),
                        old(self).cur_line(),
                        old(self).cur_column(),
                    ) == Err::<Seq<TokenV>, LexerErrorV>(e@)
                    &&& final(self).tokens@ == old(self).tokens@
                },
            },
    {
        let kept = self.tokens.len();
        let ghost src = self.src();
        let ghost n0 = self.tokens@.len() as int;
        let ghost pos_0 = self.pos();
        let ghost line_0 = self.cur_line();
        let ghost col_0 = self.cur_column();
        while !self.is_end()
            invariant
                self.wf(),
                src == old(self).src(),
                n0 == old(self).tokens@.len() as int,
                kept as int == n0,
                pos_0 == old(self).pos(),
                line_0 == old(self).cur_line(),
                col_0 == old(self).cur_column(),
                self.src() == src,
                self.tokens@.len() >= n0,
                self.tokens@.subrange(0, n0) == old(self).tokens@,
                spec_lex(src, pos_0, line_0, col_0) == lex_prepend(
                    token_views(self.tokens@.skip(n0)),
                    spec_lex(src, self.pos(), self.cur_line(), self.cur_column()),
                ),
            decreases src.len() - self.pos(),
        {
            let c = match self.peek() {
                Some(c) => c,
                None => {
                    self.tokens.truncate(kept);
                    return Err(LexerError::UnexpectedEOF);
                },
            };
            let ghost p = self.pos();
            let ghost l = self.cur_line();
            let ghost cc = self.cur_column();
            let ghost toks_before = self.tokens@;
            let ghost news_before = token_views(self.tokens@.skip(n0));
            let two: Option<TokenKind> = match self.peek_ahead() {
                Some(c2) => two_char(c, c2),
                None => None,
            };
            match two {
                Some(kind) => {
                    let tok = Token::Character(
                        Character { kind, line: self.line, column: self.column },
                    );
                    self.tokens.push(tok);
                    self.position += 2;
                    self.column += 2;
                    proof {
                        lemma_token_views_push(toks_before, tok, n0);
                        assert(spec_lex(src, p, l, cc) == lex_prepend(
                            seq![tok@],
                            spec_lex(src, self.pos(), self.cur_line(), self.cur_column()),
                        ));
                        lemma_prepend_step(
                            news_before,
                            tok@,
                            spec_lex(src, self.pos(), self.cur_line(), self.cur_column()),
                        );
                    }
                },
                None => {
                    match single_char(c) {
                        Some(kind) => {
                            let tok = Token::Character(
                                Character { kind, line: self.line, column: self.column },
                            );
                            self.tokens.push(tok);
                            self.position += 1;
                            if kind == TokenKind::Newline {
                                self.line += 1;
                                self.column = 0;
                            } else {
                                self.column += 1;
                            }
                            proof {
                                lemma_token_views_push(toks_before, tok, n0);
                                assert(spec_lex(src, p, l, cc) == lex_prepend(
                                    seq![tok@],
                                    spec_lex(
                                        src,
                                        self.pos(),
                                        self.cur_line(),
                                        self.cur_column(),
                                    ),
                                ));
                                lemma_prepend_step(
                                    news_before,
                                    tok@,
                                    spec_lex(src, self.pos(), self.cur_line(), self.cur_column()),
                                );
                            }
                        },
                        None => {
                            if c == ' ' || c == '\r' {
                                self.position += 1;
                                self.column += 1;
                                proof {
                                    assert(spec_lex(src, p, l, cc) == spec_lex(
                                        src,
                                        self.pos(),
                                        self.cur_line(),
                                        self.cur_column(),
                                    ));
                                }
                            } else if c == '#' {
                                self.parse_comment();
                                proof {
                                    lemma_scan_comment(src, p);
                                    assert(spec_lex(src, p, l, cc) == spec_lex(
                                        src,
                                        self.pos(),
                                        self.cur_line(),
                                        self.cur_column(),
                                    ));
                                }
                            } else if c == '"' {
                                match self.tokenize_string_literal() {
                                    Ok(t) => {
                                        let tok = Token::StringLiteral(t);
                                        self.tokens.push(tok);
                                        proof {
                                            lemma_scan_string_bounds(src, (p + 1) as nat);
                                            lemma_token_views_push(toks_before, tok, n0);
                                            assert(spec_lex(src, p, l, cc) == lex_prepend(
                                                seq![tok@],
                                                spec_lex(
                                                    src,
                                                    self.pos(),
                                                    self.cur_line(),
                                                    self.cur_column(),
                                                ),
                                            ));
                                            lemma_prepend_step(
                                                news_before,
                                                tok@,
                                                spec_lex(
                                                    src,
                                                    self.pos(),
                                                    self.cur_line(),
                                                    self.cur_column(),
                                                ),
                                            );
                                        }
                                    },
                                    Err(e) => {
                                        self.tokens.truncate(kept);
                                        proof {
                                            assert(self.tokens@ == old(self).tokens@);
                                            assert(spec_lex(src, p, l, cc)
                                                == Err::<Seq<TokenV>, LexerErrorV>(e@));
                                        }
                                        return Err(e);
                                    },
                                }
                            } else if digit_char(c) {
                                match self.tokenize_number() {
                                    Ok(t) => {
                                        self.tokens.push(t);
                                        proof {
                                            lemma_scan_number(src, p);
                                            lemma_token_views_push(toks_before, t, n0);
                                            assert(spec_lex(src, p, l, cc) == lex_prepend(
                                                seq![t@],
                                                spec_lex(
                                                    src,
                                                    self.pos(),
                                                    self.cur_line(),
                                                    self.cur_column(),
                                                ),
                                            ));
                                            lemma_prepend_step(
                                                news_before,
                                                t@,
                                                spec_lex(
                                                    src,
                                                    self.pos(),
                                                    self.cur_line(),
                                                    self.cur_column(),
                                                ),
                                            );
                                        }
                                    },
                                    Err(e) => {
                                        self.tokens.truncate(kept);
                                        proof {
                                            assert(self.tokens@ == old(self).tokens@);
                                            assert(spec_lex(src, p, l, cc)
                                                == Err::<Seq<TokenV>, LexerErrorV>(e@));
                                        }
                                        return Err(e);
                                    },
                                }
                            } else if alpha_char(c) {
                                let t = self.tokenize_ident();
                                self.tokens.push(t);
                                proof {
                                    lemma_scan_ident(src, p);
                                    lemma_token_views_push(toks_before, t, n0);
                                    assert(spec_lex(src, p, l, cc) == lex_prepend(
                                        seq![t@],
                                        spec_lex(
                                            src,
                                            self.pos(),
                                            self.cur_line(),
                                            self.cur_column(),
                                        ),
                                    ));
                                    lemma_prepend_step(
                                        news_before,
                                        t@,
                                        spec_lex(src, self.pos(), self.cur_line(), self.cur_column()),
                                    );
                                }
                            } else {
                                let msg = char_to_string(c);
                                self.tokens.truncate(kept);
                                proof {
                                    assert(self.tokens@ == old(self).tokens@);
                                    assert(spec_lex(src, p, l, cc)
                                        == Err::<Seq<TokenV>, LexerErrorV>(
                                        LexerErrorV::UnexpectedToken(seq![c]),
                                    ));
                                }
                                return Err(LexerError::UnexpectedToken(msg));
                            }
                        },
                    }
                },
            }
        }
        let ghost toks_before = self.tokens@;
        let ghost news_before = token_views(self.tokens@.skip(n0));
        let eof = Token::Character(
            Character { kind: TokenKind::EOF, line: self.line, column: self.column },
        );
        self.tokens.push(eof);
        proof {
            lemma_token_views_push(toks_before, eof, n0);
            assert(spec_lex(src, self.pos(), self.cur_line(), self.cur_column())
                == Ok::<Seq<TokenV>, LexerErrorV>(seq![eof@]));
            assert(news_before + seq![eof@] =~= news_before.push(eof@));
        }
        Ok(())
    }
}

} // verus!

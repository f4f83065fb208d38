//! The token data model: token kinds, tokens, and lexical error records.

use vstd::prelude::*;
use vstd::string::StringExecFns;

verus! {

/// The classification of a scanned lexeme.  Every lexeme maps to exactly
/// one kind; keyword lexemes never produce `Identifier`.
#[derive(Clone, Copy, PartialEq, Eq, Structural, Debug)]
pub enum TokenKind {
    // Single-character punctuation.
    LeftParen,
    RightParen,
    LeftBrace,
    RightBrace,
    Comma,
    Dot,
    Minus,
    Plus,
    Semicolon,
    Star,
    // One-or-two-character operators.
    Bang,
    BangEqual,
    Equal,
    EqualEqual,
    Less,
    LessEqual,
    Greater,
    GreaterEqual,
    Slash,
    // Literals.
    StringLit,
    Number,
    Identifier,
    // Reserved keywords.
    And,
    Class,
    Else,
    False,
    Fun,
    For,
    If,
    Nil,
    Or,
    Print,
    Return,
    Super,
    This,
    True,
    Var,
    While,
    // Terminal marker, appended once at the end of every scan.
    Eof,
}

/// The mathematical value of a [`Token`]: its kind, the exact source
/// substring it was recognized from, its extracted literal value (empty
/// for non-literal tokens), and the 1-based line of its first character.
#[verifier::ext_equal]
pub ghost struct TokenModel {
    pub kind: TokenKind,
    pub lexeme: Seq<char>,
    pub literal: Seq<char>,
    pub line: int,
}

/// An immutable token record.  `lexeme` is the exact source substring
/// consumed; `literal` holds the extracted value for `StringLit`
/// (contents between the quotes) and `Number` (the matched digit
/// sequence) and is empty for all other kinds; `line` is the 1-based
/// line on which the token's first character appears.
pub struct Token {
    pub kind: TokenKind,
    pub lexeme: String,
    pub literal: String,
    pub line: usize,
}

impl View for Token {
    type V = TokenModel;

    open spec fn view(&self) -> TokenModel {
        TokenModel {
            kind: self.kind,
            lexeme: self.lexeme@,
            literal: self.literal@,
            line: self.line as int,
        }
    }
}

impl DeepView for Token {
    type V = TokenModel;

    open spec fn deep_view(&self) -> TokenModel {
        self.view()
    }
}

/// The name of a token kind, as carried by [`Token::to_string`].
pub open spec fn kind_name(k: TokenKind) -> Seq<char> {
    match k {
        TokenKind::LeftParen => "LEFT_PAREN"@,
        TokenKind::RightParen => "RIGHT_PAREN"@,
        TokenKind::LeftBrace => "LEFT_BRACE"@,
        TokenKind::RightBrace => "RIGHT_BRACE"@,
        TokenKind::Comma => "COMMA"@,
        TokenKind::Dot => "DOT"@,
        TokenKind::Minus => "MINUS"@,
        TokenKind::Plus => "PLUS"@,
        TokenKind::Semicolon => "SEMICOLON"@,
        TokenKind::Star => "STAR"@,
        TokenKind::Bang => "BANG"@,
        TokenKind::BangEqual => "BANG_EQUAL"@,
        TokenKind::Equal => "EQUAL"@,
        TokenKind::EqualEqual => "EQUAL_EQUAL"@,
        TokenKind::Less => "LESS"@,
        TokenKind::LessEqual => "LESS_EQUAL"@,
        TokenKind::Greater => "GREATER"@,
        TokenKind::GreaterEqual => "GREATER_EQUAL"@,
        TokenKind::Slash => "SLASH"@,
        TokenKind::StringLit => "STRING"@,
        TokenKind::Number => "NUMBER"@,
        TokenKind::Identifier => "IDENTIFIER"@,
        TokenKind::And => "AND"@,
        TokenKind::Class => "CLASS"@,
        TokenKind::Else => "ELSE"@,
        TokenKind::False => "FALSE"@,
        TokenKind::Fun => "FUN"@,
        TokenKind::For => "FOR"@,
        TokenKind::If => "IF"@,
        TokenKind::Nil => "NIL"@,
        TokenKind::Or => "OR"@,
        TokenKind::Print => "PRINT"@,
        TokenKind::Return => "RETURN"@,
        TokenKind::Super => "SUPER"@,
        TokenKind::This => "THIS"@,
        TokenKind::True => "TRUE"@,
        TokenKind::Var => "VAR"@,
        TokenKind::While => "WHILE"@,
        TokenKind::Eof => "EOF"@,
    }
}

impl TokenKind {
    /// The printable name of this kind.
    pub fn name(&self) -> (r: String)
        ensures
            r@ == kind_name(*self),
    {
        match self {
            TokenKind::LeftParen => "LEFT_PAREN".to_owned(),
            TokenKind::RightParen => "RIGHT_PAREN".to_owned(),
            TokenKind::LeftBrace => "LEFT_BRACE".to_owned(),
            TokenKind::RightBrace => "RIGHT_BRACE".to_owned(),
            TokenKind::Comma => "COMMA".to_owned(),
            TokenKind::Dot => "DOT".to_owned(),
            TokenKind::Minus => "MINUS".to_owned(),
            TokenKind::Plus => "PLUS".to_owned(),
            TokenKind::Semicolon => "SEMICOLON".to_owned(),
            TokenKind::Star => "STAR".to_owned(),
            TokenKind::Bang => "BANG".to_owned(),
            TokenKind::BangEqual => "BANG_EQUAL".to_owned(),
            TokenKind::Equal => "EQUAL".to_owned(),
            TokenKind::EqualEqual => "EQUAL_EQUAL".to_owned(),
            TokenKind::Less => "LESS".to_owned(),
            TokenKind::LessEqual => "LESS_EQUAL".to_owned(),
            TokenKind::Greater => "GREATER".to_owned(),
            TokenKind::GreaterEqual => "GREATER_EQUAL".to_owned(),
            TokenKind::Slash => "SLASH".to_owned(),
            TokenKind::StringLit => "STRING".to_owned(),
            TokenKind::Number => "NUMBER".to_owned(),
            TokenKind::Identifier => "IDENTIFIER".to_owned(),
            TokenKind::And => "AND".to_owned(),
            TokenKind::Class => "CLASS".to_owned(),
            TokenKind::Else => "ELSE".to_owned(),
            TokenKind::False => "FALSE".to_owned(),
            TokenKind::Fun => "FUN".to_owned(),
            TokenKind::For => "FOR".to_owned(),
            TokenKind::If => "IF".to_owned(),
            TokenKind::Nil => "NIL".to_owned(),
            TokenKind::Or => "OR".to_owned(),
            TokenKind::Print => "PRINT".to_owned(),
            TokenKind::Return => "RETURN".to_owned(),
            TokenKind::Super => "SUPER".to_owned(),
            TokenKind::This => "THIS".to_owned(),
            TokenKind::True => "TRUE".to_owned(),
            TokenKind::Var => "VAR".to_owned(),
            TokenKind::While => "WHILE".to_owned(),
            TokenKind::Eof => "EOF".to_owned(),
        }
    }
}

impl Token {
    /// Build a token from its parts.
    pub fn new(ki: TokenKind, lex: &str, lit: &str, ln: usize) -> (t: Token)
        ensures
            t@ == (TokenModel { kind: ki, lexeme: lex@, literal: lit@, line: ln as int }),
    {
        Token { kind: ki, lexeme: lex.to_owned(), literal: lit.to_owned(), line: ln }
    }

    /// Render the token as "KIND lexeme literal".
    pub fn to_string(self) -> (r: String)
        ensures
            r@ == kind_name(self.kind) + " "@ + self.lexeme@ + " "@ + self.literal@,
    {
        let mut r = self.kind.name();
        r.append(" ");
        r.append(self.lexeme.as_str());
        r.append(" ");
        r.append(self.literal.as_str());
        r
    }
}

/// The two classes of lexical fault; neither aborts a scan.
#[derive(Clone, Copy, PartialEq, Eq, Structural, Debug)]
pub enum ErrorKind {
    /// A character that matches no token rule.
    UnexpectedCharacter,
    /// A string literal not closed before the end of the input.
    UnterminatedString,
}

/// The report message for a lexical fault, as handed to a host's
/// error sink.
pub open spec fn error_message(k: ErrorKind) -> Seq<char> {
    match k {
        ErrorKind::UnexpectedCharacter => "Unexpected character."@,
        ErrorKind::UnterminatedString => "Unterminated string."@,
    }
}

impl ErrorKind {
    /// The report message for this fault.
    pub fn message(&self) -> (r: String)
        ensures
            r@ == error_message(*self),
    {
        match self {
            ErrorKind::UnexpectedCharacter => "Unexpected character.".to_owned(),
            ErrorKind::UnterminatedString => "Unterminated string.".to_owned(),
        }
    }
}

/// The mathematical value of a [`ScanError`].
#[verifier::ext_equal]
pub ghost struct ErrorModel {
    pub kind: ErrorKind,
    pub line: int,
}

/// A recorded lexical fault: its kind and the 1-based source line it
/// was detected on.
pub struct ScanError {
    pub kind: ErrorKind,
    pub line: usize,
}

impl View for ScanError {
    type V = ErrorModel;

    open spec fn view(&self) -> ErrorModel {
        ErrorModel { kind: self.kind, line: self.line as int }
    }
}

impl DeepView for ScanError {
    type V = ErrorModel;

    open spec fn deep_view(&self) -> ErrorModel {
        self.view()
    }
}

} // verus!

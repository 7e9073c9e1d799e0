use vstd::prelude::*;

verus! {

/// The closed set of token kinds.
#[derive(Debug, Clone, Copy, PartialEq, Eq, Hash, Structural)]
pub enum TokenType {
    LeftParen,
    RightParen,
    LeftBrace,
    RightBrace,
    Comma,
    Dot,
    Minus,
    Plus,
    Semicolon,
    Slash,
    Star,
    Bang,
    BangEqual,
    Equal,
    EqualEqual,
    Greater,
    GreaterEqual,
    Less,
    LessEqual,
    Identifier,
    StringLiteral,
    Number,
    And,
    Class,
    Else,
    False,
    For,
    Fun,
    If,
    Nil,
    Or,
    Print,
    Return,
    Super,
    This,
    True,
    Var,
    While,
    EOF,
    Error,
}

impl TokenType {
    /// The display form of a token kind.
    pub open spec fn text(self) -> Seq<char> {
        match self {
            TokenType::LeftParen => "("@,
            TokenType::RightParen => ")"@,
            TokenType::LeftBrace => "{"@,
            TokenType::RightBrace => "}"@,
            TokenType::Comma => ","@,
            TokenType::Dot => "."@,
            TokenType::Minus => "-"@,
            TokenType::Plus => "+"@,
            TokenType::Semicolon => ";"@,
            TokenType::Slash => "/"@,
            TokenType::Star => "*"@,
            TokenType::Bang => "!"@,
            TokenType::BangEqual => "!="@,
            TokenType::Equal => "="@,
            TokenType::EqualEqual => "=="@,
            TokenType::Greater => ">"@,
            TokenType::GreaterEqual => ">="@,
            TokenType::Less => "<"@,
            TokenType::LessEqual => "<="@,
            TokenType::Identifier => "IDENT"@,
            TokenType::StringLiteral => "LITERAL"@,
            TokenType::Number => "NUMBER"@,
            TokenType::And => "AND"@,
            TokenType::Class => "CLASS"@,
            TokenType::Else => "ELSE"@,
            TokenType::False => "FALSE"@,
            TokenType::For => "FOR"@,
            TokenType::Fun => "FUN"@,
            TokenType::If => "IF"@,
            TokenType::Nil => "NIL"@,
            TokenType::Or => "OR"@,
            TokenType::Print => "PRINT"@,
            TokenType::Return => "RETURN"@,
            TokenType::Super => "SUPER"@,
            TokenType::This => "THIS"@,
            TokenType::True => "TRUE"@,
            TokenType::Var => "VAR"@,
            TokenType::While => "WHILE"@,
            TokenType::EOF => "EOF"@,
            TokenType::Error => "ERROR"@,
        }
    }

    /// The display form as a string slice.
    pub fn as_str(&self) -> (r: &'static str)
        ensures
            r@ == self.text(),
    {
        match self {
            TokenType::LeftParen => "(",
            TokenType::RightParen => ")",
            TokenType::LeftBrace => "{",
            TokenType::RightBrace => "}",
            TokenType::Comma => ",",
            TokenType::Dot => ".",
            TokenType::Minus => "-",
            TokenType::Plus => "+",
            TokenType::Semicolon => ";",
            TokenType::Slash => "/",
            TokenType::Star => "*",
            TokenType::Bang => "!",
            TokenType::BangEqual => "!=",
            TokenType::Equal => "=",
            TokenType::EqualEqual => "==",
            TokenType::Greater => ">",
            TokenType::GreaterEqual => ">=",
            TokenType::Less => "<",
            TokenType::LessEqual => "<=",
            TokenType::Identifier => "IDENT",
            TokenType::StringLiteral => "LITERAL",
            TokenType::Number => "NUMBER",
            TokenType::And => "AND",
            TokenType::Class => "CLASS",
            TokenType::Else => "ELSE",
            TokenType::False => "FALSE",
            TokenType::For => "FOR",
            TokenType::Fun => "FUN",
            TokenType::If => "IF",
            TokenType::Nil => "NIL",
            TokenType::Or => "OR",
            TokenType::Print => "PRINT",
            TokenType::Return => "RETURN",
            TokenType::Super => "SUPER",
            TokenType::This => "THIS",
            TokenType::True => "TRUE",
            TokenType::Var => "VAR",
            TokenType::While => "WHILE",
            TokenType::EOF => "EOF",
            TokenType::Error => "ERROR",
        }
    }

    /// The display form as an owned string.
    pub fn to_string(&self) -> (r: String)
        ensures
            r@ == self.text(),
    {
        String::from_str(self.as_str())
    }
}

/// A token: its kind, the line it was read on, and the piece of the source
/// it spans, where it spans one.
#[derive(Debug, Clone, Copy)]
pub struct Token<'a> {
    /// the text of the token, borrowed from the source
    pub lexeme: Option<&'a str>,
    /// line of the token, counted from 1
    pub line: usize,
    pub token_type: TokenType,
}

/// The mathematical model of a token.
pub struct TokenView {
    pub lexeme: Option<Seq<char>>,
    pub line: nat,
    pub kind: TokenType,
}

impl<'a> View for Token<'a> {
    type V = TokenView;

    open spec fn view(&self) -> TokenView {
        TokenView {
            lexeme: match self.lexeme {
                Some(s) => Some(s@),
                None => None,
            },
            line: self.line as nat,
            kind: self.token_type,
        }
    }
}

/// The models of a sequence of tokens, in order.
pub open spec fn token_views<'a>(v: Seq<Token<'a>>) -> Seq<TokenView> {
    Seq::new(v.len(), |i: int| v[i]@)
}

impl TokenView {
    /// The end-of-input token that stands in wherever a token sequence has
    /// no token to give.
    pub open spec fn end_marker() -> TokenView {
        TokenView { lexeme: None, line: 0, kind: TokenType::EOF }
    }

    /// The text of the token, empty where it spans none.
    pub open spec fn text(self) -> Seq<char> {
        match self.lexeme {
            Some(s) => s,
            None => Seq::empty(),
        }
    }
}

impl<'a> Token<'a> {
    /// A token of a kind, on a line, with the text that it spans.
    pub fn new(token_type: TokenType, line: usize, lexeme: Option<&'a str>) -> (r: Self)
        ensures
            r.token_type == token_type,
            r.line == line,
            r.lexeme == lexeme,
    {
        Self { lexeme, line, token_type }
    }

    /// The end-of-input token on line 0 with no text.
    pub fn end_marker() -> (r: Self)
        ensures
            r@ == TokenView::end_marker(),
            r.lexeme is None,
    {
        Self { lexeme: None, line: 0, token_type: TokenType::EOF }
    }

    /// The text of the token, empty where it spans none.
    pub fn text(&self) -> (r: &'a str)
        ensures
            r@ == self@.text(),
    {
        match self.lexeme {
            Some(s) => s,
            None => {
                proof {
                    reveal_strlit("");
                }
                assert(""@ =~= Seq::<char>::empty());
                ""
            },
        }
    }
}

} // verus!

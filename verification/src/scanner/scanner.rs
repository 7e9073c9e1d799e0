use vstd::prelude::*;
use vstd::string::*;
use vstd::utf8::*;

use crate::text::{decimal, lemma_boundary_after_ascii, lemma_boundary_at, push_decimal, str_eq};

use super::lexicon::{
    blank, is_digit, is_letter, lemma_run_len_bound, lemma_scan_step_bound, line_feeds,
    number_end, run_len, scan_loop, scan_step, text_of, token_view, word_kind, ByteClass,
    ScanErrorView, Scanned, BANG, CARRIAGE_RETURN, COMMA, DIGIT_0, DIGIT_9, DOT, EQUAL, GREATER,
    LEFT_BRACE, LEFT_PAREN, LESS, LINE_FEED, LOWER_A, LOWER_Z, MINUS, PLUS, QUOTE, RIGHT_BRACE,
    RIGHT_PAREN, SEMICOLON, SLASH, SPACE, STAR, TAB, UNDERSCORE, UPPER_A, UPPER_Z,
};
use super::token::{token_views, Token, TokenType};

verus! {

/// Why scanning stopped: a byte that starts no token, or a string that is
/// not closed before the end of the text.
#[derive(Debug, Clone)]
pub struct ScanError {
    /// the line on which scanning stopped
    pub line: usize,
    /// the text at which it stopped
    pub lexeme: String,
    /// whether a string was left open
    pub unterminated: bool,
}

impl View for ScanError {
    type V = ScanErrorView;

    open spec fn view(&self) -> ScanErrorView {
        ScanErrorView {
            line: self.line as nat,
            lexeme: self.lexeme@,
            unterminated: self.unterminated,
        }
    }
}

impl ScanErrorView {
    /// The message that reports the error.
    pub open spec fn text(self) -> Seq<char> {
        let head = "scanning error in line "@ + decimal(self.line) + " at "@ + self.lexeme;
        if self.unterminated {
            head + ": unterminated string"@
        } else {
            head
        }
    }
}

impl ScanError {
    /// The message that reports the error.
    pub fn to_string(&self) -> (r: String)
        ensures
            r@ == self@.text(),
    {
        let mut s = String::from_str("scanning error in line ");
        push_decimal(&mut s, self.line as u64);
        s.append(" at ");
        s.append(self.lexeme.as_str());
        if self.unterminated {
            s.append(": unterminated string");
        }
        s
    }
}

/// A scanner over a source text: one cursor that moves forward through the
/// bytes and hands out one token at a time.
#[derive(Debug)]
pub struct Scanner<'a> {
    src: &'a str,
    /// where the token being scanned starts
    start: usize,
    /// the next byte to read
    cur: usize,
    line: usize,
}

fn in_class(class: ByteClass, b: u8) -> (r: bool)
    ensures
        r == class.holds(b),
{
    match class {
        ByteClass::Digit => is_digit_byte(b),
        ByteClass::Word => is_alphanumeric(b),
        ByteClass::InComment => b != LINE_FEED,
        ByteClass::InString => b != QUOTE,
        ByteClass::Continuation => 0x80 <= b && b <= 0xbf,
    }
}

fn is_digit_byte(b: u8) -> (r: bool)
    ensures
        r == is_digit(b),
{
    DIGIT_0 <= b && b <= DIGIT_9
}

/// Whether a byte can stand inside a word: a letter, a digit or an
/// underscore.
pub fn is_alphanumeric(val: u8) -> (r: bool)
    ensures
        r == (is_digit(val) || is_letter(val)),
{
    (DIGIT_0 <= val && val <= DIGIT_9) || (UPPER_A <= val && val <= UPPER_Z) || (LOWER_A <= val
        && val <= LOWER_Z) || val == UNDERSCORE
}

impl<'a> Scanner<'a> {
    /// The bytes of the source text.
    pub closed spec fn bytes(&self) -> Seq<u8> {
        self.src.spec_bytes()
    }

    /// The position of the next byte to read.
    pub closed spec fn position(&self) -> int {
        self.cur as int
    }

    /// The position at which the last token starts.
    pub closed spec fn token_start(&self) -> int {
        self.start as int
    }

    /// The line of the next byte to read, counted from 1.
    pub closed spec fn line_number(&self) -> int {
        self.line as int
    }

    /// The cursor stands on a character boundary within the text, behind
    /// the start of the last token, and the line number is one more than
    /// at most the number of bytes read.
    pub closed spec fn wf(&self) -> bool {
        &&& self.start <= self.cur <= self.bytes().len()
        &&& self.bytes().len() < usize::MAX
        &&& is_char_boundary(self.bytes(), self.cur as int)
        &&& 1 <= self.line <= self.cur + 1
    }

    /// A scanner at the start of a source text, on line 1.
    pub fn new(src: &'a str) -> (r: Self)
        requires
            src.spec_bytes().len() < usize::MAX,
        ensures
            r.wf(),
            r.bytes() == src.spec_bytes(),
            r.position() == 0,
            r.line_number() == 1,
    {
        proof {
            broadcast use group_utf8_lib;
            is_char_boundary_start_end_of_seq(src.spec_bytes());
        }
        Self { src, start: 0, cur: 0, line: 1 }
    }

    /// Scans the rest of the text: every token up to and with the end of
    /// input, or the first error on the way.
    pub fn scan(&mut self) -> (r: Result<Vec<Token<'a>>, ScanError>)
        requires
            old(self).wf(),
        ensures
            final(self).wf(),
            final(self).bytes() == old(self).bytes(),
            match scan_loop(
                old(self).bytes(),
                old(self).position(),
                old(self).line_number(),
                Seq::empty(),
            ) {
                Ok(tokens) => r is Ok && token_views(r->Ok_0@) == tokens,
                Err(error) => r is Err && r->Err_0@ == error,
            },
    {
        let ghost bytes = self.bytes();
        let ghost first = self.position();
        let ghost first_line = self.line_number();
        let mut tokens: Vec<Token<'a>> = Vec::new();
        assert(token_views(tokens@) =~= Seq::empty());
        loop
            invariant
                self.wf(),
                self.bytes() == bytes,
                bytes == old(self).bytes(),
                first == old(self).position(),
                first_line == old(self).line_number(),
                scan_loop(bytes, self.position(), self.line_number(), token_views(tokens@))
                    == scan_loop(bytes, first, first_line, Seq::empty()),
            decreases bytes.len() - self.position(),
        {
            proof {
                lemma_scan_step_bound(bytes, self.position(), self.line_number());
            }
            let token = self.scan_token()?;
            assert(token_views(tokens@.push(token)) =~= token_views(tokens@).push(token@));
            tokens.push(token);
            if token.token_type == TokenType::EOF {
                return Ok(tokens);
            }
        }
    }

    /// Scans the next token: passes over blank space and comments, then
    /// reads one token, or fails at a byte that starts none or at a string
    /// that is not closed.
    pub fn scan_token(&mut self) -> (r: Result<Token<'a>, ScanError>)
        requires
            old(self).wf(),
        ensures
            final(self).wf(),
            final(self).bytes() == old(self).bytes(),
            final(self).token_start() == scan_step(
                old(self).bytes(),
                old(self).position(),
                old(self).line_number(),
            ).start(),
            final(self).position() == scan_step(
                old(self).bytes(),
                old(self).position(),
                old(self).line_number(),
            ).end(),
            final(self).line_number() == scan_step(
                old(self).bytes(),
                old(self).position(),
                old(self).line_number(),
            ).line(),
            match scan_step(old(self).bytes(), old(self).position(), old(self).line_number()) {
                Scanned::Token { kind, start, end, line } => {
                    &&& r is Ok
                    &&& r->Ok_0@ == token_view(old(self).bytes(), kind, start, end, line)
                    &&& r->Ok_0.lexeme matches Some(l) ==> l.spec_bytes() == old(
                        self,
                    ).bytes().subrange(start, end)
                },
                Scanned::Failure { start, end, line, unterminated } => {
                    &&& r is Err
                    &&& r->Err_0@ == ScanErrorView {
                        line: line as nat,
                        lexeme: text_of(old(self).bytes(), start, end),
                        unterminated,
                    }
                },
            },
    {
        self.skip_whitespaces();

        // The token starts where the blank space ends.
        self.start = self.cur;
        let ghost bytes = self.bytes();
        assert(valid_utf8(bytes)) by {
            broadcast use group_utf8_lib;
        }
        if self.is_at_end() {
            return Ok(Token::new(TokenType::EOF, self.line, None));
        }
        let b = self.advance();
        proof {
            lemma_run_len_bound(bytes, self.start + 1, ByteClass::InString);
            lemma_run_len_bound(bytes, self.start + 1, ByteClass::Digit);
            lemma_run_len_bound(bytes, self.start + 1, ByteClass::Word);
            lemma_run_len_bound(bytes, self.start + 1, ByteClass::Continuation);
        }
        if b == LEFT_PAREN {
            self.token(TokenType::LeftParen)
        } else if b == RIGHT_PAREN {
            self.token(TokenType::RightParen)
        } else if b == LEFT_BRACE {
            self.token(TokenType::LeftBrace)
        } else if b == RIGHT_BRACE {
            self.token(TokenType::RightBrace)
        } else if b == SEMICOLON {
            self.token(TokenType::Semicolon)
        } else if b == COMMA {
            self.token(TokenType::Comma)
        } else if b == DOT {
            self.token(TokenType::Dot)
        } else if b == MINUS {
            self.token(TokenType::Minus)
        } else if b == PLUS {
            self.token(TokenType::Plus)
        } else if b == SLASH {
            self.token(TokenType::Slash)
        } else if b == STAR {
            self.token(TokenType::Star)
        } else if b == BANG {
            let kind = if self.matches(EQUAL) {
                TokenType::BangEqual
            } else {
                TokenType::Bang
            };
            self.token(kind)
        } else if b == LESS {
            let kind = if self.matches(EQUAL) {
                TokenType::LessEqual
            } else {
                TokenType::Less
            };
            self.token(kind)
        } else if b == GREATER {
            let kind = if self.matches(EQUAL) {
                TokenType::GreaterEqual
            } else {
                TokenType::Greater
            };
            self.token(kind)
        } else if b == EQUAL {
            let kind = if self.matches(EQUAL) {
                TokenType::EqualEqual
            } else {
                TokenType::Equal
            };
            self.token(kind)
        } else if b == QUOTE {
            self.string()
        } else if is_digit_byte(b) {
            self.number()
        } else if is_alphanumeric(b) {
            self.identifier()
        } else {
            // The whole character goes into the message.
            self.consume_while(ByteClass::Continuation);
            proof {
                lemma_boundary_at(bytes, self.cur as int);
            }
            Err(self.error(false))
        }
    }

    /// The token of the given kind that spans the bytes from the start of
    /// the token up to the cursor, the byte before the cursor being below
    /// 128.
    fn token(&self, kind: TokenType) -> (r: Result<Token<'a>, ScanError>)
        requires
            self.start < self.cur <= self.bytes().len(),
            valid_utf8(self.bytes()),
            self.bytes()[self.start as int] < 128,
            self.bytes()[self.cur - 1] < 128,
            kind != TokenType::EOF,
        ensures
            is_char_boundary(self.bytes(), self.cur as int),
            r is Ok,
            r->Ok_0@ == token_view(
                self.bytes(),
                kind,
                self.start as int,
                self.cur as int,
                self.line as int,
            ),
            r->Ok_0.lexeme matches Some(l) && l.spec_bytes() == self.bytes().subrange(
                self.start as int,
                self.cur as int,
            ),
    {
        proof {
            lemma_boundary_at(self.bytes(), self.start as int);
            lemma_boundary_after_ascii(self.bytes(), self.cur - 1);
        }
        Ok(Token::new(kind, self.line, Some(self.lexeme())))
    }

    /// The error at the text from the start of the token up to the cursor.
    fn error(&self, unterminated: bool) -> (r: ScanError)
        requires
            self.start <= self.cur <= self.bytes().len(),
            is_char_boundary(self.bytes(), self.start as int),
            is_char_boundary(self.bytes(), self.cur as int),
        ensures
            r@ == (ScanErrorView {
                line: self.line as nat,
                lexeme: text_of(self.bytes(), self.start as int, self.cur as int),
                unterminated,
            }),
    {
        ScanError { line: self.line, lexeme: String::from_str(self.lexeme()), unterminated }
    }

    /// The text from the start of the token up to the cursor.
    fn lexeme(&self) -> (r: &'a str)
        requires
            self.start <= self.cur <= self.bytes().len(),
            is_char_boundary(self.bytes(), self.start as int),
            is_char_boundary(self.bytes(), self.cur as int),
        ensures
            r.spec_bytes() == self.bytes().subrange(self.start as int, self.cur as int),
            r@ == text_of(self.bytes(), self.start as int, self.cur as int),
    {
        let (_, tail) = self.src.split_at(self.start);
        proof {
            broadcast use group_utf8_lib;
            let bytes = self.bytes();
            let rest = tail.spec_bytes();
            assert(valid_utf8(bytes));
            assert(valid_utf8(rest));
            if self.cur < bytes.len() {
                is_char_boundary_iff_not_is_continuation_byte(bytes, self.cur as int);
                assert(rest[self.cur - self.start] == bytes[self.cur as int]);
                is_char_boundary_iff_not_is_continuation_byte(rest, self.cur - self.start);
            } else {
                is_char_boundary_start_end_of_seq(rest);
            }
        }
        let (head, _) = tail.split_at(self.cur - self.start);
        proof {
            broadcast use group_utf8_lib;
            assert(head.spec_bytes() =~= self.bytes().subrange(
                self.start as int,
                self.cur as int,
            ));
            assert(decode_utf8(encode_utf8(head@)) == head@);
        }
        head
    }

    fn is_at_end(&self) -> (r: bool)
        ensures
            r == (self.cur >= self.bytes().len()),
    {
        self.cur >= self.src.as_bytes().len()
    }

    /// Reads one byte.
    fn advance(&mut self) -> (b: u8)
        requires
            old(self).cur < old(self).bytes().len(),
        ensures
            b == old(self).bytes()[old(self).cur as int],
            final(self).cur == old(self).cur + 1,
            final(self).src == old(self).src,
            final(self).start == old(self).start,
            final(self).line == old(self).line,
    {
        let b = self.src.as_bytes()[self.cur];
        self.cur += 1;
        b
    }

    /// Reads the next byte where it is `c`, and says whether it did.
    fn matches(&mut self, c: u8) -> (r: bool)
        requires
            old(self).cur <= old(self).bytes().len(),
        ensures
            r == (old(self).cur < old(self).bytes().len() && old(self).bytes()[old(
                self,
            ).cur as int] == c),
            final(self).cur == if r {
                old(self).cur + 1
            } else {
                old(self).cur as int
            },
            final(self).src == old(self).src,
            final(self).start == old(self).start,
            final(self).line == old(self).line,
    {
        if self.is_at_end() {
            return false;
        }
        if self.src.as_bytes()[self.cur] != c {
            return false;
        }
        self.cur += 1;
        true
    }

    /// The next byte, where there is one.
    fn peek(&self) -> (r: Option<u8>)
        ensures
            match r {
                Some(b) => self.cur < self.bytes().len() && b == self.bytes()[self.cur as int],
                None => self.cur >= self.bytes().len(),
            },
    {
        if self.is_at_end() {
            return None;
        }
        Some(self.src.as_bytes()[self.cur])
    }

    /// The byte after the next one, where there is one.
    fn peek_next(&self) -> (r: Option<u8>)
        ensures
            match r {
                Some(b) => self.cur + 1 < self.bytes().len() && b == self.bytes()[self.cur + 1],
                None => self.cur + 1 >= self.bytes().len(),
            },
    {
        let bytes = self.src.as_bytes();
        if self.cur >= bytes.len() || self.cur + 1 >= bytes.len() {
            return None;
        }
        Some(bytes[self.cur + 1])
    }

    /// The number of bytes of the token read so far.
    fn cur_span(&self) -> (r: usize)
        requires
            self.start <= self.cur,
        ensures
            r == self.cur - self.start,
    {
        self.cur - self.start
    }

    /// Reads the longest run of bytes of a class.
    fn consume_while(&mut self, class: ByteClass)
        requires
            old(self).cur <= old(self).bytes().len(),
        ensures
            final(self).cur == old(self).cur + run_len(
                old(self).bytes(),
                old(self).cur as int,
                class,
            ),
            final(self).cur <= old(self).bytes().len(),
            final(self).src == old(self).src,
            final(self).start == old(self).start,
            final(self).line == old(self).line,
    {
        let bytes = self.src.as_bytes();
        let ghost first = self.cur;
        while self.cur < bytes.len() && in_class(class, bytes[self.cur])
            invariant
                bytes@ == self.bytes(),
                self.src == old(self).src,
                self.start == old(self).start,
                self.line == old(self).line,
                first == old(self).cur,
                first <= self.cur <= bytes@.len(),
                self.cur + run_len(bytes@, self.cur as int, class) == first + run_len(
                    bytes@,
                    first as int,
                    class,
                ),
            decreases bytes@.len() - self.cur,
        {
            self.cur += 1;
        }
    }

    /// Passes over blank space: spaces, tabs, carriage returns, line feeds,
    /// and comments from `//` to the end of their line.
    fn skip_whitespaces(&mut self)
        requires
            old(self).wf(),
        ensures
            final(self).wf(),
            final(self).src == old(self).src,
            final(self).cur == old(self).cur + blank(old(self).bytes(), old(self).cur as int).0,
            final(self).line == old(self).line + blank(old(self).bytes(), old(self).cur as int).1,
    {
        let ghost bytes = self.bytes();
        let ghost first = self.cur;
        let ghost first_line = self.line;
        assert(valid_utf8(bytes)) by {
            broadcast use group_utf8_lib;
        }
        loop
            invariant
                self.wf(),
                self.src == old(self).src,
                bytes == self.bytes(),
                valid_utf8(bytes),
                first == old(self).cur,
                first_line == old(self).line,
                self.cur + blank(bytes, self.cur as int).0 == first + blank(bytes, first as int).0,
                self.line + blank(bytes, self.cur as int).1 == first_line + blank(
                    bytes,
                    first as int,
                ).1,
            ensures
                self.wf(),
                self.src == old(self).src,
                self.cur == first + blank(bytes, first as int).0,
                self.line == first_line + blank(bytes, first as int).1,
            decreases bytes.len() - self.cur,
        {
            let c = self.peek();
            if c.is_none() {
                break ;
            }
            let b = c.unwrap();
            if b == SPACE || b == CARRIAGE_RETURN || b == TAB {
                proof {
                    lemma_boundary_after_ascii(bytes, self.cur as int);
                }
                self.advance();
            } else if b == LINE_FEED {
                proof {
                    lemma_boundary_after_ascii(bytes, self.cur as int);
                }
                self.advance();
                self.line += 1;
            } else if b == SLASH {
                if self.peek_next() == Some(SLASH) {
                    proof {
                        lemma_run_len_bound(bytes, self.cur + 2, ByteClass::InComment);
                    }
                    self.advance();
                    self.advance();
                    self.consume_while(ByteClass::InComment);
                    proof {
                        lemma_boundary_at(bytes, self.cur as int);
                    }
                } else {
                    break ;
                }
            } else {
                break ;
            }
        }
    }

    /// Reads a string up to and with its closing quote, the opening quote
    /// being read already.
    fn string(&mut self) -> (r: Result<Token<'a>, ScanError>)
        requires
            old(self).start + 1 == old(self).cur,
            old(self).cur <= old(self).bytes().len(),
            old(self).bytes().len() < usize::MAX,
            valid_utf8(old(self).bytes()),
            old(self).bytes()[old(self).start as int] == QUOTE,
            1 <= old(self).line <= old(self).cur,
        ensures
            final(self).wf(),
            final(self).src == old(self).src,
            final(self).start == old(self).start,
            ({
                let step = token_at_string(
                    old(self).bytes(),
                    old(self).start as int,
                    old(self).line as int,
                );
                &&& final(self).cur == step.end()
                &&& final(self).line == step.line()
                &&& match step {
                    Scanned::Token { kind, start, end, line } => {
                        &&& r is Ok
                        &&& r->Ok_0@ == token_view(old(self).bytes(), kind, start, end, line)
                        &&& r->Ok_0.lexeme matches Some(l) && l.spec_bytes() == old(
                            self,
                        ).bytes().subrange(start, end)
                    },
                    Scanned::Failure { start, end, line, unterminated } => {
                        &&& r is Err
                        &&& r->Err_0@ == ScanErrorView {
                            line: line as nat,
                            lexeme: text_of(old(self).bytes(), start, end),
                            unterminated,
                        }
                    },
                }
            }),
    {
        let bytes = self.src.as_bytes();
        let ghost first = self.cur;
        let ghost first_line = self.line;
        while self.cur < bytes.len() && bytes[self.cur] != QUOTE
            invariant
                bytes@ == self.bytes(),
                self.src == old(self).src,
                self.start == old(self).start,
                first == old(self).cur,
                first_line == old(self).line,
                bytes@.len() < usize::MAX,
                first <= self.cur <= bytes@.len(),
                self.cur + run_len(bytes@, self.cur as int, ByteClass::InString) == first
                    + run_len(bytes@, first as int, ByteClass::InString),
                self.line == first_line + line_feeds(bytes@, first as int, self.cur as int),
                1 <= self.line <= self.cur,
            decreases bytes@.len() - self.cur,
        {
            if bytes[self.cur] == LINE_FEED {
                self.line += 1;
            }
            self.cur += 1;
        }
        if self.is_at_end() {
            proof {
                lemma_boundary_at(bytes@, self.cur as int);
                lemma_boundary_at(bytes@, self.start as int);
            }
            return Err(self.error(true));
        }
        self.cur += 1;
        let r = self.token(TokenType::StringLiteral);
        r
    }

    /// Reads a number, its first digit being read already.
    fn number(&mut self) -> (r: Result<Token<'a>, ScanError>)
        requires
            old(self).start + 1 == old(self).cur,
            old(self).cur <= old(self).bytes().len(),
            valid_utf8(old(self).bytes()),
            is_digit(old(self).bytes()[old(self).start as int]),
        ensures
            final(self).src == old(self).src,
            final(self).start == old(self).start,
            final(self).line == old(self).line,
            final(self).cur == number_end(old(self).bytes(), old(self).start as int),
            final(self).cur <= old(self).bytes().len(),
            is_char_boundary(old(self).bytes(), final(self).cur as int),
            r is Ok,
            r->Ok_0@ == token_view(
                old(self).bytes(),
                TokenType::Number,
                old(self).start as int,
                final(self).cur as int,
                old(self).line as int,
            ),
            r->Ok_0.lexeme matches Some(l) && l.spec_bytes() == old(self).bytes().subrange(
                old(self).start as int,
                final(self).cur as int,
            ),
    {
        let ghost bytes = self.bytes();
        proof {
            lemma_run_len_bound(bytes, self.cur as int, ByteClass::Digit);
        }
        self.consume_while(ByteClass::Digit);
        // A point belongs to the number only where a digit follows it.
        let point = match self.peek() {
            Some(b) => b == DOT,
            None => false,
        };
        let digit_follows = match self.peek_next() {
            Some(b) => is_digit_byte(b),
            None => false,
        };
        if point && digit_follows {
            self.advance();
            proof {
                lemma_run_len_bound(bytes, self.cur as int, ByteClass::Digit);
            }
            self.consume_while(ByteClass::Digit);
        }
        self.token(TokenType::Number)
    }

    /// Reads a word, its first byte being read already.
    fn identifier(&mut self) -> (r: Result<Token<'a>, ScanError>)
        requires
            old(self).start + 1 == old(self).cur,
            old(self).cur <= old(self).bytes().len(),
            valid_utf8(old(self).bytes()),
            is_letter(old(self).bytes()[old(self).start as int]),
        ensures
            final(self).src == old(self).src,
            final(self).start == old(self).start,
            final(self).line == old(self).line,
            final(self).cur == old(self).cur + run_len(
                old(self).bytes(),
                old(self).cur as int,
                ByteClass::Word,
            ),
            final(self).cur <= old(self).bytes().len(),
            is_char_boundary(old(self).bytes(), final(self).cur as int),
            r is Ok,
            r->Ok_0@ == token_view(
                old(self).bytes(),
                word_kind(
                    text_of(old(self).bytes(), old(self).start as int, final(self).cur as int),
                ),
                old(self).start as int,
                final(self).cur as int,
                old(self).line as int,
            ),
            r->Ok_0.lexeme matches Some(l) && l.spec_bytes() == old(self).bytes().subrange(
                old(self).start as int,
                final(self).cur as int,
            ),
    {
        proof {
            lemma_run_len_bound(self.bytes(), self.cur as int, ByteClass::Word);
        }
        self.consume_while(ByteClass::Word);
        self.make_identifier()
    }

    /// The token of the word from the start of the token up to the cursor:
    /// a keyword where the word is one, an identifier otherwise.
    fn make_identifier(&self) -> (r: Result<Token<'a>, ScanError>)
        requires
            self.start < self.cur <= self.bytes().len(),
            valid_utf8(self.bytes()),
            self.bytes()[self.start as int] < 128,
            self.bytes()[self.cur - 1] < 128,
        ensures
            is_char_boundary(self.bytes(), self.cur as int),
            r is Ok,
            r->Ok_0@ == token_view(
                self.bytes(),
                word_kind(text_of(self.bytes(), self.start as int, self.cur as int)),
                self.start as int,
                self.cur as int,
                self.line as int,
            ),
            r->Ok_0.lexeme matches Some(l) && l.spec_bytes() == self.bytes().subrange(
                self.start as int,
                self.cur as int,
            ),
    {
        proof {
            lemma_boundary_at(self.bytes(), self.start as int);
            lemma_boundary_after_ascii(self.bytes(), self.cur - 1);
        }
        let identifier = self.lexeme();
        let kind = if str_eq(identifier, "and") {
            TokenType::And
        } else if str_eq(identifier, "class") {
            TokenType::Class
        } else if str_eq(identifier, "else") {
            TokenType::Else
        } else if str_eq(identifier, "false") {
            TokenType::False
        } else if str_eq(identifier, "for") {
            TokenType::For
        } else if str_eq(identifier, "fun") {
            TokenType::Fun
        } else if str_eq(identifier, "if") {
            TokenType::If
        } else if str_eq(identifier, "nil") {
            TokenType::Nil
        } else if str_eq(identifier, "or") {
            TokenType::Or
        } else if str_eq(identifier, "print") {
            TokenType::Print
        } else if str_eq(identifier, "return") {
            TokenType::Return
        } else if str_eq(identifier, "super") {
            TokenType::Super
        } else if str_eq(identifier, "this") {
            TokenType::This
        } else if str_eq(identifier, "true") {
            TokenType::True
        } else if str_eq(identifier, "var") {
            TokenType::Var
        } else if str_eq(identifier, "while") {
            TokenType::While
        } else {
            TokenType::Identifier
        };
        Ok(Token::new(kind, self.line, Some(identifier)))
    }
}

/// The outcome of scanning a string whose opening quote stands at `start`.
pub open spec fn token_at_string(bytes: Seq<u8>, start: int, line: int) -> Scanned {
    let close = start + 1 + run_len(bytes, start + 1, ByteClass::InString);
    let line = line + line_feeds(bytes, start + 1, close);
    if close >= bytes.len() {
        Scanned::Failure { start, end: close, line, unterminated: true }
    } else {
        Scanned::Token { kind: TokenType::StringLiteral, start, end: close + 1, line }
    }
}

} // verus!

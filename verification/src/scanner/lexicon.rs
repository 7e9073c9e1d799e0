//! What the scanner makes of a source text, as functions on its bytes. The
//! scanner's own contracts are stated over these.

use vstd::prelude::*;
use vstd::utf8::*;

use super::token::{TokenType, TokenView};

verus! {

// The bytes that the scanner tells apart.
pub const LEFT_PAREN: u8 = 40;
pub const RIGHT_PAREN: u8 = 41;
pub const LEFT_BRACE: u8 = 123;
pub const RIGHT_BRACE: u8 = 125;
pub const SEMICOLON: u8 = 59;
pub const COMMA: u8 = 44;
pub const DOT: u8 = 46;
pub const MINUS: u8 = 45;
pub const PLUS: u8 = 43;
pub const SLASH: u8 = 47;
pub const STAR: u8 = 42;
pub const BANG: u8 = 33;
pub const LESS: u8 = 60;
pub const GREATER: u8 = 62;
pub const EQUAL: u8 = 61;
pub const QUOTE: u8 = 34;
pub const LINE_FEED: u8 = 10;
pub const SPACE: u8 = 32;
pub const CARRIAGE_RETURN: u8 = 13;
pub const TAB: u8 = 9;
pub const UNDERSCORE: u8 = 95;
pub const DIGIT_0: u8 = 48;
pub const DIGIT_9: u8 = 57;
pub const UPPER_A: u8 = 65;
pub const UPPER_Z: u8 = 90;
pub const LOWER_A: u8 = 97;
pub const LOWER_Z: u8 = 122;

/// The classes of bytes of which the scanner reads whole runs.
#[derive(Debug, Clone, Copy, PartialEq, Eq, Structural)]
pub enum ByteClass {
    /// A decimal digit.
    Digit,
    /// A letter, a digit or an underscore.
    Word,
    /// Anything but a line feed: the rest of a comment.
    InComment,
    /// Anything but a double quote: the inside of a string.
    InString,
    /// A byte that continues a character of more than one byte.
    Continuation,
}

/// A decimal digit.
pub open spec fn is_digit(b: u8) -> bool {
    DIGIT_0 <= b <= DIGIT_9
}

/// A letter or an underscore.
pub open spec fn is_letter(b: u8) -> bool {
    UPPER_A <= b <= UPPER_Z || LOWER_A <= b <= LOWER_Z || b == UNDERSCORE
}

/// A space, a carriage return or a tab.
pub open spec fn is_space(b: u8) -> bool {
    b == SPACE || b == CARRIAGE_RETURN || b == TAB
}

/// A line feed.
pub open spec fn is_line_feed(b: u8) -> bool {
    b == LINE_FEED
}

impl ByteClass {
    /// Whether a byte belongs to the class.
    pub open spec fn holds(self, b: u8) -> bool {
        match self {
            ByteClass::Digit => is_digit(b),
            ByteClass::Word => is_digit(b) || is_letter(b),
            ByteClass::InComment => !is_line_feed(b),
            ByteClass::InString => b != QUOTE,
            ByteClass::Continuation => is_continuation_byte(b),
        }
    }
}

/// The length of the longest run of bytes of a class that starts at `i`.
pub open spec fn run_len(bytes: Seq<u8>, i: int, class: ByteClass) -> nat
    decreases bytes.len() - i,
{
    if 0 <= i < bytes.len() && class.holds(bytes[i]) {
        1 + run_len(bytes, i + 1, class)
    } else {
        0
    }
}

/// A run ends within the bytes.
pub proof fn lemma_run_len_bound(bytes: Seq<u8>, i: int, class: ByteClass)
    requires
        0 <= i <= bytes.len(),
    ensures
        i + run_len(bytes, i, class) <= bytes.len(),
        i + run_len(bytes, i, class) < bytes.len() ==> !class.holds(
            bytes[i + run_len(bytes, i, class)],
        ),
        forall|j: int| i <= j < i + run_len(bytes, i, class) ==> class.holds(#[trigger] bytes[j]),
    decreases bytes.len() - i,
{
    if i < bytes.len() && class.holds(bytes[i]) {
        lemma_run_len_bound(bytes, i + 1, class);
    }
}

/// The number of line feeds among the bytes from `from` up to `to`.
pub open spec fn line_feeds(bytes: Seq<u8>, from: int, to: int) -> nat
    decreases to - from,
{
    if 0 <= from < to <= bytes.len() {
        line_feeds(bytes, from, to - 1) + if is_line_feed(bytes[to - 1]) {
            1nat
        } else {
            0nat
        }
    } else {
        0
    }
}

/// Whether a comment starts at `i`: two slashes.
pub open spec fn comment_starts(bytes: Seq<u8>, i: int) -> bool {
    0 <= i && i + 1 < bytes.len() && bytes[i] == SLASH && bytes[i + 1] == SLASH
}

/// The number of bytes of blank space from `cur` on, and the number of line
/// feeds among them. Blank space is spaces, tabs, carriage returns, line
/// feeds, and comments from `//` to the end of their line.
pub open spec fn blank(bytes: Seq<u8>, cur: int) -> (nat, nat)
    decreases bytes.len() - cur,
{
    if 0 <= cur < bytes.len() {
        if is_space(bytes[cur]) {
            let (n, l) = blank(bytes, cur + 1);
            (n + 1, l)
        } else if is_line_feed(bytes[cur]) {
            let (n, l) = blank(bytes, cur + 1);
            (n + 1, l + 1)
        } else if comment_starts(bytes, cur) {
            let c = 2 + run_len(bytes, cur + 2, ByteClass::InComment);
            proof {
                lemma_run_len_bound(bytes, cur + 2, ByteClass::InComment);
            }
            let (n, l) = blank(bytes, cur + c);
            (n + c, l)
        } else {
            (0, 0)
        }
    } else {
        (0, 0)
    }
}

/// What one step of scanning finds.
pub enum Scanned {
    /// A token of the given kind that spans the bytes from `start` up to
    /// `end` and is read on `line`.
    Token { kind: TokenType, start: int, end: int, line: int },
    /// A byte that starts no token, or a string that is not closed.
    Failure { start: int, end: int, line: int, unterminated: bool },
}

impl Scanned {
    /// Where what was found starts.
    pub open spec fn start(self) -> int {
        match self {
            Scanned::Token { start, .. } => start,
            Scanned::Failure { start, .. } => start,
        }
    }

    /// Where what was found ends.
    pub open spec fn end(self) -> int {
        match self {
            Scanned::Token { end, .. } => end,
            Scanned::Failure { end, .. } => end,
        }
    }

    /// The line after what was found.
    pub open spec fn line(self) -> int {
        match self {
            Scanned::Token { line, .. } => line,
            Scanned::Failure { line, .. } => line,
        }
    }
}

/// The text that the bytes from `start` up to `end` hold.
pub open spec fn text_of(bytes: Seq<u8>, start: int, end: int) -> Seq<char> {
    decode_utf8(bytes.subrange(start, end))
}

/// The kind of a word: that of the keyword it is, or an identifier.
pub open spec fn word_kind(word: Seq<char>) -> TokenType {
    if word == "and"@ {
        TokenType::And
    } else if word == "class"@ {
        TokenType::Class
    } else if word == "else"@ {
        TokenType::Else
    } else if word == "false"@ {
        TokenType::False
    } else if word == "for"@ {
        TokenType::For
    } else if word == "fun"@ {
        TokenType::Fun
    } else if word == "if"@ {
        TokenType::If
    } else if word == "nil"@ {
        TokenType::Nil
    } else if word == "or"@ {
        TokenType::Or
    } else if word == "print"@ {
        TokenType::Print
    } else if word == "return"@ {
        TokenType::Return
    } else if word == "super"@ {
        TokenType::Super
    } else if word == "this"@ {
        TokenType::This
    } else if word == "true"@ {
        TokenType::True
    } else if word == "var"@ {
        TokenType::Var
    } else if word == "while"@ {
        TokenType::While
    } else {
        TokenType::Identifier
    }
}

/// The kind of the token that a single punctuation byte is, where it is one.
pub open spec fn punctuation(b: u8) -> Option<TokenType> {
    if b == LEFT_PAREN {
        Some(TokenType::LeftParen)
    } else if b == RIGHT_PAREN {
        Some(TokenType::RightParen)
    } else if b == LEFT_BRACE {
        Some(TokenType::LeftBrace)
    } else if b == RIGHT_BRACE {
        Some(TokenType::RightBrace)
    } else if b == SEMICOLON {
        Some(TokenType::Semicolon)
    } else if b == COMMA {
        Some(TokenType::Comma)
    } else if b == DOT {
        Some(TokenType::Dot)
    } else if b == MINUS {
        Some(TokenType::Minus)
    } else if b == PLUS {
        Some(TokenType::Plus)
    } else if b == SLASH {
        Some(TokenType::Slash)
    } else if b == STAR {
        Some(TokenType::Star)
    } else {
        None
    }
}

/// The kinds of the token that a byte starts alone and together with `=`,
/// where it starts such a pair.
pub open spec fn comparison(b: u8) -> Option<(TokenType, TokenType)> {
    if b == BANG {
        Some((TokenType::Bang, TokenType::BangEqual))
    } else if b == LESS {
        Some((TokenType::Less, TokenType::LessEqual))
    } else if b == GREATER {
        Some((TokenType::Greater, TokenType::GreaterEqual))
    } else if b == EQUAL {
        Some((TokenType::Equal, TokenType::EqualEqual))
    } else {
        None
    }
}

/// The end of the number that starts at `start`: the digits, and a point
/// with the digits after it where a digit follows the point.
pub open spec fn number_end(bytes: Seq<u8>, start: int) -> int {
    let whole = start + 1 + run_len(bytes, start + 1, ByteClass::Digit);
    if whole + 1 < bytes.len() && bytes[whole] == DOT && is_digit(bytes[whole + 1]) {
        whole + 1 + run_len(bytes, whole + 1, ByteClass::Digit)
    } else {
        whole
    }
}

/// The token that starts at `start`, which is not blank space, the line
/// being `line` there.
pub open spec fn token_at(bytes: Seq<u8>, start: int, line: int) -> Scanned {
    if !(0 <= start < bytes.len()) {
        Scanned::Token { kind: TokenType::EOF, start, end: start, line }
    } else {
        let b = bytes[start];
        if punctuation(b) is Some {
            Scanned::Token { kind: punctuation(b)->0, start, end: start + 1, line }
        } else if let Some((alone, with_equal)) = comparison(b) {
            if start + 1 < bytes.len() && bytes[start + 1] == EQUAL {
                Scanned::Token { kind: with_equal, start, end: start + 2, line }
            } else {
                Scanned::Token { kind: alone, start, end: start + 1, line }
            }
        } else if b == QUOTE {
            let close = start + 1 + run_len(bytes, start + 1, ByteClass::InString);
            let line = line + line_feeds(bytes, start + 1, close);
            if close >= bytes.len() {
                Scanned::Failure { start, end: close, line, unterminated: true }
            } else {
                Scanned::Token { kind: TokenType::StringLiteral, start, end: close + 1, line }
            }
        } else if is_digit(b) {
            Scanned::Token { kind: TokenType::Number, start, end: number_end(bytes, start), line }
        } else if is_letter(b) {
            let end = start + 1 + run_len(bytes, start + 1, ByteClass::Word);
            Scanned::Token { kind: word_kind(text_of(bytes, start, end)), start, end, line }
        } else {
            Scanned::Failure {
                start,
                end: start + 1 + run_len(bytes, start + 1, ByteClass::Continuation),
                line,
                unterminated: false,
            }
        }
    }
}

/// Blank space ends within the bytes.
pub proof fn lemma_blank_bound(bytes: Seq<u8>, cur: int)
    requires
        0 <= cur <= bytes.len(),
    ensures
        cur + blank(bytes, cur).0 <= bytes.len(),
    decreases bytes.len() - cur,
{
    if cur < bytes.len() {
        if is_space(bytes[cur]) || is_line_feed(bytes[cur]) {
            lemma_blank_bound(bytes, cur + 1);
        } else if comment_starts(bytes, cur) {
            lemma_run_len_bound(bytes, cur + 2, ByteClass::InComment);
            lemma_blank_bound(
                bytes,
                cur + 2 + run_len(bytes, cur + 2, ByteClass::InComment),
            );
        }
    }
}

/// A token starts no earlier than where it is looked for and ends within
/// the bytes.
pub proof fn lemma_token_at_bound(bytes: Seq<u8>, start: int, line: int)
    requires
        0 <= start <= bytes.len(),
    ensures
        token_at(bytes, start, line).start() == start,
        start <= token_at(bytes, start, line).end() <= bytes.len(),
        token_at(bytes, start, line).line() >= line,
        token_at(bytes, start, line) is Token && token_at(bytes, start, line)->kind
            != TokenType::EOF ==> start < token_at(bytes, start, line).end(),
        token_at(bytes, start, line) is Token && token_at(bytes, start, line)->kind
            == TokenType::EOF ==> start == bytes.len(),
{
    if start < bytes.len() {
        lemma_run_len_bound(bytes, start + 1, ByteClass::InString);
        lemma_run_len_bound(bytes, start + 1, ByteClass::Digit);
        lemma_run_len_bound(bytes, start + 1, ByteClass::Word);
        lemma_run_len_bound(bytes, start + 1, ByteClass::Continuation);
        let whole = start + 1 + run_len(bytes, start + 1, ByteClass::Digit);
        if whole + 1 < bytes.len() {
            lemma_run_len_bound(bytes, whole + 1, ByteClass::Digit);
        }
        let end = start + 1 + run_len(bytes, start + 1, ByteClass::Word);
        lemma_word_kind_is_no_end(text_of(bytes, start, end));
    }
}

/// No word is the end of input.
pub proof fn lemma_word_kind_is_no_end(word: Seq<char>)
    ensures
        word_kind(word) != TokenType::EOF,
{
}

/// A step of scanning starts no earlier than where it is taken and ends
/// within the bytes.
pub proof fn lemma_scan_step_bound(bytes: Seq<u8>, cur: int, line: int)
    requires
        0 <= cur <= bytes.len(),
    ensures
        cur <= scan_step(bytes, cur, line).start() <= scan_step(bytes, cur, line).end()
            <= bytes.len(),
        scan_step(bytes, cur, line).line() >= line,
        scan_step(bytes, cur, line) is Token && scan_step(bytes, cur, line)->kind
            != TokenType::EOF ==> cur < scan_step(bytes, cur, line).end(),
{
    lemma_blank_bound(bytes, cur);
    let (n, l) = blank(bytes, cur);
    lemma_token_at_bound(bytes, cur + n, line + l);
}

/// What scanning finds next from position `cur` on line `line`: the blank
/// space is passed over, and the token that follows it is read.
pub open spec fn scan_step(bytes: Seq<u8>, cur: int, line: int) -> Scanned {
    let (n, l) = blank(bytes, cur);
    token_at(bytes, cur + n, line + l)
}

/// The model of the token that a step of scanning gives. Every token but
/// the end of input carries the text that it spans.
pub open spec fn token_view(
    bytes: Seq<u8>,
    kind: TokenType,
    start: int,
    end: int,
    line: int,
) -> TokenView {
    TokenView {
        kind,
        line: line as nat,
        lexeme: if kind == TokenType::EOF {
            None
        } else {
            Some(text_of(bytes, start, end))
        },
    }
}

/// The model of a scanning error.
pub struct ScanErrorView {
    pub line: nat,
    pub lexeme: Seq<char>,
    pub unterminated: bool,
}

/// The tokens from position `cur` on line `line` to the end of input,
/// appended to `acc`; or the first failure on the way.
pub open spec fn scan_loop(bytes: Seq<u8>, cur: int, line: int, acc: Seq<TokenView>) -> Result<
    Seq<TokenView>,
    ScanErrorView,
>
    decreases bytes.len() - cur,
{
    if !(0 <= cur <= bytes.len()) {
        Ok(acc)
    } else {
        proof {
            lemma_scan_step_bound(bytes, cur, line);
        }
        match scan_step(bytes, cur, line) {
            Scanned::Failure { start, end, line, unterminated } => Err(
                ScanErrorView {
                    line: line as nat,
                    lexeme: text_of(bytes, start, end),
                    unterminated,
                },
            ),
            Scanned::Token { kind, start, end, line } => {
                let acc = acc.push(token_view(bytes, kind, start, end, line));
                if kind == TokenType::EOF {
                    Ok(acc)
                } else {
                    scan_loop(bytes, end, line, acc)
                }
            },
        }
    }
}

/// The tokens of a whole source text.
pub open spec fn scan_all(bytes: Seq<u8>) -> Result<Seq<TokenView>, ScanErrorView> {
    scan_loop(bytes, 0, 1, Seq::empty())
}

/// Whether a token is the end of input or carries the text of a span of
/// the bytes.
pub open spec fn is_span_of(bytes: Seq<u8>, token: TokenView) -> bool {
    match token.lexeme {
        None => token.kind == TokenType::EOF,
        Some(text) => exists|start: int, end: int|
            0 <= start <= end <= bytes.len() && text == #[trigger] text_of(bytes, start, end),
    }
}

/// Every token that scanning gives carries the text of the span of the
/// source that it was read from.
pub proof fn lemma_lexemes_are_spans(bytes: Seq<u8>, cur: int, line: int, acc: Seq<TokenView>)
    requires
        forall|i: int| 0 <= i < acc.len() ==> is_span_of(bytes, #[trigger] acc[i]),
    ensures
        scan_loop(bytes, cur, line, acc) matches Ok(tokens) ==> forall|i: int|
            0 <= i < tokens.len() ==> is_span_of(bytes, #[trigger] tokens[i]),
    decreases bytes.len() - cur,
{
    if 0 <= cur <= bytes.len() {
        lemma_scan_step_bound(bytes, cur, line);
        match scan_step(bytes, cur, line) {
            Scanned::Failure { .. } => {},
            Scanned::Token { kind, start, end, line } => {
                let token = token_view(bytes, kind, start, end, line);
                if kind != TokenType::EOF {
                    assert(token.lexeme == Some(text_of(bytes, start, end)));
                }
                assert(is_span_of(bytes, token));
                let next = acc.push(token);
                assert forall|i: int| 0 <= i < next.len() implies is_span_of(
                    bytes,
                    #[trigger] next[i],
                ) by {
                    if i < acc.len() {
                        assert(next[i] == acc[i]);
                    }
                }
                if kind != TokenType::EOF {
                    lemma_lexemes_are_spans(bytes, end, line, next);
                }
            },
        }
    }
}

/// Scanning ends with the end-of-input token and gives no other.
pub proof fn lemma_one_end_of_input(bytes: Seq<u8>, cur: int, line: int, acc: Seq<TokenView>)
    requires
        0 <= cur <= bytes.len(),
        forall|i: int| 0 <= i < acc.len() ==> (#[trigger] acc[i]).kind != TokenType::EOF,
    ensures
        scan_loop(bytes, cur, line, acc) matches Ok(tokens) ==> {
            &&& tokens.len() > 0
            &&& tokens.last().kind == TokenType::EOF
            &&& forall|i: int|
                0 <= i < tokens.len() - 1 ==> (#[trigger] tokens[i]).kind != TokenType::EOF
        },
    decreases bytes.len() - cur,
{
    lemma_scan_step_bound(bytes, cur, line);
    match scan_step(bytes, cur, line) {
        Scanned::Failure { .. } => {},
        Scanned::Token { kind, start, end, line } => {
            let next = acc.push(token_view(bytes, kind, start, end, line));
            if kind != TokenType::EOF {
                assert forall|i: int| 0 <= i < next.len() implies (#[trigger] next[i]).kind
                    != TokenType::EOF by {
                    if i < acc.len() {
                        assert(next[i] == acc[i]);
                    }
                }
                lemma_one_end_of_input(bytes, end, line, next);
            } else {
                assert forall|i: int| 0 <= i < next.len() - 1 implies (#[trigger] next[i]).kind
                    != TokenType::EOF by {
                    assert(next[i] == acc[i]);
                }
            }
        },
    }
}

/// Whether the line numbers of a sequence of tokens never go down.
pub open spec fn lines_ascend(tokens: Seq<TokenView>) -> bool {
    forall|i: int, j: int| 0 <= i <= j < tokens.len() ==> tokens[i].line <= tokens[j].line
}

/// The line numbers of the tokens that scanning gives never go down.
pub proof fn lemma_lines_ascend(bytes: Seq<u8>, cur: int, line: int, acc: Seq<TokenView>)
    requires
        0 <= cur <= bytes.len(),
        0 <= line,
        lines_ascend(acc),
        forall|i: int| 0 <= i < acc.len() ==> (#[trigger] acc[i]).line <= line,
    ensures
        scan_loop(bytes, cur, line, acc) matches Ok(tokens) ==> lines_ascend(tokens),
    decreases bytes.len() - cur,
{
    lemma_scan_step_bound(bytes, cur, line);
    match scan_step(bytes, cur, line) {
        Scanned::Failure { .. } => {},
        Scanned::Token { kind, start, end, line: at } => {
            let next = acc.push(token_view(bytes, kind, start, end, at));
            assert forall|i: int| 0 <= i < next.len() implies (#[trigger] next[i]).line <= at by {
                if i < acc.len() {
                    assert(next[i] == acc[i]);
                }
            }
            assert(lines_ascend(next)) by {
                assert forall|i: int, j: int| 0 <= i <= j < next.len() implies next[i].line
                    <= next[j].line by {
                    if j < acc.len() {
                        assert(next[i] == acc[i]);
                        assert(next[j] == acc[j]);
                    }
                }
            }
            if kind != TokenType::EOF {
                lemma_lines_ascend(bytes, end, at, next);
            }
        },
    }
}

/// Whether the byte at `i` lies in a comment that starts at or after
/// `from`: two slashes stand at or before it, with no line feed from them
/// up to it.
pub open spec fn in_comment(bytes: Seq<u8>, from: int, i: int) -> bool {
    exists|j: int|
        from <= j <= i && #[trigger] comment_starts(bytes, j) && forall|k: int|
            j <= k <= i ==> !is_line_feed(#[trigger] bytes[k])
}

/// A byte that lies in a comment that starts at or after `later` lies in
/// one that starts at or after any earlier position.
proof fn lemma_in_comment_from_earlier(bytes: Seq<u8>, from: int, later: int, i: int)
    requires
        from <= later,
        in_comment(bytes, later, i),
    ensures
        in_comment(bytes, from, i),
{
    let j = choose|j: int|
        later <= j <= i && #[trigger] comment_starts(bytes, j) && forall|k: int|
            j <= k <= i ==> !is_line_feed(#[trigger] bytes[k]);
    assert(from <= j <= i && comment_starts(bytes, j));
}

/// A byte within a comment that starts at `cur` lies in a comment.
proof fn lemma_in_comment_at_start(bytes: Seq<u8>, cur: int, i: int)
    requires
        0 <= cur,
        comment_starts(bytes, cur),
        cur <= i < cur + 2 + run_len(bytes, cur + 2, ByteClass::InComment),
    ensures
        in_comment(bytes, cur, i),
{
    lemma_run_len_bound(bytes, cur + 2, ByteClass::InComment);
    assert forall|k: int| cur <= k <= i implies !is_line_feed(#[trigger] bytes[k]) by {
        if k >= cur + 2 {
            assert(ByteClass::InComment.holds(bytes[k]));
        }
    }
    assert(cur <= cur <= i && comment_starts(bytes, cur));
}

/// A byte of blank space is a space, a tab, a carriage return, a line feed
/// or part of a comment.
pub proof fn lemma_blank_byte(bytes: Seq<u8>, cur: int, i: int)
    requires
        0 <= cur <= i < cur + blank(bytes, cur).0,
    ensures
        i < bytes.len(),
        is_space(bytes[i]) || is_line_feed(bytes[i]) || in_comment(bytes, cur, i),
    decreases bytes.len() - cur,
{
    if cur < bytes.len() {
        if is_space(bytes[cur]) || is_line_feed(bytes[cur]) {
            if i > cur {
                lemma_blank_byte(bytes, cur + 1, i);
                if in_comment(bytes, cur + 1, i) {
                    lemma_in_comment_from_earlier(bytes, cur, cur + 1, i);
                }
            }
        } else if comment_starts(bytes, cur) {
            lemma_run_len_bound(bytes, cur + 2, ByteClass::InComment);
            let c = 2 + run_len(bytes, cur + 2, ByteClass::InComment);
            if i < cur + c {
                lemma_in_comment_at_start(bytes, cur, i);
            } else {
                lemma_blank_byte(bytes, cur + c, i);
                if in_comment(bytes, cur + c, i) {
                    lemma_in_comment_from_earlier(bytes, cur, cur + c, i);
                }
            }
        }
    }
}

/// What follows blank space is no space, tab, carriage return or line feed
/// and starts no comment.
pub proof fn lemma_blank_stops_at_a_token(bytes: Seq<u8>, cur: int)
    requires
        0 <= cur <= bytes.len(),
    ensures
        cur + blank(bytes, cur).0 <= bytes.len(),
        cur + blank(bytes, cur).0 < bytes.len() ==> {
            let at = cur + blank(bytes, cur).0;
            !is_space(bytes[at]) && !is_line_feed(bytes[at]) && !comment_starts(bytes, at)
        },
    decreases bytes.len() - cur,
{
    if cur < bytes.len() {
        if is_space(bytes[cur]) || is_line_feed(bytes[cur]) {
            lemma_blank_stops_at_a_token(bytes, cur + 1);
        } else if comment_starts(bytes, cur) {
            lemma_run_len_bound(bytes, cur + 2, ByteClass::InComment);
            lemma_blank_stops_at_a_token(
                bytes,
                cur + 2 + run_len(bytes, cur + 2, ByteClass::InComment),
            );
        }
    }
}

/// The tokens of a whole source text end with the end-of-input token and
/// hold no other, their line numbers never go down, and each of them but
/// the last carries the text of the span of the source that it was read
/// from.
pub proof fn lemma_scan_all(bytes: Seq<u8>)
    ensures
        scan_all(bytes) matches Ok(tokens) ==> {
            &&& tokens.len() > 0
            &&& tokens.last().kind == TokenType::EOF
            &&& forall|i: int|
                0 <= i < tokens.len() - 1 ==> (#[trigger] tokens[i]).kind != TokenType::EOF
            &&& lines_ascend(tokens)
            &&& forall|i: int| 0 <= i < tokens.len() ==> is_span_of(bytes, #[trigger] tokens[i])
        },
{
    lemma_one_end_of_input(bytes, 0, 1, Seq::empty());
    lemma_lines_ascend(bytes, 0, 1, Seq::empty());
    lemma_lexemes_are_spans(bytes, 0, 1, Seq::empty());
}

} // verus!

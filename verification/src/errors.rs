use vstd::prelude::*;
use vstd::string::*;

use crate::scanner::token::{Token, TokenView};
use crate::text::{decimal, push_decimal};

verus! {

/// An error found while parsing: the token it was found at, and what is
/// wrong there.
#[derive(Debug, Clone)]
pub struct RoxError<'a> {
    pub token: Token<'a>,
    pub msg: String,
}

/// The mathematical model of a parsing error.
pub struct RoxErrorView {
    pub token: TokenView,
    pub msg: Seq<char>,
}

impl<'a> View for RoxError<'a> {
    type V = RoxErrorView;

    open spec fn view(&self) -> RoxErrorView {
        RoxErrorView { token: self.token@, msg: self.msg@ }
    }
}

impl RoxErrorView {
    /// The line that reports the error: the line number of its token and
    /// the message.
    pub open spec fn text(self) -> Seq<char> {
        "[ERROR]: at "@ + decimal(self.token.line) + ": "@ + self.msg
    }
}

impl<'a> RoxError<'a> {
    /// An error at a token, with its message.
    pub fn new(token: Token<'a>, msg: String) -> (r: Self)
        ensures
            r.token == token,
            r.msg == msg,
    {
        Self { token, msg }
    }

    /// The line that reports the error.
    pub fn to_string(&self) -> (r: String)
        ensures
            r@ == self@.text(),
    {
        let mut s = String::from_str("[ERROR]: at ");
        push_decimal(&mut s, self.token.line as u64);
        s.append(": ");
        s.append(self.msg.as_str());
        s
    }
}

/// The models of a sequence of errors, in order.
pub open spec fn error_views<'a>(v: Seq<RoxError<'a>>) -> Seq<RoxErrorView> {
    Seq::new(v.len(), |i: int| v[i]@)
}

/// The summary that is shown where parsing found errors.
pub open spec fn summary_text(n: nat) -> Seq<char> {
    "Errors detected while parsing: found "@ + decimal(n) + " errors"@
}

/// The summary that is shown where parsing found `n` errors.
pub fn summary(n: usize) -> (r: String)
    ensures
        r@ == summary_text(n as nat),
{
    let mut s = String::from_str("Errors detected while parsing: found ");
    push_decimal(&mut s, n as u64);
    s.append(" errors");
    s
}

/// The lines that report a list of errors: the summary, then one line for
/// each error in order.
pub fn report(errors: &Vec<RoxError<'_>>) -> (lines: Vec<String>)
    ensures
        lines@.len() == errors@.len() + 1,
        lines@[0]@ == summary_text(errors@.len()),
        forall|i: int|
            0 <= i < errors@.len() ==> (#[trigger] lines@[i + 1])@ == errors@[i]@.text(),
{
    let mut lines: Vec<String> = Vec::new();
    lines.push(summary(errors.len()));
    let mut i: usize = 0;
    while i < errors.len()
        invariant
            0 <= i <= errors.len(),
            lines@.len() == i + 1,
            lines@[0]@ == summary_text(errors@.len()),
            forall|j: int| 0 <= j < i ==> (#[trigger] lines@[j + 1])@ == errors@[j]@.text(),
        decreases errors.len() - i,
    {
        lines.push(errors[i].to_string());
        i = i + 1;
    }
    lines
}

} // verus!

use vstd::prelude::*;

use crate::format_value::{digits, digits_of};
use crate::text::{push_all, push_char, push_repeat};
use crate::value::{ErrorKind, EvalErrorMessage};

verus! {

/// A span of the source text: `len` characters from `start`, with the whole
/// text kept for diagnostics.
#[derive(Debug, Clone, PartialEq, Eq)]
pub struct Location {
    pub string: String,
    pub start: usize,
    pub len: usize,
}

/// Where an error lies and what it is, as the contracts see it.
pub struct Fault {
    pub start: int,
    pub len: int,
    pub kind: ErrorKind,
}

#[derive(Debug, Clone, PartialEq, Eq)]
pub struct EvalError {
    pub location: Location,
    pub message: EvalErrorMessage,
}

impl Location {
    pub open spec fn wf(&self) -> bool {
        self.start + self.len <= self.string@.len()
    }

    pub fn new(s: &str, start: usize, len: usize) -> (r: Self)
        requires
            start + len <= s@.len(),
        ensures
            r.string@ == s@,
            r.start == start,
            r.len == len,
            r.wf(),
    {
        Location { string: s.to_owned(), start, len }
    }

    pub fn error_here(&self, message: EvalErrorMessage) -> (r: EvalError)
        ensures
            r.location == *self,
            r.message == message,
    {
        EvalError { location: self.duplicate(), message }
    }

    /// A copy of this span.
    pub fn duplicate(&self) -> (r: Self)
        ensures
            r == *self,
    {
        Location { string: self.string.clone(), start: self.start, len: self.len }
    }
}

impl EvalError {
    pub open spec fn fault(&self) -> Fault {
        Fault {
            start: self.location.start as int,
            len: self.location.len as int,
            kind: self.message.kind(),
        }
    }
}

/// The diagnostic for a span: the text, then a line that underlines the
/// span with carets.
pub open spec fn location_text(l: Location) -> Seq<char> {
    seq![' ', ' '] + l.string@ + seq!['\n', ' ', ' '] + Seq::new(l.start as nat, |k: int| ' ')
        + Seq::new(l.len as nat, |k: int| '^')
}

/// A character as `Debug` writes it between quotes: the quote, the
/// backslash and control characters escaped.
pub open spec fn char_escape(c: char) -> Seq<char> {
    if c == '\'' {
        seq!['\\', '\'']
    } else if c == '\\' {
        seq!['\\', '\\']
    } else if c == '\n' {
        seq!['\\', 'n']
    } else if c == '\r' {
        seq!['\\', 'r']
    } else if c == '\t' {
        seq!['\\', 't']
    } else if c == '\0' {
        seq!['\\', '0']
    } else if (c as u32) < 32 || c as u32 == 127 {
        seq!['\\', 'u', '{'] + digits_of(c as u32 as nat, 16) + seq!['}']
    } else {
        seq![c]
    }
}

fn push_escaped(s: &mut String, c: char)
    ensures
        final(s)@ == old(s)@ + char_escape(c),
{
    let u = c as u32;
    if c == '\'' || c == '\\' {
        push_char(s, '\\');
        push_char(s, c);
    } else if c == '\n' {
        push_char(s, '\\');
        push_char(s, 'n');
    } else if c == '\r' {
        push_char(s, '\\');
        push_char(s, 'r');
    } else if c == '\t' {
        push_char(s, '\\');
        push_char(s, 't');
    } else if c == '\0' {
        push_char(s, '\\');
        push_char(s, '0');
    } else if u < 32 || u == 127 {
        push_char(s, '\\');
        push_char(s, 'u');
        push_char(s, '{');
        let ds = digits(u as u128, 16);
        push_all(s, &ds);
        push_char(s, '}');
    } else {
        push_char(s, c);
    }
    proof {
        assert(s@ =~= old(s)@ + char_escape(c));
    }
}

/// The one-line description of an error.
pub open spec fn message_text(m: EvalErrorMessage) -> Seq<char> {
    match m {
        EvalErrorMessage::InvalidChar(c) => "Invalid character '"@ + char_escape(c)
            + "' for this position"@,
        EvalErrorMessage::EmptyExpression => "Empty expressions are not allowed"@,
        EvalErrorMessage::UnmatchedOpen => "Unmatched opening '('"@,
        EvalErrorMessage::UnmatchedClose => "Unmatched closing ')'"@,
        EvalErrorMessage::UnexpectedToken => "Unexpected token"@,
        EvalErrorMessage::CallNonSymbol => "Only functions can be called"@,
        EvalErrorMessage::UnknownSymbol(s) => "Unknown symbol name \""@ + s@ + "\""@,
        EvalErrorMessage::UnknownFunction(s) => "Unknown function \""@ + s@ + "\""@,
        EvalErrorMessage::ArgumentCount => "Function argument count incorrect"@,
        EvalErrorMessage::InvalidArgument(s) => "Argument invalid: "@ + s@,
        EvalErrorMessage::Overflow => "Overflow or underflow occurred"@,
    }
}

impl Location {
    /// The text, and under it the span underlined with carets.
    pub fn to_string(&self) -> (r: String)
        ensures
            r@ == location_text(*self),
    {
        let mut r = String::new();
        push_repeat(&mut r, ' ', 2);
        r.append(self.string.as_str());
        push_char(&mut r, '\n');
        push_repeat(&mut r, ' ', 2);
        push_repeat(&mut r, ' ', self.start);
        push_repeat(&mut r, '^', self.len);
        proof {
            assert(Seq::new(2, |k: int| ' ') =~= seq![' ', ' ']);
            assert(r@ =~= location_text(*self));
        }
        r
    }
}

impl EvalErrorMessage {
    pub fn to_string(&self) -> (r: String)
        ensures
            r@ == message_text(*self),
    {
        match self {
            EvalErrorMessage::InvalidChar(c) => {
                let mut r = "Invalid character '".to_owned();
                push_escaped(&mut r, *c);
                r.append("' for this position");
                r
            },
            EvalErrorMessage::EmptyExpression => "Empty expressions are not allowed".to_owned(),
            EvalErrorMessage::UnmatchedOpen => "Unmatched opening '('".to_owned(),
            EvalErrorMessage::UnmatchedClose => "Unmatched closing ')'".to_owned(),
            EvalErrorMessage::UnexpectedToken => "Unexpected token".to_owned(),
            EvalErrorMessage::CallNonSymbol => "Only functions can be called".to_owned(),
            EvalErrorMessage::UnknownSymbol(s) => {
                let mut r = "Unknown symbol name \"".to_owned();
                r.append(s.as_str());
                r.append("\"");
                r
            },
            EvalErrorMessage::UnknownFunction(s) => {
                let mut r = "Unknown function \"".to_owned();
                r.append(s.as_str());
                r.append("\"");
                r
            },
            EvalErrorMessage::ArgumentCount => "Function argument count incorrect".to_owned(),
            EvalErrorMessage::InvalidArgument(s) => {
                let mut r = "Argument invalid: ".to_owned();
                r.append(s.as_str());
                r
            },
            EvalErrorMessage::Overflow => "Overflow or underflow occurred".to_owned(),
        }
    }
}

impl EvalError {
    /// The description, then the diagnostic for the span.
    pub fn to_string(&self) -> (r: String)
        ensures
            r@ == message_text(self.message) + seq!['\n'] + location_text(self.location),
    {
        let mut r = self.message.to_string();
        push_char(&mut r, '\n');
        let l = self.location.to_string();
        r.append(l.as_str());
        r
    }
}

} // verus!

//! Diagnostics.
use vstd::prelude::*;
use vstd::string::StringExecFns;
use crate::text::push_char;
use crate::text::push_decimal;
use crate::text::decimal;
use crate::token::Token;
use crate::token_type::TokenType;

verus! {

/// Where an error was found.
#[derive(Debug, Clone, Copy, PartialEq, Eq, Structural)]
pub enum ErrorKind {
    /// A character that starts no token, or a string left open.
    Scan,
    /// A token that the grammar does not allow where it stands.
    Parse,
    /// A failure while the program runs.
    Runtime,
}

/// A diagnostic: the line, the message and, for parse and runtime errors,
/// the token at fault.
#[derive(Debug)]
pub struct LoxError {
    pub kind: ErrorKind,
    pub line: usize,
    pub token: Option<Token>,
    pub message: String,
}

/// What a `LoxError` stands for, its message by its characters.
pub struct ErrorView {
    pub kind: ErrorKind,
    pub line: nat,
    pub token: Option<Token>,
    pub message: Seq<char>,
}

impl View for LoxError {
    type V = ErrorView;

    open spec fn view(&self) -> ErrorView {
        ErrorView {
            kind: self.kind,
            line: self.line as nat,
            token: self.token,
            message: self.message@,
        }
    }
}

/// The view of an error of kind `kind` raised at `token`.
pub open spec fn error_at(kind: ErrorKind, token: Token, message: Seq<char>) -> ErrorView {
    ErrorView { kind, line: token.line as nat, token: Some(token), message }
}

/// The part of a diagnostic that says where: nothing for a scan error,
/// ` at end` at the end of input, else the lexeme in quotes.
pub open spec fn location_text(token: Option<Token>) -> Seq<char> {
    match token {
        None => Seq::empty(),
        Some(t) => if t.token_type == TokenType::Eof {
            " at end"@
        } else {
            " at '"@ + t.lexeme@ + "'"@
        },
    }
}

/// The diagnostic line: `[line N] Error <loc>: <message>`.
pub open spec fn report_text(line: nat, loc: Seq<char>, message: Seq<char>) -> Seq<char> {
    "[line "@ + decimal(line) + "] Error "@ + loc + ": "@ + message
}

impl LoxError {
    /// A scan error on `line`.
    pub fn error(line: usize, message: String) -> (r: LoxError)
        ensures
            r == (LoxError { kind: ErrorKind::Scan, line, token: None, message }),
    {
        LoxError { kind: ErrorKind::Scan, line, token: None, message }
    }

    /// A parse error at `token`.
    pub fn parse_error(token: &Token, message: &str) -> (r: LoxError)
        ensures
            r@ == error_at(ErrorKind::Parse, *token, message@),
    {
        LoxError {
            kind: ErrorKind::Parse,
            line: token.line,
            token: Some(token.dup()),
            message: message.to_owned(),
        }
    }

    /// A runtime error at `token`.
    pub fn runtime_error(token: &Token, message: String) -> (r: LoxError)
        ensures
            r@ == error_at(ErrorKind::Runtime, *token, message@),
    {
        LoxError { kind: ErrorKind::Runtime, line: token.line, token: Some(token.dup()), message }
    }

    /// A copy of this error.
    pub fn dup(&self) -> (r: LoxError)
        ensures
            r == *self,
    {
        LoxError {
            kind: self.kind,
            line: self.line,
            token: match &self.token {
                Some(t) => Some(t.dup()),
                None => None,
            },
            message: self.message.clone(),
        }
    }

    /// Where the error was found, as its diagnostic says it.
    pub fn location(&self) -> (r: String)
        ensures
            r@ == location_text(self.token),
    {
        match &self.token {
            None => String::new(),
            Some(t) => {
                if t.is(TokenType::Eof) {
                    " at end".to_owned()
                } else {
                    let mut s = " at '".to_owned();
                    s.append(t.as_string().as_str());
                    push_char(&mut s, '\'');
                    proof {
                        reveal_strlit("'");
                        assert(s@ =~= " at '"@ + t.lexeme@ + "'"@);
                    }
                    s
                }
            },
        }
    }

    /// The diagnostic line for this error, with `loc` saying where.
    pub fn report(&self, loc: String) -> (r: String)
        ensures
            r@ == report_text(self.line as nat, loc@, self.message@),
    {
        let mut s = "[line ".to_owned();
        push_decimal(&mut s, self.line);
        s.append("] Error ");
        s.append(loc.as_str());
        s.append(": ");
        s.append(self.message.as_str());
        s
    }

    /// The diagnostic line for this error.
    pub fn describe(&self) -> (r: String)
        ensures
            r@ == report_text(self.line as nat, location_text(self.token), self.message@),
    {
        self.report(self.location())
    }
}

} // verus!

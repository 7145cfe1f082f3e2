use vstd::prelude::*;

use crate::token::Token;

verus! {

/// The error vocabulary shared by the stages of the toolchain. The scanner
/// raises only `SyntaxError`.
#[derive(Debug, Clone, PartialEq)]
pub enum ErrorType {
    NameError,
    SyntaxError,
    Runtime(String),
}

/// The label under which a kind of error is reported.
pub open spec fn error_label(t: ErrorType) -> Seq<char> {
    match t {
        ErrorType::NameError => "NameError"@,
        ErrorType::SyntaxError => "SyntaxError"@,
        ErrorType::Runtime(m) => "RuntimeError: "@ + m@,
    }
}

impl ErrorType {
    /// The label under which this kind of error is reported.
    pub fn to_string(&self) -> (r: String)
        ensures
            r@ == error_label(*self),
    {
        match self {
            ErrorType::NameError => String::from_str("NameError"),
            ErrorType::SyntaxError => String::from_str("SyntaxError"),
            ErrorType::Runtime(m) => {
                let mut r = String::from_str("RuntimeError: ");
                r.append(m.as_str());
                r
            },
        }
    }
}

/// A failure, with the token that locates it in the source.
#[derive(Debug, Clone, PartialEq)]
pub struct Error {
    pub message: String,
    pub error_type: ErrorType,
    pub token: Token,
}

} // verus!

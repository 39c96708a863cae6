//! The error taxonomy of the library: a closed set of terminal failures.

use vstd::prelude::*;

verus! {

use vstd::string::StringExecFns;

/// The specification-level image of [`EnvSubstError`]: the same three
/// variants, carrying the character sequences of the name or message.
pub enum SpecError {
    NotSet(Seq<char>),
    Empty(Seq<char>),
    Parsing(Seq<char>),
}

/// Failure of a parse or substitution call. Each variant carries the
/// offending variable name or, for grammar errors, a message naming the
/// malformed token.
#[derive(Debug)]
pub enum EnvSubstError {
    /// A referenced variable has no value and no default, under a strict flag.
    VariableNotSet(String),
    /// A referenced variable is present but empty and has no default, under
    /// the strict-empty flag.
    VariableEmpty(String),
    /// The placeholder grammar was violated (a name containing `:` without an
    /// attached default).
    ParsingError(String),
}

impl View for EnvSubstError {
    type V = SpecError;

    open spec fn view(&self) -> SpecError {
        match self {
            EnvSubstError::VariableNotSet(v) => SpecError::NotSet(v@),
            EnvSubstError::VariableEmpty(v) => SpecError::Empty(v@),
            EnvSubstError::ParsingError(m) => SpecError::Parsing(m@),
        }
    }
}

impl EnvSubstError {
    /// A human-readable description, for callers that present errors.
    pub fn describe(&self) -> (r: String)
        ensures
            match self {
                EnvSubstError::VariableNotSet(v) => r@ == "Variable "@ + v@ + " not set"@,
                EnvSubstError::VariableEmpty(v) => r@ == "Variable "@ + v@ + " is empty"@,
                EnvSubstError::ParsingError(m) => r@ == "Parsing error: "@ + m@,
            },
    {
        match self {
            EnvSubstError::VariableNotSet(v) => {
                let mut s = String::from_str("Variable ");
                s.append(v.as_str());
                s.append(" not set");
                s
            },
            EnvSubstError::VariableEmpty(v) => {
                let mut s = String::from_str("Variable ");
                s.append(v.as_str());
                s.append(" is empty");
                s
            },
            EnvSubstError::ParsingError(m) => {
                let mut s = String::from_str("Parsing error: ");
                s.append(m.as_str());
                s
            },
        }
    }
}

} // verus!

use vstd::prelude::*;

use vstd::string::StrSliceExecFns;
use vstd::string::StringExecFns;

use crate::challenge::ChallengeError;
use crate::text::chars_to_string;
use crate::text::dec_chars;
use crate::text::dec_rep;

verus! {

/// An error of reading a program's source text.
#[derive(Debug, Clone, PartialEq, Eq)]
pub enum ParseError {
    /// The leading memory-size declaration was malformed (or declared a
    /// size of zero).
    BitCountParseError,
    /// A line did not read as an instruction: the offending text and its
    /// 0-based line number.
    CommandParseError { cmd: String, line: usize },
}

/// The text that describes a parse error.
pub open spec fn parse_error_text(e: ParseError) -> Seq<char> {
    match e {
        ParseError::BitCountParseError => "invalid bit count specification"@,
        ParseError::CommandParseError { cmd, line } => "invalid command '"@ + cmd@
            + "' at line "@ + dec_rep(line as nat),
    }
}

impl ParseError {
    /// The error's text.
    pub fn message(&self) -> (r: String)
        ensures
            r@ == parse_error_text(*self),
    {
        match self {
            ParseError::BitCountParseError => "invalid bit count specification".to_owned(),
            ParseError::CommandParseError { cmd, line } => {
                let mut t = "invalid command '".to_owned();
                t.append(cmd.as_str());
                t.append("' at line ");
                let digits = chars_to_string(&dec_chars(*line as u64));
                t.append(digits.as_str());
                t
            },
        }
    }
}

/// An addressing fault of the engine. Faults are returned as values, never
/// panics: the engine stays inspectable after one.
#[derive(Debug, Copy, Clone, PartialEq, Eq, Structural)]
pub enum CpuError {
    /// A conditional decrement tried to move the address below 0.
    NegativeAddr,
    /// An increment tried to move the address past the last memory bit.
    OutOfMemory,
}

/// The text that describes an addressing fault.
pub open spec fn cpu_error_text(e: CpuError) -> Seq<char> {
    match e {
        CpuError::NegativeAddr => "attempted to move below address 0"@,
        CpuError::OutOfMemory => "attempted to move beyond memory end"@,
    }
}

impl CpuError {
    /// The fixed text that describes the fault.
    pub fn message(&self) -> (r: &'static str)
        ensures
            r@ == cpu_error_text(*self),
    {
        match self {
            CpuError::NegativeAddr => "attempted to move below address 0",
            CpuError::OutOfMemory => "attempted to move beyond memory end",
        }
    }
}

/// The umbrella error of loading and grading a program: a read failure's
/// text, a malformed source line, an engine fault, or an unknown challenge
/// id.
#[derive(Debug, Clone, PartialEq, Eq)]
pub enum ExecutionError {
    IoError(String),
    ParseError(ParseError),
    CpuError(CpuError),
    ChallengeError(ChallengeError),
}

/// The text that describes an execution error.
pub open spec fn execution_error_text(e: ExecutionError) -> Seq<char> {
    match e {
        ExecutionError::IoError(s) => s@,
        ExecutionError::ParseError(p) => parse_error_text(p),
        ExecutionError::CpuError(c) => cpu_error_text(c),
        ExecutionError::ChallengeError(_) => "no such challenge exists"@,
    }
}

impl ExecutionError {
    /// The error's text.
    pub fn message(&self) -> (r: String)
        ensures
            r@ == execution_error_text(*self),
    {
        match self {
            ExecutionError::IoError(s) => s.clone(),
            ExecutionError::ParseError(p) => p.message(),
            ExecutionError::CpuError(c) => c.message().to_owned(),
            ExecutionError::ChallengeError(c) => c.message().to_owned(),
        }
    }
}

impl From<ParseError> for ExecutionError {
    fn from(err: ParseError) -> (r: ExecutionError) {
        ExecutionError::ParseError(err)
    }
}

impl vstd::std_specs::convert::FromSpecImpl<ParseError> for ExecutionError {
    open spec fn obeys_from_spec() -> bool {
        true
    }

    open spec fn from_spec(t: ParseError) -> ExecutionError {
        ExecutionError::ParseError(t)
    }
}

impl From<CpuError> for ExecutionError {
    fn from(err: CpuError) -> (r: ExecutionError) {
        ExecutionError::CpuError(err)
    }
}

impl vstd::std_specs::convert::FromSpecImpl<CpuError> for ExecutionError {
    open spec fn obeys_from_spec() -> bool {
        true
    }

    open spec fn from_spec(t: CpuError) -> ExecutionError {
        ExecutionError::CpuError(t)
    }
}

impl From<ChallengeError> for ExecutionError {
    fn from(err: ChallengeError) -> (r: ExecutionError) {
        ExecutionError::ChallengeError(err)
    }
}

impl vstd::std_specs::convert::FromSpecImpl<ChallengeError> for ExecutionError {
    open spec fn obeys_from_spec() -> bool {
        true
    }

    open spec fn from_spec(t: ChallengeError) -> ExecutionError {
        ExecutionError::ChallengeError(t)
    }
}

} // verus!

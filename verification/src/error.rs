//! Failures of the engine.
use vstd::prelude::*;
use vstd::string::*;

use crate::value::JsValue;

verus! {

/// A refusal of the front end.
#[derive(Debug, Clone)]
pub struct CompileError {
    /// What is wrong.
    pub message: String,
    /// Where, in bytes.
    pub span: Option<(u32, u32)>,
}

/// Engine failure with a typed discriminant.
#[derive(Debug, Clone)]
pub enum EngineError {
    /// The front end refused the source text.
    Compile(CompileError),
    /// The script completed by throwing a value.
    Thrown(JsValue),
    /// The engine refused the call for a reason outside the script.
    Host(String),
}

impl EngineError {
    /// The text of the error for a reader, with what the front end or the host says.
    pub open spec fn text(self) -> Seq<char> {
        match self {
            EngineError::Compile(e) => "compile error: "@ + e.message@,
            EngineError::Thrown(_) => "script threw an uncaught value"@,
            EngineError::Host(m) => "host error: "@ + m@,
        }
    }

    /// The text of the error for a reader.
    pub fn to_display_string(&self) -> (r: String)
        ensures
            r@ == self.text(),
    {
        match self {
            EngineError::Compile(e) => {
                let mut s: String = "compile error: ".to_owned();
                s.append(e.message.as_str());
                s
            },
            EngineError::Thrown(_) => "script threw an uncaught value".to_owned(),
            EngineError::Host(m) => {
                let mut s: String = "host error: ".to_owned();
                s.append(m.as_str());
                s
            },
        }
    }

    /// A label for the sort of failure.
    pub fn kind_label(&self) -> (r: &'static str)
        ensures
            r@ == match *self {
                EngineError::Compile(_) => "compile"@,
                EngineError::Thrown(_) => "thrown"@,
                EngineError::Host(_) => "host"@,
            },
    {
        match self {
            EngineError::Compile(_) => "compile",
            EngineError::Thrown(_) => "thrown",
            EngineError::Host(_) => "host",
        }
    }
}

impl From<CompileError> for EngineError {
    fn from(e: CompileError) -> (r: Self) {
        EngineError::Compile(e)
    }
}

impl vstd::std_specs::convert::FromSpecImpl<CompileError> for EngineError {
    open spec fn obeys_from_spec() -> bool {
        true
    }

    open spec fn from_spec(e: CompileError) -> EngineError {
        EngineError::Compile(e)
    }
}

/// Maximum length in bytes of a source text.
pub const MAX_SOURCE_LEN: usize = 1_000_000;

/// Refuses a source text that is too long.
pub fn check_source(source: &str) -> (r: Result<(), EngineError>)
    ensures
        source.spec_bytes().len() <= MAX_SOURCE_LEN ==> r is Ok,
        source.spec_bytes().len() > MAX_SOURCE_LEN ==> (r matches Err(EngineError::Host(m)) && m@
            == "source too large"@),
{
    let n: usize = source.as_bytes().len();
    if n > MAX_SOURCE_LEN {
        return Err(EngineError::Host("source too large".to_owned()));
    }
    Ok(())
}

} // verus!

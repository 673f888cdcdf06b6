use vstd::prelude::*;

verus! {

/// The error taxonomy of the engine. Each variant carries its diagnostic
/// text in a `detail` field.
#[derive(Debug, Clone)]
pub enum EngineError {
    /// The input path does not name a readable file.
    FileNotFound { detail: String },
    /// A data line could not be parsed; `line` is 1-based.
    ParseError { line: u64, detail: String },
    /// A timestamp was malformed or a time component was out of range.
    InvalidTimestamp { detail: String },
    /// The requested resampling target is not one of the supported names.
    InvalidInterval { detail: String },
    /// The cache storage could not be opened, read or written.
    CacheIoError { detail: String },
    /// A cache partition's stored count disagrees with its rows.
    CacheInconsistent { detail: String },
}

impl EngineError {
    pub open spec fn spec_detail(self) -> Seq<char> {
        match self {
            EngineError::FileNotFound { detail } => detail@,
            EngineError::ParseError { line, detail } => detail@,
            EngineError::InvalidTimestamp { detail } => detail@,
            EngineError::InvalidInterval { detail } => detail@,
            EngineError::CacheIoError { detail } => detail@,
            EngineError::CacheInconsistent { detail } => detail@,
        }
    }

    /// The diagnostic text carried by the error.
    pub fn message(&self) -> (r: String)
        ensures
            r@ == self.spec_detail(),
    {
        match self {
            EngineError::FileNotFound { detail } => detail.clone(),
            EngineError::ParseError { line, detail } => detail.clone(),
            EngineError::InvalidTimestamp { detail } => detail.clone(),
            EngineError::InvalidInterval { detail } => detail.clone(),
            EngineError::CacheIoError { detail } => detail.clone(),
            EngineError::CacheInconsistent { detail } => detail.clone(),
        }
    }
}

} // verus!

//! What can go wrong during one transform call.
//!
//! Configuration and parse errors end the call with no output. A resolution
//! warning never does. An emit error reports a defect in the pipeline itself.

use vstd::prelude::*;

verus! {

/// The caller's configuration was rejected before any parsing took place.
#[derive(Clone, Copy, Debug, PartialEq, Eq, Structural)]
pub enum ConfigError {
    /// The request, or one of its nested objects, names a field the schema lacks.
    UnknownField,
    /// The request does not say which file is being transformed.
    MissingFilename,
    /// The requested language level is none of the supported ones.
    UnsupportedTarget,
    /// A top-level import map entry has the empty string as its key.
    EmptyKey,
    /// Two top-level import map entries share a key.
    DuplicateKey,
    /// Two scopes share a path prefix.
    DuplicateScope,
    /// Two entries of one scope share a key.
    DuplicateScopeKey,
    /// A scope entry repeats a top-level entry, key and target, and so
    /// changes nothing for any referrer.
    RedundantScopeEntry,
}

/// The source text is not a module at the requested language level.
#[derive(Clone, Copy, Debug, PartialEq, Eq, Structural)]
pub struct ParseError {
    /// Line of the offending token, counted from 1.
    pub line: u32,
    /// Column of the offending token, counted from 0.
    pub column: u32,
}

/// A specifier that no rule applied to and that was therefore left as
/// written. It is reported, and never ends the call.
#[derive(Clone, Debug, PartialEq, Eq)]
pub struct ResolutionWarning {
    /// The specifier as written in the source.
    pub specifier: String,
}

/// The pipeline itself misbehaved; bad input never causes this.
#[derive(Clone, Copy, Debug, PartialEq, Eq, Structural)]
pub enum EmitError {
    /// The printer could not serialize the tree it was handed.
    Serialization,
    /// A stage reported its result when another stage was due.
    OutOfOrder,
}

/// The sole result of a call that did not complete.
#[derive(Clone, Copy, Debug, PartialEq, Eq, Structural)]
pub enum TransformError {
    /// The configuration was rejected; nothing was parsed.
    Config(ConfigError),
    /// The source does not parse.
    Parse(ParseError),
    /// The pipeline itself failed.
    Emit(EmitError),
}

impl ConfigError {
    /// A sentence that tells the caller what to correct.
    pub fn message(&self) -> (text: String)
        ensures
            text@ == self.message_text(),
    {
        match self {
            ConfigError::UnknownField => String::from_str("unknown field in the request"),
            ConfigError::MissingFilename => String::from_str("the request names no file"),
            ConfigError::UnsupportedTarget => String::from_str("unsupported target language level"),
            ConfigError::EmptyKey => String::from_str("import map: a top-level key is empty"),
            ConfigError::DuplicateKey => String::from_str("import map: a top-level key occurs twice"),
            ConfigError::DuplicateScope => String::from_str("import map: a scope prefix occurs twice"),
            ConfigError::DuplicateScopeKey => String::from_str("import map: a key occurs twice in one scope"),
            ConfigError::RedundantScopeEntry => String::from_str("import map: a scope entry repeats a top-level entry"),
        }
    }

    /// The text of [`ConfigError::message`].
    pub open spec fn message_text(&self) -> Seq<char> {
        match self {
            ConfigError::UnknownField => "unknown field in the request"@,
            ConfigError::MissingFilename => "the request names no file"@,
            ConfigError::UnsupportedTarget => "unsupported target language level"@,
            ConfigError::EmptyKey => "import map: a top-level key is empty"@,
            ConfigError::DuplicateKey => "import map: a top-level key occurs twice"@,
            ConfigError::DuplicateScope => "import map: a scope prefix occurs twice"@,
            ConfigError::DuplicateScopeKey => "import map: a key occurs twice in one scope"@,
            ConfigError::RedundantScopeEntry => "import map: a scope entry repeats a top-level entry"@,
        }
    }
}

impl TransformError {
    /// Whether the caller can mend the call by changing its input.
    pub fn is_input_fault(&self) -> (r: bool)
        ensures
            r == !(self is Emit),
    {
        match self {
            TransformError::Emit(_) => false,
            _ => true,
        }
    }
}

} // verus!

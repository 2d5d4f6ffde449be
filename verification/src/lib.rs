//! Resolution of module specifiers against an import map, and the decisions of
//! a single-module transform pipeline.
//!
//! The parser and the printer are not part of this library. A driver parses
//! the source, reports what it found, applies what the library decides, and
//! prints the result.

pub mod error;
pub mod fast_refresh;
pub mod import_map;
pub mod path;
pub mod request;
pub mod resolver;
pub mod target;
pub mod text;
pub mod transform;

use crate::import_map::RawImportMap;
use crate::target::Target;
use vstd::prelude::*;

verus! {

/// What a caller configures for one call.
#[derive(Clone, Debug)]
pub struct Options {
    /// The path of the module that is transformed.
    pub filename: String,
    /// The import map, as supplied.
    pub import_map: RawImportMap,
    pub swc_options: SWCOptions,
}

/// How the module is parsed and what is emitted for it.
#[derive(Clone, Debug)]
pub struct SWCOptions {
    /// The language level of the output.
    pub target: Target,
    /// The function that an element is lowered to a call of.
    pub jsx_factory: String,
    /// What a fragment is lowered to.
    pub jsx_fragment_factory: String,
    /// Whether the output is for development.
    pub is_dev: bool,
}

impl Default for Options {
    fn default() -> (options: Options)
        ensures
            options.filename@.len() == 0,
            options.import_map@.imports.len() == 0,
            options.import_map@.scopes.len() == 0,
            options.swc_options.target == Target::Es2020,
            options.swc_options.jsx_factory@ == "React.createElement"@,
            options.swc_options.jsx_fragment_factory@ == "React.Fragment"@,
            options.swc_options.is_dev,
    {
        Options {
            filename: String::new(),
            import_map: RawImportMap::empty(),
            swc_options: SWCOptions::default(),
        }
    }
}

impl Default for SWCOptions {
    fn default() -> (options: SWCOptions)
        ensures
            options.target == Target::Es2020,
            options.jsx_factory@ == "React.createElement"@,
            options.jsx_fragment_factory@ == "React.Fragment"@,
            options.is_dev,
    {
        SWCOptions {
            target: default_target(),
            jsx_factory: default_pragma(),
            jsx_fragment_factory: default_pragma_frag(),
            is_dev: true,
        }
    }
}

/// The language level of a call that names none.
pub fn default_target() -> (target: Target)
    ensures
        target == Target::Es2020,
{
    Target::Es2020
}

/// The element factory of a call that names none.
pub fn default_pragma() -> (name: String)
    ensures
        name@ == "React.createElement"@,
{
    String::from_str("React.createElement")
}

/// The fragment factory of a call that names none.
pub fn default_pragma_frag() -> (name: String)
    ensures
        name@ == "React.Fragment"@,
{
    String::from_str("React.Fragment")
}

/// What a call that completed returns.
#[derive(Debug)]
pub struct TransformOutput {
    /// The generated code.
    pub code: String,
    /// The source map, where one was asked for.
    pub map: Option<String>,
}

} // verus!

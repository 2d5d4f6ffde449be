//! The request as the caller supplies it: which fields it may hold, and what
//! stands for those it leaves out.

use crate::error::ConfigError;
use crate::import_map::{RawImportMap, RawImportMapView};
use crate::target::Target;
use crate::text::text_eq;
use crate::{default_pragma, default_pragma_frag, default_target, Options, SWCOptions};
use vstd::prelude::*;

verus! {

/// An object of the request.
#[derive(Clone, Copy, Debug, PartialEq, Eq, Structural)]
pub enum Schema {
    /// The request itself.
    Request,
    /// Its `swcOptions`.
    SwcOptions,
    /// Its `importMap`.
    ImportMap,
}

/// Whether an object of the request may hold a field of this name.
pub open spec fn is_field(schema: Schema, name: Seq<char>) -> bool {
    match schema {
        Schema::Request => {
            ||| name == "filename"@
            ||| name == "importMap"@
            ||| name == "swcOptions"@
            ||| name == "sourceText"@
        },
        Schema::SwcOptions => {
            ||| name == "target"@
            ||| name == "jsxFactory"@
            ||| name == "jsxFragmentFactory"@
            ||| name == "isDev"@
        },
        Schema::ImportMap => name == "imports"@ || name == "scopes"@,
    }
}

/// Whether an object of the request may hold a field of this name.
pub fn knows_field(schema: Schema, name: &str) -> (r: bool)
    ensures
        r == is_field(schema, name@),
{
    match schema {
        Schema::Request => text_eq(name, "filename") || text_eq(name, "importMap") || text_eq(
            name,
            "swcOptions",
        ) || text_eq(name, "sourceText"),
        Schema::SwcOptions => text_eq(name, "target") || text_eq(name, "jsxFactory") || text_eq(
            name,
            "jsxFragmentFactory",
        ) || text_eq(name, "isDev"),
        Schema::ImportMap => text_eq(name, "imports") || text_eq(name, "scopes"),
    }
}

/// Holds an object of the request to the schema: a field that the schema
/// lacks is an error, never ignored.
pub fn check_fields(schema: Schema, names: &Vec<String>) -> (r: Result<(), ConfigError>)
    ensures
        r == (if forall|i: int| 0 <= i < names.len() ==> is_field(schema, (#[trigger] names[i])@) {
            Ok::<(), ConfigError>(())
        } else {
            Err(ConfigError::UnknownField)
        }),
{
    let mut i: usize = 0;
    while i < names.len()
        invariant
            i <= names.len(),
            forall|j: int| 0 <= j < i ==> is_field(schema, (#[trigger] names[j])@),
        decreases names.len() - i,
    {
        if !knows_field(schema, names[i].as_str()) {
            return Err(ConfigError::UnknownField);
        }
        i += 1;
    }
    Ok(())
}

/// The `swcOptions` of a request; `None` stands for a field left out.
#[derive(Clone, Debug)]
pub struct RawSWCOptions {
    pub target: Option<String>,
    pub jsx_factory: Option<String>,
    pub jsx_fragment_factory: Option<String>,
    pub is_dev: Option<bool>,
}

/// A request; `None` stands for a field left out.
#[derive(Clone, Debug)]
pub struct RawOptions {
    pub filename: Option<String>,
    pub import_map: Option<RawImportMap>,
    pub swc_options: Option<RawSWCOptions>,
}

/// The text that is supplied, or else the default.
pub open spec fn text_or(supplied: Option<String>, default: Seq<char>) -> Seq<char> {
    match supplied {
        Some(text) => text@,
        None => default,
    }
}

impl RawSWCOptions {
    /// The options in which every field is left out.
    pub fn none() -> (raw: RawSWCOptions)
        ensures
            raw.target is None,
            raw.jsx_factory is None,
            raw.jsx_fragment_factory is None,
            raw.is_dev is None,
    {
        RawSWCOptions { target: None, jsx_factory: None, jsx_fragment_factory: None, is_dev: None }
    }

    /// The language level that the options ask for, if it is a supported one.
    pub open spec fn target(self) -> Option<Target> {
        match self.target {
            Some(name) => Target::named(name@),
            None => Some(Target::Es2020),
        }
    }
}

impl SWCOptions {
    /// The options that a request asks for. What it leaves out is `ES2020`,
    /// `React.createElement`, `React.Fragment` and development; a language
    /// level that is not supported is an error.
    pub fn from_raw(raw: RawSWCOptions) -> (r: Result<SWCOptions, ConfigError>)
        ensures
            match r {
                Ok(options) => {
                    &&& raw.target() == Some(options.target)
                    &&& options.jsx_factory@ == text_or(raw.jsx_factory, "React.createElement"@)
                    &&& options.jsx_fragment_factory@ == text_or(
                        raw.jsx_fragment_factory,
                        "React.Fragment"@,
                    )
                    &&& options.is_dev == (raw.is_dev != Some(false))
                },
                Err(e) => raw.target() is None && e == ConfigError::UnsupportedTarget,
            },
    {
        let target = match &raw.target {
            Some(name) => match Target::from_name(name.as_str()) {
                Ok(target) => target,
                Err(e) => {
                    return Err(e);
                },
            },
            None => default_target(),
        };
        let jsx_factory = match raw.jsx_factory {
            Some(name) => name,
            None => default_pragma(),
        };
        let jsx_fragment_factory = match raw.jsx_fragment_factory {
            Some(name) => name,
            None => default_pragma_frag(),
        };
        let is_dev = match raw.is_dev {
            Some(flag) => flag,
            None => true,
        };
        Ok(SWCOptions { target, jsx_factory, jsx_fragment_factory, is_dev })
    }
}

impl RawOptions {
    /// The import map that the request supplies: its own, or the empty one.
    pub open spec fn import_map(self) -> RawImportMapView {
        match self.import_map {
            Some(map) => map@,
            None => RawImportMapView { imports: Seq::empty(), scopes: Seq::empty() },
        }
    }

    /// Why the request is rejected, if it is.
    pub open spec fn fault(self) -> Option<ConfigError> {
        if self.filename is None {
            Some(ConfigError::MissingFilename)
        } else if self.swc_options matches Some(raw) && raw.target() is None {
            Some(ConfigError::UnsupportedTarget)
        } else {
            None
        }
    }
}

impl Options {
    /// The configuration that a request asks for. The file name is
    /// required; without an import map the empty one is used, and without
    /// `swcOptions` the defaults.
    pub fn from_raw(raw: RawOptions) -> (r: Result<Options, ConfigError>)
        ensures
            match r {
                Ok(options) => {
                    &&& raw.fault() is None
                    &&& Some(options.filename) == raw.filename
                    &&& options.import_map@ == raw.import_map()
                    &&& match raw.swc_options {
                        Some(swc) => {
                            &&& swc.target() == Some(options.swc_options.target)
                            &&& options.swc_options.jsx_factory@ == text_or(
                                swc.jsx_factory,
                                "React.createElement"@,
                            )
                            &&& options.swc_options.jsx_fragment_factory@ == text_or(
                                swc.jsx_fragment_factory,
                                "React.Fragment"@,
                            )
                            &&& options.swc_options.is_dev == (swc.is_dev != Some(false))
                        },
                        None => {
                            &&& options.swc_options.target == Target::Es2020
                            &&& options.swc_options.jsx_factory@ == "React.createElement"@
                            &&& options.swc_options.jsx_fragment_factory@ == "React.Fragment"@
                            &&& options.swc_options.is_dev
                        },
                    }
                },
                Err(e) => raw.fault() == Some(e),
            },
    {
        let filename = match raw.filename {
            Some(filename) => filename,
            None => {
                return Err(ConfigError::MissingFilename);
            },
        };
        let swc_options = match raw.swc_options {
            Some(swc) => match SWCOptions::from_raw(swc) {
                Ok(options) => options,
                Err(e) => {
                    return Err(e);
                },
            },
            None => SWCOptions::default(),
        };
        let import_map = match raw.import_map {
            Some(map) => map,
            None => {
                let map = RawImportMap::empty();
                assert(map@.imports =~= Seq::empty());
                assert(map@.scopes =~= Seq::empty());
                map
            },
        };
        Ok(Options { filename, import_map, swc_options })
    }
}

} // verus!

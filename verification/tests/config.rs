use aleph_compiler::error::{ConfigError, EmitError, ParseError, TransformError};
use aleph_compiler::import_map::{ImportMapEntry, RawImportMap};
use aleph_compiler::request::{check_fields, knows_field, RawOptions, RawSWCOptions, Schema};
use aleph_compiler::target::Target;
use aleph_compiler::{default_pragma, default_pragma_frag, default_target, Options, SWCOptions};

fn names(list: &[&str]) -> Vec<String> {
    list.iter().map(|name| name.to_string()).collect()
}

#[test]
fn defaults() {
    assert_eq!(default_target(), Target::Es2020);
    assert_eq!(default_pragma(), "React.createElement");
    assert_eq!(default_pragma_frag(), "React.Fragment");
    let options = SWCOptions::default();
    assert_eq!(options.target, Target::Es2020);
    assert_eq!(options.jsx_factory, "React.createElement");
    assert_eq!(options.jsx_fragment_factory, "React.Fragment");
    assert!(options.is_dev);
}

#[test]
fn target_names() {
    let all = [
        (Target::Es3, "ES3", "es3"),
        (Target::Es5, "ES5", "es5"),
        (Target::Es2015, "ES2015", "es2015"),
        (Target::Es2016, "ES2016", "es2016"),
        (Target::Es2017, "ES2017", "es2017"),
        (Target::Es2018, "ES2018", "es2018"),
        (Target::Es2019, "ES2019", "es2019"),
        (Target::Es2020, "ES2020", "es2020"),
    ];
    for (target, upper, lower) in all {
        assert_eq!(target.name(), upper);
        assert_eq!(Target::from_name(upper), Ok(target));
        assert_eq!(Target::from_name(lower), Ok(target));
    }
}

#[test]
fn unsupported_target_is_an_error() {
    for name in ["", "ES", "ES4", "ES2014", "ES2021", "ESNext", "Es2020", "ES2020 ", "2020"] {
        assert_eq!(Target::from_name(name), Err(ConfigError::UnsupportedTarget));
    }
}

#[test]
fn fields_of_the_schema() {
    assert_eq!(
        check_fields(Schema::Request, &names(&["filename", "importMap", "swcOptions", "sourceText"])),
        Ok(())
    );
    assert_eq!(
        check_fields(Schema::SwcOptions, &names(&["target", "jsxFactory", "jsxFragmentFactory", "isDev"])),
        Ok(())
    );
    assert_eq!(check_fields(Schema::ImportMap, &names(&["imports", "scopes"])), Ok(()));
    assert_eq!(check_fields(Schema::Request, &names(&[])), Ok(()));
    assert_eq!(check_fields(Schema::Request, &names(&["filename", "filename"])), Ok(()));
}

#[test]
fn unknown_field_is_an_error() {
    assert_eq!(
        check_fields(Schema::Request, &names(&["filename", "fileName"])),
        Err(ConfigError::UnknownField)
    );
    assert_eq!(check_fields(Schema::Request, &names(&["target"])), Err(ConfigError::UnknownField));
    assert_eq!(check_fields(Schema::SwcOptions, &names(&["is_dev"])), Err(ConfigError::UnknownField));
    assert_eq!(check_fields(Schema::SwcOptions, &names(&["filename"])), Err(ConfigError::UnknownField));
    assert_eq!(check_fields(Schema::ImportMap, &names(&["imports", ""])), Err(ConfigError::UnknownField));
    assert!(knows_field(Schema::SwcOptions, "isDev"));
    assert!(!knows_field(Schema::SwcOptions, "isdev"));
    assert!(!knows_field(Schema::ImportMap, "import"));
}

#[test]
fn options_that_are_left_out_have_defaults() {
    let options = SWCOptions::from_raw(RawSWCOptions::none()).unwrap();
    assert_eq!(options.target, Target::Es2020);
    assert_eq!(options.jsx_factory, "React.createElement");
    assert_eq!(options.jsx_fragment_factory, "React.Fragment");
    assert!(options.is_dev);
}

#[test]
fn options_that_are_supplied_stand() {
    let raw = RawSWCOptions {
        target: Some("es2015".to_string()),
        jsx_factory: Some("h".to_string()),
        jsx_fragment_factory: Some("Fragment".to_string()),
        is_dev: Some(false),
    };
    let options = SWCOptions::from_raw(raw).unwrap();
    assert_eq!(options.target, Target::Es2015);
    assert_eq!(options.jsx_factory, "h");
    assert_eq!(options.jsx_fragment_factory, "Fragment");
    assert!(!options.is_dev);
    let raw = RawSWCOptions { is_dev: Some(true), ..RawSWCOptions::none() };
    assert!(SWCOptions::from_raw(raw).unwrap().is_dev);
}

#[test]
fn options_with_unsupported_target_are_rejected() {
    let raw = RawSWCOptions { target: Some("ES2030".to_string()), ..RawSWCOptions::none() };
    assert_eq!(SWCOptions::from_raw(raw).err(), Some(ConfigError::UnsupportedTarget));
}

#[test]
fn request_without_filename_is_rejected() {
    let raw = RawOptions { filename: None, import_map: None, swc_options: None };
    assert_eq!(Options::from_raw(raw).err(), Some(ConfigError::MissingFilename));
    let raw = RawOptions {
        filename: None,
        import_map: None,
        swc_options: Some(RawSWCOptions { target: Some("nope".to_string()), ..RawSWCOptions::none() }),
    };
    assert_eq!(Options::from_raw(raw).err(), Some(ConfigError::MissingFilename));
}

#[test]
fn request_with_unsupported_target_is_rejected() {
    let raw = RawOptions {
        filename: Some("/a.ts".to_string()),
        import_map: None,
        swc_options: Some(RawSWCOptions { target: Some("nope".to_string()), ..RawSWCOptions::none() }),
    };
    assert_eq!(Options::from_raw(raw).err(), Some(ConfigError::UnsupportedTarget));
}

#[test]
fn request_with_only_a_filename() {
    let raw = RawOptions { filename: Some("/a.ts".to_string()), import_map: None, swc_options: None };
    let options = Options::from_raw(raw).unwrap();
    assert_eq!(options.filename, "/a.ts");
    assert!(options.import_map.imports.is_empty());
    assert!(options.import_map.scopes.is_empty());
    assert_eq!(options.swc_options.target, Target::Es2020);
    assert_eq!(options.swc_options.jsx_factory, "React.createElement");
    assert_eq!(options.swc_options.jsx_fragment_factory, "React.Fragment");
    assert!(options.swc_options.is_dev);
}

#[test]
fn request_with_everything() {
    let map = RawImportMap {
        imports: vec![ImportMapEntry { key: "foo".to_string(), target: "/deps/foo.js".to_string() }],
        scopes: vec![],
    };
    let raw = RawOptions {
        filename: Some("/pages/index.tsx".to_string()),
        import_map: Some(map),
        swc_options: Some(RawSWCOptions { target: Some("ES5".to_string()), ..RawSWCOptions::none() }),
    };
    let options = Options::from_raw(raw).unwrap();
    assert_eq!(options.filename, "/pages/index.tsx");
    assert_eq!(options.import_map.imports.len(), 1);
    assert_eq!(options.import_map.imports[0].key, "foo");
    assert_eq!(options.swc_options.target, Target::Es5);
    assert!(options.swc_options.is_dev);
}

#[test]
fn empty_raw_import_map() {
    let raw = RawImportMap::empty();
    assert!(raw.imports.is_empty() && raw.scopes.is_empty());
}

#[test]
fn messages_of_configuration_errors() {
    assert_eq!(ConfigError::UnknownField.message(), "unknown field in the request");
    assert_eq!(ConfigError::MissingFilename.message(), "the request names no file");
    assert_eq!(ConfigError::UnsupportedTarget.message(), "unsupported target language level");
    assert_eq!(ConfigError::EmptyKey.message(), "import map: a top-level key is empty");
    assert_eq!(ConfigError::DuplicateKey.message(), "import map: a top-level key occurs twice");
    assert_eq!(ConfigError::DuplicateScope.message(), "import map: a scope prefix occurs twice");
    assert_eq!(ConfigError::DuplicateScopeKey.message(), "import map: a key occurs twice in one scope");
    assert_eq!(
        ConfigError::RedundantScopeEntry.message(),
        "import map: a scope entry repeats a top-level entry"
    );
}

#[test]
fn faults_of_the_input_and_of_the_pipeline() {
    assert!(TransformError::Config(ConfigError::DuplicateKey).is_input_fault());
    assert!(TransformError::Parse(ParseError { line: 3, column: 7 }).is_input_fault());
    assert!(!TransformError::Emit(EmitError::Serialization).is_input_fault());
    assert!(!TransformError::Emit(EmitError::OutOfOrder).is_input_fault());
}

#[test]
fn default_options() {
    let options = Options::default();
    assert_eq!(options.filename, "");
    assert!(options.import_map.imports.is_empty() && options.import_map.scopes.is_empty());
    assert_eq!(options.swc_options.target, Target::Es2020);
    assert!(options.swc_options.is_dev);
    let raw = RawImportMap::default();
    assert!(raw.imports.is_empty() && raw.scopes.is_empty());
}

use aleph_compiler::error::ResolutionWarning;
use aleph_compiler::import_map::{ImportMap, ImportMapEntry, RawImportMap, Scope};
use aleph_compiler::resolver::Resolver;

fn map_of(imports: &[(&str, &str)], scopes: &[(&str, &[(&str, &str)])]) -> ImportMap {
    let list = |pairs: &[(&str, &str)]| -> Vec<ImportMapEntry> {
        pairs
            .iter()
            .map(|(key, target)| ImportMapEntry { key: key.to_string(), target: target.to_string() })
            .collect()
    };
    let raw = RawImportMap {
        imports: list(imports),
        scopes: scopes
            .iter()
            .map(|(prefix, pairs)| Scope { prefix: prefix.to_string(), entries: list(pairs) })
            .collect(),
    };
    ImportMap::new(&raw).expect("a valid import map")
}

#[test]
fn unresolvable_bare_specifier_passes_through() {
    let mut resolver = Resolver::new("/pages/index.tsx", ImportMap::empty(), false, false);
    assert_eq!(resolver.resolve("react", false), "react");
    assert_eq!(resolver.resolve("@scope/pkg/sub", false), "@scope/pkg/sub");
    let records = resolver.dependencies();
    assert_eq!(records.len(), 2);
    assert_eq!(records[0].specifier, "react");
    assert_eq!(records[0].resolved, "react");
    assert!(!records[0].pending);
    let warned: Vec<&str> = resolver.warnings().iter().map(|w| w.specifier.as_str()).collect();
    assert_eq!(warned, vec!["react", "@scope/pkg/sub"]);
    assert_eq!(resolver.warnings()[0], ResolutionWarning { specifier: "react".to_string() });
}

#[test]
fn bare_specifier_passes_through_in_production_too() {
    let mut resolver = Resolver::new("/pages/index.tsx", ImportMap::empty(), true, false);
    assert_eq!(resolver.resolve("react", false), "react");
    assert_eq!(resolver.resolve("https://esm.sh/react.ts", false), "https://esm.sh/react.ts");
}

#[test]
fn unmatched_specifier_is_deferred_to_plugins() {
    let mut resolver = Resolver::new("/pages/index.tsx", ImportMap::empty(), false, true);
    assert_eq!(resolver.resolve("react", false), "react");
    assert_eq!(resolver.resolve("https://esm.sh/react", true), "https://esm.sh/react");
    let records = resolver.dependencies();
    assert!(records[0].pending);
    assert!(records[1].pending);
    assert!(records[1].is_dynamic);
    assert!(resolver.warnings().is_empty());
}

#[test]
fn matched_specifier_is_resolved_whatever_the_plugin_flag() {
    let map = map_of(&[("react", "/deps/react.js")], &[]);
    let mut resolver = Resolver::new("/pages/index.tsx", map, false, true);
    assert_eq!(resolver.resolve("react", false), "/deps/react.js");
    assert!(!resolver.dependencies()[0].pending);
    assert!(resolver.warnings().is_empty());
}

#[test]
fn relative_specifier_is_normalized_against_the_referrer() {
    let mut resolver = Resolver::new("/pages/blog/index.tsx", ImportMap::empty(), false, false);
    assert_eq!(resolver.resolve("./post.tsx", false), "/pages/blog/post.tsx");
    assert_eq!(resolver.resolve("../../components/logo.tsx", false), "/components/logo.tsx");
    assert_eq!(resolver.resolve("/lib/./util.ts", false), "/lib/util.ts");
    assert!(resolver.warnings().is_empty());
    assert!(resolver.dependencies().iter().all(|record| !record.pending));
}

#[test]
fn production_gives_local_paths_an_explicit_extension() {
    let mut dev = Resolver::new("/pages/index.tsx", ImportMap::empty(), false, false);
    let mut production = Resolver::new("/pages/index.tsx", ImportMap::empty(), true, false);
    assert_eq!(dev.resolve("./logo.tsx", false), "/pages/logo.tsx");
    assert_eq!(production.resolve("./logo.tsx", false), "/pages/logo.js");
    assert_eq!(dev.resolve("../lib/util", false), "/lib/util");
    assert_eq!(production.resolve("../lib/util", false), "/lib/util.js");
    assert_eq!(production.resolve("./style.css", false), "/pages/style.css");
    assert!(dev.is_production() == false && production.is_production());
}

#[test]
fn import_map_is_asked_about_the_normalized_path() {
    let map = map_of(&[("/pages/logo.tsx", "/dist/logo.3f9a.js"), ("/lib/", "/dist/lib/")], &[]);
    let mut resolver = Resolver::new("/pages/index.tsx", map, false, false);
    assert_eq!(resolver.resolve("./logo.tsx", false), "/dist/logo.3f9a.js");
    assert_eq!(resolver.resolve("../lib/a/b.ts", false), "/dist/lib/a/b.ts");
    assert_eq!(resolver.resolve("./other.tsx", false), "/pages/other.tsx");
}

#[test]
fn production_form_applies_to_local_targets_only() {
    let map = map_of(&[("foo", "/deps/foo.ts"), ("bar", "https://cdn.example/bar.ts")], &[]);
    let mut resolver = Resolver::new("/pages/index.tsx", map, true, false);
    assert_eq!(resolver.resolve("foo", false), "/deps/foo.js");
    assert_eq!(resolver.resolve("bar", false), "https://cdn.example/bar.ts");
}

#[test]
fn scope_of_the_referrer_decides() {
    let map = map_of(&[("foo", "/deps/foo.js")], &[("/pages/", &[("foo", "/deps/foo-pages.js")])]);
    let mut page = Resolver::new("/pages/index.tsx", map, false, false);
    assert_eq!(page.resolve("foo", false), "/deps/foo-pages.js");
    assert_eq!(page.referrer(), "/pages/index.tsx");
}

#[test]
fn every_call_leaves_a_record_in_order() {
    let map = map_of(&[("foo", "/deps/foo.js")], &[]);
    let mut resolver = Resolver::new("/pages/index.tsx", map, false, false);
    assert!(resolver.dependencies().is_empty());
    resolver.resolve("foo", false);
    resolver.resolve("./a.ts", true);
    resolver.resolve("foo", true);
    resolver.resolve("foo", false);
    let records = resolver.finish();
    assert_eq!(records.len(), 4);
    let seen: Vec<(&str, &str, bool)> = records
        .iter()
        .map(|r| (r.specifier.as_str(), r.resolved.as_str(), r.is_dynamic))
        .collect();
    assert_eq!(
        seen,
        vec![
            ("foo", "/deps/foo.js", false),
            ("./a.ts", "/pages/a.ts", true),
            ("foo", "/deps/foo.js", true),
            ("foo", "/deps/foo.js", false),
        ]
    );
}

#[test]
fn asking_twice_gives_the_same_answer() {
    let map = map_of(&[("a/", "/x/")], &[]);
    let mut resolver = Resolver::new("/m.ts", map, true, false);
    for specifier in ["a/b.ts", "./c", "react", "https://x.y/z", "/d.tsx"] {
        let first = resolver.resolve(specifier, false);
        let second = resolver.resolve(specifier, true);
        assert_eq!(first, second);
    }
    assert_eq!(resolver.dependencies().len(), 10);
}

#[test]
fn second_pass_leaves_resolved_paths_alone() {
    for production in [false, true] {
        let mut first = Resolver::new("/pages/blog/index.tsx", ImportMap::empty(), production, false);
        let resolved: Vec<String> = ["./post.tsx", "../../lib/util", "/a/./b/../c.mjs", "./style.css", "./"]
            .iter()
            .map(|specifier| first.resolve(specifier, false))
            .collect();
        let mut second = Resolver::new("/pages/blog/index.js", ImportMap::empty(), production, false);
        for path in &resolved {
            assert_eq!(&second.resolve(path, false), path);
        }
    }
}

use aleph_compiler::error::ConfigError;
use aleph_compiler::import_map::{ImportMap, ImportMapEntry, RawImportMap, Scope};

fn entry(key: &str, target: &str) -> ImportMapEntry {
    ImportMapEntry { key: key.to_string(), target: target.to_string() }
}

fn entries(list: &[(&str, &str)]) -> Vec<ImportMapEntry> {
    list.iter().map(|(key, target)| entry(key, target)).collect()
}

fn scope(prefix: &str, list: &[(&str, &str)]) -> Scope {
    Scope { prefix: prefix.to_string(), entries: entries(list) }
}

fn map_of(imports: &[(&str, &str)], scopes: Vec<Scope>) -> ImportMap {
    let raw = RawImportMap { imports: entries(imports), scopes };
    match ImportMap::new(&raw) {
        Ok(map) => map,
        Err(e) => panic!("rejected: {:?}", e),
    }
}

fn fault_of(imports: &[(&str, &str)], scopes: Vec<Scope>) -> Option<ConfigError> {
    let raw = RawImportMap { imports: entries(imports), scopes };
    ImportMap::new(&raw).err()
}

fn some(text: &str) -> Option<String> {
    Some(text.to_string())
}

#[test]
fn longest_prefix_wins() {
    let map = map_of(&[("a/", "/x/"), ("a/b/", "/y/")], vec![]);
    assert_eq!(map.resolve("a/b/c", "/main.ts"), some("/y/c"));
    assert_eq!(map.resolve("a/c", "/main.ts"), some("/x/c"));
}

#[test]
fn order_of_entries_is_irrelevant() {
    let one = map_of(&[("a/", "/x/"), ("a/b/", "/y/")], vec![]);
    let other = map_of(&[("a/b/", "/y/"), ("a/", "/x/")], vec![]);
    assert_eq!(one.resolve("a/b/c", "/main.ts"), other.resolve("a/b/c", "/main.ts"));
    assert_eq!(other.resolve("a/b/c", "/main.ts"), some("/y/c"));
}

#[test]
fn exact_key_is_preferred_to_a_shorter_prefix() {
    let map = map_of(&[("a/", "/x/"), ("a/b", "/exact.js")], vec![]);
    assert_eq!(map.resolve("a/b", "/main.ts"), some("/exact.js"));
    assert_eq!(map.resolve("a/bc", "/main.ts"), some("/x/bc"));
}

#[test]
fn key_without_slash_matches_only_itself() {
    let map = map_of(&[("foo", "/deps/foo.js")], vec![]);
    assert_eq!(map.resolve("foo", "/main.ts"), some("/deps/foo.js"));
    assert_eq!(map.resolve("foo/bar", "/main.ts"), None);
    assert_eq!(map.resolve("foobar", "/main.ts"), None);
    assert_eq!(map.resolve("fo", "/main.ts"), None);
}

#[test]
fn key_with_slash_replaces_the_prefix() {
    let map = map_of(&[("https://deno.land/std/", "/vendor/std/")], vec![]);
    assert_eq!(
        map.resolve("https://deno.land/std/path/mod.ts", "/main.ts"),
        some("/vendor/std/path/mod.ts")
    );
    assert_eq!(map.resolve("https://deno.land/std/", "/main.ts"), some("/vendor/std/"));
    assert_eq!(map.resolve("https://deno.land/std", "/main.ts"), None);
}

#[test]
fn scope_overrides_top_level_entry() {
    let map = map_of(
        &[("foo", "/deps/foo.js")],
        vec![scope("/pages/", &[("foo", "/deps/foo-for-pages.js")])],
    );
    assert_eq!(map.resolve("foo", "/pages/index.tsx"), some("/deps/foo-for-pages.js"));
    assert_eq!(map.resolve("foo", "/lib/util.ts"), some("/deps/foo.js"));
}

#[test]
fn longest_scope_wins() {
    let map = map_of(
        &[],
        vec![scope("/a/", &[("foo", "/one.js")]), scope("/a/b/", &[("foo", "/two.js")])],
    );
    assert_eq!(map.resolve("foo", "/a/b/c.ts"), some("/two.js"));
    assert_eq!(map.resolve("foo", "/a/c.ts"), some("/one.js"));
    assert_eq!(map.resolve("foo", "/c.ts"), None);
}

#[test]
fn only_the_longest_scope_is_tried_before_the_top_level() {
    let map = map_of(
        &[("foo", "/top.js")],
        vec![scope("/a/", &[("foo", "/one.js")]), scope("/a/b/", &[("bar", "/two.js")])],
    );
    assert_eq!(map.resolve("foo", "/a/b/c.ts"), some("/top.js"));
    assert_eq!(map.resolve("bar", "/a/b/c.ts"), some("/two.js"));
}

#[test]
fn scope_without_match_falls_back_to_top_level() {
    let map = map_of(&[("foo", "/deps/foo.js")], vec![scope("/pages/", &[("bar", "/bar.js")])]);
    assert_eq!(map.resolve("foo", "/pages/index.tsx"), some("/deps/foo.js"));
    assert_eq!(map.resolve("baz", "/pages/index.tsx"), None);
}

#[test]
fn scope_prefix_must_be_a_proper_prefix_of_the_referrer() {
    let map = map_of(&[("foo", "/top.js")], vec![scope("/pages/index.tsx", &[("foo", "/s.js")])]);
    assert_eq!(map.resolve("foo", "/pages/index.tsx"), some("/top.js"));
    assert_eq!(map.resolve("foo", "/pages/index.tsx.map"), some("/s.js"));
}

#[test]
fn result_that_is_no_specifier_is_no_match() {
    let map = map_of(&[("foo", ""), ("a/", "/x y/"), ("b/", "/ok/")], vec![]);
    assert_eq!(map.resolve("foo", "/main.ts"), None);
    assert_eq!(map.resolve("a/c", "/main.ts"), None);
    assert_eq!(map.resolve("b/c d", "/main.ts"), None);
    assert_eq!(map.resolve("b/c", "/main.ts"), some("/ok/c"));
}

#[test]
fn scope_match_that_is_no_specifier_does_not_fall_back() {
    let map = map_of(&[("foo", "/deps/foo.js")], vec![scope("/pages/", &[("foo", "")])]);
    assert_eq!(map.resolve("foo", "/pages/index.tsx"), None);
    assert_eq!(map.resolve("foo", "/lib/a.ts"), some("/deps/foo.js"));
}

#[test]
fn empty_map_resolves_nothing() {
    let map = ImportMap::empty();
    assert_eq!(map.resolve("foo", "/main.ts"), None);
    assert_eq!(map.resolve("", ""), None);
    let built = map_of(&[], vec![]);
    assert_eq!(built.resolve("./a.ts", "/main.ts"), None);
}

#[test]
fn resolve_is_deterministic() {
    let map = map_of(&[("a/", "/x/"), ("foo", "/deps/foo.js")], vec![scope("/p/", &[("a/", "/y/")])]);
    for (specifier, referrer) in [("a/b", "/p/q.ts"), ("a/b", "/q.ts"), ("foo", "/p/q.ts"), ("zip", "/q.ts")] {
        let first = map.resolve(specifier, referrer);
        let second = map.resolve(specifier, referrer);
        assert_eq!(first, second);
    }
    assert_eq!(map.resolve("a/b", "/p/q.ts"), some("/y/b"));
}

#[test]
fn non_ascii_text_is_matched_by_characters() {
    let map = map_of(&[("çé/", "/ü/")], vec![]);
    assert_eq!(map.resolve("çé/ñ.ts", "/main.ts"), some("/ü/ñ.ts"));
}

#[test]
fn empty_top_level_key_is_rejected() {
    assert_eq!(fault_of(&[("a", "/a.js"), ("", "/b.js")], vec![]), Some(ConfigError::EmptyKey));
}

#[test]
fn duplicate_top_level_key_is_rejected() {
    assert_eq!(
        fault_of(&[("foo", "/a.js"), ("bar", "/b.js"), ("foo", "/c.js")], vec![]),
        Some(ConfigError::DuplicateKey)
    );
    assert_eq!(
        fault_of(&[("foo", "/a.js"), ("foo", "/a.js")], vec![]),
        Some(ConfigError::DuplicateKey)
    );
}

#[test]
fn duplicate_scope_is_rejected() {
    let scopes = vec![scope("/a/", &[("x", "/1.js")]), scope("/a/", &[("y", "/2.js")])];
    assert_eq!(fault_of(&[], scopes), Some(ConfigError::DuplicateScope));
}

#[test]
fn duplicate_key_in_a_scope_is_rejected() {
    let scopes = vec![scope("/a/", &[("x", "/1.js")]), scope("/b/", &[("y", "/2.js"), ("y", "/3.js")])];
    assert_eq!(fault_of(&[], scopes), Some(ConfigError::DuplicateScopeKey));
}

#[test]
fn scope_entry_that_repeats_a_top_level_entry_is_rejected() {
    let scopes = vec![scope("/a/", &[("x", "/1.js"), ("foo", "/deps/foo.js")])];
    assert_eq!(fault_of(&[("foo", "/deps/foo.js")], scopes), Some(ConfigError::RedundantScopeEntry));
    let scopes = vec![scope("/a/", &[("foo", "/other.js")])];
    assert_eq!(fault_of(&[("foo", "/deps/foo.js")], scopes), None);
}

#[test]
fn faults_are_reported_in_a_fixed_order() {
    let scopes = vec![scope("/a/", &[("k", "/1.js"), ("k", "/2.js")]), scope("/a/", &[])];
    assert_eq!(fault_of(&[("x", "/x.js"), ("x", "/y.js"), ("", "/z.js")], scopes.clone()), Some(ConfigError::EmptyKey));
    assert_eq!(fault_of(&[("x", "/x.js"), ("x", "/y.js")], scopes.clone()), Some(ConfigError::DuplicateKey));
    assert_eq!(fault_of(&[("x", "/x.js")], scopes), Some(ConfigError::DuplicateScope));
}

#[test]
fn empty_key_in_a_scope_is_accepted_and_matches_only_the_empty_specifier() {
    let map = map_of(&[], vec![scope("/a/", &[("", "/empty.js")])]);
    assert_eq!(map.resolve("", "/a/b.ts"), some("/empty.js"));
    assert_eq!(map.resolve("x", "/a/b.ts"), None);
}

#[test]
fn same_key_in_different_scopes_is_accepted() {
    let map = map_of(&[], vec![scope("/a/", &[("k", "/1.js")]), scope("/b/", &[("k", "/2.js")])]);
    assert_eq!(map.resolve("k", "/a/x.ts"), some("/1.js"));
    assert_eq!(map.resolve("k", "/b/x.ts"), some("/2.js"));
}

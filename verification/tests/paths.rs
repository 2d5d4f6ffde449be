use aleph_compiler::path::{kind, resolve_path, runtime_path, SpecifierKind};
use aleph_compiler::text::{chars_of, string_of, text_eq};

#[test]
fn kinds_of_specifiers() {
    assert_eq!(kind("./a.ts"), SpecifierKind::Relative);
    assert_eq!(kind("../a.ts"), SpecifierKind::Relative);
    assert_eq!(kind("./"), SpecifierKind::Relative);
    assert_eq!(kind("/a.ts"), SpecifierKind::Absolute);
    assert_eq!(kind("/"), SpecifierKind::Absolute);
    assert_eq!(kind("//cdn.example/a.js"), SpecifierKind::Absolute);
    assert_eq!(kind("https://esm.sh/react"), SpecifierKind::Remote);
    assert_eq!(kind("http://localhost/a.js"), SpecifierKind::Remote);
    assert_eq!(kind("file:///a.js"), SpecifierKind::Remote);
    assert_eq!(kind("a+b.c-d9://x"), SpecifierKind::Remote);
    assert_eq!(kind("x://"), SpecifierKind::Remote);
    assert_eq!(kind("react"), SpecifierKind::Bare);
    assert_eq!(kind("@scope/pkg"), SpecifierKind::Bare);
    assert_eq!(kind(""), SpecifierKind::Bare);
    assert_eq!(kind("."), SpecifierKind::Bare);
    assert_eq!(kind(".."), SpecifierKind::Bare);
    assert_eq!(kind(".a/b"), SpecifierKind::Bare);
    assert_eq!(kind("http:/x"), SpecifierKind::Bare);
    assert_eq!(kind("http:"), SpecifierKind::Bare);
    assert_eq!(kind("://x"), SpecifierKind::Bare);
    assert_eq!(kind("1http://x"), SpecifierKind::Bare);
    assert_eq!(kind("ht_tp://x"), SpecifierKind::Bare);
    assert_eq!(kind("node:fs"), SpecifierKind::Bare);
}

#[test]
fn local_kinds() {
    assert!(SpecifierKind::Relative.local());
    assert!(SpecifierKind::Absolute.local());
    assert!(!SpecifierKind::Remote.local());
    assert!(!SpecifierKind::Bare.local());
}

#[test]
fn relative_paths_start_from_the_directory_of_the_referrer() {
    assert_eq!(resolve_path("/pages/index.tsx", "./logo.tsx"), "/pages/logo.tsx");
    assert_eq!(resolve_path("/pages/index.tsx", "../components/logo.tsx"), "/components/logo.tsx");
    assert_eq!(resolve_path("/a/b/c/d.ts", "../../x/./y.ts"), "/a/x/y.ts");
    assert_eq!(resolve_path("/index.tsx", "./a/b.ts"), "/a/b.ts");
    assert_eq!(resolve_path("index.tsx", "./a.ts"), "/a.ts");
    assert_eq!(resolve_path("", "./a.ts"), "/a.ts");
    assert_eq!(resolve_path("/a/b/", "./c.ts"), "/a/b/c.ts");
}

#[test]
fn absolute_paths_start_from_the_root() {
    assert_eq!(resolve_path("/pages/index.tsx", "/x/y.ts"), "/x/y.ts");
    assert_eq!(resolve_path("/pages/index.tsx", "/x/./y/../z//w.ts"), "/x/z/w.ts");
    assert_eq!(resolve_path("/pages/index.tsx", "/"), "/");
    assert_eq!(resolve_path("/pages/index.tsx", "/a/"), "/a");
}

#[test]
fn nothing_lies_above_the_root() {
    assert_eq!(resolve_path("/a/b.ts", "../../../../x.ts"), "/x.ts");
    assert_eq!(resolve_path("/a/b.ts", "./.."), "/");
    assert_eq!(resolve_path("/a.ts", "/../.."), "/");
}

#[test]
fn dots_inside_names_are_kept() {
    assert_eq!(resolve_path("/a/b.ts", "./...")  , "/a/...");
    assert_eq!(resolve_path("/a/b.ts", "./.hidden/..x"), "/a/.hidden/..x");
}

#[test]
fn runtime_form_has_an_explicit_extension() {
    assert_eq!(runtime_path("/a/b.tsx"), "/a/b.js");
    assert_eq!(runtime_path("/a/b.jsx"), "/a/b.js");
    assert_eq!(runtime_path("/a/b.mjs"), "/a/b.js");
    assert_eq!(runtime_path("/a/b.ts"), "/a/b.js");
    assert_eq!(runtime_path("/a/b.js"), "/a/b.js");
    assert_eq!(runtime_path("/a/b"), "/a/b.js");
    assert_eq!(runtime_path("/a.b/c"), "/a.b/c.js");
    assert_eq!(runtime_path("/a/b.css"), "/a/b.css");
    assert_eq!(runtime_path("/a/b.json"), "/a/b.json");
    assert_eq!(runtime_path("/a/b.d.ts"), "/a/b.d.js");
    assert_eq!(runtime_path("./b.tsx"), "./b.js");
    assert_eq!(runtime_path("/"), "/.js");
    assert_eq!(runtime_path(""), ".js");
    assert_eq!(runtime_path(".ts"), ".js");
}

#[test]
fn runtime_form_is_stable() {
    for path in ["/a/b.tsx", "/a/b", "/a/b.css", "/a.b/c", "/a/b.mjs"] {
        let once = runtime_path(path);
        assert_eq!(runtime_path(&once), once);
    }
}

#[test]
fn characters_and_strings_convert_both_ways() {
    assert_eq!(chars_of("añ/✓"), vec!['a', 'ñ', '/', '✓']);
    assert_eq!(chars_of(""), Vec::<char>::new());
    assert_eq!(string_of(&vec!['a', 'ñ', '/', '✓']), "añ/✓");
    assert_eq!(string_of(&Vec::new()), "");
    assert_eq!(string_of(&chars_of("import map")), "import map");
}

#[test]
fn text_equality() {
    assert!(text_eq("abc", "abc"));
    assert!(text_eq("", ""));
    assert!(!text_eq("abc", "abd"));
    assert!(!text_eq("abc", "ab"));
    assert!(!text_eq("", "a"));
}

#[test]
fn normalized_path_names_itself_anywhere() {
    let cases = [("/a/b/c.ts", "../x/./y.ts"), ("/a.ts", "/"), ("m.ts", "./.."), ("/p/q.tsx", "/a//b/")];
    for (referrer, specifier) in cases {
        let once = resolve_path(referrer, specifier);
        assert!(once.starts_with('/'));
        assert_eq!(kind(&once), SpecifierKind::Absolute);
        for elsewhere in ["/z.ts", "/deep/down/here.ts", ""] {
            assert_eq!(resolve_path(elsewhere, &once), once);
        }
    }
}

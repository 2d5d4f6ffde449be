use aleph_compiler::fast_refresh::{
    looks_like_component, plan, signature, Declaration, DeclarationKind,
};

fn declaration(
    name: &str,
    kind: DeclarationKind,
    exported: bool,
    superclass: Option<&str>,
    source: &str,
) -> Declaration {
    Declaration {
        name: name.to_string(),
        kind,
        exported,
        superclass: superclass.map(|base| base.to_string()),
        source: source.to_string(),
    }
}

fn module() -> Vec<Declaration> {
    vec![
        declaration("App", DeclarationKind::Function, true, None, "function App() {}"),
        declaration("useThing", DeclarationKind::Function, true, None, "function useThing() {}"),
        declaration("Hidden", DeclarationKind::Arrow, false, None, "const Hidden = () => null"),
        declaration("List", DeclarationKind::Class, false, Some("Component"), "class List {}"),
        declaration("Plain", DeclarationKind::Class, true, None, "class Plain {}"),
        declaration("Fast", DeclarationKind::Class, true, Some("React.PureComponent"), "class Fast {}"),
        declaration("Other", DeclarationKind::Class, true, Some("Base"), "class Other {}"),
        declaration("Row", DeclarationKind::Arrow, true, None, "const Row = () => null"),
    ]
}

#[test]
fn signature_of_known_texts() {
    assert_eq!(signature(""), 0xcbf2_9ce4_8422_2325);
    assert_eq!(signature("a"), 0xaf63_dc4c_8601_ec8c);
    assert_eq!(signature("foobar"), 0x8594_4171_f739_67e8);
    assert_eq!(signature("é"), 0xaf64_644c_8602_d3a4);
    assert_eq!(signature("export const A = () => <div/>;"), 0x129a_fa16_2104_fcc5);
}

#[test]
fn signature_tells_edits_apart() {
    assert_eq!(signature("function A() { return 1 }"), signature("function A() { return 1 }"));
    assert_ne!(signature("function A() { return 1 }"), signature("function A() { return 2 }"));
    assert_ne!(signature("ab"), signature("ba"));
}

#[test]
fn exported_capitalized_functions_are_components() {
    let yes = |d: Declaration| assert!(looks_like_component(&d), "{:?}", d);
    let no = |d: Declaration| assert!(!looks_like_component(&d), "{:?}", d);
    yes(declaration("App", DeclarationKind::Function, true, None, ""));
    yes(declaration("A", DeclarationKind::Arrow, true, None, ""));
    yes(declaration("Zed", DeclarationKind::Arrow, true, Some("ignored"), ""));
    no(declaration("App", DeclarationKind::Function, false, None, ""));
    no(declaration("app", DeclarationKind::Function, true, None, ""));
    no(declaration("_App", DeclarationKind::Arrow, true, None, ""));
    no(declaration("", DeclarationKind::Arrow, true, None, ""));
    no(declaration("Éclair", DeclarationKind::Function, true, None, ""));
}

#[test]
fn classes_that_extend_a_recognized_base_are_components() {
    let class = |base: Option<&str>, exported: bool| {
        looks_like_component(&declaration("view", DeclarationKind::Class, exported, base, ""))
    };
    assert!(class(Some("Component"), false));
    assert!(class(Some("PureComponent"), true));
    assert!(class(Some("React.Component"), false));
    assert!(class(Some("React.PureComponent"), true));
    assert!(!class(Some("component"), true));
    assert!(!class(Some("Preact.Component"), true));
    assert!(!class(Some(""), true));
    assert!(!class(None, true));
}

#[test]
fn development_registers_every_component_in_order() {
    let list = module();
    let calls = plan(&list, true);
    let seen: Vec<(usize, &str)> = calls.iter().map(|c| (c.index, c.name.as_str())).collect();
    assert_eq!(seen, vec![(0, "App"), (3, "List"), (5, "Fast"), (7, "Row")]);
    for call in &calls {
        assert_eq!(call.signature, signature(&list[call.index].source));
    }
    assert_eq!(calls[0].signature, signature("function App() {}"));
}

#[test]
fn production_registers_nothing() {
    assert!(plan(&module(), false).is_empty());
    assert!(plan(&Vec::new(), false).is_empty());
}

#[test]
fn module_without_components_registers_nothing() {
    let list = vec![
        declaration("helper", DeclarationKind::Function, true, None, "function helper() {}"),
        declaration("Model", DeclarationKind::Class, true, None, "class Model {}"),
    ];
    assert!(plan(&list, true).is_empty());
    assert!(plan(&Vec::new(), true).is_empty());
}

//! Fast refresh: which declarations of a module are registered with the
//! development runtime, and under what signature.
//!
//! Whether a declaration is a component is a matter of policy, not of fact:
//! an exported function or arrow-function binding whose name is capitalized
//! counts as one, and so does a class that extends a recognized base. A
//! capitalized export that is no component is registered all the same.

use crate::text::{chars_of, text_eq};
use vstd::prelude::*;

verus! {

/// How a name was declared.
#[derive(Clone, Copy, Debug, PartialEq, Eq, Structural)]
pub enum DeclarationKind {
    /// `function Name() { .. }`
    Function,
    /// `const Name = () => ..`
    Arrow,
    /// `class Name ..`
    Class,
}

/// What the policy reads of one top-level declaration.
#[derive(Clone, Debug)]
pub struct Declaration {
    pub name: String,
    pub kind: DeclarationKind,
    /// Whether the module exports the name.
    pub exported: bool,
    /// For a class, what it extends, as written.
    pub superclass: Option<String>,
    /// The source text of the declaration.
    pub source: String,
}

/// The text of a [`Declaration`].
pub struct DeclarationView {
    pub name: Seq<char>,
    pub kind: DeclarationKind,
    pub exported: bool,
    pub superclass: Option<Seq<char>>,
    pub source: Seq<char>,
}

impl View for Declaration {
    type V = DeclarationView;

    open spec fn view(&self) -> DeclarationView {
        DeclarationView {
            name: self.name@,
            kind: self.kind,
            exported: self.exported,
            superclass: match self.superclass {
                Some(base) => Some(base@),
                None => None,
            },
            source: self.source@,
        }
    }
}

/// One registration call: it tells the runtime that the declaration at
/// `index` is the component `name`, and what its content amounts to.
#[derive(Clone, Debug)]
pub struct Registration {
    /// The position of the declaration among those handed in.
    pub index: usize,
    /// The identity of the component: the declared name.
    pub name: String,
    /// The signature of the declaration's source text.
    pub signature: u64,
}

/// The text of a [`Registration`].
pub struct RegistrationView {
    pub index: int,
    pub name: Seq<char>,
    pub signature: u64,
}

impl View for Registration {
    type V = RegistrationView;

    open spec fn view(&self) -> RegistrationView {
        RegistrationView { index: self.index as int, name: self.name@, signature: self.signature }
    }
}

/// The text of each declaration of a list.
pub open spec fn declarations(list: Seq<Declaration>) -> Seq<DeclarationView> {
    Seq::new(list.len(), |i: int| list[i]@)
}

/// The text of each registration of a list.
pub open spec fn registrations(list: Seq<Registration>) -> Seq<RegistrationView> {
    Seq::new(list.len(), |i: int| list[i]@)
}

// ---------------------------------------------------------------------------
// The policy
// ---------------------------------------------------------------------------

/// Whether `name` begins with a capital letter.
pub open spec fn is_capitalized(name: Seq<char>) -> bool {
    name.len() > 0 && 'A' <= name[0] && name[0] <= 'Z'
}

/// Whether a class that extends `base` is taken for a component.
pub open spec fn is_component_base(base: Seq<char>) -> bool {
    ||| base == "Component"@
    ||| base == "PureComponent"@
    ||| base == "React.Component"@
    ||| base == "React.PureComponent"@
}

/// Whether a declaration is taken for a component.
pub open spec fn is_component(declaration: DeclarationView) -> bool {
    match declaration.kind {
        DeclarationKind::Function | DeclarationKind::Arrow => declaration.exported
            && is_capitalized(declaration.name),
        DeclarationKind::Class => match declaration.superclass {
            Some(base) => is_component_base(base),
            None => false,
        },
    }
}

/// The start value of the signature.
pub const SIGNATURE_BASIS: u64 = 0xcbf2_9ce4_8422_2325;

/// The multiplier of the signature.
pub const SIGNATURE_PRIME: u64 = 0x0000_0100_0000_01b3;

/// The signature of a source text: its characters folded one by one into a
/// 64-bit value, each by an exclusive or followed by a wrapping
/// multiplication. Equal texts have equal signatures.
pub open spec fn signature_of(source: Seq<char>) -> u64
    decreases source.len(),
{
    if source.len() == 0 {
        SIGNATURE_BASIS
    } else {
        (signature_of(source.drop_last()) ^ (source.last() as u32 as u64)).wrapping_mul(
            SIGNATURE_PRIME,
        )
    }
}

/// The registration of a component.
pub open spec fn registration_of(index: int, declaration: DeclarationView) -> RegistrationView {
    RegistrationView {
        index,
        name: declaration.name,
        signature: signature_of(declaration.source),
    }
}

/// The registrations of the components among `list`, in order.
pub open spec fn components(list: Seq<DeclarationView>) -> Seq<RegistrationView>
    decreases list.len(),
{
    if list.len() == 0 {
        Seq::empty()
    } else if is_component(list.last()) {
        components(list.drop_last()).push(registration_of(list.len() - 1, list.last()))
    } else {
        components(list.drop_last())
    }
}

/// What is registered for a module with these declarations: every
/// component in development, nothing in production.
pub open spec fn instrumentation(list: Seq<DeclarationView>, is_dev: bool) -> Seq<
    RegistrationView,
> {
    if is_dev {
        components(list)
    } else {
        Seq::empty()
    }
}

// ---------------------------------------------------------------------------
// The decisions
// ---------------------------------------------------------------------------

/// Whether a declaration is taken for a component.
pub fn looks_like_component(declaration: &Declaration) -> (r: bool)
    ensures
        r == is_component(declaration@),
{
    match declaration.kind {
        DeclarationKind::Class => match &declaration.superclass {
            Some(base) => {
                let base = base.as_str();
                text_eq(base, "Component") || text_eq(base, "PureComponent") || text_eq(
                    base,
                    "React.Component",
                ) || text_eq(base, "React.PureComponent")
            },
            None => false,
        },
        _ => {
            if !declaration.exported {
                return false;
            }
            let name = chars_of(declaration.name.as_str());
            name.len() > 0 && 'A' <= name[0] && name[0] <= 'Z'
        },
    }
}

/// The signature of a source text.
pub fn signature(source: &str) -> (r: u64)
    ensures
        r == signature_of(source@),
{
    let text = chars_of(source);
    let mut hash: u64 = SIGNATURE_BASIS;
    let mut i: usize = 0;
    assert(text@.take(0) =~= Seq::<char>::empty());
    while i < text.len()
        invariant
            i <= text.len(),
            hash == signature_of(text@.take(i as int)),
        decreases text.len() - i,
    {
        assert(text@.take(i + 1).drop_last() =~= text@.take(i as int));
        hash = (hash ^ (text[i] as u32 as u64)).wrapping_mul(SIGNATURE_PRIME);
        i += 1;
    }
    assert(text@.take(text@.len() as int) =~= text@);
    hash
}

/// The registrations that instrument a module with these declarations.
///
/// In production the result is empty whatever the declarations are.
pub fn plan(list: &Vec<Declaration>, is_dev: bool) -> (calls: Vec<Registration>)
    ensures
        registrations(calls@) == instrumentation(declarations(list@), is_dev),
{
    let mut calls: Vec<Registration> = Vec::new();
    if !is_dev {
        assert(registrations(calls@) =~= Seq::empty());
        return calls;
    }
    let mut i: usize = 0;
    assert(declarations(list@).take(0) =~= Seq::<DeclarationView>::empty());
    assert(registrations(calls@) =~= Seq::empty());
    while i < list.len()
        invariant
            i <= list.len(),
            registrations(calls@) == components(declarations(list@).take(i as int)),
        decreases list.len() - i,
    {
        let ghost upto = declarations(list@).take(i + 1);
        assert(upto.drop_last() =~= declarations(list@).take(i as int));
        assert(upto.last() == list[i as int]@);
        if looks_like_component(&list[i]) {
            let call = Registration {
                index: i,
                name: list[i].name.clone(),
                signature: signature(list[i].source.as_str()),
            };
            let ghost before = registrations(calls@);
            calls.push(call);
            assert(registrations(calls@) =~= before.push(call@));
        }
        i += 1;
    }
    assert(declarations(list@).take(list@.len() as int) =~= declarations(list@));
    calls
}

// ---------------------------------------------------------------------------
// Laws
// ---------------------------------------------------------------------------

/// Production output carries no instrumentation at all.
pub proof fn law_production_is_not_instrumented(list: Seq<DeclarationView>)
    ensures
        instrumentation(list, false).len() == 0,
{
}

/// Every registration stands for a component among the declarations, and
/// names it; the registrations come in the order of the declarations.
pub proof fn law_registrations_are_components(list: Seq<DeclarationView>, k: int)
    requires
        0 <= k < components(list).len(),
    ensures
        0 <= components(list)[k].index < list.len(),
        is_component(list[components(list)[k].index]),
        components(list)[k] == registration_of(
            components(list)[k].index,
            list[components(list)[k].index],
        ),
        forall|j: int| 0 <= j < k ==> components(list)[j].index < components(list)[k].index,
    decreases list.len(),
{
    if list.len() > 0 {
        let before = components(list.drop_last());
        if k < before.len() {
            law_registrations_are_components(list.drop_last(), k);
        } else {
            assert forall|j: int| 0 <= j < k implies components(list)[j].index < components(
                list,
            )[k].index by {
                law_registrations_are_components(list.drop_last(), j);
            }
        }
    }
}

/// Every component among the declarations is registered.
pub proof fn law_components_are_registered(list: Seq<DeclarationView>, i: int)
    requires
        0 <= i < list.len(),
        is_component(list[i]),
    ensures
        exists|k: int| 0 <= k < components(list).len() && (#[trigger] components(list)[k]).index == i,
    decreases list.len(),
{
    if i == list.len() - 1 {
        let k = components(list).len() - 1;
        assert(components(list)[k].index == i);
    } else {
        law_components_are_registered(list.drop_last(), i);
        let k = choose|k: int|
            0 <= k < components(list.drop_last()).len() && (#[trigger] components(
                list.drop_last(),
            )[k]).index == i;
        assert(components(list)[k].index == i);
    }
}

} // verus!

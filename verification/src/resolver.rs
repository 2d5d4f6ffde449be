//! The resolver: what becomes of each specifier that a module names.
//!
//! A resolver is made for one module and lives for one call. Every specifier
//! that it is asked about is recorded, in the order of asking; the list only
//! grows, and is given out when the resolver is finished, after which nothing
//! more can be asked of it.

use crate::error::ResolutionWarning;
use crate::import_map::{ImportMap, ImportMapView};
use crate::path::{
    classify, destination, for_runtime, kind_of, law_normalized_holds_names_only,
    law_runtime_form_is_stable, lemma_rooted_names_are_stable, lemma_runtime_form_keeps_names,
    normalize, normalized, rooted, runtime_form,
};
use crate::text::{chars_of, copy_text, string_of};
use vstd::prelude::*;

verus! {

/// One specifier that the module names, and what it was resolved to.
#[derive(Clone, Debug)]
pub struct DependencyRecord {
    /// The specifier as written in the source.
    pub specifier: String,
    /// What the source names after the transform.
    pub resolved: String,
    /// Whether the specifier stands in a dynamic import.
    pub is_dynamic: bool,
    /// Whether the host is still to resolve the specifier.
    pub pending: bool,
}

/// The text of a [`DependencyRecord`].
pub struct DependencyView {
    pub specifier: Seq<char>,
    pub resolved: Seq<char>,
    pub is_dynamic: bool,
    pub pending: bool,
}

impl View for DependencyRecord {
    type V = DependencyView;

    open spec fn view(&self) -> DependencyView {
        DependencyView {
            specifier: self.specifier@,
            resolved: self.resolved@,
            is_dynamic: self.is_dynamic,
            pending: self.pending,
        }
    }
}

/// The text of each record of a list.
pub open spec fn records(list: Seq<DependencyRecord>) -> Seq<DependencyView> {
    Seq::new(list.len(), |i: int| list[i]@)
}

/// The specifier of each warning of a list.
pub open spec fn warned(list: Seq<ResolutionWarning>) -> Seq<Seq<char>> {
    Seq::new(list.len(), |i: int| list[i].specifier@)
}

/// What the resolver decides about one specifier.
pub struct Resolution {
    /// What the source is to name.
    pub resolved: Seq<char>,
    /// Whether the specifier is left for the host's plugins to resolve.
    pub pending: bool,
    /// Whether the specifier is left as written for want of any rule.
    pub unresolved: bool,
}

/// A resolver as mathematics.
pub struct ResolverView {
    /// The path of the module whose specifiers are resolved.
    pub referrer: Seq<char>,
    pub import_map: ImportMapView,
    /// Whether the output is meant for production.
    pub production: bool,
    /// Whether the host has plugins that resolve what the import map does not.
    pub has_plugin_resolves: bool,
    /// The specifiers asked about so far, oldest first.
    pub dependencies: Seq<DependencyView>,
    /// The specifiers that were left as written for want of any rule.
    pub warnings: Seq<Seq<char>>,
}

impl ResolverView {
    /// A local path in the form that this resolver's output calls for: as it
    /// is in development, with an explicit extension in production.
    pub open spec fn emitted(self, resolved: Seq<char>) -> Seq<char> {
        if self.production && kind_of(resolved).is_local() {
            runtime_form(resolved)
        } else {
            resolved
        }
    }

    /// What is decided about `specifier`.
    ///
    /// A local specifier is first normalized against the referrer. The
    /// import map is asked next, and its answer stands. Without one, a local
    /// specifier stays the normalized path, and any other is left as
    /// written: for the host's plugins where there are any, else for the
    /// host itself.
    pub open spec fn resolution(self, specifier: Seq<char>) -> Resolution {
        let local = kind_of(specifier).is_local();
        let candidate = if local {
            normalized(self.referrer, specifier)
        } else {
            specifier
        };
        match self.import_map.resolve(candidate, self.referrer) {
            Some(target) => Resolution {
                resolved: self.emitted(target),
                pending: false,
                unresolved: false,
            },
            None => if local {
                Resolution { resolved: self.emitted(candidate), pending: false, unresolved: false }
            } else {
                Resolution {
                    resolved: specifier,
                    pending: self.has_plugin_resolves,
                    unresolved: !self.has_plugin_resolves,
                }
            },
        }
    }

    /// The record that asking about `specifier` leaves.
    pub open spec fn record(self, specifier: Seq<char>, is_dynamic: bool) -> DependencyView {
        DependencyView {
            specifier,
            resolved: self.resolution(specifier).resolved,
            is_dynamic,
            pending: self.resolution(specifier).pending,
        }
    }

    /// The resolver after it was asked about `specifier`.
    pub open spec fn after(self, specifier: Seq<char>, is_dynamic: bool) -> ResolverView {
        ResolverView {
            dependencies: self.dependencies.push(self.record(specifier, is_dynamic)),
            warnings: if self.resolution(specifier).unresolved {
                self.warnings.push(specifier)
            } else {
                self.warnings
            },
            ..self
        }
    }
}

/// Resolves the specifiers of one module.
pub struct Resolver {
    referrer: Vec<char>,
    import_map: ImportMap,
    production: bool,
    has_plugin_resolves: bool,
    dependencies: Vec<DependencyRecord>,
    warnings: Vec<ResolutionWarning>,
}

impl Resolver {
    /// The resolver as mathematics.
    pub closed spec fn view(&self) -> ResolverView {
        ResolverView {
            referrer: self.referrer@,
            import_map: self.import_map@,
            production: self.production,
            has_plugin_resolves: self.has_plugin_resolves,
            dependencies: records(self.dependencies@),
            warnings: warned(self.warnings@),
        }
    }

    /// A resolver for the module at `filename` that has not been asked
    /// anything yet.
    pub fn new(
        filename: &str,
        import_map: ImportMap,
        production: bool,
        has_plugin_resolves: bool,
    ) -> (resolver: Resolver)
        ensures
            resolver@ == (ResolverView {
                referrer: filename@,
                import_map: import_map@,
                production,
                has_plugin_resolves,
                dependencies: Seq::empty(),
                warnings: Seq::empty(),
            }),
    {
        let resolver = Resolver {
            referrer: chars_of(filename),
            import_map,
            production,
            has_plugin_resolves,
            dependencies: Vec::new(),
            warnings: Vec::new(),
        };
        assert(records(resolver.dependencies@) =~= Seq::empty());
        assert(warned(resolver.warnings@) =~= Seq::empty());
        resolver
    }

    /// The form of a local path that the output calls for.
    fn emit(&self, resolved: Vec<char>) -> (r: Vec<char>)
        ensures
            r@ == self@.emitted(resolved@),
    {
        if self.production && classify(&resolved).local() {
            for_runtime(&resolved)
        } else {
            resolved
        }
    }

    /// Decides what the source is to name in place of `specifier`, and
    /// records the decision.
    ///
    /// The result depends on the specifier, the referrer, the import map and
    /// the two flags only: asking twice gives the same answer twice, and two
    /// records.
    pub fn resolve(&mut self, specifier: &str, is_dynamic: bool) -> (resolved: String)
        ensures
            resolved@ == old(self)@.resolution(specifier@).resolved,
            final(self)@ == old(self)@.after(specifier@, is_dynamic),
    {
        let written = chars_of(specifier);
        let local = classify(&written).local();
        let candidate = if local {
            normalize(&self.referrer, &written)
        } else {
            copy_text(&written)
        };
        let mut pending = false;
        let mut unresolved = false;
        let resolved = match self.import_map.resolve_text(&candidate, &self.referrer) {
            Some(target) => self.emit(target),
            None => if local {
                self.emit(candidate)
            } else {
                pending = self.has_plugin_resolves;
                unresolved = !self.has_plugin_resolves;
                written
            },
        };
        let record = DependencyRecord {
            specifier: specifier.to_owned(),
            resolved: string_of(&resolved),
            is_dynamic,
            pending,
        };
        self.dependencies.push(record);
        if unresolved {
            self.warnings.push(ResolutionWarning { specifier: specifier.to_owned() });
        }
        proof {
            let before = old(self)@;
            assert(records(self.dependencies@) =~= before.dependencies.push(
                before.record(specifier@, is_dynamic),
            ));
            if unresolved {
                assert(warned(self.warnings@) =~= before.warnings.push(specifier@));
            }
        }
        string_of(&resolved)
    }

    /// The path of the module whose specifiers are resolved.
    pub fn referrer(&self) -> (path: String)
        ensures
            path@ == self@.referrer,
    {
        string_of(&self.referrer)
    }

    /// Whether the output is meant for production.
    pub fn is_production(&self) -> (r: bool)
        ensures
            r == self@.production,
    {
        self.production
    }

    /// The specifiers asked about so far, oldest first.
    pub fn dependencies(&self) -> (list: &Vec<DependencyRecord>)
        ensures
            records(list@) == self@.dependencies,
    {
        &self.dependencies
    }

    /// The specifiers that were left as written for want of any rule, in
    /// the order of asking. They are for the caller to report or to drop.
    pub fn warnings(&self) -> (list: &Vec<ResolutionWarning>)
        ensures
            warned(list@) == self@.warnings,
    {
        &self.warnings
    }

    /// Ends the resolver and gives out what it recorded.
    pub fn finish(self) -> (list: Vec<DependencyRecord>)
        ensures
            records(list@) == self@.dependencies,
    {
        self.dependencies
    }
}

// ---------------------------------------------------------------------------
// Laws
// ---------------------------------------------------------------------------

/// A bare specifier that the import map does not resolve is passed through
/// as written, provided the host has no plugins to resolve it; it is not
/// pending then, and it is reported.
pub proof fn law_bare_passes_through(resolver: ResolverView, specifier: Seq<char>)
    requires
        kind_of(specifier) is Bare,
        resolver.import_map.resolve(specifier, resolver.referrer) is None,
        !resolver.has_plugin_resolves,
    ensures
        resolver.resolution(specifier).resolved == specifier,
        !resolver.resolution(specifier).pending,
        resolver.resolution(specifier).unresolved,
        resolver.record(specifier, false).resolved == specifier,
{
}

/// Nothing but a local path is ever put into another form: what is neither
/// resolved by the import map nor local comes back as written, in
/// development and in production alike.
pub proof fn law_unmatched_is_verbatim(resolver: ResolverView, specifier: Seq<char>)
    requires
        !kind_of(specifier).is_local(),
        resolver.import_map.resolve(specifier, resolver.referrer) is None,
    ensures
        resolver.resolution(specifier).resolved == specifier,
        resolver.resolution(specifier).pending == resolver.has_plugin_resolves,
{
}

/// Asking never changes an earlier record, nor what any later question is
/// answered with.
pub proof fn law_records_only_grow(
    resolver: ResolverView,
    specifier: Seq<char>,
    is_dynamic: bool,
    other: Seq<char>,
)
    ensures
        resolver.dependencies.is_prefix_of(resolver.after(specifier, is_dynamic).dependencies),
        resolver.after(specifier, is_dynamic).dependencies.len() == resolver.dependencies.len() + 1,
        resolver.after(specifier, is_dynamic).resolution(other) == resolver.resolution(other),
{
    let later = resolver.after(specifier, is_dynamic);
    assert(later.dependencies.subrange(0, resolver.dependencies.len() as int)
        =~= resolver.dependencies);
}

/// What the resolver makes of a local specifier is stable: where the import
/// map has nothing to say about the outcome either, resolving the outcome
/// gives the outcome again. A module whose local specifiers were resolved
/// once is left as it is by a second pass.
pub proof fn law_resolved_path_is_stable(resolver: ResolverView, specifier: Seq<char>)
    requires
        kind_of(specifier).is_local(),
        resolver.import_map.resolve(normalized(resolver.referrer, specifier), resolver.referrer)
            is None,
        resolver.import_map.resolve(resolver.resolution(specifier).resolved, resolver.referrer)
            is None,
    ensures
        kind_of(resolver.resolution(specifier).resolved).is_local(),
        resolver.resolution(resolver.resolution(specifier).resolved) == resolver.resolution(
            specifier,
        ),
{
    let referrer = resolver.referrer;
    let at = destination(referrer, specifier);
    law_normalized_holds_names_only(referrer, specifier);
    lemma_rooted_names_are_stable(at, referrer);
    if resolver.production {
        let form = lemma_runtime_form_keeps_names(at);
        lemma_rooted_names_are_stable(form, referrer);
        law_runtime_form_is_stable(rooted(at));
    }
}

} // verus!

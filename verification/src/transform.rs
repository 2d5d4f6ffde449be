//! The transform pipeline, as far as it decides anything.
//!
//! The stages of a call are strictly ordered: parse; resolve and rewrite
//! the specifiers; lower JSX; instrument for fast refresh, in development
//! only; emit. A [`Transform`] keeps the order. The driver reports each
//! stage's result to it and is told what to do to the tree next; a report out
//! of turn ends the call.

use crate::error::{EmitError, ParseError, TransformError};
use crate::fast_refresh::{
    declarations, instrumentation, plan, registrations, Declaration, DeclarationView,
    Registration,
};
use crate::import_map::ImportMap;
use crate::resolver::{records, DependencyRecord, Resolver, ResolverView};
use crate::target::Target;
use crate::text::option_text;
use crate::{Options, SWCOptions, TransformOutput};
use vstd::prelude::*;

verus! {

/// What the emitter is configured with.
#[derive(Clone, Debug)]
pub struct EmitOptions {
    /// The function that an element is lowered to a call of.
    pub jsx_factory: String,
    /// What a fragment is lowered to.
    pub jsx_fragment_factory: String,
    /// Whether the output is for development.
    pub is_dev: bool,
}

impl EmitOptions {
    /// The part of the options that concerns the emitter.
    pub fn of(options: &SWCOptions) -> (emit: EmitOptions)
        ensures
            emit.jsx_factory@ == options.jsx_factory@,
            emit.jsx_fragment_factory@ == options.jsx_fragment_factory@,
            emit.is_dev == options.is_dev,
    {
        EmitOptions {
            jsx_factory: options.jsx_factory.clone(),
            jsx_fragment_factory: options.jsx_fragment_factory.clone(),
            is_dev: options.is_dev,
        }
    }
}

/// One place of the tree that names a module: an import declaration, a
/// re-export, or a dynamic import.
#[derive(Clone, Debug)]
pub struct SpecifierSite {
    /// The specifier as written.
    pub specifier: String,
    /// Whether the place is a dynamic import.
    pub is_dynamic: bool,
}

impl View for SpecifierSite {
    type V = (Seq<char>, bool);

    open spec fn view(&self) -> (Seq<char>, bool) {
        (self.specifier@, self.is_dynamic)
    }
}

/// The text of each site of a list.
pub open spec fn sites(list: Seq<SpecifierSite>) -> Seq<(Seq<char>, bool)> {
    Seq::new(list.len(), |i: int| list[i]@)
}

/// The text of each member of a list of optional strings.
pub open spec fn option_texts(list: Seq<Option<String>>) -> Seq<Option<Seq<char>>> {
    Seq::new(list.len(), |i: int| option_text(list[i]))
}

// ---------------------------------------------------------------------------
// Resolving and rewriting
// ---------------------------------------------------------------------------

/// What the literal of a site is replaced by: the resolved specifier
/// where it differs from the written one, nothing where it does not.
pub open spec fn replacement(resolver: ResolverView, specifier: Seq<char>) -> Option<Seq<char>> {
    let resolved = resolver.resolution(specifier).resolved;
    if resolved == specifier {
        None
    } else {
        Some(resolved)
    }
}

/// The replacement for each site, in order.
pub open spec fn replacements(resolver: ResolverView, list: Seq<(Seq<char>, bool)>) -> Seq<
    Option<Seq<char>>,
> {
    Seq::new(list.len(), |i: int| replacement(resolver, list[i].0))
}

/// The resolver after it was asked about each site in turn.
pub open spec fn after_sites(resolver: ResolverView, list: Seq<(Seq<char>, bool)>) -> ResolverView
    decreases list.len(),
{
    if list.len() == 0 {
        resolver
    } else {
        after_sites(resolver, list.drop_last()).after(list.last().0, list.last().1)
    }
}

/// Asking leaves alone what the answers depend on.
pub proof fn lemma_after_sites_context(resolver: ResolverView, list: Seq<(Seq<char>, bool)>)
    ensures
        after_sites(resolver, list).referrer == resolver.referrer,
        after_sites(resolver, list).import_map == resolver.import_map,
        after_sites(resolver, list).production == resolver.production,
        after_sites(resolver, list).has_plugin_resolves == resolver.has_plugin_resolves,
        forall|specifier: Seq<char>| #[trigger]
            after_sites(resolver, list).resolution(specifier) == resolver.resolution(specifier),
    decreases list.len(),
{
    if list.len() > 0 {
        lemma_after_sites_context(resolver, list.drop_last());
    }
}

/// Resolves the specifier of each site, in source order, and says what to
/// replace each literal by.
pub fn rewrite_specifiers(resolver: &mut Resolver, list: &Vec<SpecifierSite>) -> (plan: Vec<
    Option<String>,
>)
    ensures
        final(resolver)@ == after_sites(old(resolver)@, sites(list@)),
        option_texts(plan@) == replacements(old(resolver)@, sites(list@)),
{
    let mut plan: Vec<Option<String>> = Vec::new();
    let mut i: usize = 0;
    assert(sites(list@).take(0) =~= Seq::empty());
    assert(option_texts(plan@) =~= replacements(old(resolver)@, sites(list@).take(0)));
    while i < list.len()
        invariant
            i <= list.len(),
            resolver@ == after_sites(old(resolver)@, sites(list@).take(i as int)),
            option_texts(plan@) == replacements(old(resolver)@, sites(list@).take(i as int)),
        decreases list.len() - i,
    {
        let ghost upto = sites(list@).take(i + 1);
        proof {
            assert(upto.drop_last() =~= sites(list@).take(i as int));
            assert(upto.last() == list[i as int]@);
            lemma_after_sites_context(old(resolver)@, sites(list@).take(i as int));
        }
        let site = &list[i];
        let resolved = resolver.resolve(site.specifier.as_str(), site.is_dynamic);
        let entry = if resolved == site.specifier {
            None
        } else {
            Some(resolved)
        };
        let ghost before = option_texts(plan@);
        plan.push(entry);
        assert(option_texts(plan@) =~= before.push(option_text(entry)));
        assert(replacements(old(resolver)@, upto) =~= before.push(
            replacement(old(resolver)@, list[i as int].specifier@),
        ));
        i += 1;
    }
    assert(sites(list@).take(list@.len() as int) =~= sites(list@));
    plan
}

// ---------------------------------------------------------------------------
// The stages
// ---------------------------------------------------------------------------

/// What a [`Transform`] waits for.
#[derive(Clone, Copy, Debug, PartialEq, Eq, Structural)]
pub enum Stage {
    /// The result of parsing the source.
    Parse,
    /// The result of rewriting the specifiers and lowering JSX.
    Lower,
    /// The result of instrumenting and printing the tree.
    Emit,
    /// Nothing: the call completed.
    Done,
    /// Nothing: the call failed.
    Failed,
}

/// One call of the pipeline.
pub struct Transform {
    stage: Stage,
    resolver: Resolver,
    target: Target,
    emit_options: EmitOptions,
    source_map: bool,
}

/// A call as mathematics.
pub struct TransformView {
    pub stage: Stage,
    pub resolver: ResolverView,
    pub target: Target,
    pub jsx_factory: Seq<char>,
    pub jsx_fragment_factory: Seq<char>,
    pub is_dev: bool,
    /// Whether the caller asked for a source map.
    pub source_map: bool,
}

impl TransformView {
    /// The call as it begins, for a configuration whose import map has no
    /// fault.
    pub open spec fn begin(options: Options, source_map: bool) -> TransformView {
        TransformView {
            stage: Stage::Parse,
            resolver: ResolverView {
                referrer: options.filename@,
                import_map: options.import_map@.import_map(),
                production: !options.swc_options.is_dev,
                has_plugin_resolves: false,
                dependencies: Seq::empty(),
                warnings: Seq::empty(),
            },
            target: options.swc_options.target,
            jsx_factory: options.swc_options.jsx_factory@,
            jsx_fragment_factory: options.swc_options.jsx_fragment_factory@,
            is_dev: options.swc_options.is_dev,
            source_map,
        }
    }

    /// The same call at another stage.
    pub open spec fn at(self, stage: Stage) -> TransformView {
        TransformView { stage, ..self }
    }

    /// The output of the call for what the printer produced: the code, and
    /// the map only where one was asked for.
    pub open spec fn output(self, code: Seq<char>, map: Option<Seq<char>>) -> (Seq<char>, Option<Seq<char>>) {
        (
            code,
            if self.source_map {
                map
            } else {
                None
            },
        )
    }
}

impl Transform {
    /// The call as mathematics.
    pub closed spec fn view(&self) -> TransformView {
        TransformView {
            stage: self.stage,
            resolver: self.resolver@,
            target: self.target,
            jsx_factory: self.emit_options.jsx_factory@,
            jsx_fragment_factory: self.emit_options.jsx_fragment_factory@,
            is_dev: self.emit_options.is_dev,
            source_map: self.source_map,
        }
    }

    /// Begins a call. A faulty import map ends it here, before anything is
    /// parsed.
    pub fn new(options: &Options, source_map: bool) -> (r: Result<Transform, TransformError>)
        ensures
            match r {
                Ok(transform) => options.import_map@.fault() is None && transform@
                    == TransformView::begin(*options, source_map),
                Err(e) => options.import_map@.fault() matches Some(fault) && e
                    == TransformError::Config(fault),
            },
    {
        let import_map = match ImportMap::new(&options.import_map) {
            Ok(map) => map,
            Err(e) => {
                return Err(TransformError::Config(e));
            },
        };
        let resolver = Resolver::new(
            options.filename.as_str(),
            import_map,
            !options.swc_options.is_dev,
            false,
        );
        Ok(
            Transform {
                stage: Stage::Parse,
                resolver,
                target: options.swc_options.target,
                emit_options: EmitOptions::of(&options.swc_options),
                source_map,
            },
        )
    }

    /// What the call waits for.
    pub fn stage(&self) -> (stage: Stage)
        ensures
            stage == self@.stage,
    {
        self.stage
    }

    /// The language level to parse and print at.
    pub fn target(&self) -> (target: Target)
        ensures
            target == self@.target,
    {
        self.target
    }

    /// What the emitter is configured with.
    pub fn emit_options(&self) -> (options: &EmitOptions)
        ensures
            options.jsx_factory@ == self@.jsx_factory,
            options.jsx_fragment_factory@ == self@.jsx_fragment_factory,
            options.is_dev == self@.is_dev,
    {
        &self.emit_options
    }

    /// Whether the caller asked for a source map.
    pub fn wants_source_map(&self) -> (r: bool)
        ensures
            r == self@.source_map,
    {
        self.source_map
    }

    /// The resolver of the call.
    pub fn resolver(&self) -> (resolver: &Resolver)
        ensures
            resolver@ == self@.resolver,
    {
        &self.resolver
    }

    /// Takes the report that the source was parsed and names a module at
    /// each of `list`, in source order. Tells what to replace each
    /// specifier literal by; JSX is to be lowered after that.
    pub fn parsed(&mut self, list: &Vec<SpecifierSite>) -> (r: Result<
        Vec<Option<String>>,
        TransformError,
    >)
        ensures
            match r {
                Ok(plan) => {
                    &&& old(self)@.stage == Stage::Parse
                    &&& option_texts(plan@) == replacements(old(self)@.resolver, sites(list@))
                    &&& final(self)@ == (TransformView {
                        stage: Stage::Lower,
                        resolver: after_sites(old(self)@.resolver, sites(list@)),
                        ..old(self)@
                    })
                },
                Err(e) => {
                    &&& old(self)@.stage != Stage::Parse
                    &&& e == TransformError::Emit(EmitError::OutOfOrder)
                    &&& final(self)@ == old(self)@.at(Stage::Failed)
                },
            },
    {
        match self.stage {
            Stage::Parse => {
                let plan = rewrite_specifiers(&mut self.resolver, list);
                self.stage = Stage::Lower;
                Ok(plan)
            },
            _ => {
                self.stage = Stage::Failed;
                Err(TransformError::Emit(EmitError::OutOfOrder))
            },
        }
    }

    /// Takes the report that the source does not parse. The call ends
    /// without output.
    pub fn parse_failed(&mut self, line: u32, column: u32) -> (e: TransformError)
        ensures
            final(self)@ == old(self)@.at(Stage::Failed),
            e == (if old(self)@.stage == Stage::Parse {
                TransformError::Parse(ParseError { line, column })
            } else {
                TransformError::Emit(EmitError::OutOfOrder)
            }),
    {
        let e = match self.stage {
            Stage::Parse => TransformError::Parse(ParseError { line, column }),
            _ => TransformError::Emit(EmitError::OutOfOrder),
        };
        self.stage = Stage::Failed;
        e
    }

    /// Takes the report that the specifiers are rewritten and JSX is
    /// lowered, and that the tree now holds the top-level declarations
    /// `list`. Tells what to register for fast refresh; the tree is to be
    /// printed after that.
    pub fn lowered(&mut self, list: &Vec<Declaration>) -> (r: Result<
        Vec<Registration>,
        TransformError,
    >)
        ensures
            match r {
                Ok(calls) => {
                    &&& old(self)@.stage == Stage::Lower
                    &&& registrations(calls@) == instrumentation(
                        declarations(list@),
                        old(self)@.is_dev,
                    )
                    &&& final(self)@ == old(self)@.at(Stage::Emit)
                },
                Err(e) => {
                    &&& old(self)@.stage != Stage::Lower
                    &&& e == TransformError::Emit(EmitError::OutOfOrder)
                    &&& final(self)@ == old(self)@.at(Stage::Failed)
                },
            },
    {
        match self.stage {
            Stage::Lower => {
                let calls = plan(list, self.emit_options.is_dev);
                self.stage = Stage::Emit;
                Ok(calls)
            },
            _ => {
                self.stage = Stage::Failed;
                Err(TransformError::Emit(EmitError::OutOfOrder))
            },
        }
    }

    /// Takes the report that the tree was printed. The call completes; its
    /// output holds the map only if the caller asked for one.
    pub fn emitted(&mut self, code: String, map: Option<String>) -> (r: Result<
        TransformOutput,
        TransformError,
    >)
        ensures
            match r {
                Ok(output) => {
                    &&& old(self)@.stage == Stage::Emit
                    &&& (output.code@, option_text(output.map)) == old(self)@.output(
                        code@,
                        option_text(map),
                    )
                    &&& final(self)@ == old(self)@.at(Stage::Done)
                },
                Err(e) => {
                    &&& old(self)@.stage != Stage::Emit
                    &&& e == TransformError::Emit(EmitError::OutOfOrder)
                    &&& final(self)@ == old(self)@.at(Stage::Failed)
                },
            },
    {
        match self.stage {
            Stage::Emit => {
                self.stage = Stage::Done;
                let map = if self.source_map {
                    map
                } else {
                    None
                };
                Ok(TransformOutput { code, map })
            },
            _ => {
                self.stage = Stage::Failed;
                Err(TransformError::Emit(EmitError::OutOfOrder))
            },
        }
    }

    /// Takes the report that the printer could not serialize the tree. The
    /// call ends without output.
    pub fn emit_failed(&mut self) -> (e: TransformError)
        ensures
            final(self)@ == old(self)@.at(Stage::Failed),
            e == TransformError::Emit(
                if old(self)@.stage == Stage::Emit {
                    EmitError::Serialization
                } else {
                    EmitError::OutOfOrder
                },
            ),
    {
        let e = match self.stage {
            Stage::Emit => EmitError::Serialization,
            _ => EmitError::OutOfOrder,
        };
        self.stage = Stage::Failed;
        TransformError::Emit(e)
    }

    /// Ends the call and gives out the dependencies that were recorded.
    pub fn finish(self) -> (list: Vec<DependencyRecord>)
        ensures
            records(list@) == self@.resolver.dependencies,
    {
        self.resolver.finish()
    }
}

// ---------------------------------------------------------------------------
// Laws
// ---------------------------------------------------------------------------

/// Every site leaves exactly one record, in source order, and earlier
/// records stay as they were. A literal is replaced exactly where its record
/// names something other than what was written, and then by what the record
/// names.
pub proof fn law_one_record_per_site(resolver: ResolverView, list: Seq<(Seq<char>, bool)>)
    ensures
        after_sites(resolver, list).dependencies == resolver.dependencies + Seq::new(
            list.len(),
            |i: int| resolver.record(list[i].0, list[i].1),
        ),
        forall|i: int|
            0 <= i < list.len() ==> #[trigger] replacements(resolver, list)[i] == (if resolver.record(
                list[i].0,
                list[i].1,
            ).resolved == list[i].0 {
                None
            } else {
                Some(resolver.record(list[i].0, list[i].1).resolved)
            }),
    decreases list.len(),
{
    if list.len() > 0 {
        law_one_record_per_site(resolver, list.drop_last());
        lemma_after_sites_context(resolver, list.drop_last());
    }
    assert(after_sites(resolver, list).dependencies =~= resolver.dependencies + Seq::new(
        list.len(),
        |i: int| resolver.record(list[i].0, list[i].1),
    ));
}

/// A settled module is left alone. Where every specifier resolves to
/// itself, as the specifiers of a module do that went through the pipeline
/// before, nothing is replaced; and in production nothing is registered. The
/// two stages that edit the tree on the library's word then have nothing to
/// do.
pub proof fn law_settled_module_is_left_alone(
    resolver: ResolverView,
    list: Seq<(Seq<char>, bool)>,
    declared: Seq<DeclarationView>,
)
    requires
        forall|i: int|
            0 <= i < list.len() ==> resolver.resolution((#[trigger] list[i]).0).resolved
                == list[i].0,
    ensures
        forall|i: int| 0 <= i < list.len() ==> #[trigger] replacements(resolver, list)[i] is None,
        instrumentation(declared, false).len() == 0,
{
    assert forall|i: int| 0 <= i < list.len() implies #[trigger] replacements(
        resolver,
        list,
    )[i] is None by {
        assert(resolver.resolution(list[i].0).resolved == list[i].0);
    }
}

} // verus!

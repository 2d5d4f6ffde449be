//! Import maps: a table from specifier prefixes to targets, with scopes that
//! override it for referrers under a path prefix.
//!
//! The mathematical model of an import map is a pair of maps
//! ([`ImportMapView`]); the order in which a payload lists its entries plays no
//! part in it. Resolution is stated over that model: among the keys that match
//! a specifier the longest one applies.

use crate::error::ConfigError;
use crate::text::{
    append_from, chars_of, chars_text, copy_text, option_text, same_text, starts_with, string_of,
    texts,
};
use vstd::prelude::*;

verus! {

/// A key and its target.
pub type Rule = (Seq<char>, Seq<char>);

/// A scope prefix and the rules that hold under it.
pub type ScopeRules = (Seq<char>, Seq<Rule>);

// ---------------------------------------------------------------------------
// Matching
// ---------------------------------------------------------------------------

/// Whether the key of an entry matches `specifier`: it is the specifier
/// itself, or it ends in a slash and the specifier begins with it, so that a
/// key always covers whole path segments.
pub open spec fn key_matches(key: Seq<char>, specifier: Seq<char>) -> bool {
    key == specifier || (key.len() > 0 && key.last() == '/' && key.is_prefix_of(specifier))
}

/// Whether a scope with this path prefix holds for a module at `referrer`: the
/// prefix is a proper prefix of the referrer's path.
pub open spec fn scope_applies(prefix: Seq<char>, referrer: Seq<char>) -> bool {
    prefix.len() < referrer.len() && prefix.is_prefix_of(referrer)
}

/// [`scope_applies`] when `as_scope` is set, [`key_matches`] otherwise.
pub open spec fn applies(as_scope: bool, key: Seq<char>, subject: Seq<char>) -> bool {
    if as_scope {
        scope_applies(key, subject)
    } else {
        key_matches(key, subject)
    }
}

/// Whether `key` is the member of `keys` that wins for `subject`: it applies,
/// and no member that applies is longer.
pub open spec fn is_longest(
    as_scope: bool,
    keys: Set<Seq<char>>,
    subject: Seq<char>,
    key: Seq<char>,
) -> bool {
    &&& keys.contains(key)
    &&& applies(as_scope, key, subject)
    &&& forall|other: Seq<char>|
        keys.contains(other) && #[trigger] applies(as_scope, other, subject) ==> other.len()
            <= key.len()
}

/// The member of `keys` that wins for `subject`, if any applies at all.
pub open spec fn longest(as_scope: bool, keys: Set<Seq<char>>, subject: Seq<char>) -> Option<
    Seq<char>,
> {
    if exists|key: Seq<char>| is_longest(as_scope, keys, subject, key) {
        Some(choose|key: Seq<char>| is_longest(as_scope, keys, subject, key))
    } else {
        None
    }
}

/// Whether a resolution result may stand as a module specifier: it is not
/// empty and holds neither blanks nor control characters.
pub open spec fn well_formed(specifier: Seq<char>) -> bool {
    &&& specifier.len() > 0
    &&& forall|i: int| 0 <= i < specifier.len() ==> (#[trigger] specifier[i]) as u32 > 0x20
}

/// What an entry makes of a specifier that its key matches: the target, then
/// what the specifier holds beyond the key.
pub open spec fn rewritten(key: Seq<char>, target: Seq<char>, specifier: Seq<char>) -> Seq<char> {
    target + specifier.skip(key.len() as int)
}

/// Resolution within one set of entries.
pub open spec fn resolve_in(entries: Map<Seq<char>, Seq<char>>, specifier: Seq<char>) -> Option<
    Seq<char>,
> {
    match longest(false, entries.dom(), specifier) {
        Some(key) => {
            let result = rewritten(key, entries[key], specifier);
            if well_formed(result) {
                Some(result)
            } else {
                None
            }
        },
        None => None,
    }
}

// ---------------------------------------------------------------------------
// The model
// ---------------------------------------------------------------------------

/// An import map as mathematics: the top-level entries and, for each scope
/// prefix, the entries that hold under it.
pub struct ImportMapView {
    pub imports: Map<Seq<char>, Seq<char>>,
    pub scopes: Map<Seq<char>, Map<Seq<char>, Seq<char>>>,
}

impl ImportMapView {
    /// The map without any entry.
    pub open spec fn empty() -> ImportMapView {
        ImportMapView { imports: Map::empty(), scopes: Map::empty() }
    }

    /// What construction guarantees beyond unique keys: no top-level key is
    /// empty, and no scope entry merely repeats a top-level entry.
    pub open spec fn valid(self) -> bool {
        &&& !self.imports.dom().contains(Seq::<char>::empty())
        &&& forall|prefix: Seq<char>, key: Seq<char>|
            #![trigger self.scopes[prefix][key]]
            self.scopes.dom().contains(prefix) && self.scopes[prefix].dom().contains(key)
                && self.imports.dom().contains(key) ==> self.scopes[prefix][key]
                != self.imports[key]
    }

    /// The prefix of the scope that holds for a module at `referrer`.
    pub open spec fn active_scope(self, referrer: Seq<char>) -> Option<Seq<char>> {
        longest(true, self.scopes.dom(), referrer)
    }

    /// The entries that decide about `specifier` for a module at `referrer`:
    /// those of the active scope if one of them matches, the top-level ones
    /// otherwise.
    pub open spec fn active_entries(self, specifier: Seq<char>, referrer: Seq<char>) -> Map<
        Seq<char>,
        Seq<char>,
    > {
        match self.active_scope(referrer) {
            Some(prefix) => if longest(false, self.scopes[prefix].dom(), specifier) is Some {
                self.scopes[prefix]
            } else {
                self.imports
            },
            None => self.imports,
        }
    }

    /// The target of `specifier` for a module at `referrer`, or `None` where
    /// no entry matches or the match yields no well-formed specifier.
    pub open spec fn resolve(self, specifier: Seq<char>, referrer: Seq<char>) -> Option<
        Seq<char>,
    > {
        resolve_in(self.active_entries(specifier, referrer), specifier)
    }
}

/// The map that takes each of `keys` to the value at the same position.
pub open spec fn table<V>(keys: Seq<Seq<char>>, values: Seq<V>) -> Map<Seq<char>, V> {
    Map::new(|key: Seq<char>| keys.contains(key), |key: Seq<char>| values[keys.index_of(key)])
}

/// The keys of a list of rules, in order.
pub open spec fn keys_of<V>(rules: Seq<(Seq<char>, V)>) -> Seq<Seq<char>> {
    Seq::new(rules.len(), |i: int| rules[i].0)
}

/// The targets of a list of rules, in order.
pub open spec fn targets_of(rules: Seq<Rule>) -> Seq<Seq<char>> {
    Seq::new(rules.len(), |i: int| rules[i].1)
}

/// The entries that a list of rules with distinct keys stands for.
pub open spec fn rules_map(rules: Seq<Rule>) -> Map<Seq<char>, Seq<char>> {
    table(keys_of(rules), targets_of(rules))
}

/// The scopes that a list of scopes with distinct prefixes stands for.
pub open spec fn scopes_map(scopes: Seq<ScopeRules>) -> Map<Seq<char>, Map<Seq<char>, Seq<char>>> {
    table(keys_of(scopes), Seq::new(scopes.len(), |i: int| rules_map(scopes[i].1)))
}

// ---------------------------------------------------------------------------
// Facts about matching
// ---------------------------------------------------------------------------

/// A key that applies to a subject is a prefix of it.
pub proof fn lemma_applies_prefix(as_scope: bool, key: Seq<char>, subject: Seq<char>)
    requires
        applies(as_scope, key, subject),
    ensures
        key.is_prefix_of(subject),
{
    assert(subject.subrange(0, subject.len() as int) =~= subject);
}

/// At most one key wins.
pub proof fn lemma_longest_unique(
    as_scope: bool,
    keys: Set<Seq<char>>,
    subject: Seq<char>,
    a: Seq<char>,
    b: Seq<char>,
)
    requires
        is_longest(as_scope, keys, subject, a),
        is_longest(as_scope, keys, subject, b),
    ensures
        a == b,
{
    lemma_applies_prefix(as_scope, a, subject);
    lemma_applies_prefix(as_scope, b, subject);
    assert(a.len() == b.len());
    assert(a =~= b);
}

/// A key that wins is the one that [`longest`] names.
pub proof fn lemma_longest_is(
    as_scope: bool,
    keys: Set<Seq<char>>,
    subject: Seq<char>,
    key: Seq<char>,
)
    requires
        is_longest(as_scope, keys, subject, key),
    ensures
        longest(as_scope, keys, subject) == Some(key),
{
    let chosen = choose|k: Seq<char>| is_longest(as_scope, keys, subject, k);
    lemma_longest_unique(as_scope, keys, subject, chosen, key);
}

/// Where some key applies, one of the keys wins, and it is not shorter.
pub proof fn lemma_longest_exists(
    as_scope: bool,
    keys: Set<Seq<char>>,
    subject: Seq<char>,
    key: Seq<char>,
)
    requires
        keys.contains(key),
        applies(as_scope, key, subject),
    ensures
        longest(as_scope, keys, subject) is Some,
        is_longest(as_scope, keys, subject, longest(as_scope, keys, subject).unwrap()),
        key.len() <= longest(as_scope, keys, subject).unwrap().len(),
    decreases subject.len() - key.len(),
{
    lemma_applies_prefix(as_scope, key, subject);
    if forall|other: Seq<char>|
        keys.contains(other) && #[trigger] applies(as_scope, other, subject) ==> other.len()
            <= key.len() {
        lemma_longest_is(as_scope, keys, subject, key);
    } else {
        let other = choose|other: Seq<char>|
            keys.contains(other) && #[trigger] applies(as_scope, other, subject) && other.len()
                > key.len();
        lemma_applies_prefix(as_scope, other, subject);
        lemma_longest_exists(as_scope, keys, subject, other);
    }
}

/// Where no key applies, none wins.
pub proof fn lemma_longest_none(as_scope: bool, keys: Set<Seq<char>>, subject: Seq<char>)
    requires
        forall|key: Seq<char>| keys.contains(key) ==> !#[trigger] applies(as_scope, key, subject),
    ensures
        longest(as_scope, keys, subject) is None,
{
}

// ---------------------------------------------------------------------------
// The payload
// ---------------------------------------------------------------------------

/// One entry of an import map payload.
#[derive(Clone, Debug)]
pub struct ImportMapEntry {
    /// The specifier, or specifier prefix, that the entry is about.
    pub key: String,
    /// What the key is replaced by.
    pub target: String,
}

impl View for ImportMapEntry {
    type V = Rule;

    open spec fn view(&self) -> Rule {
        (self.key@, self.target@)
    }
}

/// One scope of an import map payload.
#[derive(Clone, Debug)]
pub struct Scope {
    /// The path prefix of the referrers that the scope holds for.
    pub prefix: String,
    /// The entries that hold under the prefix.
    pub entries: Vec<ImportMapEntry>,
}

impl View for Scope {
    type V = ScopeRules;

    open spec fn view(&self) -> ScopeRules {
        (self.prefix@, rules_of(self.entries@))
    }
}

/// An import map as the caller supplies it: entries in the order written,
/// nothing checked yet.
#[derive(Clone, Debug)]
pub struct RawImportMap {
    /// The top-level entries.
    pub imports: Vec<ImportMapEntry>,
    /// The scopes.
    pub scopes: Vec<Scope>,
}

/// The text of a payload.
pub struct RawImportMapView {
    pub imports: Seq<Rule>,
    pub scopes: Seq<ScopeRules>,
}

impl View for RawImportMap {
    type V = RawImportMapView;

    open spec fn view(&self) -> RawImportMapView {
        RawImportMapView { imports: rules_of(self.imports@), scopes: scope_rules_of(self.scopes@) }
    }
}

/// The rules that a list of payload entries states.
pub open spec fn rules_of(entries: Seq<ImportMapEntry>) -> Seq<Rule> {
    Seq::new(entries.len(), |i: int| entries[i]@)
}

/// The scopes that a list of payload scopes states.
pub open spec fn scope_rules_of(scopes: Seq<Scope>) -> Seq<ScopeRules> {
    Seq::new(scopes.len(), |i: int| scopes[i]@)
}

impl RawImportMapView {
    /// Why the payload is rejected, if it is. Where it has several faults, the
    /// one named first in this list is reported.
    pub open spec fn fault(self) -> Option<ConfigError> {
        if keys_of(self.imports).contains(Seq::<char>::empty()) {
            Some(ConfigError::EmptyKey)
        } else if !keys_of(self.imports).no_duplicates() {
            Some(ConfigError::DuplicateKey)
        } else if !keys_of(self.scopes).no_duplicates() {
            Some(ConfigError::DuplicateScope)
        } else if exists|s: int|
            0 <= s < self.scopes.len() && !keys_of((#[trigger] self.scopes[s]).1).no_duplicates() {
            Some(ConfigError::DuplicateScopeKey)
        } else if exists|s: int, i: int|
            0 <= s < self.scopes.len() && 0 <= i < self.scopes[s].1.len() && self.imports.contains(
                #[trigger] self.scopes[s].1[i],
            ) {
            Some(ConfigError::RedundantScopeEntry)
        } else {
            None
        }
    }

    /// The import map that the payload states, provided it has no fault.
    pub open spec fn import_map(self) -> ImportMapView {
        ImportMapView { imports: rules_map(self.imports), scopes: scopes_map(self.scopes) }
    }
}

impl Default for RawImportMap {
    fn default() -> (raw: RawImportMap)
        ensures
            raw@.imports.len() == 0,
            raw@.scopes.len() == 0,
    {
        RawImportMap::empty()
    }
}

impl RawImportMap {
    /// The payload that states nothing.
    pub fn empty() -> (raw: RawImportMap)
        ensures
            raw@.imports.len() == 0,
            raw@.scopes.len() == 0,
    {
        RawImportMap { imports: Vec::new(), scopes: Vec::new() }
    }
}

// ---------------------------------------------------------------------------
// Facts about tables
// ---------------------------------------------------------------------------

/// The keys of a table are the members of its key list.
pub proof fn lemma_table_dom<V>(keys: Seq<Seq<char>>, values: Seq<V>)
    ensures
        table(keys, values).dom() == keys.to_set(),
{
    assert(table(keys, values).dom() =~= keys.to_set());
}

/// With distinct keys, a table takes each key to the value at its position.
pub proof fn lemma_table_at<V>(keys: Seq<Seq<char>>, values: Seq<V>, i: int)
    requires
        keys.no_duplicates(),
        0 <= i < keys.len(),
    ensures
        table(keys, values).dom().contains(keys[i]),
        table(keys, values)[keys[i]] == values[i],
{
    assert(keys.contains(keys[i]));
    assert(keys.index_of(keys[i]) == i);
}

/// A payload without fault states a valid import map.
pub proof fn lemma_faultless_is_valid(raw: RawImportMapView)
    requires
        raw.fault() is None,
    ensures
        raw.import_map().valid(),
{
    let m = raw.import_map();
    lemma_table_dom(keys_of(raw.imports), targets_of(raw.imports));
    assert forall|prefix: Seq<char>, key: Seq<char>|
        #![trigger m.scopes[prefix][key]]
        m.scopes.dom().contains(prefix) && m.scopes[prefix].dom().contains(key)
            && m.imports.dom().contains(key) implies m.scopes[prefix][key] != m.imports[key] by {
        let scope_keys = keys_of(raw.scopes);
        let s = scope_keys.index_of(prefix);
        assert(scope_keys.contains(prefix));
        assert(scope_keys[s] == prefix);
        let rules = raw.scopes[s].1;
        assert(m.scopes[prefix] == rules_map(rules));
        assert(keys_of(rules).contains(key));
        let i = keys_of(rules).index_of(key);
        assert(keys_of(rules)[i] == key);
        assert(rules_map(rules)[key] == rules[i].1);
        assert(keys_of(raw.imports).contains(key));
        let j = keys_of(raw.imports).index_of(key);
        assert(keys_of(raw.imports)[j] == key);
        assert(m.imports[key] == raw.imports[j].1);
        if rules[i].1 == raw.imports[j].1 {
            assert(raw.imports[j] == raw.scopes[s].1[i]);
            assert(raw.imports.contains(raw.scopes[s].1[i]));
        }
    }
}

// ---------------------------------------------------------------------------
// The import map
// ---------------------------------------------------------------------------

/// Entries with distinct keys, decoded for matching.
struct Table {
    keys: Vec<Vec<char>>,
    targets: Vec<Vec<char>>,
}

impl Table {
    spec fn wf(&self) -> bool {
        &&& self.keys.len() == self.targets.len()
        &&& texts(self.keys@).no_duplicates()
    }

    spec fn map(&self) -> Map<Seq<char>, Seq<char>> {
        table(texts(self.keys@), texts(self.targets@))
    }

    /// Decodes the entries of a payload, in order.
    fn decode(entries: &Vec<ImportMapEntry>) -> (t: Table)
        ensures
            t.keys.len() == t.targets.len(),
            texts(t.keys@) == keys_of(rules_of(entries@)),
            texts(t.targets@) == targets_of(rules_of(entries@)),
    {
        let mut keys: Vec<Vec<char>> = Vec::new();
        let mut targets: Vec<Vec<char>> = Vec::new();
        let mut i: usize = 0;
        while i < entries.len()
            invariant
                i <= entries.len(),
                keys.len() == i,
                targets.len() == i,
                forall|j: int| 0 <= j < i ==> (#[trigger] keys[j])@ == entries[j].key@,
                forall|j: int| 0 <= j < i ==> (#[trigger] targets[j])@ == entries[j].target@,
            decreases entries.len() - i,
        {
            keys.push(chars_of(entries[i].key.as_str()));
            targets.push(chars_of(entries[i].target.as_str()));
            i += 1;
        }
        assert(texts(keys@) =~= keys_of(rules_of(entries@)));
        assert(texts(targets@) =~= targets_of(rules_of(entries@)));
        Table { keys, targets }
    }

    /// Whether some entry has this key and this target.
    fn holds(&self, key: &Vec<char>, target: &Vec<char>) -> (r: bool)
        requires
            self.keys.len() == self.targets.len(),
        ensures
            r == exists|i: int|
                0 <= i < self.keys.len() && (#[trigger] self.keys[i])@ == key@ && self.targets[i]@
                    == target@,
    {
        let mut i: usize = 0;
        while i < self.keys.len()
            invariant
                i <= self.keys.len(),
                self.keys.len() == self.targets.len(),
                forall|j: int|
                    0 <= j < i ==> !((#[trigger] self.keys[j])@ == key@ && self.targets[j]@
                        == target@),
            decreases self.keys.len() - i,
        {
            if same_text(&self.keys[i], key) && same_text(&self.targets[i], target) {
                return true;
            }
            i += 1;
        }
        false
    }

    /// Resolution within this table: whether a key matches, and what comes of it.
    fn resolve(&self, specifier: &Vec<char>) -> (r: (bool, Option<Vec<char>>))
        requires
            self.wf(),
        ensures
            r.0 == (longest(false, self.map().dom(), specifier@) is Some),
            chars_text(r.1) == resolve_in(self.map(), specifier@),
    {
        proof {
            lemma_table_dom(texts(self.keys@), texts(self.targets@));
        }
        match find_longest(false, &self.keys, specifier) {
            Some(i) => {
                proof {
                    lemma_longest_is(false, self.map().dom(), specifier@, self.keys[i as int]@);
                    lemma_applies_prefix(false, self.keys[i as int]@, specifier@);
                    lemma_table_at(texts(self.keys@), texts(self.targets@), i as int);
                }
                let mut result = copy_text(&self.targets[i]);
                append_from(&mut result, specifier, self.keys[i].len());
                if is_well_formed(&result) {
                    (true, Some(result))
                } else {
                    (true, None)
                }
            },
            None => (false, None),
        }
    }
}

/// Whether `keys` holds the empty text.
fn holds_empty(keys: &Vec<Vec<char>>) -> (r: bool)
    ensures
        r == texts(keys@).contains(Seq::<char>::empty()),
{
    let mut i: usize = 0;
    while i < keys.len()
        invariant
            i <= keys.len(),
            forall|j: int| 0 <= j < i ==> (#[trigger] texts(keys@)[j]).len() != 0,
        decreases keys.len() - i,
    {
        if keys[i].len() == 0 {
            assert(texts(keys@)[i as int] =~= Seq::<char>::empty());
            return true;
        }
        i += 1;
    }
    false
}

/// Whether two members of `keys` hold the same text.
fn holds_duplicate(keys: &Vec<Vec<char>>) -> (r: bool)
    ensures
        r == !texts(keys@).no_duplicates(),
{
    let mut i: usize = 0;
    while i < keys.len()
        invariant
            i <= keys.len(),
            forall|a: int, b: int|
                0 <= a < b < i ==> (#[trigger] texts(keys@)[a]) != (#[trigger] texts(keys@)[b]),
        decreases keys.len() - i,
    {
        let mut j: usize = 0;
        while j < i
            invariant
                j <= i < keys.len(),
                forall|a: int| 0 <= a < j ==> (#[trigger] texts(keys@)[a]) != texts(keys@)[i as int],
            decreases i - j,
        {
            if same_text(&keys[j], &keys[i]) {
                assert(texts(keys@)[j as int] == texts(keys@)[i as int]);
                return true;
            }
            j += 1;
        }
        i += 1;
    }
    false
}

/// Whether `key` applies to `subject`, as a scope prefix or as an entry key.
fn applies_to(as_scope: bool, key: &Vec<char>, subject: &Vec<char>) -> (r: bool)
    ensures
        r == applies(as_scope, key@, subject@),
{
    if as_scope {
        key.len() < subject.len() && starts_with(subject, key)
    } else if key.len() > 0 && key[key.len() - 1] == '/' {
        proof {
            if key@ == subject@ {
                assert(subject@.subrange(0, subject@.len() as int) =~= subject@);
            }
        }
        starts_with(subject, key)
    } else {
        same_text(key, subject)
    }
}

/// The position of the member of `keys` that wins for `subject`.
fn find_longest(as_scope: bool, keys: &Vec<Vec<char>>, subject: &Vec<char>) -> (r: Option<usize>)
    ensures
        match r {
            Some(i) => i < keys.len() && is_longest(
                as_scope,
                texts(keys@).to_set(),
                subject@,
                keys[i as int]@,
            ),
            None => longest(as_scope, texts(keys@).to_set(), subject@) is None,
        },
{
    let mut best: Option<usize> = None;
    let mut i: usize = 0;
    while i < keys.len()
        invariant
            i <= keys.len(),
            match best {
                Some(b) => b < i && applies(as_scope, keys[b as int]@, subject@) && forall|j: int|
                    0 <= j < i && applies(as_scope, (#[trigger] keys[j])@, subject@) ==> keys[j].len()
                        <= keys[b as int].len(),
                None => forall|j: int|
                    0 <= j < i ==> !applies(as_scope, (#[trigger] keys[j])@, subject@),
            },
        decreases keys.len() - i,
    {
        if applies_to(as_scope, &keys[i], subject) {
            let better = match best {
                Some(b) => keys[b].len() < keys[i].len(),
                None => true,
            };
            if better {
                best = Some(i);
            }
        }
        i += 1;
    }
    proof {
        let set = texts(keys@).to_set();
        match best {
            Some(b) => {
                assert(texts(keys@)[b as int] == keys[b as int]@);
                assert(set.contains(keys[b as int]@));
                assert forall|other: Seq<char>|
                    set.contains(other) && #[trigger] applies(
                        as_scope,
                        other,
                        subject@,
                    ) implies other.len() <= keys[b as int]@.len() by {
                    let j = texts(keys@).index_of(other);
                    assert(texts(keys@)[j] == other);
                    assert(keys[j]@ == other);
                }
            },
            None => {
                assert forall|other: Seq<char>| set.contains(other) implies !#[trigger] applies(
                    as_scope,
                    other,
                    subject@,
                ) by {
                    let j = texts(keys@).index_of(other);
                    assert(texts(keys@)[j] == other);
                    assert(keys[j]@ == other);
                }
                lemma_longest_none(as_scope, set, subject@);
            },
        }
    }
    best
}

/// Whether `specifier` may stand as a module specifier.
pub(crate) fn is_well_formed(specifier: &Vec<char>) -> (r: bool)
    ensures
        r == well_formed(specifier@),
{
    if specifier.len() == 0 {
        return false;
    }
    let mut i: usize = 0;
    while i < specifier.len()
        invariant
            i <= specifier.len(),
            forall|j: int| 0 <= j < i ==> (#[trigger] specifier@[j]) as u32 > 0x20,
        decreases specifier.len() - i,
    {
        if specifier[i] as u32 <= 0x20 {
            return false;
        }
        i += 1;
    }
    true
}

/// A checked import map. It never changes once constructed.
pub struct ImportMap {
    imports: Table,
    prefixes: Vec<Vec<char>>,
    scoped: Vec<Table>,
}

impl ImportMap {
    #[verifier::type_invariant]
    spec fn wf(&self) -> bool {
        &&& self.imports.wf()
        &&& self.prefixes.len() == self.scoped.len()
        &&& texts(self.prefixes@).no_duplicates()
        &&& forall|s: int| 0 <= s < self.scoped.len() ==> (#[trigger] self.scoped[s]).wf()
    }

    spec fn scoped_maps(&self) -> Seq<Map<Seq<char>, Seq<char>>> {
        Seq::new(self.scoped@.len(), |s: int| self.scoped@[s].map())
    }

    /// The entries of the map, top-level and by scope.
    pub closed spec fn view(&self) -> ImportMapView {
        ImportMapView {
            imports: self.imports.map(),
            scopes: table(texts(self.prefixes@), self.scoped_maps()),
        }
    }

    /// The import map without entries: nothing matches in it.
    pub fn empty() -> (map: ImportMap)
        ensures
            map@ == ImportMapView::empty(),
    {
        let map = ImportMap {
            imports: Table { keys: Vec::new(), targets: Vec::new() },
            prefixes: Vec::new(),
            scoped: Vec::new(),
        };
        assert(map@.imports =~= Map::empty());
        assert(map@.scopes =~= Map::empty());
        map
    }

    /// Checks a payload and builds the import map that it states.
    ///
    /// A payload is rejected for an empty top-level key, for a key or a scope
    /// prefix that occurs twice, and for a scope entry that repeats a
    /// top-level entry.
    #[verifier::loop_isolation(false)]
    pub fn new(raw: &RawImportMap) -> (r: Result<ImportMap, ConfigError>)
        ensures
            match r {
                Ok(map) => raw@.fault() is None && map@ == raw@.import_map() && map@.valid(),
                Err(e) => raw@.fault() == Some(e),
            },
    {
        let imports = Table::decode(&raw.imports);
        assert(imports.keys.len() == raw@.imports.len()) by {
            assert(texts(imports.keys@).len() == keys_of(raw@.imports).len());
        }
        if holds_empty(&imports.keys) {
            return Err(ConfigError::EmptyKey);
        }
        if holds_duplicate(&imports.keys) {
            return Err(ConfigError::DuplicateKey);
        }
        let mut prefixes: Vec<Vec<char>> = Vec::new();
        let mut scoped: Vec<Table> = Vec::new();
        let mut s: usize = 0;
        while s < raw.scopes.len()
            invariant
                s <= raw.scopes.len(),
                prefixes.len() == s,
                scoped.len() == s,
                forall|t: int| 0 <= t < s ==> (#[trigger] prefixes[t])@ == raw.scopes[t].prefix@,
                forall|t: int|
                    0 <= t < s ==> {
                        &&& (#[trigger] scoped[t]).keys.len() == scoped[t].targets.len()
                        &&& texts(scoped[t].keys@) == keys_of(raw@.scopes[t].1)
                        &&& texts(scoped[t].targets@) == targets_of(raw@.scopes[t].1)
                    },
            decreases raw.scopes.len() - s,
        {
            prefixes.push(chars_of(raw.scopes[s].prefix.as_str()));
            scoped.push(Table::decode(&raw.scopes[s].entries));
            s += 1;
        }
        assert(texts(prefixes@) =~= keys_of(raw@.scopes));
        if holds_duplicate(&prefixes) {
            return Err(ConfigError::DuplicateScope);
        }
        let mut s: usize = 0;
        while s < scoped.len()
            invariant
                s <= scoped.len(),
                forall|t: int|
                    0 <= t < s ==> keys_of((#[trigger] raw@.scopes[t]).1).no_duplicates(),
            decreases scoped.len() - s,
        {
            if holds_duplicate(&scoped[s].keys) {
                assert(!keys_of(raw@.scopes[s as int].1).no_duplicates());
                return Err(ConfigError::DuplicateScopeKey);
            }
            s += 1;
        }
        let mut s: usize = 0;
        while s < scoped.len()
            invariant
                s <= scoped.len(),
                forall|t: int, i: int|
                    0 <= t < s && 0 <= i < raw@.scopes[t].1.len() ==> !raw@.imports.contains(
                        #[trigger] raw@.scopes[t].1[i],
                    ),
            decreases scoped.len() - s,
        {
            let rules = &scoped[s];
            assert(rules.keys.len() == raw@.scopes[s as int].1.len()) by {
                assert(texts(rules.keys@).len() == keys_of(raw@.scopes[s as int].1).len());
            }
            let mut i: usize = 0;
            while i < rules.keys.len()
                invariant
                    i <= rules.keys.len(),
                    forall|j: int|
                        0 <= j < i ==> !raw@.imports.contains(#[trigger] raw@.scopes[s as int].1[j]),
                decreases rules.keys.len() - i,
            {
                let repeated = imports.holds(&rules.keys[i], &rules.targets[i]);
                proof {
                    let rule = raw@.scopes[s as int].1[i as int];
                    assert(texts(rules.keys@)[i as int] == rule.0);
                    assert(texts(rules.targets@)[i as int] == rule.1);
                    if repeated {
                        let j = choose|j: int|
                            0 <= j < imports.keys.len() && (#[trigger] imports.keys[j])@
                                == rules.keys[i as int]@ && imports.targets[j]@
                                == rules.targets[i as int]@;
                        assert(texts(imports.keys@)[j] == raw@.imports[j].0);
                        assert(texts(imports.targets@)[j] == raw@.imports[j].1);
                        assert(raw@.imports[j] == rule);
                        assert(raw@.imports.contains(rule));
                    } else if raw@.imports.contains(rule) {
                        let j = raw@.imports.index_of(rule);
                        assert(raw@.imports[j] == rule);
                        assert(texts(imports.keys@)[j] == raw@.imports[j].0);
                        assert(texts(imports.targets@)[j] == raw@.imports[j].1);
                        assert(imports.keys[j]@ == rules.keys[i as int]@);
                    }
                }
                if repeated {
                    return Err(ConfigError::RedundantScopeEntry);
                }
                i += 1;
            }
            s += 1;
        }
        let map = ImportMap { imports, prefixes, scoped };
        proof {
            assert(map.scoped_maps() =~= Seq::new(
                raw@.scopes.len(),
                |t: int| rules_map(raw@.scopes[t].1),
            ));
            lemma_faultless_is_valid(raw@);
        }
        Ok(map)
    }

    /// The target of `specifier` for a module at `referrer`, as characters.
    pub(crate) fn resolve_text(&self, specifier: &Vec<char>, referrer: &Vec<char>) -> (r: Option<
        Vec<char>,
    >)
        ensures
            chars_text(r) == self@.resolve(specifier@, referrer@),
    {
        proof {
            use_type_invariant(self);
            lemma_table_dom(texts(self.prefixes@), self.scoped_maps());
        }
        match find_longest(true, &self.prefixes, referrer) {
            Some(s) => {
                proof {
                    lemma_longest_is(true, self@.scopes.dom(), referrer@, self.prefixes[s as int]@);
                    lemma_table_at(texts(self.prefixes@), self.scoped_maps(), s as int);
                }
                let (matched, result) = self.scoped[s].resolve(specifier);
                if matched {
                    return result;
                }
            },
            None => {},
        }
        self.imports.resolve(specifier).1
    }

    /// The target of `specifier` for a module at `referrer`.
    ///
    /// `None` says that the map has nothing to say about the specifier: no
    /// entry matches it, or the entry that does yields no well-formed
    /// specifier. Equal arguments give equal results.
    pub fn resolve(&self, specifier: &str, referrer: &str) -> (r: Option<String>)
        ensures
            option_text(r) == self@.resolve(specifier@, referrer@),
    {
        let specifier = chars_of(specifier);
        let referrer = chars_of(referrer);
        match self.resolve_text(&specifier, &referrer) {
            Some(target) => Some(string_of(&target)),
            None => None,
        }
    }
}

// ---------------------------------------------------------------------------
// Laws
// ---------------------------------------------------------------------------

/// The longest prefix wins. Where two keys of one set of entries match a
/// specifier, the shorter one does not decide: the key that decides is at
/// least as long as the longer one, and resolution within the entries
/// rewrites the specifier by that key.
pub proof fn law_longest_prefix_wins(
    entries: Map<Seq<char>, Seq<char>>,
    specifier: Seq<char>,
    shorter: Seq<char>,
    longer: Seq<char>,
)
    requires
        entries.dom().contains(shorter),
        entries.dom().contains(longer),
        key_matches(shorter, specifier),
        key_matches(longer, specifier),
        shorter.len() < longer.len(),
    ensures
        longest(false, entries.dom(), specifier) matches Some(key) && key != shorter && key.len()
            >= longer.len() && key_matches(key, specifier) && resolve_in(entries, specifier) == (
        if well_formed(rewritten(key, entries[key], specifier)) {
            Some(rewritten(key, entries[key], specifier))
        } else {
            None
        }),
{
    lemma_longest_exists(false, entries.dom(), specifier, longer);
}

/// Where the longer of two matching keys is itself the longest that matches,
/// resolution uses it.
pub proof fn law_longest_key_decides(
    entries: Map<Seq<char>, Seq<char>>,
    specifier: Seq<char>,
    key: Seq<char>,
)
    requires
        is_longest(false, entries.dom(), specifier, key),
        well_formed(rewritten(key, entries[key], specifier)),
    ensures
        resolve_in(entries, specifier) == Some(rewritten(key, entries[key], specifier)),
{
    lemma_longest_is(false, entries.dom(), specifier, key);
}

/// Scope precedence. For a referrer in a scope, an entry of the scope
/// overrides the top-level entry with the same key: the specifier resolves to
/// the scope's target, which is not the top-level one.
pub proof fn law_scope_overrides(
    map: ImportMapView,
    referrer: Seq<char>,
    prefix: Seq<char>,
    key: Seq<char>,
)
    requires
        map.valid(),
        map.active_scope(referrer) == Some(prefix),
        map.scopes.dom().contains(prefix),
        map.scopes[prefix].dom().contains(key),
        map.imports.dom().contains(key),
        well_formed(map.scopes[prefix][key]),
    ensures
        map.resolve(key, referrer) == Some(map.scopes[prefix][key]),
        map.resolve(key, referrer) != Some(map.imports[key]),
{
    let entries = map.scopes[prefix];
    assert(is_longest(false, entries.dom(), key, key)) by {
        assert forall|other: Seq<char>|
            entries.dom().contains(other) && #[trigger] applies(false, other, key) implies other.len()
            <= key.len() by {
            lemma_applies_prefix(false, other, key);
        }
    }
    lemma_longest_is(false, entries.dom(), key, key);
    assert(rewritten(key, entries[key], key) =~= entries[key]);
}

/// Without a scope that holds for the referrer, and without a top-level key
/// that matches, the map has nothing to say.
pub proof fn law_no_match(map: ImportMapView, specifier: Seq<char>, referrer: Seq<char>)
    requires
        map.active_scope(referrer) is None || longest(
            false,
            map.scopes[map.active_scope(referrer).unwrap()].dom(),
            specifier,
        ) is None,
        forall|key: Seq<char>|
            map.imports.dom().contains(key) ==> !#[trigger] key_matches(key, specifier),
    ensures
        map.resolve(specifier, referrer) is None,
{
    assert forall|key: Seq<char>| map.imports.dom().contains(key) implies !#[trigger] applies(
        false,
        key,
        specifier,
    ) by {
        assert(!key_matches(key, specifier));
    }
    lemma_longest_none(false, map.imports.dom(), specifier);
}

/// The order of a payload's entries is irrelevant: two lists of rules with
/// distinct keys that hold the same rules stand for the same entries.
pub proof fn law_order_is_irrelevant(one: Seq<Rule>, other: Seq<Rule>)
    requires
        keys_of(one).no_duplicates(),
        keys_of(other).no_duplicates(),
        forall|rule: Rule| one.contains(rule) <==> other.contains(rule),
    ensures
        rules_map(one) == rules_map(other),
{
    lemma_same_rules_same_entries(one, other);
    lemma_same_rules_same_entries(other, one);
    assert(rules_map(one) =~= rules_map(other));
}

/// What one list of rules says of a key, another list with the same rules
/// says too.
proof fn lemma_same_rules_same_entries(one: Seq<Rule>, other: Seq<Rule>)
    requires
        keys_of(other).no_duplicates(),
        forall|rule: Rule| one.contains(rule) <==> other.contains(rule),
    ensures
        forall|key: Seq<char>| #[trigger]
            rules_map(one).dom().contains(key) ==> rules_map(other).dom().contains(key)
                && rules_map(other)[key] == rules_map(one)[key],
{
    assert forall|key: Seq<char>| #[trigger]
        rules_map(one).dom().contains(key) implies rules_map(other).dom().contains(key)
        && rules_map(other)[key] == rules_map(one)[key] by {
        let i = keys_of(one).index_of(key);
        assert(keys_of(one)[i] == key);
        assert(one.contains(one[i]));
        let j = other.index_of(one[i]);
        assert(other[j] == one[i]);
        assert(keys_of(other)[j] == key);
        lemma_table_at(keys_of(other), targets_of(other), j);
    }
}

/// Whatever the map resolves a specifier to is a well-formed specifier.
pub proof fn law_results_are_well_formed(
    map: ImportMapView,
    specifier: Seq<char>,
    referrer: Seq<char>,
)
    ensures
        map.resolve(specifier, referrer) matches Some(target) ==> well_formed(target),
{
}

/// The empty import map resolves nothing.
pub proof fn law_empty_resolves_nothing(specifier: Seq<char>, referrer: Seq<char>)
    ensures
        ImportMapView::empty().resolve(specifier, referrer) is None,
{
    let map = ImportMapView::empty();
    lemma_longest_none(true, map.scopes.dom(), referrer);
    lemma_longest_none(false, map.imports.dom(), specifier);
}

} // verus!

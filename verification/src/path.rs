//! Kinds of specifiers, and paths: how a relative specifier is resolved
//! against the path of the module that holds it, and the form in which a
//! local path is handed to the runtime.

use crate::text::{append_from, chars_of, same_text, starts_with, string_of, texts};
use vstd::prelude::*;

verus! {

/// What a specifier names.
#[derive(Clone, Copy, Debug, PartialEq, Eq, Structural)]
pub enum SpecifierKind {
    /// A path relative to the referrer: it begins with `./` or `../`.
    Relative,
    /// A path from the root: it begins with `/`.
    Absolute,
    /// A fully qualified URL: a scheme, then `://`.
    Remote,
    /// Anything else, by convention the name of a package.
    Bare,
}

impl SpecifierKind {
    /// Whether specifiers of this kind name a file of the project.
    pub open spec fn is_local(self) -> bool {
        self is Relative || self is Absolute
    }

    /// Whether specifiers of this kind name a file of the project.
    #[verifier::when_used_as_spec(is_local)]
    pub fn local(self) -> (r: bool)
        ensures
            r == self.is_local(),
    {
        match self {
            SpecifierKind::Relative | SpecifierKind::Absolute => true,
            _ => false,
        }
    }
}

// ---------------------------------------------------------------------------
// Kinds
// ---------------------------------------------------------------------------

/// Whether a specifier begins with `./` or `../`.
pub open spec fn is_relative(specifier: Seq<char>) -> bool {
    "./"@.is_prefix_of(specifier) || "../"@.is_prefix_of(specifier)
}

/// Whether a specifier begins with a slash.
pub open spec fn is_absolute(specifier: Seq<char>) -> bool {
    specifier.len() > 0 && specifier[0] == '/'
}

/// Whether `c` is a letter of the ASCII alphabet.
pub open spec fn is_letter(c: char) -> bool {
    ('a' <= c && c <= 'z') || ('A' <= c && c <= 'Z')
}

/// Whether `c` may stand in a scheme after its first letter.
pub open spec fn is_scheme_char(c: char) -> bool {
    is_letter(c) || ('0' <= c && c <= '9') || c == '+' || c == '-' || c == '.'
}

/// Whether the first `n` characters of `specifier` are a scheme and `://`
/// follows them.
pub open spec fn has_scheme_of(specifier: Seq<char>, n: int) -> bool {
    &&& 0 < n
    &&& n + 3 <= specifier.len()
    &&& is_letter(specifier[0])
    &&& forall|i: int| 0 < i < n ==> is_scheme_char(#[trigger] specifier[i])
    &&& specifier[n] == ':'
    &&& specifier[n + 1] == '/'
    &&& specifier[n + 2] == '/'
}

/// Whether a specifier is a fully qualified URL.
pub open spec fn is_remote(specifier: Seq<char>) -> bool {
    exists|n: int| has_scheme_of(specifier, n)
}

/// The kind of a specifier.
pub open spec fn kind_of(specifier: Seq<char>) -> SpecifierKind {
    if is_relative(specifier) {
        SpecifierKind::Relative
    } else if is_absolute(specifier) {
        SpecifierKind::Absolute
    } else if is_remote(specifier) {
        SpecifierKind::Remote
    } else {
        SpecifierKind::Bare
    }
}

fn letter(c: char) -> (r: bool)
    ensures
        r == is_letter(c),
{
    ('a' <= c && c <= 'z') || ('A' <= c && c <= 'Z')
}

fn scheme_char(c: char) -> (r: bool)
    ensures
        r == is_scheme_char(c),
{
    letter(c) || ('0' <= c && c <= '9') || c == '+' || c == '-' || c == '.'
}

fn remote(specifier: &Vec<char>) -> (r: bool)
    ensures
        r == is_remote(specifier@),
{
    if specifier.len() == 0 || !letter(specifier[0]) {
        return false;
    }
    let mut n: usize = 1;
    while n < specifier.len() && scheme_char(specifier[n])
        invariant
            0 < n <= specifier.len(),
            forall|i: int| 0 < i < n ==> is_scheme_char(#[trigger] specifier@[i]),
        decreases specifier.len() - n,
    {
        n += 1;
    }
    let found = specifier.len() >= 3 && n <= specifier.len() - 3 && specifier[n] == ':'
        && specifier[n + 1] == '/' && specifier[n + 2] == '/';
    proof {
        if found {
            assert(has_scheme_of(specifier@, n as int));
        } else {
            assert forall|m: int| !has_scheme_of(specifier@, m) by {
                if has_scheme_of(specifier@, m) {
                    // The scheme ends at the first character that cannot stand in one.
                    if m < n {
                        assert(is_scheme_char(specifier@[m]));
                    } else if m > n {
                        assert(is_scheme_char(specifier@[n as int]));
                    }
                }
            }
        }
    }
    found
}

/// The kind of a specifier.
pub(crate) fn classify(specifier: &Vec<char>) -> (kind: SpecifierKind)
    ensures
        kind == kind_of(specifier@),
{
    let here = chars_of("./");
    let up = chars_of("../");
    if starts_with(specifier, &here) || starts_with(specifier, &up) {
        SpecifierKind::Relative
    } else if specifier.len() > 0 && specifier[0] == '/' {
        SpecifierKind::Absolute
    } else if remote(specifier) {
        SpecifierKind::Remote
    } else {
        SpecifierKind::Bare
    }
}

// ---------------------------------------------------------------------------
// Paths
// ---------------------------------------------------------------------------

/// What stands between the slashes of `path`; never empty.
pub open spec fn segments(path: Seq<char>) -> Seq<Seq<char>>
    decreases path.len(),
{
    if path.len() == 0 {
        seq![Seq::<char>::empty()]
    } else {
        let before = segments(path.drop_last());
        if path.last() == '/' {
            before.push(Seq::<char>::empty())
        } else {
            before.drop_last().push(before.last().push(path.last()))
        }
    }
}

/// Where one is after taking the step `segment` from the directory `at`:
/// an empty segment and `.` stay, `..` goes up but never above the root,
/// anything else goes down.
pub open spec fn step(at: Seq<Seq<char>>, segment: Seq<char>) -> Seq<Seq<char>> {
    if segment.len() == 0 || segment == "."@ {
        at
    } else if segment == ".."@ {
        if at.len() > 0 {
            at.drop_last()
        } else {
            at
        }
    } else {
        at.push(segment)
    }
}

/// Where one is after taking `steps` in turn from the directory `at`.
pub open spec fn walk(at: Seq<Seq<char>>, steps: Seq<Seq<char>>) -> Seq<Seq<char>>
    decreases steps.len(),
{
    if steps.len() == 0 {
        at
    } else {
        step(walk(at, steps.drop_last()), steps.last())
    }
}

/// The names of `at`, each behind a slash.
pub open spec fn joined(at: Seq<Seq<char>>) -> Seq<char>
    decreases at.len(),
{
    if at.len() == 0 {
        Seq::<char>::empty()
    } else {
        joined(at.drop_last()).push('/') + at.last()
    }
}

/// The path from the root to `at`.
pub open spec fn rooted(at: Seq<Seq<char>>) -> Seq<char> {
    if at.len() == 0 {
        seq!['/']
    } else {
        joined(at)
    }
}

/// The normalized path that a local specifier names in a module at
/// `referrer`: rooted, without empty, `.` or `..` segments. A relative
/// specifier starts from the directory of the referrer, an absolute one from
/// the root.
pub open spec fn normalized(referrer: Seq<char>, specifier: Seq<char>) -> Seq<char> {
    rooted(destination(referrer, specifier))
}

/// The names on the way from the root to what a local specifier names in a
/// module at `referrer`.
pub open spec fn destination(referrer: Seq<char>, specifier: Seq<char>) -> Seq<Seq<char>> {
    let base = if is_absolute(specifier) {
        Seq::<Seq<char>>::empty()
    } else {
        segments(referrer).drop_last()
    };
    walk(walk(Seq::<Seq<char>>::empty(), base), segments(specifier))
}

/// Whether a segment is a name: not empty, neither `.` nor `..`, and without
/// a slash.
pub open spec fn is_name(segment: Seq<char>) -> bool {
    segment.len() > 0 && segment != "."@ && segment != ".."@ && !segment.contains('/')
}

/// Whether every member of a list of segments is a name.
pub open spec fn all_names(at: Seq<Seq<char>>) -> bool {
    forall|i: int| 0 <= i < at.len() ==> is_name(#[trigger] at[i])
}

/// Whether no member of a list of segments holds a slash.
pub open spec fn slash_free(steps: Seq<Seq<char>>) -> bool {
    forall|i: int| 0 <= i < steps.len() ==> !(#[trigger] steps[i]).contains('/')
}

/// A path has at least one segment.
pub proof fn lemma_segments_nonempty(path: Seq<char>)
    ensures
        segments(path).len() >= 1,
    decreases path.len(),
{
    if path.len() > 0 {
        lemma_segments_nonempty(path.drop_last());
    }
}

/// Takes one step from the directory `at`.
fn take_step(at: &mut Vec<Vec<char>>, segment: Vec<char>)
    ensures
        texts(final(at)@) == step(texts(old(at)@), segment@),
{
    let dot = chars_of(".");
    let dots = chars_of("..");
    if segment.len() == 0 || same_text(&segment, &dot) {
    } else if same_text(&segment, &dots) {
        if at.len() > 0 {
            at.pop();
            assert(texts(at@) =~= texts(old(at)@).drop_last());
        }
    } else {
        at.push(segment);
        assert(texts(at@) =~= texts(old(at)@).push(segment@));
    }
}

/// Takes the steps that `path` spells, all of them or all but the last.
fn take_steps(at: &mut Vec<Vec<char>>, path: &Vec<char>, all: bool)
    ensures
        texts(final(at)@) == walk(
            texts(old(at)@),
            if all {
                segments(path@)
            } else {
                segments(path@).drop_last()
            },
        ),
{
    let mut current: Vec<char> = Vec::new();
    let mut i: usize = 0;
    assert(path@.take(0) =~= Seq::<char>::empty());
    assert(segments(path@.take(0)).drop_last() =~= Seq::<Seq<char>>::empty());
    while i < path.len()
        invariant
            i <= path.len(),
            current@ == segments(path@.take(i as int)).last(),
            texts(at@) == walk(texts(old(at)@), segments(path@.take(i as int)).drop_last()),
        decreases path.len() - i,
    {
        let ghost before = segments(path@.take(i as int));
        proof {
            lemma_segments_nonempty(path@.take(i as int));
            assert(path@.take(i + 1).drop_last() =~= path@.take(i as int));
        }
        if path[i] == '/' {
            let segment = current;
            current = Vec::new();
            take_step(at, segment);
            proof {
                assert(segments(path@.take(i + 1)) == before.push(Seq::<char>::empty()));
                assert(before.push(Seq::<char>::empty()).drop_last() =~= before);
            }
        } else {
            current.push(path[i]);
            proof {
                let after = before.drop_last().push(before.last().push(path@[i as int]));
                assert(segments(path@.take(i + 1)) == after);
                assert(after.drop_last() =~= before.drop_last());
            }
        }
        i += 1;
    }
    assert(path@.take(path@.len() as int) =~= path@);
    if all {
        proof {
            lemma_segments_nonempty(path@);
        }
        take_step(at, current);
    }
}

/// The path from the root to `at`.
fn path_to(at: &Vec<Vec<char>>) -> (path: Vec<char>)
    ensures
        path@ == rooted(texts(at@)),
{
    let mut path: Vec<char> = Vec::new();
    if at.len() == 0 {
        path.push('/');
        assert(path@ =~= seq!['/']);
        return path;
    }
    let mut i: usize = 0;
    assert(texts(at@).take(0) =~= Seq::<Seq<char>>::empty());
    while i < at.len()
        invariant
            i <= at.len(),
            path@ == joined(texts(at@).take(i as int)),
        decreases at.len() - i,
    {
        path.push('/');
        append_from(&mut path, &at[i], 0);
        proof {
            let upto = texts(at@).take(i + 1);
            assert(upto.drop_last() =~= texts(at@).take(i as int));
            assert(upto.last() == at[i as int]@);
            assert(at[i as int]@.skip(0) =~= at[i as int]@);
        }
        i += 1;
    }
    assert(texts(at@).take(at@.len() as int) =~= texts(at@));
    path
}

/// The normalized path that a local specifier names in a module at `referrer`.
pub(crate) fn normalize(referrer: &Vec<char>, specifier: &Vec<char>) -> (path: Vec<char>)
    ensures
        path@ == normalized(referrer@, specifier@),
{
    let mut at: Vec<Vec<char>> = Vec::new();
    assert(texts(at@) =~= Seq::<Seq<char>>::empty());
    if !(specifier.len() > 0 && specifier[0] == '/') {
        take_steps(&mut at, referrer, false);
    }
    take_steps(&mut at, specifier, true);
    path_to(&at)
}

// ---------------------------------------------------------------------------
// The form that the runtime expects
// ---------------------------------------------------------------------------

/// Whether `path` ends in `suffix`.
pub open spec fn ends_with(path: Seq<char>, suffix: Seq<char>) -> bool {
    suffix.len() <= path.len() && path.skip(path.len() - suffix.len()) == suffix
}

/// `path` with its last `suffix.len()` characters replaced by `.js`.
pub open spec fn as_script(path: Seq<char>, suffix: Seq<char>) -> Seq<char> {
    path.take(path.len() - suffix.len()) + ".js"@
}

/// Whether the last segment of `path` holds a dot.
pub open spec fn has_extension(path: Seq<char>) -> bool {
    exists|i: int|
        0 <= i < path.len() && #[trigger] path[i] == '.' && forall|j: int|
            i < j < path.len() ==> #[trigger] path[j] != '/'
}

/// The form in which a production runtime is handed a local path: with an
/// explicit extension, and `.js` in place of the extensions of source files.
pub open spec fn runtime_form(path: Seq<char>) -> Seq<char> {
    if ends_with(path, ".tsx"@) {
        as_script(path, ".tsx"@)
    } else if ends_with(path, ".jsx"@) {
        as_script(path, ".jsx"@)
    } else if ends_with(path, ".mjs"@) {
        as_script(path, ".mjs"@)
    } else if ends_with(path, ".ts"@) {
        as_script(path, ".ts"@)
    } else if has_extension(path) {
        path
    } else {
        path + ".js"@
    }
}

fn has_suffix(path: &Vec<char>, suffix: &Vec<char>) -> (r: bool)
    ensures
        r == ends_with(path@, suffix@),
{
    if suffix.len() > path.len() {
        return false;
    }
    let from = path.len() - suffix.len();
    let mut i: usize = 0;
    while i < suffix.len()
        invariant
            i <= suffix.len(),
            from + suffix.len() == path.len(),
            forall|j: int| 0 <= j < i ==> path@[from + j] == suffix@[j],
        decreases suffix.len() - i,
    {
        if path[from + i] != suffix[i] {
            assert(path@.skip(from as int)[i as int] != suffix@[i as int]);
            return false;
        }
        i += 1;
    }
    assert(path@.skip(from as int) =~= suffix@);
    true
}

fn extension(path: &Vec<char>) -> (r: bool)
    ensures
        r == has_extension(path@),
{
    let mut i: usize = path.len();
    while i > 0
        invariant
            i <= path.len(),
            forall|j: int| i <= j < path.len() ==> path@[j] != '/' && path@[j] != '.',
        decreases i,
    {
        i -= 1;
        if path[i] == '.' {
            return true;
        }
        if path[i] == '/' {
            assert forall|k: int| 0 <= k < path.len() && #[trigger] path@[k] == '.' implies !(forall|
                j: int,
            | k < j < path.len() ==> #[trigger] path@[j] != '/') by {
                assert(k < i);
                assert(path@[i as int] == '/');
            }
            return false;
        }
    }
    false
}

fn replace_suffix(path: &Vec<char>, suffix: &Vec<char>) -> (r: Vec<char>)
    requires
        suffix.len() <= path.len(),
    ensures
        r@ == as_script(path@, suffix@),
{
    let mut r: Vec<char> = Vec::new();
    let keep = path.len() - suffix.len();
    let mut i: usize = 0;
    while i < keep
        invariant
            i <= keep <= path.len(),
            r@ == path@.take(i as int),
        decreases keep - i,
    {
        r.push(path[i]);
        assert(path@.take(i + 1) == path@.take(i as int).push(path@[i as int]));
        i += 1;
    }
    let js = chars_of(".js");
    append_from(&mut r, &js, 0);
    assert(js@.skip(0) =~= js@);
    r
}

/// The form in which a production runtime is handed a local path.
pub(crate) fn for_runtime(path: &Vec<char>) -> (r: Vec<char>)
    ensures
        r@ == runtime_form(path@),
{
    let tsx = chars_of(".tsx");
    let jsx = chars_of(".jsx");
    let mjs = chars_of(".mjs");
    let ts = chars_of(".ts");
    if has_suffix(path, &tsx) {
        replace_suffix(path, &tsx)
    } else if has_suffix(path, &jsx) {
        replace_suffix(path, &jsx)
    } else if has_suffix(path, &mjs) {
        replace_suffix(path, &mjs)
    } else if has_suffix(path, &ts) {
        replace_suffix(path, &ts)
    } else {
        let mut r: Vec<char> = Vec::new();
        append_from(&mut r, path, 0);
        assert(path@.skip(0) =~= path@);
        if !extension(path) {
            let js = chars_of(".js");
            append_from(&mut r, &js, 0);
            assert(js@.skip(0) =~= js@);
        }
        r
    }
}

// ---------------------------------------------------------------------------
// On strings
// ---------------------------------------------------------------------------

/// The kind of a specifier.
pub fn kind(specifier: &str) -> (kind: SpecifierKind)
    ensures
        kind == kind_of(specifier@),
{
    classify(&chars_of(specifier))
}

/// The normalized path that a local specifier names in a module at
/// `referrer`.
pub fn resolve_path(referrer: &str, specifier: &str) -> (path: String)
    ensures
        path@ == normalized(referrer@, specifier@),
{
    string_of(&normalize(&chars_of(referrer), &chars_of(specifier)))
}

/// The form in which a production runtime is handed a local path.
pub fn runtime_path(path: &str) -> (r: String)
    ensures
        r@ == runtime_form(path@),
{
    string_of(&for_runtime(&chars_of(path)))
}

// ---------------------------------------------------------------------------
// Laws
// ---------------------------------------------------------------------------

/// No segment of a path holds a slash.
pub proof fn lemma_segments_slash_free(path: Seq<char>)
    ensures
        slash_free(segments(path)),
    decreases path.len(),
{
    if path.len() > 0 {
        lemma_segments_slash_free(path.drop_last());
        lemma_segments_nonempty(path.drop_last());
        let before = segments(path.drop_last());
        if path.last() != '/' {
            let grown = before.last().push(path.last());
            assert(!grown.contains('/')) by {
                if grown.contains('/') {
                    let i = choose|i: int| 0 <= i < grown.len() && grown[i] == '/';
                    assert(before.last()[i] == '/');
                    assert(before.last().contains('/'));
                }
            }
        }
    }
}

/// A path followed by a slash and a segment has the segments of the path,
/// and that segment.
pub proof fn lemma_segments_push(path: Seq<char>, segment: Seq<char>)
    requires
        !segment.contains('/'),
    ensures
        segments(path.push('/') + segment) == segments(path).push(segment),
    decreases segment.len(),
{
    let whole = path.push('/') + segment;
    if segment.len() == 0 {
        assert(whole =~= path.push('/'));
        assert(whole.drop_last() =~= path);
        assert(segment =~= Seq::<char>::empty());
    } else {
        let shorter = segment.drop_last();
        let c = segment.last();
        assert(!shorter.contains('/')) by {
            if shorter.contains('/') {
                let i = choose|i: int| 0 <= i < shorter.len() && shorter[i] == '/';
                assert(segment[i] == '/');
            }
        }
        assert(c != '/') by {
            assert(segment[segment.len() - 1] == c);
        }
        lemma_segments_push(path, shorter);
        assert(whole.drop_last() =~= path.push('/') + shorter);
        assert(whole.last() == c);
        let before = segments(path).push(shorter);
        assert(before.drop_last() =~= segments(path));
        assert(shorter.push(c) =~= segment);
    }
}

/// The segments of a joined list of names are the empty segment before the
/// first slash, and the names.
pub proof fn lemma_segments_of_joined(at: Seq<Seq<char>>)
    requires
        all_names(at),
    ensures
        segments(joined(at)) == seq![Seq::<char>::empty()] + at,
    decreases at.len(),
{
    if at.len() == 0 {
        assert(seq![Seq::<char>::empty()] + at =~= seq![Seq::<char>::empty()]);
    } else {
        lemma_segments_of_joined(at.drop_last());
        lemma_segments_push(joined(at.drop_last()), at.last());
        assert((seq![Seq::<char>::empty()] + at.drop_last()).push(at.last()) =~= seq![
            Seq::<char>::empty(),
        ] + at);
    }
}

/// A joined list that is not empty begins with a slash.
pub proof fn lemma_joined_is_rooted(at: Seq<Seq<char>>)
    requires
        at.len() > 0,
    ensures
        joined(at).len() > 0,
        joined(at)[0] == '/',
    decreases at.len(),
{
    let before = joined(at.drop_last());
    if at.len() > 1 {
        lemma_joined_is_rooted(at.drop_last());
        assert((before.push('/') + at.last())[0] == before[0]);
    } else {
        assert(before =~= Seq::<char>::empty());
        assert((before.push('/') + at.last())[0] == '/');
    }
}

/// Taking steps in two runs is taking them in one.
pub proof fn lemma_walk_in_two(at: Seq<Seq<char>>, first: Seq<Seq<char>>, then: Seq<Seq<char>>)
    ensures
        walk(at, first + then) == walk(walk(at, first), then),
    decreases then.len(),
{
    if then.len() == 0 {
        assert(first + then =~= first);
    } else {
        lemma_walk_in_two(at, first, then.drop_last());
        assert((first + then).drop_last() =~= first + then.drop_last());
        assert((first + then).last() == then.last());
    }
}

/// Steps that are names lead down, one name each.
pub proof fn lemma_walk_down(at: Seq<Seq<char>>, steps: Seq<Seq<char>>)
    requires
        all_names(steps),
    ensures
        walk(at, steps) == at + steps,
    decreases steps.len(),
{
    if steps.len() == 0 {
        assert(at + steps =~= at);
    } else {
        lemma_walk_down(at, steps.drop_last());
        assert(is_name(steps[steps.len() - 1]));
        assert((at + steps.drop_last()).push(steps.last()) =~= at + steps);
    }
}

/// Whatever the steps, one stays among names.
pub proof fn lemma_walk_stays_in_names(at: Seq<Seq<char>>, steps: Seq<Seq<char>>)
    requires
        all_names(at),
        slash_free(steps),
    ensures
        all_names(walk(at, steps)),
    decreases steps.len(),
{
    if steps.len() > 0 {
        lemma_walk_stays_in_names(at, steps.drop_last());
        assert(!steps[steps.len() - 1].contains('/'));
    }
}

/// A normalized path is the path from the root through names only.
pub proof fn law_normalized_holds_names_only(referrer: Seq<char>, specifier: Seq<char>)
    ensures
        all_names(destination(referrer, specifier)),
        normalized(referrer, specifier).len() > 0,
        normalized(referrer, specifier)[0] == '/',
{
    let base = if is_absolute(specifier) {
        Seq::<Seq<char>>::empty()
    } else {
        segments(referrer).drop_last()
    };
    lemma_segments_slash_free(referrer);
    lemma_segments_slash_free(specifier);
    assert(slash_free(base)) by {
        assert forall|i: int| 0 <= i < base.len() implies !(#[trigger] base[i]).contains('/') by {
            assert(base[i] == segments(referrer)[i]);
        }
    }
    lemma_walk_stays_in_names(Seq::<Seq<char>>::empty(), base);
    lemma_walk_stays_in_names(walk(Seq::<Seq<char>>::empty(), base), segments(specifier));
    if destination(referrer, specifier).len() > 0 {
        lemma_joined_is_rooted(destination(referrer, specifier));
    }
}

/// The path from the root through names is absolute, and names itself in
/// whatever module it stands.
pub proof fn lemma_rooted_names_are_stable(at: Seq<Seq<char>>, elsewhere: Seq<char>)
    requires
        all_names(at),
    ensures
        kind_of(rooted(at)) is Absolute,
        destination(elsewhere, rooted(at)) == at,
        normalized(elsewhere, rooted(at)) == rooted(at),
{
    let path = rooted(at);
    let none = Seq::<Seq<char>>::empty();
    let blank = seq![Seq::<char>::empty()];
    if at.len() > 0 {
        lemma_joined_is_rooted(at);
    }
    assert(!is_relative(path)) by {
        reveal_strlit("./");
        reveal_strlit("../");
        if "./"@.is_prefix_of(path) {
            assert(path[0] == "./"@.subrange(0, "./"@.len() as int)[0]);
        }
        if "../"@.is_prefix_of(path) {
            assert(path[0] == "../"@.subrange(0, "../"@.len() as int)[0]);
        }
    }
    assert(walk(none, blank) == none) by {
        assert(blank.drop_last() =~= none);
        assert(walk(none, blank.drop_last()) == none);
        assert(blank.last().len() == 0);
    }
    if at.len() == 0 {
        assert(segments(path) == blank.push(Seq::<char>::empty())) by {
            assert(path.drop_last() =~= Seq::<char>::empty());
            assert(segments(Seq::<char>::empty()) == blank);
        }
        assert(blank.push(Seq::<char>::empty()) =~= blank + blank);
        lemma_walk_in_two(none, blank, blank);
    } else {
        lemma_segments_of_joined(at);
        lemma_walk_in_two(none, blank, at);
        lemma_walk_down(none, at);
        assert(none + at =~= at);
    }
}

/// Normalizing is stable: a normalized path names itself, in whatever module
/// it stands.
pub proof fn law_normalized_is_stable(
    referrer: Seq<char>,
    specifier: Seq<char>,
    elsewhere: Seq<char>,
)
    ensures
        kind_of(normalized(referrer, specifier)) is Absolute,
        normalized(elsewhere, normalized(referrer, specifier)) == normalized(referrer, specifier),
{
    law_normalized_holds_names_only(referrer, specifier);
    lemma_rooted_names_are_stable(destination(referrer, specifier), elsewhere);
}

/// Replacing what follows the stem of the last name by `ending` leaves a
/// path through names.
proof fn lemma_new_ending_keeps_names(at: Seq<Seq<char>>, cut: int, ending: Seq<char>) -> (form:
    Seq<Seq<char>>)
    requires
        all_names(at),
        at.len() > 0,
        0 <= cut <= at.last().len(),
        ending.len() >= 3,
        !ending.contains('/'),
    ensures
        all_names(form),
        form.len() > 0,
        joined(form) == joined(at).take(joined(at).len() - cut) + ending,
{
    reveal_strlit(".");
    reveal_strlit("..");
    let head = at.drop_last();
    let last = at.last();
    let stem = last.take(last.len() - cut);
    let name = stem + ending;
    let form = head.push(name);
    let before = joined(head).push('/');
    assert(is_name(last));
    assert(!name.contains('/')) by {
        if name.contains('/') {
            let i = choose|i: int| 0 <= i < name.len() && name[i] == '/';
            if i < stem.len() {
                assert(last[i] == '/');
            } else {
                assert(ending[i - stem.len()] == '/');
            }
        }
    }
    assert(is_name(name));
    assert forall|i: int| 0 <= i < form.len() implies is_name(#[trigger] form[i]) by {
        if i < head.len() {
            assert(form[i] == at[i]);
        }
    }
    assert(form.drop_last() =~= head);
    assert(joined(form) == before + name);
    assert(joined(at) == before + last);
    assert((before + last).take((before + last).len() - cut) =~= before + stem);
    assert(before + name =~= (before + stem) + ending);
    form
}

/// A path through names that ends in `suffix` has it in its last name.
proof fn lemma_suffix_lies_in_last_name(at: Seq<Seq<char>>, suffix: Seq<char>)
    requires
        all_names(at),
        at.len() > 0,
        ends_with(joined(at), suffix),
        !suffix.contains('/'),
    ensures
        suffix.len() <= at.last().len(),
{
    let path = joined(at);
    let last = at.last();
    let before = joined(at.drop_last()).push('/');
    assert(path == before + last);
    if suffix.len() > last.len() {
        let j = suffix.len() - last.len() - 1;
        assert(path.skip(path.len() - suffix.len())[j] == path[before.len() - 1]);
        assert(path[before.len() - 1] == '/');
        assert(suffix[j] == '/');
    }
}

/// The runtime form of a path from the root through names is again one.
pub proof fn lemma_runtime_form_keeps_names(at: Seq<Seq<char>>) -> (form: Seq<Seq<char>>)
    requires
        all_names(at),
    ensures
        all_names(form),
        runtime_form(rooted(at)) == rooted(form),
{
    reveal_strlit(".tsx");
    reveal_strlit(".jsx");
    reveal_strlit(".mjs");
    reveal_strlit(".ts");
    reveal_strlit(".js");
    reveal_strlit(".");
    reveal_strlit("..");
    let js = ".js"@;
    let path = rooted(at);
    assert(!js.contains('/')) by {
        if js.contains('/') {
            let i = choose|i: int| 0 <= i < js.len() && js[i] == '/';
            assert(js[i] != '/');
        }
    }
    if at.len() == 0 {
        let form = seq![js];
        assert(!has_extension(path));
        assert(form.drop_last() =~= Seq::<Seq<char>>::empty());
        assert(joined(form.drop_last()) =~= Seq::<char>::empty());
        assert(joined(form) =~= path + js);
        assert(is_name(js));
        form
    } else if ends_with(path, ".tsx"@) {
        assert(!".tsx"@.contains('/')) by {
            if ".tsx"@.contains('/') {
                let i = choose|i: int| 0 <= i < ".tsx"@.len() && ".tsx"@[i] == '/';
                assert(".tsx"@[i] != '/');
            }
        }
        lemma_suffix_lies_in_last_name(at, ".tsx"@);
        lemma_new_ending_keeps_names(at, 4, js)
    } else if ends_with(path, ".jsx"@) {
        assert(!".jsx"@.contains('/')) by {
            if ".jsx"@.contains('/') {
                let i = choose|i: int| 0 <= i < ".jsx"@.len() && ".jsx"@[i] == '/';
                assert(".jsx"@[i] != '/');
            }
        }
        lemma_suffix_lies_in_last_name(at, ".jsx"@);
        lemma_new_ending_keeps_names(at, 4, js)
    } else if ends_with(path, ".mjs"@) {
        assert(!".mjs"@.contains('/')) by {
            if ".mjs"@.contains('/') {
                let i = choose|i: int| 0 <= i < ".mjs"@.len() && ".mjs"@[i] == '/';
                assert(".mjs"@[i] != '/');
            }
        }
        lemma_suffix_lies_in_last_name(at, ".mjs"@);
        lemma_new_ending_keeps_names(at, 4, js)
    } else if ends_with(path, ".ts"@) {
        assert(!".ts"@.contains('/')) by {
            if ".ts"@.contains('/') {
                let i = choose|i: int| 0 <= i < ".ts"@.len() && ".ts"@[i] == '/';
                assert(".ts"@[i] != '/');
            }
        }
        lemma_suffix_lies_in_last_name(at, ".ts"@);
        lemma_new_ending_keeps_names(at, 3, js)
    } else if has_extension(path) {
        at
    } else {
        let form = lemma_new_ending_keeps_names(at, 0, js);
        assert(path.take(path.len() as int) =~= path);
        form
    }
}

/// The runtime form is stable: a path in that form is left as it is.
pub proof fn law_runtime_form_is_stable(path: Seq<char>)
    ensures
        runtime_form(runtime_form(path)) == runtime_form(path),
{
    reveal_strlit(".tsx");
    reveal_strlit(".jsx");
    reveal_strlit(".mjs");
    reveal_strlit(".ts");
    reveal_strlit(".js");
    let form = runtime_form(path);
    let n = form.len() as int;
    if !ends_with(path, ".tsx"@) && !ends_with(path, ".jsx"@) && !ends_with(path, ".mjs"@)
        && !ends_with(path, ".ts"@) && has_extension(path) {
    } else {
        // The form ends in `.js`, whichever way it was made.
        assert(n >= 3 && form[n - 3] == '.' && form[n - 2] == 'j' && form[n - 1] == 's');
        assert(!ends_with(form, ".tsx"@)) by {
            if ends_with(form, ".tsx"@) {
                assert(form.skip(n - 4)[3] == 'x');
            }
        }
        assert(!ends_with(form, ".jsx"@)) by {
            if ends_with(form, ".jsx"@) {
                assert(form.skip(n - 4)[3] == 'x');
            }
        }
        assert(!ends_with(form, ".mjs"@)) by {
            if ends_with(form, ".mjs"@) {
                assert(form.skip(n - 4)[1] == 'm');
            }
        }
        assert(!ends_with(form, ".ts"@)) by {
            if ends_with(form, ".ts"@) {
                assert(form.skip(n - 3)[1] == 't');
            }
        }
        assert(has_extension(form)) by {
            assert(form[n - 3] == '.');
            assert forall|j: int| n - 3 < j < n implies #[trigger] form[j] != '/' by {}
        }
    }
}

} // verus!

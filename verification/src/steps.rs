//! The queue runner's decisions about steps: what a ready step asks of a
//! machine, how long it may run, where its log goes, and how the results of
//! creating, building and failing steps are combined.

use vstd::prelude::*;

use crate::resolve::opt_view;
use crate::text::{chars_of, concat, split, split_chars, str_equal, string_from_chars};

verus! {

// ---------------------------------------------------------------------------
// Required system features
// ---------------------------------------------------------------------------

/// The pieces that are not empty, in order.
pub open spec fn nonempty_pieces(pieces: Seq<Seq<char>>) -> Seq<Seq<char>>
    decreases pieces.len(),
{
    if pieces.len() == 0 {
        Seq::empty()
    } else {
        let rest = nonempty_pieces(pieces.drop_last());
        if pieces.last().len() > 0 {
            rest.push(pieces.last())
        } else {
            rest
        }
    }
}

/// The features that a `requiredSystemFeatures` value lists: its pieces
/// between spaces, the empty ones left out.
pub open spec fn required_features(value: Seq<char>) -> Seq<Seq<char>> {
    nonempty_pieces(split(value, ' '))
}

/// The features that a `requiredSystemFeatures` value lists, in order.
pub fn parse_required_features(value: &str) -> (r: Vec<String>)
    ensures
        r@.len() == required_features(value@).len(),
        forall|i: int| 0 <= i < r@.len() ==> #[trigger] r@[i]@ == required_features(value@)[i],
{
    let chars = chars_of(value);
    let pieces = split_chars(chars.as_slice(), ' ');
    let ghost spieces = split(value@, ' ');
    let mut r: Vec<String> = Vec::new();
    let mut i: usize = 0;
    proof {
        assert(spieces.take(0) =~= Seq::<Seq<char>>::empty());
    }
    while i < pieces.len()
        invariant
            spieces == split(value@, ' '),
            pieces@.len() == spieces.len(),
            forall|k: int| 0 <= k < pieces@.len() ==> #[trigger] pieces@[k]@ == spieces[k],
            i <= pieces@.len(),
            r@.len() == nonempty_pieces(spieces.take(i as int)).len(),
            forall|k: int|
                0 <= k < r@.len() ==> #[trigger] r@[k]@ == nonempty_pieces(spieces.take(i as int))[k],
        decreases pieces.len() - i,
    {
        let piece = &pieces[i];
        proof {
            assert(spieces.take(i + 1).drop_last() =~= spieces.take(i as int));
            assert(spieces.take(i + 1).last() == piece@);
        }
        if piece.len() > 0 {
            r.push(string_from_chars(piece.as_slice()));
        }
        i = i + 1;
    }
    proof {
        assert(spieces.take(pieces@.len() as int) =~= spieces);
    }
    r
}

// ---------------------------------------------------------------------------
// The builds that wait for a step
// ---------------------------------------------------------------------------

/// A build that depends on a step, with its limits as the database holds
/// them.
#[derive(Debug, Clone, PartialEq, Eq)]
pub struct DependentBuild {
    pub id: i32,
    pub drvpath: String,
    /// Seconds without output before the build is killed.
    pub maxsilent: Option<i32>,
    /// Seconds the build may take.
    pub timeout: Option<i32>,
}

/// The silence limit of a build when it has none: an hour.
pub const DEFAULT_MAX_SILENT_TIME: i32 = 3600;

/// The time limit of a build when it has none: ten hours.
pub const DEFAULT_BUILD_TIMEOUT: i32 = 36000;

/// The silence limit of a build, the default standing in for a missing one.
pub open spec fn max_silent_of(b: DependentBuild) -> int {
    match b.maxsilent {
        Some(v) => v as int,
        None => DEFAULT_MAX_SILENT_TIME as int,
    }
}

/// The time limit of a build, the default standing in for a missing one.
pub open spec fn timeout_of(b: DependentBuild) -> int {
    match b.timeout {
        Some(v) => v as int,
        None => DEFAULT_BUILD_TIMEOUT as int,
    }
}

/// The largest value of `f` over the builds, `None` when there are none.
pub open spec fn largest(builds: Seq<DependentBuild>, f: spec_fn(DependentBuild) -> int) -> Option<
    int,
>
    decreases builds.len(),
{
    if builds.len() == 0 {
        None
    } else {
        match largest(builds.drop_last(), f) {
            Some(m) => Some(
                if f(builds.last()) > m {
                    f(builds.last())
                } else {
                    m
                },
            ),
            None => Some(f(builds.last())),
        }
    }
}

/// A value that stands for `None`.
pub open spec fn or_default(v: Option<int>, default: int) -> int {
    match v {
        Some(x) => x,
        None => default,
    }
}

/// The limits under which a step is built: the largest silence limit and the
/// largest time limit of the builds that wait for it, each with its default
/// when no build waits.
pub fn build_limits(dependents: &[DependentBuild]) -> (r: (i32, i32))
    ensures
        r.0 == or_default(
            largest(dependents@, |b: DependentBuild| max_silent_of(b)),
            DEFAULT_MAX_SILENT_TIME as int,
        ),
        r.1 == or_default(
            largest(dependents@, |b: DependentBuild| timeout_of(b)),
            DEFAULT_BUILD_TIMEOUT as int,
        ),
{
    let ghost fs = |b: DependentBuild| max_silent_of(b);
    let ghost ft = |b: DependentBuild| timeout_of(b);
    let mut silent: Option<i32> = None;
    let mut timeout: Option<i32> = None;
    let mut i: usize = 0;
    proof {
        assert(dependents@.take(0) =~= Seq::<DependentBuild>::empty());
    }
    while i < dependents.len()
        invariant
            fs == (|b: DependentBuild| max_silent_of(b)),
            ft == (|b: DependentBuild| timeout_of(b)),
            i <= dependents@.len(),
            largest(dependents@.take(i as int), fs) == match silent {
                Some(v) => Some(v as int),
                None => None::<int>,
            },
            largest(dependents@.take(i as int), ft) == match timeout {
                Some(v) => Some(v as int),
                None => None::<int>,
            },
        decreases dependents.len() - i,
    {
        let b = &dependents[i];
        proof {
            assert(dependents@.take(i + 1).drop_last() =~= dependents@.take(i as int));
            assert(dependents@.take(i + 1).last() == *b);
        }
        let s = match b.maxsilent {
            Some(v) => v,
            None => DEFAULT_MAX_SILENT_TIME,
        };
        let t = match b.timeout {
            Some(v) => v,
            None => DEFAULT_BUILD_TIMEOUT,
        };
        silent = match silent {
            Some(m) => Some(
                if s > m {
                    s
                } else {
                    m
                },
            ),
            None => Some(s),
        };
        timeout = match timeout {
            Some(m) => Some(
                if t > m {
                    t
                } else {
                    m
                },
            ),
            None => Some(t),
        };
        i = i + 1;
    }
    proof {
        assert(dependents@.take(dependents@.len() as int) =~= dependents@);
    }
    let s = match silent {
        Some(v) => v,
        None => DEFAULT_MAX_SILENT_TIME,
    };
    let t = match timeout {
        Some(v) => v,
        None => DEFAULT_BUILD_TIMEOUT,
    };
    (s, t)
}

/// The build on whose behalf a step runs: the first waiting build of the
/// step's own derivation, else the first waiting build; `None` when no build
/// waits.
pub fn representative_build(dependents: &[DependentBuild], drv_path: &str) -> (r: Option<usize>)
    ensures
        dependents@.len() == 0 <==> r is None,
        r matches Some(i) ==> i < dependents@.len(),
        r matches Some(i) ==> (forall|j: int| 0 <= j < i ==> #[trigger] dependents@[j].drvpath@ != drv_path@),
        r matches Some(i) ==> (dependents@[i as int].drvpath@ == drv_path@ || (i == 0 && forall|j: int|
            0 <= j < dependents@.len() ==> #[trigger] dependents@[j].drvpath@ != drv_path@)),
{
    let mut i: usize = 0;
    while i < dependents.len()
        invariant
            i <= dependents@.len(),
            forall|j: int| 0 <= j < i ==> #[trigger] dependents@[j].drvpath@ != drv_path@,
        decreases dependents.len() - i,
    {
        if str_equal(dependents[i].drvpath.as_str(), drv_path) {
            return Some(i);
        }
        i = i + 1;
    }
    if dependents.len() == 0 {
        None
    } else {
        Some(0)
    }
}

// ---------------------------------------------------------------------------
// Log files
// ---------------------------------------------------------------------------

/// The number of bytes that UTF-8 takes for `c`.
pub open spec fn utf8_len(c: char) -> nat {
    if (c as u32) < 0x80 {
        1
    } else if (c as u32) < 0x800 {
        2
    } else if (c as u32) < 0x10000 {
        3
    } else {
        4
    }
}

/// The number of characters in the first two bytes of `s`, when a character
/// ends there.
pub open spec fn two_byte_prefix(s: Seq<char>) -> Option<nat> {
    if s.len() >= 1 && utf8_len(s[0]) == 2 {
        Some(1)
    } else if s.len() >= 2 && utf8_len(s[0]) == 1 && utf8_len(s[1]) == 1 {
        Some(2)
    } else {
        None
    }
}

/// The two parts of a log file's path below the log directory for a store
/// path's base name: a directory named by its first two bytes, with a slash,
/// and a file named by the rest.
pub fn log_file_parts(base: &str) -> (r: (String, String))
    requires
        two_byte_prefix(base@) is Some,
    ensures
        r.0@ == base@.take(two_byte_prefix(base@)->0 as int).push('/'),
        r.1@ == base@.skip(two_byte_prefix(base@)->0 as int),
{
    let chars = chars_of(base);
    let k: usize = if (chars[0] as u32) >= 0x80 {
        1
    } else {
        2
    };
    let mut dir: Vec<char> = Vec::new();
    let mut i: usize = 0;
    while i < k
        invariant
            chars@ == base@,
            k <= chars@.len(),
            i <= k,
            dir@ == chars@.take(i as int),
        decreases k - i,
    {
        dir.push(chars[i]);
        proof {
            assert(chars@.take(i + 1) =~= chars@.take(i as int).push(chars@[i as int]));
        }
        i = i + 1;
    }
    dir.push('/');
    let file = string_from_chars(&chars.as_slice()[k..chars.len()]);
    (string_from_chars(dir.as_slice()), file)
}

// ---------------------------------------------------------------------------
// Outputs of a finished step
// ---------------------------------------------------------------------------

/// The path stored under `name`: that of the first output with that name.
pub open spec fn lookup_output(outputs: Seq<(String, String)>, name: Seq<char>) -> Option<Seq<char>>
    decreases outputs.len(),
{
    if outputs.len() == 0 {
        None
    } else if outputs[0].0@ == name {
        Some(outputs[0].1@)
    } else {
        lookup_output(outputs.drop_first(), name)
    }
}

/// The first output whose expected path is known and differs from the path
/// that the builder reported for it: its name, the expected path and the
/// reported one.
pub open spec fn first_mismatch(
    expected: Seq<(String, Option<String>)>,
    actual: Seq<(String, String)>,
) -> Option<(Seq<char>, Seq<char>, Seq<char>)>
    decreases expected.len(),
{
    if expected.len() == 0 {
        None
    } else {
        let (name, want) = expected[0];
        match want {
            Some(p) => match lookup_output(actual, name@) {
                Some(a) => if a != p@ {
                    Some((name@, p@, a))
                } else {
                    first_mismatch(expected.drop_first(), actual)
                },
                None => first_mismatch(expected.drop_first(), actual),
            },
            None => first_mismatch(expected.drop_first(), actual),
        }
    }
}

/// The builder's report agrees with an expected output: its path is not
/// known, or the builder did not report it, or reported it at that path.
pub open spec fn output_agrees(expected: (String, Option<String>), actual: Seq<(String, String)>) -> bool {
    match expected.1 {
        Some(p) => match lookup_output(actual, expected.0@) {
            Some(a) => a == p@,
            None => true,
        },
        None => true,
    }
}

/// The first mismatch is the one at the first expected output that the
/// report disagrees with: there is none exactly when the report agrees with
/// every expected output.
pub proof fn lemma_no_mismatch_iff_all_agree(
    expected: Seq<(String, Option<String>)>,
    actual: Seq<(String, String)>,
)
    ensures
        first_mismatch(expected, actual) is None <==> (forall|i: int|
            0 <= i < expected.len() ==> output_agrees(#[trigger] expected[i], actual)),
    decreases expected.len(),
{
    if expected.len() > 0 {
        let rest = expected.drop_first();
        lemma_no_mismatch_iff_all_agree(rest, actual);
        assert forall|i: int| 0 <= i < rest.len() implies rest[i] == expected[i + 1] by {}
        if output_agrees(expected[0], actual) {
            if first_mismatch(rest, actual) is None {
                assert forall|i: int| 0 <= i < expected.len() implies output_agrees(
                    #[trigger] expected[i],
                    actual,
                ) by {
                    if i > 0 {
                        assert(output_agrees(rest[i - 1], actual));
                    }
                }
            } else {
                let k = choose|k: int| 0 <= k < rest.len() && !output_agrees(#[trigger] rest[k], actual);
                assert(!output_agrees(expected[k + 1], actual));
            }
        }
    }
}

/// A mismatch that is found names the first expected output that the report
/// disagrees with, the path that was expected of it and the path that was
/// reported, and the two differ.
pub proof fn lemma_mismatch_is_first_disagreement(
    expected: Seq<(String, Option<String>)>,
    actual: Seq<(String, String)>,
    name: Seq<char>,
    want: Seq<char>,
    got: Seq<char>,
)
    requires
        first_mismatch(expected, actual) == Some((name, want, got)),
    ensures
        exists|i: int|
            0 <= i < expected.len() && !output_agrees(#[trigger] expected[i], actual) && (forall|
                j: int,
            | 0 <= j < i ==> output_agrees(#[trigger] expected[j], actual)) && expected[i].0@
                == name && opt_view(expected[i].1) == Some(want) && lookup_output(actual, name)
                == Some(got) && got != want,
    decreases expected.len(),
{
    let rest = expected.drop_first();
    assert forall|i: int| 0 <= i < rest.len() implies rest[i] == expected[i + 1] by {}
    if output_agrees(expected[0], actual) {
        assert(first_mismatch(expected, actual) == first_mismatch(rest, actual));
        lemma_mismatch_is_first_disagreement(rest, actual, name, want, got);
        let i = choose|i: int|
            0 <= i < rest.len() && !output_agrees(#[trigger] rest[i], actual) && (forall|j: int|
                0 <= j < i ==> output_agrees(#[trigger] rest[j], actual)) && rest[i].0@ == name
                && opt_view(rest[i].1) == Some(want) && lookup_output(actual, name) == Some(got)
                && got != want;
        assert(!output_agrees(expected[i + 1], actual));
        assert forall|j: int| 0 <= j < i + 1 implies output_agrees(#[trigger] expected[j], actual) by {
            if j > 0 {
                assert(output_agrees(rest[j - 1], actual));
            }
        }
        assert(expected[i + 1] == rest[i]);
    } else {
        assert(!output_agrees(expected[0], actual));
    }
}

/// An output that a builder reported at another path than its derivation
/// gives.
#[derive(Debug, Clone, PartialEq, Eq)]
pub struct OutputMismatch {
    pub name: String,
    pub expected: String,
    pub actual: String,
}

impl OutputMismatch {
    /// The description of the mismatch, for the step of `drv_path`.
    pub fn message(&self, drv_path: &str) -> (m: String)
        ensures
            m@ == "output path mismatch for output `"@ + self.name@ + "` of "@ + drv_path@
                + ": expected "@ + self.expected@ + ", got "@ + self.actual@,
    {
        let m = concat("output path mismatch for output `", self.name.as_str());
        let m = concat(m.as_str(), "` of ");
        let m = concat(m.as_str(), drv_path);
        let m = concat(m.as_str(), ": expected ");
        let m = concat(m.as_str(), self.expected.as_str());
        let m = concat(m.as_str(), ", got ");
        concat(m.as_str(), self.actual.as_str())
    }
}

/// The path reported for `name`, if any.
fn find_output(actual: &[(String, String)], name: &str) -> (r: Option<String>)
    ensures
        match r {
            Some(a) => lookup_output(actual@, name@) == Some(a@),
            None => lookup_output(actual@, name@) is None,
        },
{
    let mut i: usize = 0;
    proof {
        assert(actual@.skip(0) =~= actual@);
    }
    while i < actual.len()
        invariant
            i <= actual@.len(),
            lookup_output(actual@, name@) == lookup_output(actual@.skip(i as int), name@),
        decreases actual.len() - i,
    {
        proof {
            assert(actual@.skip(i as int).drop_first() =~= actual@.skip(i + 1));
        }
        if str_equal(actual[i].0.as_str(), name) {
            return Some(actual[i].1.clone());
        }
        i = i + 1;
    }
    None
}

/// Checks the outputs that a builder reported against those that the
/// derivation gives: every output whose path is known and that the builder
/// reported must be at that path. The first that is not, in the order of
/// `expected`, is the error.
pub fn check_output_paths(expected: &[(String, Option<String>)], actual: &[(String, String)]) -> (r:
    Result<(), OutputMismatch>)
    ensures
        match r {
            Ok(()) => first_mismatch(expected@, actual@) is None,
            Err(m) => first_mismatch(expected@, actual@) == Some((m.name@, m.expected@, m.actual@)),
        },
        r is Ok <==> forall|i: int|
            0 <= i < expected@.len() ==> output_agrees(#[trigger] expected@[i], actual@),
        r matches Err(m) ==> exists|i: int|
            0 <= i < expected@.len() && !output_agrees(#[trigger] expected@[i], actual@) && (forall|
                j: int,
            | 0 <= j < i ==> output_agrees(#[trigger] expected@[j], actual@)) && expected@[i].0@
                == m.name@ && opt_view(expected@[i].1) == Some(m.expected@) && lookup_output(
                actual@,
                m.name@,
            ) == Some(m.actual@) && m.actual@ != m.expected@,
{
    proof {
        lemma_no_mismatch_iff_all_agree(expected@, actual@);
    }
    let mut i: usize = 0;
    proof {
        assert(expected@.skip(0) =~= expected@);
    }
    while i < expected.len()
        invariant
            i <= expected@.len(),
            first_mismatch(expected@, actual@) == first_mismatch(expected@.skip(i as int), actual@),
        decreases expected.len() - i,
    {
        proof {
            assert(expected@.skip(i as int).drop_first() =~= expected@.skip(i + 1));
            assert(expected@.skip(i as int)[0] == expected@[i as int]);
        }
        let (name, want) = &expected[i];
        match want {
            Some(p) => {
                match find_output(actual, name.as_str()) {
                    Some(a) => {
                        if !str_equal(a.as_str(), p.as_str()) {
                            proof {
                                let fm = first_mismatch(expected@, actual@);
                                assert(fm == Some((name@, p@, a@)));
                                lemma_mismatch_is_first_disagreement(
                                    expected@,
                                    actual@,
                                    name@,
                                    p@,
                                    a@,
                                );
                            }
                            return Err(
                                OutputMismatch { name: name.clone(), expected: p.clone(), actual: a },
                            );
                        }
                    },
                    None => {},
                }
            },
            None => {},
        }
        i = i + 1;
    }
    Ok(())
}

/// Whether a build that a finished step completes counts as cached: unless
/// the step was run for it and did run.
pub fn marks_cached(owning_build_id: Option<i32>, build_id: i32, step_cached: bool) -> (r: bool)
    ensures
        r == (owning_build_id != Some(build_id) || step_cached),
{
    match owning_build_id {
        Some(id) => id != build_id || step_cached,
        None => true,
    }
}

// ---------------------------------------------------------------------------
// Deduplicating builds
// ---------------------------------------------------------------------------

/// A `hashbrown::HashSet` of build ids.
#[verifier::external_body]
pub struct IdSet {
    set: hashbrown::HashSet<i32>,
}

/// The ids that an `IdSet` holds.
pub uninterp spec fn id_set_contents(s: IdSet) -> Set<i32>;

/// `hashbrown::HashSet::new`: no ids.
#[verifier::external_body]
fn id_set_new() -> (s: IdSet)
    ensures
        id_set_contents(s) == Set::<i32>::empty(),
{
    IdSet { set: hashbrown::HashSet::new() }
}

/// `hashbrown::HashSet::insert`: adds `id`, and says whether it was new.
#[verifier::external_body]
fn id_set_insert(s: &mut IdSet, id: i32) -> (added: bool)
    ensures
        id_set_contents(*final(s)) == id_set_contents(*old(s)).insert(id),
        added == !id_set_contents(*old(s)).contains(id),
{
    s.set.insert(id)
}

/// The ids in order, each at its first occurrence only.
pub open spec fn first_occurrences(ids: Seq<i32>) -> Seq<i32>
    decreases ids.len(),
{
    if ids.len() == 0 {
        Seq::empty()
    } else {
        let rest = first_occurrences(ids.drop_last());
        if rest.contains(ids.last()) {
            rest
        } else {
            rest.push(ids.last())
        }
    }
}

proof fn lemma_first_occurrences_members(ids: Seq<i32>)
    ensures
        forall|x: i32| first_occurrences(ids).contains(x) <==> ids.contains(x),
    decreases ids.len(),
{
    if ids.len() > 0 {
        let d = ids.drop_last();
        lemma_first_occurrences_members(d);
        let rest = first_occurrences(d);
        assert forall|x: i32| ids.contains(x) <==> (d.contains(x) || x == ids.last()) by {
            if d.contains(x) {
                let k = choose|k: int| 0 <= k < d.len() && d[k] == x;
                assert(ids[k] == x);
            }
            if x == ids.last() {
                assert(ids[ids.len() - 1] == x);
            }
            if ids.contains(x) {
                let k = choose|k: int| 0 <= k < ids.len() && ids[k] == x;
                if k < ids.len() - 1 {
                    assert(d[k] == x);
                }
            }
        }
        assert forall|x: i32| first_occurrences(ids).contains(x) <==> (rest.contains(x) || x
            == ids.last()) by {
            if !rest.contains(ids.last()) {
                let p = rest.push(ids.last());
                if rest.contains(x) {
                    let k = choose|k: int| 0 <= k < rest.len() && rest[k] == x;
                    assert(p[k] == x);
                }
                if x == ids.last() {
                    assert(p[rest.len() as int] == x);
                }
                if p.contains(x) {
                    let k = choose|k: int| 0 <= k < p.len() && p[k] == x;
                    if k < rest.len() {
                        assert(rest[k] == x);
                    }
                }
            }
        }
    }
}

/// The builds' ids with repeats left out: each id where it first occurs.
pub fn dedup_build_ids(ids: &[i32]) -> (r: Vec<i32>)
    ensures
        r@ == first_occurrences(ids@),
{
    let mut seen = id_set_new();
    let mut r: Vec<i32> = Vec::new();
    let mut i: usize = 0;
    proof {
        assert(ids@.take(0) =~= Seq::<i32>::empty());
    }
    while i < ids.len()
        invariant
            i <= ids@.len(),
            r@ == first_occurrences(ids@.take(i as int)),
            forall|x: i32| id_set_contents(seen).contains(x) <==> ids@.take(i as int).contains(x),
        decreases ids.len() - i,
    {
        let id = ids[i];
        proof {
            assert(ids@.take(i + 1).drop_last() =~= ids@.take(i as int));
            assert(ids@.take(i + 1).last() == id);
            lemma_first_occurrences_members(ids@.take(i as int));
            lemma_first_occurrences_members(ids@.take(i + 1));
        }
        let added = id_set_insert(&mut seen, id);
        if added {
            r.push(id);
        }
        proof {
            assert forall|x: i32| id_set_contents(seen).contains(x) <==> ids@.take(i + 1).contains(
                x,
            ) by {
                let t = ids@.take(i + 1);
                if x == id {
                    assert(t[i as int] == id);
                }
                if t.contains(x) && x != id {
                    let k = choose|k: int| 0 <= k < t.len() && t[k] == x;
                    assert(ids@.take(i as int)[k] == x);
                }
                if ids@.take(i as int).contains(x) {
                    let k = choose|k: int| 0 <= k < i && ids@.take(i as int)[k] == x;
                    assert(t[k] == x);
                }
            }
        }
        i = i + 1;
    }
    proof {
        assert(ids@.take(ids@.len() as int) =~= ids@);
    }
    r
}

// ---------------------------------------------------------------------------
// Creating steps
// ---------------------------------------------------------------------------

/// What creating the step of a derivation came to.
#[derive(Debug, Clone, PartialEq, Eq)]
pub enum StepCreation {
    /// The derivation's outputs are all there: no step is needed.
    Finished,
    /// A step exists for the derivation, given by its path.
    Valid(String),
    /// The derivation, or one it depends on, failed before.
    PreviousFailure(String),
}

/// What the steps of a derivation's inputs come to.
#[derive(Debug, Clone, PartialEq, Eq)]
pub enum DepSteps {
    /// The input steps to wait for, in order.
    Ready(Vec<String>),
    /// An input failed before: the path of the first such.
    PreviousFailure(String),
}

/// The path of the first input that failed before, if any.
pub open spec fn first_previous_failure(results: Seq<StepCreation>) -> Option<Seq<char>>
    decreases results.len(),
{
    if results.len() == 0 {
        None
    } else {
        match results[0] {
            StepCreation::PreviousFailure(p) => Some(p@),
            _ => first_previous_failure(results.drop_first()),
        }
    }
}

/// The paths of the inputs that have steps, in order.
pub open spec fn valid_paths(results: Seq<StepCreation>) -> Seq<Seq<char>>
    decreases results.len(),
{
    if results.len() == 0 {
        Seq::empty()
    } else {
        let rest = valid_paths(results.drop_last());
        match results.last() {
            StepCreation::Valid(p) => rest.push(p@),
            _ => rest,
        }
    }
}

proof fn lemma_first_previous_failure_split(results: Seq<StepCreation>, i: int)
    requires
        0 <= i < results.len(),
        first_previous_failure(results.take(i)) is None,
    ensures
        first_previous_failure(results) == match results[i] {
            StepCreation::PreviousFailure(p) => Some(p@),
            _ => first_previous_failure(results.skip(i + 1)),
        },
    decreases i,
{
    if i > 0 {
        assert(results.take(i).drop_first() =~= results.drop_first().take(i - 1));
        assert(results.drop_first().skip(i) =~= results.skip(i + 1));
        assert(results.take(i)[0] == results[0]);
        lemma_first_previous_failure_split(results.drop_first(), i - 1);
    }
}

proof fn lemma_no_previous_failure_extend(results: Seq<StepCreation>, i: int)
    requires
        0 <= i < results.len(),
        first_previous_failure(results.take(i)) is None,
        !(results[i] is PreviousFailure),
    ensures
        first_previous_failure(results.take(i + 1)) is None,
    decreases i,
{
    let t = results.take(i + 1);
    assert(t[0] == results[0]);
    if i > 0 {
        let s = results.take(i);
        assert(s[0] == results[0]);
        assert(s.drop_first() =~= results.drop_first().take(i - 1));
        assert(t.drop_first() =~= results.drop_first().take(i));
        assert(!(results[0] is PreviousFailure));
        assert(first_previous_failure(s.drop_first()) is None);
        lemma_no_previous_failure_extend(results.drop_first(), i - 1);
        assert(first_previous_failure(t.drop_first()) is None);
    } else {
        assert(t.drop_first() =~= Seq::<StepCreation>::empty());
    }
}

/// Combines what creating the steps of a derivation's inputs came to, in the
/// order in which they were asked: the first input that failed before makes
/// the derivation fail too; otherwise the inputs that have steps are those
/// that the derivation's step waits for.
pub fn collect_dep_steps(results: &[StepCreation]) -> (r: DepSteps)
    ensures
        match r {
            DepSteps::PreviousFailure(p) => first_previous_failure(results@) == Some(p@),
            DepSteps::Ready(v) => first_previous_failure(results@) is None && v@.len() == valid_paths(
                results@,
            ).len() && forall|k: int| 0 <= k < v@.len() ==> #[trigger] v@[k]@ == valid_paths(results@)[k],
        },
{
    let mut deps: Vec<String> = Vec::new();
    let mut i: usize = 0;
    proof {
        assert(results@.take(0) =~= Seq::<StepCreation>::empty());
    }
    while i < results.len()
        invariant
            i <= results@.len(),
            first_previous_failure(results@.take(i as int)) is None,
            deps@.len() == valid_paths(results@.take(i as int)).len(),
            forall|k: int|
                0 <= k < deps@.len() ==> #[trigger] deps@[k]@ == valid_paths(results@.take(i as int))[k],
        decreases results.len() - i,
    {
        proof {
            assert(results@.take(i + 1).drop_last() =~= results@.take(i as int));
            assert(results@.take(i + 1).last() == results@[i as int]);
        }
        match &results[i] {
            StepCreation::PreviousFailure(p) => {
                proof {
                    lemma_first_previous_failure_split(results@, i as int);
                }
                return DepSteps::PreviousFailure(p.clone());
            },
            StepCreation::Valid(p) => {
                proof {
                    lemma_no_previous_failure_extend(results@, i as int);
                }
                deps.push(p.clone());
            },
            StepCreation::Finished => {
                proof {
                    lemma_no_previous_failure_extend(results@, i as int);
                }
            },
        }
        i = i + 1;
    }
    proof {
        assert(results@.take(results@.len() as int) =~= results@);
    }
    DepSteps::Ready(deps)
}

/// Whether a derivation's outputs are all there after substitution: with
/// outputs missing and substitutes in use, when each missing output was
/// substituted; otherwise when none was missing.
pub fn outputs_finished(missing: usize, use_substitutes: bool, substituted: usize) -> (r: bool)
    ensures
        r == (if missing > 0 && use_substitutes {
            substituted == missing
        } else {
            missing == 0
        }),
{
    if missing > 0 && use_substitutes {
        substituted == missing
    } else {
        missing == 0
    }
}

// ---------------------------------------------------------------------------
// Failed steps
// ---------------------------------------------------------------------------

/// Whether a failed step is tried again: when its failure allows a retry
/// and it has been tried fewer times than the limit.
pub fn should_retry(can_retry: bool, tries: u32, max_retries: u32) -> (r: bool)
    ensures
        r == (can_retry && tries < max_retries),
{
    can_retry && tries < max_retries
}

/// The error recorded for a step that no machine supports.
pub fn unsupported_message(system: &str) -> (m: String)
    ensures
        m@ == "unsupported system type '"@ + system@ + "'"@,
{
    let m = concat("unsupported system type '", system);
    concat(m.as_str(), "'")
}

// ---------------------------------------------------------------------------
// Queue notifications
// ---------------------------------------------------------------------------

/// What the queue monitor does on a database notification.
#[derive(Debug, Clone, Copy, PartialEq, Eq, Structural)]
pub enum QueueAction {
    /// New builds were queued: read the queue.
    BuildsAdded,
    /// Builds were restarted: read the queue.
    BuildsRestarted,
    /// Builds were cancelled, deleted or bumped: update priorities and kill
    /// the steps that nothing waits for any more.
    QueueChanged,
    /// The scheduling shares of jobsets changed: reload them.
    JobsetSharesChanged,
    /// Any other channel: read the queue.
    Other,
}

/// The action for a notification on `channel`.
pub open spec fn queue_action_of(channel: Seq<char>) -> QueueAction {
    if channel == "builds_added"@ {
        QueueAction::BuildsAdded
    } else if channel == "builds_restarted"@ {
        QueueAction::BuildsRestarted
    } else if channel == "builds_cancelled"@ || channel == "builds_deleted"@ || channel
        == "builds_bumped"@ {
        QueueAction::QueueChanged
    } else if channel == "jobset_shares_changed"@ {
        QueueAction::JobsetSharesChanged
    } else {
        QueueAction::Other
    }
}

/// The action for a notification on `channel`.
pub fn queue_action(channel: &str) -> (r: QueueAction)
    ensures
        r == queue_action_of(channel@),
{
    if str_equal(channel, "builds_added") {
        QueueAction::BuildsAdded
    } else if str_equal(channel, "builds_restarted") {
        QueueAction::BuildsRestarted
    } else if str_equal(channel, "builds_cancelled") || str_equal(channel, "builds_deleted")
        || str_equal(channel, "builds_bumped") {
        QueueAction::QueueChanged
    } else if str_equal(channel, "jobset_shares_changed") {
        QueueAction::JobsetSharesChanged
    } else {
        QueueAction::Other
    }
}

} // verus!

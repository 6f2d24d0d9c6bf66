//! Resolving the inputs of content-addressed derivations: derived-path chains
//! such as `root.drv^out^dev`, and the lookups that turn them into store paths.

use vstd::prelude::*;

verus! {

/// A store path, or an output of a derivation that is itself given as a
/// derived path (`drv^output`).
#[derive(Debug)]
pub enum SingleDerivedPath {
    Opaque(String),
    Built { drv_path: Box<SingleDerivedPath>, output: String },
}

/// The store path at the root of a derived-path chain.
pub open spec fn chain_root(p: SingleDerivedPath) -> Seq<char>
    decreases p,
{
    match p {
        SingleDerivedPath::Opaque(s) => s@,
        SingleDerivedPath::Built { drv_path, output: _ } => chain_root(*drv_path),
    }
}

/// The outputs named along a derived-path chain, from the root outwards.
pub open spec fn chain_outputs(p: SingleDerivedPath) -> Seq<Seq<char>>
    decreases p,
{
    match p {
        SingleDerivedPath::Opaque(_) => Seq::empty(),
        SingleDerivedPath::Built { drv_path, output } => chain_outputs(*drv_path).push(output@),
    }
}

/// The number of outputs along a derived-path chain.
pub open spec fn chain_depth(p: SingleDerivedPath) -> nat
    decreases p,
{
    match p {
        SingleDerivedPath::Opaque(_) => 0,
        SingleDerivedPath::Built { drv_path, output: _ } => chain_depth(*drv_path) + 1,
    }
}

/// The views of a vector of strings.
pub open spec fn string_views(v: Seq<String>) -> Seq<Seq<char>> {
    v.map_values(|s: String| s@)
}

/// Flattens a derived path and a final output name into the root store path
/// and the outputs to follow from it, in resolution order: for
/// `Built { Opaque(A), "out" }` with final output `"dev"` it gives
/// `(A, ["out", "dev"])`.
pub fn flatten_chain(drv_path: &SingleDerivedPath, output_name: &String) -> (r: (
    String,
    Vec<String>,
))
    ensures
        r.0@ == chain_root(*drv_path),
        string_views(r.1@) == chain_outputs(*drv_path).push(output_name@),
{
    let mut outputs: Vec<String> = Vec::new();
    let mut current = drv_path;
    let mut root = String::new();
    loop
        invariant_except_break
            chain_root(*current) == chain_root(*drv_path),
            chain_outputs(*drv_path) == chain_outputs(*current) + string_views(outputs@),
        ensures
            root@ == chain_root(*drv_path),
            chain_outputs(*drv_path) == string_views(outputs@),
        decreases chain_depth(*current),
    {
        match current {
            SingleDerivedPath::Opaque(p) => {
                proof {
                    assert(chain_outputs(*current) == Seq::<Seq<char>>::empty());
                    assert(chain_outputs(*drv_path) =~= string_views(outputs@));
                }
                root = p.clone();
                break;
            },
            SingleDerivedPath::Built { drv_path: parent, output } => {
                let ghost before = outputs@;
                outputs.insert(0, output.clone());
                proof {
                    assert(string_views(outputs@) =~= seq![output@] + string_views(before));
                    assert(chain_outputs(*current) == chain_outputs(**parent).push(output@));
                    assert(chain_outputs(**parent) + string_views(outputs@) =~= chain_outputs(
                        **parent,
                    ).push(output@) + string_views(before));
                }
                current = parent;
            },
        }
    }
    let ghost before = outputs@;
    outputs.push(output_name.clone());
    proof {
        assert(string_views(outputs@) =~= string_views(before).push(output_name@));
    }
    (root, outputs)
}

/// What resolving a derivation's inputs amounts to.
#[derive(Debug, PartialEq, Eq)]
pub enum ResolvePlan {
    /// Some output is input-addressed: resolving would change the output
    /// paths, so the derivation is not resolved.
    NotResolvable,
    /// No input is an output of another derivation: the derivation is already
    /// resolved, with these input store paths.
    AlreadyResolved(Vec<String>),
    /// Some inputs are outputs of other derivations and must be looked up.
    NeedsLookup,
}

/// The store path of an opaque derived path.
pub open spec fn opaque_path(p: SingleDerivedPath) -> Option<Seq<char>> {
    match p {
        SingleDerivedPath::Opaque(s) => Some(s@),
        SingleDerivedPath::Built { .. } => None,
    }
}

/// Whether a derived path is an output of another derivation.
pub open spec fn is_built(p: SingleDerivedPath) -> bool {
    p matches SingleDerivedPath::Built { .. }
}

/// Decides how a derivation's inputs are resolved, given for each of its
/// outputs whether it is input-addressed, and its inputs.
pub fn plan_resolution(output_input_addressed: &[bool], inputs: &[SingleDerivedPath]) -> (r:
    ResolvePlan)
    ensures
        (exists|i: int| 0 <= i < output_input_addressed@.len() && output_input_addressed@[i])
            ==> r == ResolvePlan::NotResolvable,
        !(exists|i: int| 0 <= i < output_input_addressed@.len() && output_input_addressed@[i])
            && (exists|i: int| 0 <= i < inputs@.len() && is_built(#[trigger] inputs@[i])) ==> r
            == ResolvePlan::NeedsLookup,
        !(exists|i: int| 0 <= i < output_input_addressed@.len() && output_input_addressed@[i])
            && !(exists|i: int| 0 <= i < inputs@.len() && is_built(#[trigger] inputs@[i])) ==> (
        r matches ResolvePlan::AlreadyResolved(paths) && paths@.len() == inputs@.len() && forall|
            i: int,
        | 0 <= i < inputs@.len() ==> opaque_path(inputs@[i]) == Some((#[trigger] paths@[i])@)),
{
    let mut k: usize = 0;
    while k < output_input_addressed.len()
        invariant
            k <= output_input_addressed@.len(),
            forall|i: int| 0 <= i < k ==> !output_input_addressed@[i],
        decreases output_input_addressed.len() - k,
    {
        if output_input_addressed[k] {
            return ResolvePlan::NotResolvable;
        }
        k = k + 1;
    }
    let mut paths: Vec<String> = Vec::new();
    let mut i: usize = 0;
    while i < inputs.len()
        invariant
            forall|j: int| 0 <= j < output_input_addressed@.len() ==> !output_input_addressed@[j],
            i <= inputs@.len(),
            paths@.len() == i,
            forall|j: int| 0 <= j < i ==> opaque_path(inputs@[j]) == Some((#[trigger] paths@[j])@),
        decreases inputs.len() - i,
    {
        match &inputs[i] {
            SingleDerivedPath::Opaque(p) => {
                let q = p.clone();
                proof {
                    assert(inputs@[i as int] == SingleDerivedPath::Opaque(*p));
                }
                let ghost before = paths@;
                paths.push(q);
                proof {
                    assert forall|j: int| 0 <= j < i + 1 implies opaque_path(inputs@[j]) == Some(
                        (#[trigger] paths@[j])@,
                    ) by {
                        if j < i {
                            assert(paths@[j] == before[j]);
                        }
                    }
                }
            },
            SingleDerivedPath::Built { .. } => {
                proof {
                    assert(is_built(inputs@[i as int]));
                }
                return ResolvePlan::NeedsLookup;
            },
        }
        i = i + 1;
    }
    proof {
        assert forall|j: int| 0 <= j < inputs@.len() implies !is_built(#[trigger] inputs@[j]) by {
            assert(opaque_path(inputs@[j]) == Some(paths@[j]@));
        }
    }
    ResolvePlan::AlreadyResolved(paths)
}

/// The lookups to make for the given inputs: each flattened with
/// [`flatten_chain`].
pub fn resolution_chains(inputs: &[(SingleDerivedPath, String)]) -> (r: Vec<(String, Vec<String>)>)
    ensures
        r@.len() == inputs@.len(),
        forall|i: int|
            0 <= i < inputs@.len() ==> (#[trigger] r@[i]).0@ == chain_root(inputs@[i].0)
                && string_views(r@[i].1@) == chain_outputs(inputs@[i].0).push(inputs@[i].1@),
{
    let mut chains: Vec<(String, Vec<String>)> = Vec::new();
    let mut i: usize = 0;
    while i < inputs.len()
        invariant
            i <= inputs@.len(),
            chains@.len() == i,
            forall|j: int|
                0 <= j < i ==> (#[trigger] chains@[j]).0@ == chain_root(inputs@[j].0)
                    && string_views(chains@[j].1@) == chain_outputs(inputs@[j].0).push(
                    inputs@[j].1@,
                ),
        decreases inputs.len() - i,
    {
        let c = flatten_chain(&inputs[i].0, &inputs[i].1);
        chains.push(c);
        i = i + 1;
    }
    chains
}

// ---------------------------------------------------------------------------
// Collecting the answers of the chain lookup
// ---------------------------------------------------------------------------

/// A row of the chain lookup carries an index below 1; the lookup numbers its
/// chains from 1.
#[derive(Debug, PartialEq, Eq)]
pub struct NegativeOrdinality;

/// The view of an optional string.
pub open spec fn opt_view(p: Option<String>) -> Option<Seq<char>> {
    match p {
        Some(s) => Some(s@),
        None => None,
    }
}

/// The views of a chain lookup answer.
pub open spec fn row_views(rows: Seq<(i32, Option<String>)>) -> Seq<(int, Option<Seq<char>>)> {
    rows.map_values(|r: (i32, Option<String>)| (r.0 as int, opt_view(r.1)))
}

/// The resolved path of each of `n` chains after applying the answer rows in
/// order: row `(idx, path)` sets chain `idx` (counted from 1); `None` when a
/// row has an index below 1.
pub open spec fn apply_chain_rows(n: nat, rows: Seq<(int, Option<Seq<char>>)>) -> Option<
    Seq<Option<Seq<char>>>,
>
    decreases rows.len(),
{
    if rows.len() == 0 {
        Some(Seq::new(n, |i: int| None))
    } else {
        match apply_chain_rows(n, rows.drop_last()) {
            None => None,
            Some(r) => {
                let (idx, path) = rows.last();
                if idx < 1 {
                    None
                } else if idx <= r.len() {
                    Some(r.update(idx - 1, path))
                } else {
                    Some(r)
                }
            },
        }
    }
}

/// Every row that is reached refers to one of the `n` chains: rows are
/// reached until the first one with an index below 1.
pub open spec fn rows_in_bounds(n: nat, rows: Seq<(int, Option<Seq<char>>)>) -> bool {
    forall|k: int|
        0 <= k < rows.len() && (forall|j: int| 0 <= j < k ==> (#[trigger] rows[j]).0 >= 1)
            ==> (#[trigger] rows[k]).0 <= n && rows[k].0 > i32::MIN
}

proof fn lemma_apply_failed(n: nat, rows: Seq<(int, Option<Seq<char>>)>, k: int)
    requires
        0 <= k <= rows.len(),
        apply_chain_rows(n, rows.take(k)) is None,
    ensures
        apply_chain_rows(n, rows) is None,
    decreases rows.len() - k,
{
    if k < rows.len() {
        assert(rows.take(k + 1).drop_last() =~= rows.take(k));
        lemma_apply_failed(n, rows, k + 1);
    } else {
        assert(rows.take(k) =~= rows);
    }
}

/// Applying rows whose indices all lie in `1..=n` always succeeds, and gives
/// each chain the path of the last row that refers to it; a chain that no
/// row refers to stays unresolved. A row without a path leaves its chain
/// unresolved instead of failing.
pub proof fn lemma_chain_rows_last_wins(n: nat, rows: Seq<(int, Option<Seq<char>>)>)
    requires
        forall|k: int| 0 <= k < rows.len() ==> 1 <= (#[trigger] rows[k]).0 <= n,
    ensures
        apply_chain_rows(n, rows) is Some,
        apply_chain_rows(n, rows)->0.len() == n,
        forall|i: int, k: int|
            #![trigger rows[k], apply_chain_rows(n, rows)->0[i]]
            0 <= i < n && 0 <= k < rows.len() && rows[k].0 == i + 1 && (forall|k2: int|
                k < k2 < rows.len() ==> (#[trigger] rows[k2]).0 != i + 1) ==> apply_chain_rows(
                n,
                rows,
            )->0[i] == rows[k].1,
        forall|i: int|
            #![trigger apply_chain_rows(n, rows)->0[i]]
            0 <= i < n && (forall|k: int| 0 <= k < rows.len() ==> (#[trigger] rows[k]).0 != i + 1)
                ==> apply_chain_rows(n, rows)->0[i] is None,
    decreases rows.len(),
{
    if rows.len() > 0 {
        let init = rows.drop_last();
        assert forall|k: int| 0 <= k < init.len() implies 1 <= (#[trigger] init[k]).0 <= n by {
            assert(init[k] == rows[k]);
        }
        lemma_chain_rows_last_wins(n, init);
        let r0 = apply_chain_rows(n, init)->0;
        let (idx, path) = rows.last();
        let r = r0.update(idx - 1, path);
        assert(apply_chain_rows(n, rows) == Some(r));
        assert forall|i: int, k: int|
            #![trigger rows[k], r[i]]
            0 <= i < n && 0 <= k < rows.len() && rows[k].0 == i + 1 && (forall|k2: int|
                k < k2 < rows.len() ==> (#[trigger] rows[k2]).0 != i + 1) implies r[i]
            == rows[k].1 by {
            if k < rows.len() - 1 {
                assert(rows[rows.len() - 1].0 != i + 1);
                assert(init[k] == rows[k]);
                assert forall|k2: int| k < k2 < init.len() implies (#[trigger] init[k2]).0 != i
                    + 1 by {
                    assert(init[k2] == rows[k2]);
                }
            }
        }
        assert forall|i: int|
            #![trigger r[i]]
            0 <= i < n && (forall|k: int| 0 <= k < rows.len() ==> (#[trigger] rows[k]).0 != i + 1)
                implies r[i] is None by {
            assert(rows[rows.len() - 1].0 != i + 1);
            assert forall|k: int| 0 <= k < init.len() implies (#[trigger] init[k]).0 != i + 1 by {
                assert(init[k] == rows[k]);
            }
        }
    }
}

/// Puts the answer of the chain lookup in order: one entry per chain, `None`
/// where the chain did not resolve. Fails if a row carries an index below 1.
pub fn collect_chain_results(n: usize, rows: Vec<(i32, Option<String>)>) -> (r: Result<
    Vec<Option<String>>,
    NegativeOrdinality,
>)
    requires
        rows_in_bounds(n as nat, row_views(rows@)),
    ensures
        match r {
            Ok(v) => apply_chain_rows(n as nat, row_views(rows@)) == Some(
                v@.map_values(|p: Option<String>| opt_view(p)),
            ),
            Err(_) => apply_chain_rows(n as nat, row_views(rows@)) is None,
        },
        (forall|k: int| 0 <= k < rows@.len() ==> (#[trigger] rows@[k]).0 >= 1) ==> r is Ok,
        r is Err ==> exists|k: int| 0 <= k < rows@.len() && (#[trigger] rows@[k]).0 < 1,
        r matches Ok(v) ==> v@.len() == n,
        r matches Ok(v) ==> forall|i: int, k: int|
            #![trigger rows@[k], v@[i]]
            0 <= i < n && 0 <= k < rows@.len() && rows@[k].0 == i + 1 && (forall|
                k2: int,
            | k < k2 < rows@.len() ==> (#[trigger] rows@[k2]).0 != i + 1) ==> opt_view(v@[i])
                == opt_view(rows@[k].1),
        r matches Ok(v) ==> forall|i: int|
            #![trigger v@[i]]
            0 <= i < n && (forall|k: int| 0 <= k < rows@.len() ==> (#[trigger] rows@[k]).0 != i
                + 1) ==> v@[i] is None,
{
    let ghost views = row_views(rows@);
    let mut results: Vec<Option<String>> = Vec::new();
    let mut z: usize = 0;
    while z < n
        invariant
            z <= n,
            results@.len() == z,
            forall|i: int| 0 <= i < z ==> (#[trigger] results@[i]) is None,
        decreases n - z,
    {
        results.push(None);
        z = z + 1;
    }
    proof {
        assert(views.take(0) =~= Seq::<(int, Option<Seq<char>>)>::empty());
        assert(results@.map_values(|p: Option<String>| opt_view(p)) =~= Seq::new(n as nat, |i: int| None::<Seq<char>>));
    }
    let mut k: usize = 0;
    while k < rows.len()
        invariant
            views == row_views(rows@),
            rows_in_bounds(n as nat, views),
            k <= rows@.len(),
            results@.len() == n,
            forall|j: int| 0 <= j < k ==> (#[trigger] views[j]).0 >= 1,
            apply_chain_rows(n as nat, views.take(k as int)) == Some(results@.map_values(|p: Option<String>| opt_view(p))),
        decreases rows.len() - k,
    {
        let idx = rows[k].0;
        proof {
            assert(views[k as int].0 == idx as int);
            assert(views.take(k + 1).drop_last() =~= views.take(k as int));
            assert(views.take(k + 1).last() == views[k as int]);
        }
        if idx < 1 {
            proof {
                lemma_apply_failed(n as nat, views, k + 1);
                assert(rows@[k as int].0 < 1);
            }
            return Err(NegativeOrdinality);
        }
        let i = (idx - 1) as usize;
        let path = rows[k].1.clone();
        let ghost before = results@;
        results.set(i, path);
        proof {
            assert(views[k as int].1 == opt_view(rows@[k as int].1));
            assert(idx as int <= n);
            assert(results@.map_values(|p: Option<String>| opt_view(p)) =~= before.map_values(|p: Option<String>| opt_view(p)).update(
                i as int,
                views[k as int].1,
            ));
        }
        k = k + 1;
    }
    proof {
        assert(views.take(rows@.len() as int) =~= views);
        assert forall|j: int| 0 <= j < views.len() implies 1 <= (#[trigger] views[j]).0 <= n by {
            assert(views[j].0 >= 1);
        }
        lemma_chain_rows_last_wins(n as nat, views);
        let mv = results@.map_values(|p: Option<String>| opt_view(p));
        assert forall|i: int, k: int|
            #![trigger rows@[k], results@[i]]
            0 <= i < n && 0 <= k < rows@.len() && rows@[k].0 == i + 1 && (forall|
                k2: int,
            | k < k2 < rows@.len() ==> (#[trigger] rows@[k2]).0 != i + 1) implies opt_view(
            results@[i],
        ) == opt_view(rows@[k].1) by {
            assert(views[k].0 == rows@[k].0 as int);
            assert(views[k].1 == opt_view(rows@[k].1));
            assert forall|k2: int| k < k2 < views.len() implies (#[trigger] views[k2]).0 != i + 1 by {
                assert(views[k2].0 == rows@[k2].0 as int);
            }
            assert(mv[i] == opt_view(results@[i]));
        }
        assert forall|i: int|
            #![trigger results@[i]]
            0 <= i < n && (forall|k: int| 0 <= k < rows@.len() ==> (#[trigger] rows@[k]).0 != i
                + 1) implies results@[i] is None by {
            assert forall|k: int| 0 <= k < views.len() implies (#[trigger] views[k]).0 != i + 1 by {
                assert(views[k].0 == rows@[k].0 as int);
            }
            assert(mv[i] == opt_view(results@[i]));
        }
    }
    Ok(results)
}

} // verus!

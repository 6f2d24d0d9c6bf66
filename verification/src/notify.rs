//! Notification payloads on the database channels, and the registry of
//! callers waiting for builds to finish.
//!
//! The queue runner announces a finished build on the `build_finished`
//! channel with the build id and the ids of the builds that failed with it,
//! separated by tabs; the standalone daemon wakes the callers that registered
//! for any of those ids.

use std::collections::HashMap;
use vstd::prelude::*;

use crate::text::{
    chars_of, i32_decimal, lemma_decimal_digits, lemma_parse_signed_decimal, parse_i32,
    parse_i32_spec, signed_decimal, split, split_chars, string_from_chars,
};

verus! {

broadcast use vstd::std_specs::hash::group_hash_axioms;

/// The parts joined with tabs between them.
pub open spec fn join_tabs(parts: Seq<Seq<char>>) -> Seq<char>
    decreases parts.len(),
{
    if parts.len() == 0 {
        Seq::empty()
    } else if parts.len() == 1 {
        parts[0]
    } else {
        join_tabs(parts.drop_last()) + seq!['\t'] + parts.last()
    }
}

/// The payload announcing that the given builds finished: their ids in
/// decimal, separated by tabs.
pub open spec fn ids_payload(ids: Seq<i32>) -> Seq<char> {
    join_tabs(ids.map_values(|id: i32| signed_decimal(id as int)))
}

/// The build ids that a payload names: each tab-separated piece that parses as
/// an `i32`, in order; the other pieces are skipped.
pub open spec fn parsed_ids(pieces: Seq<Seq<char>>) -> Seq<int>
    decreases pieces.len(),
{
    if pieces.len() == 0 {
        Seq::empty()
    } else {
        let before = parsed_ids(pieces.drop_last());
        match parse_i32_spec(pieces.last()) {
            Some(v) => before.push(v),
            None => before,
        }
    }
}

/// The payload of a `build_finished` notification: the build id, then the ids
/// of the builds that depend on it, separated by tabs.
pub fn build_finished_payload(build_id: i32, dependent_ids: &[i32]) -> (r: String)
    ensures
        r@ == ids_payload(seq![build_id] + dependent_ids@),
{
    let ghost ids = seq![build_id] + dependent_ids@;
    let mut chars = i32_decimal(build_id);
    let mut i: usize = 0;
    proof {
        assert(ids.take(1).map_values(|id: i32| signed_decimal(id as int)) =~= seq![
            signed_decimal(build_id as int),
        ]);
    }
    while i < dependent_ids.len()
        invariant
            ids == seq![build_id] + dependent_ids@,
            i <= dependent_ids@.len(),
            chars@ == join_tabs(ids.take(i + 1).map_values(|id: i32| signed_decimal(id as int))),
        decreases dependent_ids.len() - i,
    {
        chars.push('\t');
        let mut d = i32_decimal(dependent_ids[i]);
        let ghost before = chars@;
        chars.append(&mut d);
        proof {
            let parts = ids.take(i + 2).map_values(|id: i32| signed_decimal(id as int));
            assert(parts.drop_last() =~= ids.take(i + 1).map_values(
                |id: i32| signed_decimal(id as int),
            ));
            assert(ids[i + 1] == dependent_ids@[i as int]);
            assert(parts.last() == signed_decimal(dependent_ids@[i as int] as int));
            assert(chars@ =~= join_tabs(parts));
        }
        i = i + 1;
    }
    proof {
        assert(ids.take(dependent_ids@.len() as int + 1) =~= ids);
    }
    string_from_chars(chars.as_slice())
}

/// The payload of a `step_started` notification: the derivation path and the
/// attempt, separated by a tab.
pub fn step_started_payload(drv_path: &str, attempt: i32) -> (r: String)
    ensures
        r@ == drv_path@ + seq!['\t'] + signed_decimal(attempt as int),
{
    let mut chars = chars_of(drv_path);
    chars.push('\t');
    let mut d = i32_decimal(attempt);
    chars.append(&mut d);
    string_from_chars(chars.as_slice())
}

/// The payload of a `step_finished` notification: the derivation path, the
/// attempt and the log file, separated by tabs.
pub fn step_finished_payload(drv_path: &str, attempt: i32, log_file: &str) -> (r: String)
    ensures
        r@ == drv_path@ + seq!['\t'] + signed_decimal(attempt as int) + seq!['\t'] + log_file@,
{
    let mut chars = chars_of(drv_path);
    chars.push('\t');
    let mut d = i32_decimal(attempt);
    chars.append(&mut d);
    chars.push('\t');
    let mut l = chars_of(log_file);
    chars.append(&mut l);
    string_from_chars(chars.as_slice())
}

/// The build ids named by a `build_finished` payload, in order.
pub fn parse_build_ids(payload: &str) -> (r: Vec<i32>)
    ensures
        r@.map_values(|id: i32| id as int) == parsed_ids(split(payload@, '\t')),
{
    let chars = chars_of(payload);
    let pieces = split_chars(chars.as_slice(), '\t');
    let ghost spieces = split(payload@, '\t');
    let mut ids: Vec<i32> = Vec::new();
    let mut i: usize = 0;
    proof {
        assert(spieces.take(0) =~= Seq::<Seq<char>>::empty());
        assert(ids@.map_values(|id: i32| id as int) =~= Seq::<int>::empty());
    }
    while i < pieces.len()
        invariant
            spieces == split(payload@, '\t'),
            pieces@.len() == spieces.len(),
            forall|k: int| 0 <= k < pieces@.len() ==> #[trigger] pieces@[k]@ == spieces[k],
            i <= pieces@.len(),
            ids@.map_values(|id: i32| id as int) == parsed_ids(spieces.take(i as int)),
        decreases pieces.len() - i,
    {
        proof {
            assert(spieces.take(i + 1).drop_last() =~= spieces.take(i as int));
            assert(spieces.take(i + 1).last() == pieces@[i as int]@);
        }
        let ghost before = ids@;
        match parse_i32(pieces[i].as_slice()) {
            Some(v) => {
                ids.push(v);
                proof {
                    assert(ids@.map_values(|id: i32| id as int) =~= before.map_values(
                        |id: i32| id as int,
                    ).push(v as int));
                }
            },
            None => {},
        }
        i = i + 1;
    }
    proof {
        assert(spieces.take(pieces@.len() as int) =~= spieces);
    }
    ids
}

// ---------------------------------------------------------------------------
// The payload round trip
// ---------------------------------------------------------------------------

proof fn lemma_split_no_sep(b: Seq<char>, sep: char)
    requires
        !b.contains(sep),
    ensures
        split(b, sep) == seq![b],
    decreases b.len(),
{
    if b.len() == 0 {
        assert(b =~= Seq::<char>::empty());
        assert(split(b, sep) =~= seq![b]);
    } else {
        assert(!b.drop_last().contains(sep)) by {
            if b.drop_last().contains(sep) {
                let k = choose|k: int| 0 <= k < b.drop_last().len() && b.drop_last()[k] == sep;
                assert(b[k] == sep);
            }
        }
        lemma_split_no_sep(b.drop_last(), sep);
        assert(b.last() != sep) by {
            assert(b[b.len() - 1] == b.last());
        }
        assert(split(b, sep) =~= seq![b.drop_last().push(b.last())]);
        assert(b.drop_last().push(b.last()) =~= b);
    }
}

proof fn lemma_split_after_sep(a: Seq<char>, b: Seq<char>, sep: char)
    requires
        !b.contains(sep),
    ensures
        split(a + seq![sep] + b, sep) == split(a, sep).push(b),
    decreases b.len(),
{
    crate::text::lemma_split_nonempty(a, sep);
    if b.len() == 0 {
        let whole = a + seq![sep] + b;
        assert(b =~= Seq::<char>::empty());
        assert(whole.drop_last() =~= a);
        assert(whole.last() == sep);
        assert(split(whole, sep) == split(a, sep).push(Seq::empty()));
        assert(split(a + seq![sep] + b, sep) =~= split(a, sep).push(b));
    } else {
        let b0 = b.drop_last();
        assert(!b0.contains(sep)) by {
            if b0.contains(sep) {
                let k = choose|k: int| 0 <= k < b0.len() && b0[k] == sep;
                assert(b[k] == sep);
            }
        }
        assert(b.last() != sep) by {
            assert(b[b.len() - 1] == b.last());
        }
        lemma_split_after_sep(a, b0, sep);
        let whole = a + seq![sep] + b;
        assert(whole.drop_last() =~= a + seq![sep] + b0);
        assert(whole.last() == b.last());
        let p = split(a + seq![sep] + b0, sep);
        assert(p == split(a, sep).push(b0));
        assert(p.last() == b0);
        assert(b0.push(b.last()) =~= b);
        assert(split(whole, sep) == p.update(p.len() - 1, p.last().push(b.last())));
        assert(p.update(p.len() - 1, p.last().push(b.last())) =~= split(a, sep).push(b));
    }
}

proof fn lemma_decimal_has_no_tab(n: i32)
    ensures
        !signed_decimal(n as int).contains('\t'),
{
    let s = signed_decimal(n as int);
    if s.contains('\t') {
        let k = choose|k: int| 0 <= k < s.len() && s[k] == '\t';
        if n < 0 {
            let m = (-(n as int)) as nat;
            lemma_decimal_digits(m);
            if k > 0 {
                assert(s[k] == crate::text::decimal(m)[k - 1]);
            }
        } else {
            lemma_decimal_digits(n as nat);
        }
    }
}

proof fn lemma_split_join(ids: Seq<i32>)
    requires
        ids.len() > 0,
    ensures
        parsed_ids(split(ids_payload(ids), '\t')) == ids.map_values(|id: i32| id as int),
    decreases ids.len(),
{
    let parts = ids.map_values(|id: i32| signed_decimal(id as int));
    let last = ids.last();
    lemma_decimal_has_no_tab(last);
    lemma_parse_signed_decimal(last);
    assert(parts.last() == signed_decimal(last as int));
    if ids.len() == 1 {
        assert(ids_payload(ids) == parts[0]);
        lemma_split_no_sep(parts[0], '\t');
        assert(seq![parts[0]].drop_last() =~= Seq::<Seq<char>>::empty());
        assert(seq![parts[0]].last() == parts[0]);
        assert(parts.len() == 1);
        assert(parts[0] == signed_decimal(last as int));
        assert(parse_i32_spec(parts[0]) == Some(last as int));
        assert(parsed_ids(Seq::<Seq<char>>::empty()) == Seq::<int>::empty());
        assert(parsed_ids(seq![parts[0]]) == Seq::<int>::empty().push(last as int));
        assert(ids.map_values(|id: i32| id as int) =~= seq![last as int]);
    } else {
        let init = ids.drop_last();
        lemma_split_join(init);
        assert(parts.drop_last() =~= init.map_values(|id: i32| signed_decimal(id as int)));
        lemma_split_after_sep(ids_payload(init), parts.last(), '\t');
        let pieces = split(ids_payload(ids), '\t');
        assert(pieces == split(ids_payload(init), '\t').push(parts.last()));
        assert(pieces.drop_last() =~= split(ids_payload(init), '\t'));
        assert(ids.map_values(|id: i32| id as int) =~= init.map_values(|id: i32| id as int).push(
            last as int,
        ));
    }
}

/// Every build named in a `build_finished` payload is read back from it: the
/// ids come out as they went in, in order.
pub proof fn lemma_build_finished_roundtrip(build_id: i32, dependent_ids: Seq<i32>)
    ensures
        parsed_ids(split(ids_payload(seq![build_id] + dependent_ids), '\t')) == (seq![build_id]
            + dependent_ids).map_values(|id: i32| id as int),
{
    lemma_split_join(seq![build_id] + dependent_ids);
}

// ---------------------------------------------------------------------------
// Callers waiting for builds
// ---------------------------------------------------------------------------

/// Removes the given ids from `m` in order, collecting what was registered
/// for each id still present.
pub open spec fn take_ids<S>(m: Map<i32, S>, ids: Seq<int>) -> (Map<i32, S>, Seq<S>)
    decreases ids.len(),
{
    if ids.len() == 0 {
        (m, Seq::empty())
    } else {
        let (m1, taken) = take_ids(m, ids.drop_last());
        let id = ids.last() as i32;
        if m1.contains_key(id) {
            (m1.remove(id), taken.push(m1[id]))
        } else {
            (m1, taken)
        }
    }
}

/// A registered caller is woken by the first payload that names its build,
/// and only once: after registering `waker` for `build_id`, a payload that
/// names the build (and no other waiting build) takes out exactly that
/// registration.
pub proof fn lemma_registered_waiter_woken<S>(m: Map<i32, S>, build_id: i32, waker: S)
    ensures
        take_ids(m.insert(build_id, waker), seq![build_id as int]) == (
            m.remove(build_id),
            seq![waker],
        ),
        take_ids(m.remove(build_id), seq![build_id as int]) == (m.remove(build_id), Seq::<
            S,
        >::empty()),
{
    let one = seq![build_id as int];
    let with = m.insert(build_id, waker);
    let without = m.remove(build_id);
    assert(one.drop_last() =~= Seq::<int>::empty());
    assert(one.last() as i32 == build_id);
    assert(take_ids(with, one.drop_last()) == (with, Seq::<S>::empty()));
    assert(take_ids(without, one.drop_last()) == (without, Seq::<S>::empty()));
    assert(with.remove(build_id) =~= without);
    assert(seq![waker] =~= Seq::<S>::empty().push(waker));
}

/// The callers waiting for builds to finish: for each build id, the handle
/// through which the waiting caller is woken.
pub struct WaiterRegistry<S> {
    waiters: HashMap<i32, S>,
}

impl<S> View for WaiterRegistry<S> {
    type V = Map<i32, S>;

    closed spec fn view(&self) -> Map<i32, S> {
        self.waiters@
    }
}

impl<S> WaiterRegistry<S> {
    /// A registry in which nobody waits.
    pub fn new() -> (r: Self)
        ensures
            r@ == Map::<i32, S>::empty(),
    {
        WaiterRegistry { waiters: HashMap::new() }
    }

    /// Registers interest in `build_id`; a registration for the same id is
    /// replaced.
    pub fn register(&mut self, build_id: i32, waker: S)
        ensures
            final(self)@ == old(self)@.insert(build_id, waker),
    {
        self.waiters.insert(build_id, waker);
    }

    /// Drops the registration for `build_id`, if any, without waking it.
    pub fn forget(&mut self, build_id: i32)
        ensures
            final(self)@ == old(self)@.remove(build_id),
    {
        self.waiters.remove(&build_id);
    }

    /// The number of builds waited for.
    pub fn len(&self) -> (n: usize)
        ensures
            n as nat == self@.len(),
    {
        self.waiters.len()
    }

    /// Takes out the registrations of the builds that a `build_finished`
    /// payload names, in the order in which the payload names them; ids
    /// that nobody waits for are skipped.
    pub fn take_finished(&mut self, payload: &str) -> (r: Vec<S>)
        ensures
            ({
                let (m, taken) = take_ids(old(self)@, parsed_ids(split(payload@, '\t')));
                final(self)@ == m && r@ == taken
            }),
    {
        let ids = parse_build_ids(payload);
        let ghost idv = ids@.map_values(|id: i32| id as int);
        let ghost start = self@;
        let mut woken: Vec<S> = Vec::new();
        let mut i: usize = 0;
        proof {
            assert(idv.take(0) =~= Seq::<int>::empty());
        }
        while i < ids.len()
            invariant
                idv == ids@.map_values(|id: i32| id as int),
                i <= ids@.len(),
                take_ids(start, idv.take(i as int)) == (self@, woken@),
            decreases ids.len() - i,
        {
            let id = ids[i];
            proof {
                assert(idv.take(i + 1).drop_last() =~= idv.take(i as int));
                assert(idv.take(i + 1).last() == id as int);
            }
            match self.waiters.remove(&id) {
                Some(w) => {
                    woken.push(w);
                },
                None => {},
            }
            i = i + 1;
        }
        proof {
            assert(idv.take(ids@.len() as int) =~= idv);
        }
        woken
    }
}

} // verus!

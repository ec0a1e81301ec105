//! Promise sanitization tracker.
//!
//! Records promise creation and settlement events per logical test. The host
//! VM delivers a lifecycle event for every promise; events that arrive while
//! a test name is bound are attributed to that test. After a test completes,
//! a non-zero pending count signals a leaked (unresolved) promise.
//!
//! The tracker's observable state is modelled by [`TrackerModel`]: the bound
//! test name, a map from test name to its lifecycle counters, and a map from
//! active promise identity to its owning test name. Every operation's
//! contract states the exact transition on that model.

use vstd::prelude::*;

verus! {

/// Per-test promise lifecycle counters. Both counters are monotonically
/// non-decreasing; a well-formed tracker keeps `promises_initialized >=
/// promises_resolved` for every test.
pub struct TestMetrics {
    pub promises_initialized: u64,
    pub promises_resolved: u64,
}

/// An active promise: initialized under a tracked test and not yet resolved.
/// `owner` indexes the tracker's test table.
struct PromiseRec {
    id: u64,
    owner: usize,
}

/// Process-wide promise tracking state. Created once at runtime start; the
/// bound test name is rebound before each test and the state is never torn
/// down explicitly.
pub struct PromiseMetricsTracker {
    tests: Vec<(String, TestMetrics)>,
    promises: Vec<PromiseRec>,
    current: Option<usize>,
}

/// The promise lifecycle events the VM can deliver. Only initialization and
/// resolution matter to sanitization; the remaining kinds are ignored.
pub enum PromiseHookKind {
    Init,
    Resolve,
    Before,
    After,
}

/// Abstract state of a [`PromiseMetricsTracker`].
pub ghost struct TrackerModel {
    /// The currently bound test name, if any.
    pub current: Option<Seq<char>>,
    /// Test name to `(promises_initialized, promises_resolved)`.
    pub tests: Map<Seq<char>, (nat, nat)>,
    /// Active promise identity to owning test name.
    pub owners: Map<u64, Seq<char>>,
}

/// Effect of binding a test name: all later initializations are attributed
/// to `name`, and a zeroed counter entry is created for `name` if absent.
pub open spec fn spec_track(m: TrackerModel, name: Seq<char>) -> TrackerModel {
    TrackerModel {
        current: Some(name),
        tests: if m.tests.contains_key(name) {
            m.tests
        } else {
            m.tests.insert(name, (0nat, 0nat))
        },
        owners: m.owners,
    }
}

/// Effect of a promise initialization event: with a test name bound, that
/// test's initialized counter rises by one and the promise identity is
/// recorded as owned by it; with none bound, the event is ignored.
pub open spec fn spec_initialized(m: TrackerModel, id: u64) -> TrackerModel {
    match m.current {
        None => m,
        Some(name) => TrackerModel {
            current: m.current,
            tests: m.tests.insert(name, (m.tests[name].0 + 1, m.tests[name].1)),
            owners: m.owners.insert(id, name),
        },
    }
}

/// Effect of a promise resolution event: if the identity is owned by some
/// test, that test's resolved counter rises by one and the identity ceases
/// to be active; settlement of an untracked promise changes nothing.
pub open spec fn spec_resolved(m: TrackerModel, id: u64) -> TrackerModel {
    if m.owners.contains_key(id) {
        let name = m.owners[id];
        TrackerModel {
            current: m.current,
            tests: m.tests.insert(name, (m.tests[name].0, m.tests[name].1 + 1)),
            owners: m.owners.remove(id),
        }
    } else {
        m
    }
}

/// Effect of an arbitrary lifecycle event: initialization and resolution as
/// above, all other kinds ignored.
pub open spec fn spec_event(m: TrackerModel, kind: PromiseHookKind, id: u64) -> TrackerModel {
    match kind {
        PromiseHookKind::Init => spec_initialized(m, id),
        PromiseHookKind::Resolve => spec_resolved(m, id),
        PromiseHookKind::Before => m,
        PromiseHookKind::After => m,
    }
}

spec fn metrics_val(tm: TestMetrics) -> (nat, nat) {
    (tm.promises_initialized as nat, tm.promises_resolved as nat)
}

spec fn tests_map(ts: Seq<(String, TestMetrics)>) -> Map<Seq<char>, (nat, nat)>
    decreases ts.len(),
{
    if ts.len() == 0 {
        Map::empty()
    } else {
        tests_map(ts.drop_last()).insert(ts.last().0@, metrics_val(ts.last().1))
    }
}

spec fn test_names(ts: Seq<(String, TestMetrics)>) -> Seq<Seq<char>> {
    Seq::new(ts.len(), |i: int| ts[i].0@)
}

spec fn owners_map(ps: Seq<PromiseRec>, names: Seq<Seq<char>>) -> Map<u64, Seq<char>>
    decreases ps.len(),
{
    if ps.len() == 0 {
        Map::empty()
    } else {
        owners_map(ps.drop_last(), names).insert(ps.last().id, names[ps.last().owner as int])
    }
}

/// How many active promises are owned by the test at index `owner`.
spec fn count_owned(ps: Seq<PromiseRec>, owner: int) -> nat
    decreases ps.len(),
{
    if ps.len() == 0 {
        0nat
    } else {
        count_owned(ps.drop_last(), owner) + if ps.last().owner == owner {
            1nat
        } else {
            0nat
        }
    }
}

/// The test at index `i` has resolved at most as many promises as it
/// initialized, even counting its still-active promises.
spec fn counters_ok(ts: Seq<(String, TestMetrics)>, ps: Seq<PromiseRec>, i: int) -> bool {
    ts[i].1.promises_resolved + count_owned(ps, i) <= ts[i].1.promises_initialized
}

spec fn unique_names(ts: Seq<(String, TestMetrics)>) -> bool {
    forall|a: int, b: int| 0 <= a < b < ts.len() ==> ts[a].0@ != ts[b].0@
}

spec fn unique_ids(ps: Seq<PromiseRec>) -> bool {
    forall|k: int, l: int| 0 <= k < l < ps.len() ==> ps[k].id != ps[l].id
}

proof fn lemma_tests_map_index(ts: Seq<(String, TestMetrics)>, i: int)
    requires
        unique_names(ts),
        0 <= i < ts.len(),
    ensures
        tests_map(ts).contains_key(ts[i].0@),
        tests_map(ts)[ts[i].0@] == metrics_val(ts[i].1),
    decreases ts.len(),
{
    if i < ts.len() - 1 {
        assert(ts.drop_last()[i] == ts[i]);
        lemma_tests_map_index(ts.drop_last(), i);
        assert(ts.last().0@ != ts[i].0@);
    }
}

proof fn lemma_tests_map_absent(ts: Seq<(String, TestMetrics)>, n: Seq<char>)
    requires
        forall|i: int| 0 <= i < ts.len() ==> ts[i].0@ != n,
    ensures
        !tests_map(ts).contains_key(n),
    decreases ts.len(),
{
    if ts.len() > 0 {
        lemma_tests_map_absent(ts.drop_last(), n);
    }
}

proof fn lemma_tests_map_domain(ts: Seq<(String, TestMetrics)>, n: Seq<char>)
    requires
        tests_map(ts).contains_key(n),
    ensures
        exists|i: int| 0 <= i < ts.len() && ts[i].0@ == n,
    decreases ts.len(),
{
    if ts.len() > 0 {
        if ts.last().0@ == n {
            assert(ts[ts.len() - 1].0@ == n);
        } else {
            lemma_tests_map_domain(ts.drop_last(), n);
            let i = choose|i: int| 0 <= i < ts.drop_last().len() && ts.drop_last()[i].0@ == n;
            assert(ts[i].0@ == n);
        }
    }
}

proof fn lemma_tests_map_update(ts: Seq<(String, TestMetrics)>, i: int, e: (String, TestMetrics))
    requires
        unique_names(ts),
        0 <= i < ts.len(),
        e.0@ == ts[i].0@,
    ensures
        tests_map(ts.update(i, e)) =~= tests_map(ts).insert(e.0@, metrics_val(e.1)),
    decreases ts.len(),
{
    let upd = ts.update(i, e);
    if i == ts.len() - 1 {
        assert(upd.drop_last() =~= ts.drop_last());
        assert(upd.last() == e);
    } else {
        assert(upd.drop_last() =~= ts.drop_last().update(i, e));
        assert(ts.drop_last()[i] == ts[i]);
        lemma_tests_map_update(ts.drop_last(), i, e);
        assert(upd.last() == ts.last());
        assert(ts.last().0@ != e.0@);
    }
}

proof fn lemma_owners_map_index(ps: Seq<PromiseRec>, names: Seq<Seq<char>>, k: int)
    requires
        unique_ids(ps),
        0 <= k < ps.len(),
    ensures
        owners_map(ps, names).contains_key(ps[k].id),
        owners_map(ps, names)[ps[k].id] == names[ps[k].owner as int],
    decreases ps.len(),
{
    if k < ps.len() - 1 {
        assert(ps.drop_last()[k] == ps[k]);
        lemma_owners_map_index(ps.drop_last(), names, k);
        assert(ps.last().id != ps[k].id);
    }
}

proof fn lemma_owners_map_absent(ps: Seq<PromiseRec>, names: Seq<Seq<char>>, id: u64)
    requires
        forall|k: int| 0 <= k < ps.len() ==> ps[k].id != id,
    ensures
        !owners_map(ps, names).contains_key(id),
    decreases ps.len(),
{
    if ps.len() > 0 {
        lemma_owners_map_absent(ps.drop_last(), names, id);
    }
}

proof fn lemma_owners_map_names_extend(
    ps: Seq<PromiseRec>,
    names1: Seq<Seq<char>>,
    names2: Seq<Seq<char>>,
)
    requires
        forall|k: int| 0 <= k < ps.len() ==> (#[trigger] ps[k]).owner < names1.len(),
        names1.len() <= names2.len(),
        forall|j: int| 0 <= j < names1.len() ==> names1[j] == names2[j],
    ensures
        owners_map(ps, names1) =~= owners_map(ps, names2),
    decreases ps.len(),
{
    if ps.len() > 0 {
        lemma_owners_map_names_extend(ps.drop_last(), names1, names2);
    }
}

proof fn lemma_owners_map_remove(ps: Seq<PromiseRec>, names: Seq<Seq<char>>, j: int)
    requires
        unique_ids(ps),
        0 <= j < ps.len(),
    ensures
        owners_map(ps.remove(j), names) =~= owners_map(ps, names).remove(ps[j].id),
    decreases ps.len(),
{
    if j == ps.len() - 1 {
        assert(ps.remove(j) =~= ps.drop_last());
        lemma_owners_map_absent(ps.drop_last(), names, ps[j].id);
    } else {
        let rem = ps.remove(j);
        assert(rem.drop_last() =~= ps.drop_last().remove(j));
        assert(ps.drop_last()[j] == ps[j]);
        lemma_owners_map_remove(ps.drop_last(), names, j);
        assert(rem.last() == ps.last());
        assert(ps.last().id != ps[j].id);
    }
}

proof fn lemma_owners_map_update(ps: Seq<PromiseRec>, names: Seq<Seq<char>>, j: int, r: PromiseRec)
    requires
        unique_ids(ps),
        0 <= j < ps.len(),
        r.id == ps[j].id,
    ensures
        owners_map(ps.update(j, r), names) =~= owners_map(ps, names).insert(
            r.id,
            names[r.owner as int],
        ),
    decreases ps.len(),
{
    let upd = ps.update(j, r);
    if j == ps.len() - 1 {
        assert(upd.drop_last() =~= ps.drop_last());
        assert(upd.last() == r);
    } else {
        assert(upd.drop_last() =~= ps.drop_last().update(j, r));
        assert(ps.drop_last()[j] == ps[j]);
        lemma_owners_map_update(ps.drop_last(), names, j, r);
        assert(upd.last() == ps.last());
        assert(ps.last().id != r.id);
    }
}

proof fn lemma_count_owned_push(ps: Seq<PromiseRec>, r: PromiseRec, o: int)
    ensures
        count_owned(ps.push(r), o) == count_owned(ps, o) + if r.owner == o {
            1nat
        } else {
            0nat
        },
{
    assert(ps.push(r).drop_last() =~= ps);
    assert(ps.push(r).last() == r);
}

proof fn lemma_count_owned_remove(ps: Seq<PromiseRec>, j: int, o: int)
    requires
        0 <= j < ps.len(),
    ensures
        count_owned(ps, o) == count_owned(ps.remove(j), o) + if ps[j].owner == o {
            1nat
        } else {
            0nat
        },
    decreases ps.len(),
{
    if j == ps.len() - 1 {
        assert(ps.remove(j) =~= ps.drop_last());
    } else {
        let rem = ps.remove(j);
        assert(rem.drop_last() =~= ps.drop_last().remove(j));
        assert(ps.drop_last()[j] == ps[j]);
        lemma_count_owned_remove(ps.drop_last(), j, o);
        assert(rem.last() == ps.last());
    }
}

proof fn lemma_count_owned_update(ps: Seq<PromiseRec>, j: int, r: PromiseRec, o: int)
    requires
        0 <= j < ps.len(),
    ensures
        count_owned(ps.update(j, r), o) + if ps[j].owner == o {
            1nat
        } else {
            0nat
        } == count_owned(ps, o) + if r.owner == o {
            1nat
        } else {
            0nat
        },
    decreases ps.len(),
{
    let upd = ps.update(j, r);
    if j == ps.len() - 1 {
        assert(upd.drop_last() =~= ps.drop_last());
        assert(upd.last() == r);
    } else {
        assert(upd.drop_last() =~= ps.drop_last().update(j, r));
        assert(ps.drop_last()[j] == ps[j]);
        lemma_count_owned_update(ps.drop_last(), j, r, o);
        assert(upd.last() == ps.last());
    }
}

proof fn lemma_count_owned_out_of_range(ps: Seq<PromiseRec>, n: int)
    requires
        forall|k: int| 0 <= k < ps.len() ==> (#[trigger] ps[k]).owner < n,
    ensures
        count_owned(ps, n) == 0,
    decreases ps.len(),
{
    if ps.len() > 0 {
        lemma_count_owned_out_of_range(ps.drop_last(), n);
    }
}

impl View for PromiseMetricsTracker {
    type V = TrackerModel;

    closed spec fn view(&self) -> TrackerModel {
        TrackerModel {
            current: match self.current {
                Some(i) => Some(self.tests@[i as int].0@),
                None => None,
            },
            tests: tests_map(self.tests@),
            owners: owners_map(self.promises@, test_names(self.tests@)),
        }
    }
}

impl PromiseMetricsTracker {
    /// Internal consistency: the bound index is in range, test names and
    /// active promise identities are unique, owners point into the test
    /// table, and each test's resolved counter plus its active promises
    /// never exceed its initialized counter.
    pub closed spec fn wf(self) -> bool {
        &&& match self.current {
            Some(i) => i < self.tests@.len(),
            None => true,
        }
        &&& unique_names(self.tests@)
        &&& unique_ids(self.promises@)
        &&& forall|k: int|
            0 <= k < self.promises@.len() ==> (#[trigger] self.promises@[k]).owner
                < self.tests@.len()
        &&& forall|i: int|
            0 <= i < self.tests@.len() ==> #[trigger] counters_ok(self.tests@, self.promises@, i)
    }

    /// A fresh tracker: no test bound, no counters, no active promises.
    pub fn new() -> (r: PromiseMetricsTracker)
        ensures
            r.wf(),
            r@ == (TrackerModel {
                current: None,
                tests: Map::<Seq<char>, (nat, nat)>::empty(),
                owners: Map::<u64, Seq<char>>::empty(),
            }),
    {
        PromiseMetricsTracker { tests: Vec::new(), promises: Vec::new(), current: None }
    }

    fn find_test(&self, name: &String) -> (r: Option<usize>)
        ensures
            match r {
                Some(i) => i < self.tests@.len() && self.tests@[i as int].0@ == name@,
                None => forall|i: int| 0 <= i < self.tests@.len() ==> self.tests@[i].0@ != name@,
            },
    {
        let n = self.tests.len();
        let mut i: usize = 0;
        while i < n
            invariant
                i <= n,
                n == self.tests@.len(),
                forall|j: int| 0 <= j < i ==> self.tests@[j].0@ != name@,
            decreases n - i,
        {
            if self.tests[i].0 == *name {
                return Some(i);
            }
            i = i + 1;
        }
        None
    }

    fn find_promise(&self, id: u64) -> (r: Option<usize>)
        ensures
            match r {
                Some(j) => j < self.promises@.len() && self.promises@[j as int].id == id,
                None => forall|k: int| 0 <= k < self.promises@.len() ==> self.promises@[k].id != id,
            },
    {
        let n = self.promises.len();
        let mut k: usize = 0;
        while k < n
            invariant
                k <= n,
                n == self.promises@.len(),
                forall|l: int| 0 <= l < k ==> self.promises@[l].id != id,
            decreases n - k,
        {
            if self.promises[k].id == id {
                return Some(k);
            }
            k = k + 1;
        }
        None
    }

    /// Rebinds the current test name. All promises initialized after this
    /// call, until the next rebinding, are attributed to `test_name`; a
    /// zeroed counter entry is created for it if absent.
    pub fn track(&mut self, test_name: String)
        requires
            old(self).wf(),
        ensures
            final(self).wf(),
            final(self)@ == spec_track(old(self)@, test_name@),
    {
        let ghost m0 = self@;
        match self.find_test(&test_name) {
            Some(i) => {
                self.current = Some(i);
                proof {
                    lemma_tests_map_index(self.tests@, i as int);
                    assert(self@.tests =~= spec_track(m0, test_name@).tests);
                    assert(self@.owners =~= spec_track(m0, test_name@).owners);
                }
            },
            None => {
                let idx = self.tests.len();
                proof {
                    lemma_tests_map_absent(self.tests@, test_name@);
                }
                let ghost ts0 = self.tests@;
                let ghost ps0 = self.promises@;
                self.tests.push(
                    (test_name, TestMetrics { promises_initialized: 0, promises_resolved: 0 }),
                );
                self.current = Some(idx);
                proof {
                    assert(self.tests@.drop_last() =~= ts0);
                    lemma_owners_map_names_extend(ps0, test_names(ts0), test_names(self.tests@));
                    assert(self@.tests =~= spec_track(m0, test_name@).tests);
                    assert(self@.owners =~= spec_track(m0, test_name@).owners);
                    lemma_count_owned_out_of_range(ps0, idx as int);
                    assert forall|i: int|
                        0 <= i < self.tests@.len() implies #[trigger] counters_ok(
                        self.tests@,
                        self.promises@,
                        i,
                    ) by {
                        if i < idx {
                            assert(self.tests@[i] == ts0[i]);
                            assert(counters_ok(ts0, ps0, i));
                        }
                    }
                }
            },
        }
    }

    /// A promise initialization event. With a test name bound, that test's
    /// initialized counter rises by one and the promise identity is recorded
    /// as owned by it (a reused identity is reattributed); with none bound,
    /// the event is ignored.
    pub fn initialized(&mut self, promise_id: u64)
        requires
            old(self).wf(),
            match old(self)@.current {
                Some(name) => old(self)@.tests[name].0 < u64::MAX,
                None => true,
            },
        ensures
            final(self).wf(),
            final(self)@ == spec_initialized(old(self)@, promise_id),
    {
        let ghost m0 = self@;
        let ci = match self.current {
            None => {
                return ;
            },
            Some(ci) => ci,
        };
        proof {
            lemma_tests_map_index(self.tests@, ci as int);
        }
        let ghost ts0 = self.tests@;
        let ghost ps0 = self.promises@;
        let bumped = TestMetrics {
            promises_initialized: self.tests[ci].1.promises_initialized + 1,
            promises_resolved: self.tests[ci].1.promises_resolved,
        };
        let name_ref = &self.tests[ci].0;
        self.tests[ci].1 = bumped;
        proof {
            assert(self.tests@ =~= ts0.update(ci as int, (ts0[ci as int].0, bumped)));
            lemma_tests_map_update(ts0, ci as int, (ts0[ci as int].0, bumped));
            assert(test_names(self.tests@) =~= test_names(ts0));
        }
        match self.find_promise(promise_id) {
            Some(j) => {
                let ghost oldrec = self.promises@[j as int];
                self.promises[j].owner = ci;
                proof {
                    let r = PromiseRec { id: promise_id, owner: ci };
                    assert(self.promises@ =~= ps0.update(j as int, r));
                    lemma_owners_map_update(ps0, test_names(ts0), j as int, r);
                    assert(self@.tests =~= spec_initialized(m0, promise_id).tests);
                    assert(self@.owners =~= spec_initialized(m0, promise_id).owners);
                    assert forall|i: int|
                        0 <= i < self.tests@.len() implies #[trigger] counters_ok(
                        self.tests@,
                        self.promises@,
                        i,
                    ) by {
                        lemma_count_owned_update(ps0, j as int, r, i);
                        assert(counters_ok(ts0, ps0, i));
                    }
                }
            },
            None => {
                let ghost r = PromiseRec { id: promise_id, owner: ci };
                self.promises.push(PromiseRec { id: promise_id, owner: ci });
                proof {
                    assert(self.promises@ =~= ps0.push(r));
                    assert(self.promises@.drop_last() =~= ps0);
                    assert(self@.tests =~= spec_initialized(m0, promise_id).tests);
                    assert(self@.owners =~= spec_initialized(m0, promise_id).owners);
                    assert forall|i: int|
                        0 <= i < self.tests@.len() implies #[trigger] counters_ok(
                        self.tests@,
                        self.promises@,
                        i,
                    ) by {
                        lemma_count_owned_push(ps0, r, i);
                        assert(counters_ok(ts0, ps0, i));
                    }
                }
            },
        }
    }

    /// A promise resolution event. If the identity is owned by some test,
    /// that test's resolved counter rises by one and the identity ceases to
    /// be active. Settlement of an untracked identity is silently ignored:
    /// it must never be counted.
    pub fn resolved(&mut self, promise_id: u64)
        requires
            old(self).wf(),
        ensures
            final(self).wf(),
            final(self)@ == spec_resolved(old(self)@, promise_id),
    {
        let ghost m0 = self@;
        match self.find_promise(promise_id) {
            None => {
                proof {
                    lemma_owners_map_absent(self.promises@, test_names(self.tests@), promise_id);
                }
            },
            Some(j) => {
                let o = self.promises[j].owner;
                proof {
                    lemma_owners_map_index(self.promises@, test_names(self.tests@), j as int);
                    lemma_tests_map_index(self.tests@, o as int);
                    lemma_count_owned_remove(self.promises@, j as int, o as int);
                    assert(counters_ok(self.tests@, self.promises@, o as int));
                }
                let ghost ts0 = self.tests@;
                let ghost ps0 = self.promises@;
                let bumped = TestMetrics {
                    promises_initialized: self.tests[o].1.promises_initialized,
                    promises_resolved: self.tests[o].1.promises_resolved + 1,
                };
                self.tests[o].1 = bumped;
                let removed = self.promises.remove(j);
                proof {
                    assert(self.tests@ =~= ts0.update(o as int, (ts0[o as int].0, bumped)));
                    lemma_tests_map_update(ts0, o as int, (ts0[o as int].0, bumped));
                    assert(test_names(self.tests@) =~= test_names(ts0));
                    lemma_owners_map_remove(ps0, test_names(ts0), j as int);
                    assert(self@.tests =~= spec_resolved(m0, promise_id).tests);
                    assert(self@.owners =~= spec_resolved(m0, promise_id).owners);
                    assert forall|i: int|
                        0 <= i < self.tests@.len() implies #[trigger] counters_ok(
                        self.tests@,
                        self.promises@,
                        i,
                    ) by {
                        lemma_count_owned_remove(ps0, j as int, i);
                        assert(counters_ok(ts0, ps0, i));
                    }
                }
            },
        }
    }

    /// Dispatches one VM lifecycle event to the tracker. Only `Init` and
    /// `Resolve` have an effect; other event kinds are ignored.
    pub fn on_promise_event(&mut self, kind: PromiseHookKind, promise_id: u64)
        requires
            old(self).wf(),
            match (kind, old(self)@.current) {
                (PromiseHookKind::Init, Some(name)) => old(self)@.tests[name].0 < u64::MAX,
                _ => true,
            },
        ensures
            final(self).wf(),
            final(self)@ == spec_event(old(self)@, kind, promise_id),
    {
        match kind {
            PromiseHookKind::Init => self.initialized(promise_id),
            PromiseHookKind::Resolve => self.resolved(promise_id),
            PromiseHookKind::Before => (),
            PromiseHookKind::After => (),
        }
    }

    /// Number of promises initialized under `test_name` but not yet
    /// resolved. A test that was never tracked has nothing pending.
    pub fn pending(&self, test_name: &String) -> (r: u64)
        requires
            self.wf(),
        ensures
            r as int == if self@.tests.contains_key(test_name@) {
                self@.tests[test_name@].0 - self@.tests[test_name@].1
            } else {
                0
            },
    {
        match self.find_test(test_name) {
            None => {
                proof {
                    lemma_tests_map_absent(self.tests@, test_name@);
                }
                0
            },
            Some(i) => {
                proof {
                    lemma_tests_map_index(self.tests@, i as int);
                    assert(counters_ok(self.tests@, self.promises@, i as int));
                }
                self.tests[i].1.promises_initialized - self.tests[i].1.promises_resolved
            },
        }
    }

    /// Pending count of the currently bound test, or zero when no test is
    /// bound.
    pub fn pending_current(&self) -> (r: u64)
        requires
            self.wf(),
        ensures
            r as int == match self@.current {
                Some(name) => self@.tests[name].0 - self@.tests[name].1,
                None => 0,
            },
    {
        match self.current {
            None => 0,
            Some(i) => {
                proof {
                    lemma_tests_map_index(self.tests@, i as int);
                    assert(counters_ok(self.tests@, self.promises@, i as int));
                }
                self.tests[i].1.promises_initialized - self.tests[i].1.promises_resolved
            },
        }
    }
}

/// In a well-formed tracker no test has resolved more promises than it
/// initialized: every pending count is non-negative.
pub proof fn lemma_pending_nonneg(t: PromiseMetricsTracker, name: Seq<char>)
    requires
        t.wf(),
        t@.tests.contains_key(name),
    ensures
        t@.tests[name].1 <= t@.tests[name].0,
{
    lemma_tests_map_domain(t.tests@, name);
    let i = choose|i: int| 0 <= i < t.tests@.len() && t.tests@[i].0@ == name;
    lemma_tests_map_index(t.tests@, i);
    assert(counters_ok(t.tests@, t.promises@, i));
}

/// Resolving an identity that was never initialized leaves every test's
/// metrics, the bound name, and the active-promise map unchanged.
pub proof fn lemma_resolve_untracked_unchanged(m: TrackerModel, id: u64)
    requires
        !m.owners.contains_key(id),
    ensures
        spec_resolved(m, id) == m,
{
}

/// After `track(a)` then `track(b)` with distinct names, an initialization
/// event is attributed to `b` alone: `b`'s initialized counter rises by one
/// while `a`'s metrics stay exactly as `track(b)` left them.
pub proof fn lemma_track_attributes_to_latest(m: TrackerModel, a: Seq<char>, b: Seq<char>, id: u64)
    requires
        a != b,
    ensures
        ({
            let m2 = spec_track(spec_track(m, a), b);
            let m3 = spec_initialized(m2, id);
            &&& m3.tests[b].0 == m2.tests[b].0 + 1
            &&& m3.tests[b].1 == m2.tests[b].1
            &&& m3.tests[a] == m2.tests[a]
            &&& m3.owners == m2.owners.insert(id, b)
        }),
{
}

/// One lifecycle event's exact effect on a test's pending count: an
/// initialization under the bound name raises it by one, a resolution of a
/// promise that test owns lowers it by one, and every other event — an
/// initialization attributed elsewhere, a resolution of an untracked or
/// foreign promise, any ignored event kind — leaves it unchanged. Replayed
/// over any event sequence, pending is therefore the number of
/// initializations minus the number of owned resolutions.
pub proof fn lemma_event_pending_accounting(
    m: TrackerModel,
    kind: PromiseHookKind,
    id: u64,
    name: Seq<char>,
)
    requires
        m.tests.contains_key(name),
        match m.current {
            Some(n) => m.tests.contains_key(n),
            None => true,
        },
    ensures
        spec_event(m, kind, id).tests.contains_key(name),
        spec_event(m, kind, id).tests[name].0 - spec_event(m, kind, id).tests[name].1
            == m.tests[name].0 - m.tests[name].1 + (match kind {
            PromiseHookKind::Init => if m.current == Some(name) {
                1int
            } else {
                0int
            },
            PromiseHookKind::Resolve => if m.owners.contains_key(id) && m.owners[id] == name {
                -1int
            } else {
                0int
            },
            PromiseHookKind::Before => 0int,
            PromiseHookKind::After => 0int,
        }),
{
}

} // verus!

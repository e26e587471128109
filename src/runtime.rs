use vstd::prelude::*;

verus! {

/// Signals and effects of one reactive scope.
///
/// Effects are stored column-wise: entry `e` of each vector belongs to effect `e`.
/// An effect's external resource (a repeating timer) is held as an opaque handle;
/// the host starts and stops the timer and tells the runtime about it.
pub struct Runtime {
    pub values: Vec<u64>,
    pub deps: Vec<Vec<usize>>,
    pub dirty: Vec<bool>,
    pub disposed: Vec<bool>,
    /// effects terminated because their body failed, kept for the scope to report
    pub failed: Vec<bool>,
    pub timer: Vec<Option<u64>>,
    /// how many handles each effect has acquired so far
    pub acquired: Ghost<Seq<nat>>,
    /// how many handles each effect has handed back for release
    pub released: Ghost<Seq<nat>>,
    /// the effect whose body is running, if any
    pub active: Option<usize>,
    /// the scope has been disposed: every effect is gone and writes do nothing
    pub closed: bool,
}

pub open spec fn live_count(t: Option<u64>) -> nat {
    if t is Some { 1 } else { 0 }
}

impl Runtime {
    pub open spec fn n_effects(&self) -> nat {
        self.dirty@.len()
    }

    pub open spec fn depends_on(&self, e: int, s: usize) -> bool {
        self.deps@[e]@.contains(s)
    }

    pub open spec fn wf(&self) -> bool {
        &&& self.deps@.len() == self.n_effects()
        &&& self.disposed@.len() == self.n_effects()
        &&& self.failed@.len() == self.n_effects()
        &&& self.timer@.len() == self.n_effects()
        &&& self.acquired@.len() == self.n_effects()
        &&& self.released@.len() == self.n_effects()
        &&& forall|e: int, k: int| 0 <= e < self.n_effects() && 0 <= k < self.deps@[e]@.len()
            ==> (#[trigger] self.deps@[e]@[k]) < self.values@.len()
        &&& forall|e: int| 0 <= e < self.n_effects() ==> #[trigger] self.effect_ok(e)
        &&& self.closed ==> forall|e: int| 0 <= e < self.n_effects() ==> #[trigger] self.disposed@[e]
        &&& self.active is Some ==> {
            &&& self.active.unwrap() < self.n_effects()
            &&& !self.disposed@[self.active.unwrap() as int]
        }
    }

    pub open spec fn effect_ok(&self, e: int) -> bool {
            &&& self.acquired@[e] == self.released@[e] + live_count(self.timer@[e])
            &&& self.failed@[e] ==> self.disposed@[e]
            &&& self.disposed@[e] ==> {
                &&& self.deps@[e]@.len() == 0
                &&& !self.dirty@[e]
                &&& self.timer@[e] is None
            }
    }

    /// An empty scope with no signals and no effects.
    pub fn new() -> (r: Runtime)
        ensures
            r.wf(),
            r.values@.len() == 0,
            r.n_effects() == 0,
            r.active is None,
            !r.closed,
    {
        Runtime {
            values: Vec::new(),
            deps: Vec::new(),
            dirty: Vec::new(),
            disposed: Vec::new(),
            failed: Vec::new(),
            timer: Vec::new(),
            acquired: Ghost(Seq::empty()),
            released: Ghost(Seq::empty()),
            active: None,
            closed: false,
        }
    }

    /// Allocates a signal holding `initial`; returns its id.
    pub fn create_signal(&mut self, initial: u64) -> (s: usize)
        requires
            old(self).wf(),
            old(self).values@.len() < usize::MAX,
        ensures
            final(self).wf(),
            final(self).closed == old(self).closed,
            final(self).failed == old(self).failed,
            final(self).acquired == old(self).acquired,
            final(self).released == old(self).released,
            s == old(self).values@.len(),
            final(self).values@ == old(self).values@.push(initial),
            final(self).deps == old(self).deps,
            final(self).dirty == old(self).dirty,
            final(self).disposed == old(self).disposed,
            final(self).timer == old(self).timer,
            final(self).active == old(self).active,
    {
        let s = self.values.len();
        self.values.push(initial);
        proof { lemma_frame(*old(self), *self, -1); }
        s
    }

    /// Registers a new effect; the host runs its body once right away
    /// through `begin_run` and `end_run`.
    pub fn create_effect(&mut self) -> (e: usize)
        requires
            old(self).wf(),
            old(self).n_effects() < usize::MAX,
            !old(self).closed,
        ensures
            final(self).wf(),
            final(self).closed == old(self).closed,
            !final(self).failed@[e as int],
            final(self).failed@ == old(self).failed@.push(false),
            final(self).acquired@ == old(self).acquired@.push(0),
            final(self).released@ == old(self).released@.push(0),
            e == old(self).n_effects(),
            final(self).n_effects() == old(self).n_effects() + 1,
            final(self).values == old(self).values,
            final(self).active == old(self).active,
            !final(self).disposed@[e as int],
            !final(self).dirty@[e as int],
            final(self).timer@[e as int] is None,
            final(self).deps@[e as int]@.len() == 0,
            forall|f: int| 0 <= f < old(self).n_effects() ==> {
                &&& final(self).deps@[f] == old(self).deps@[f]
                &&& final(self).dirty@[f] == old(self).dirty@[f]
                &&& final(self).disposed@[f] == old(self).disposed@[f]
                &&& final(self).timer@[f] == old(self).timer@[f]
            },
    {
        let e = self.dirty.len();
        self.deps.push(Vec::new());
        self.dirty.push(false);
        self.disposed.push(false);
        self.failed.push(false);
        self.timer.push(None);
        self.acquired = Ghost(self.acquired@.push(0));
        self.released = Ghost(self.released@.push(0));
        assert forall|f: int| 0 <= f < self.n_effects() implies #[trigger] self.effect_ok(f) by {
            if f < e {
                assert(old(self).effect_ok(f));
            }
        }
        assert forall|f: int, k: int| 0 <= f < self.n_effects() && 0 <= k < self.deps@[f]@.len()
            implies (#[trigger] self.deps@[f]@[k]) < self.values@.len() by {
            assert(old(self).deps@[f]@[k] < old(self).values@.len());
        }
        e
    }

    /// Starts a run of effect `e`. Returns the handle acquired by the previous
    /// run, which the host must release before the body executes; the old
    /// dependencies are dropped and are recorded afresh during this run.
    pub fn begin_run(&mut self, e: usize) -> (cleanup: Option<u64>)
        requires
            old(self).wf(),
            e < old(self).n_effects(),
            !old(self).disposed@[e as int],
            old(self).active is None,
        ensures
            final(self).wf(),
            final(self).closed == old(self).closed,
            final(self).failed == old(self).failed,
            cleanup == old(self).timer@[e as int],
            final(self).active == Some(e),
            final(self).timer@ == old(self).timer@.update(e as int, None),
            final(self).deps@[e as int]@.len() == 0,
            final(self).dirty@ == old(self).dirty@.update(e as int, false),
            final(self).disposed == old(self).disposed,
            final(self).values == old(self).values,
            final(self).acquired@ == old(self).acquired@,
            final(self).released@ == old(self).released@.update(e as int,
                old(self).released@[e as int] + live_count(old(self).timer@[e as int])),
            forall|f: int| 0 <= f < old(self).n_effects() && f != e ==> final(self).deps@[f] == old(self).deps@[f],
    {
        let cleanup = self.timer[e];
        self.timer.set(e, None);
        self.deps.set(e, Vec::new());
        self.dirty.set(e, false);
        self.released = Ghost(self.released@.update(e as int, self.released@[e as int] + live_count(cleanup)));
        self.active = Some(e);
        proof {
            assert(old(self).effect_ok(e as int));
            lemma_frame(*old(self), *self, e as int);
        }
        cleanup
    }

    /// Ends the run of the active effect `e`; `handle` is the external
    /// resource its body acquired, if any.
    pub fn end_run(&mut self, e: usize, handle: Option<u64>)
        requires
            old(self).wf(),
            old(self).active == Some(e),
            old(self).timer@[e as int] is None,
        ensures
            final(self).wf(),
            final(self).closed == old(self).closed,
            final(self).failed == old(self).failed,
            final(self).active is None,
            final(self).timer@ == old(self).timer@.update(e as int, handle),
            final(self).acquired@ == old(self).acquired@.update(e as int,
                old(self).acquired@[e as int] + live_count(handle)),
            final(self).released@ == old(self).released@,
            final(self).deps == old(self).deps,
            final(self).dirty == old(self).dirty,
            final(self).disposed == old(self).disposed,
            final(self).values == old(self).values,
    {
        self.timer.set(e, handle);
        self.acquired = Ghost(self.acquired@.update(e as int, self.acquired@[e as int] + live_count(handle)));
        self.active = None;
        proof {
            assert(old(self).effect_ok(e as int));
            lemma_frame(*old(self), *self, e as int);
        }
    }

    /// Reads signal `s`. Inside a run, the running effect becomes a
    /// subscriber of `s` (once per run, however often it reads).
    pub fn get(&mut self, s: usize) -> (v: u64)
        requires
            old(self).wf(),
            s < old(self).values@.len(),
        ensures
            final(self).wf(),
            final(self).closed == old(self).closed,
            final(self).failed == old(self).failed,
            final(self).acquired == old(self).acquired,
            final(self).released == old(self).released,
            v == old(self).values@[s as int],
            final(self).values == old(self).values,
            final(self).dirty == old(self).dirty,
            final(self).disposed == old(self).disposed,
            final(self).timer == old(self).timer,
            final(self).active == old(self).active,
            old(self).active is None ==> final(self).deps == old(self).deps,
            old(self).active is Some ==> {
                let a = old(self).active.unwrap() as int;
                &&& forall|x: usize| #[trigger] final(self).depends_on(a, x) <==> (old(self).depends_on(a, x) || x == s)
                &&& forall|f: int| 0 <= f < old(self).n_effects() && f != a ==> final(self).deps@[f] == old(self).deps@[f]
            },
    {
        if let Some(a) = self.active {
            if !contains(&self.deps[a], s) {
                let d = pushed(&self.deps[a], s);
                self.deps.set(a, d);
                assert forall|f: int| 0 <= f < self.n_effects() implies #[trigger] self.effect_ok(f) by {
                    assert(old(self).effect_ok(f));
                }
                assert forall|f: int, k: int| 0 <= f < self.n_effects() && 0 <= k < self.deps@[f]@.len()
                    implies (#[trigger] self.deps@[f]@[k]) < self.values@.len() by {
                    if f != a || k < old(self).deps@[f]@.len() {
                        assert(old(self).deps@[f]@[k] < old(self).values@.len());
                    }
                }
                assert forall|x: usize| #[trigger] self.depends_on(a as int, x) <==> (old(self).depends_on(a as int, x) || x == s) by {
                    if x == s {
                        assert(self.deps@[a as int]@[old(self).deps@[a as int]@.len() as int] == s);
                    }
                    if self.depends_on(a as int, x) {
                        let k = choose|k: int| 0 <= k < self.deps@[a as int]@.len() && self.deps@[a as int]@[k] == x;
                        if k < old(self).deps@[a as int]@.len() {
                            assert(old(self).deps@[a as int]@[k] == x);
                        }
                    }
                    if old(self).depends_on(a as int, x) {
                        let k = choose|k: int| 0 <= k < old(self).deps@[a as int]@.len() && old(self).deps@[a as int]@[k] == x;
                        assert(self.deps@[a as int]@[k] == x);
                    }
                }
            }
        }
        self.values[s]
    }

    /// Writes `v` into signal `s`. The write is seen at once by later reads;
    /// every live subscriber of `s` is marked for one re-run at the next flush.
    pub fn set(&mut self, s: usize, v: u64)
        requires
            old(self).wf(),
            s < old(self).values@.len(),
        ensures
            final(self).wf(),
            old(self).closed ==> *final(self) == *old(self),
            !old(self).closed ==> final(self).values@ == old(self).values@.update(s as int, v),
            final(self).dirty@ == marks_after_write(old(self).dirty@, *old(self), s),
            final(self).n_effects() == old(self).n_effects(),
            final(self).closed == old(self).closed,
            final(self).failed == old(self).failed,
            final(self).deps == old(self).deps,
            final(self).disposed == old(self).disposed,
            final(self).timer == old(self).timer,
            final(self).active == old(self).active,
            final(self).acquired == old(self).acquired,
            final(self).released == old(self).released,
    {
        if self.closed {
            assert(self.dirty@ =~= marks_after_write(old(self).dirty@, *old(self), s));
            return;
        }
        self.values.set(s, v);
        let n = self.dirty.len();
        let mut i: usize = 0;
        while i < n
            invariant
                n == self.n_effects(),
                n == old(self).n_effects(),
                i <= n,
                self.values@ == old(self).values@.update(s as int, v),
                self.deps == old(self).deps,
                self.disposed == old(self).disposed,
                self.failed == old(self).failed,
                self.closed == old(self).closed,
                self.timer == old(self).timer,
                self.active == old(self).active,
                self.acquired == old(self).acquired,
                self.released == old(self).released,
                old(self).wf(),
                forall|e: int| 0 <= e < i ==> #[trigger] self.dirty@[e]
                    == (old(self).dirty@[e] || (!old(self).disposed@[e] && old(self).depends_on(e, s))),
                forall|e: int| i <= e < n ==> #[trigger] self.dirty@[e] == old(self).dirty@[e],
            decreases n - i,
        {
            if !self.disposed[i] && contains(&self.deps[i], s) {
                self.dirty.set(i, true);
            }
            i = i + 1;
        }
        proof { lemma_frame(*old(self), *self, -1); }
        assert(self.dirty@ =~= marks_after_write(old(self).dirty@, *old(self), s));
    }

    /// The flush point: returns, in increasing order and each once, the
    /// effects marked since the last flush, and clears the marks.
    pub fn flush(&mut self) -> (due: Vec<usize>)
        requires
            old(self).wf(),
        ensures
            final(self).wf(),
            final(self).closed == old(self).closed,
            final(self).failed == old(self).failed,
            forall|i: int, j: int| 0 <= i < j < due@.len() ==> due@[i] < due@[j],
            forall|e: int| 0 <= e < old(self).n_effects() ==>
                (due@.contains(e as usize) <==> #[trigger] old(self).dirty@[e]),
            forall|i: int| 0 <= i < due@.len() ==> due@[i] < old(self).n_effects(),
            forall|e: int| 0 <= e < old(self).n_effects() ==> !(#[trigger] final(self).dirty@[e]),
            final(self).n_effects() == old(self).n_effects(),
            final(self).values == old(self).values,
            final(self).deps == old(self).deps,
            final(self).disposed == old(self).disposed,
            final(self).timer == old(self).timer,
            final(self).active == old(self).active,
            final(self).acquired == old(self).acquired,
            final(self).released == old(self).released,
    {
        let n = self.dirty.len();
        let mut due: Vec<usize> = Vec::new();
        let mut i: usize = 0;
        while i < n
            invariant
                n == self.n_effects(),
                n == old(self).n_effects(),
                i <= n,
                self.values == old(self).values,
                self.deps == old(self).deps,
                self.disposed == old(self).disposed,
                self.failed == old(self).failed,
                self.closed == old(self).closed,
                self.timer == old(self).timer,
                self.active == old(self).active,
                self.acquired == old(self).acquired,
                self.released == old(self).released,
                old(self).wf(),
                forall|a: int, b: int| 0 <= a < b < due@.len() ==> due@[a] < due@[b],
                forall|a: int| 0 <= a < due@.len() ==> due@[a] < i,
                forall|e: int| 0 <= e < i ==> (due@.contains(e as usize) <==> #[trigger] old(self).dirty@[e]),
                forall|e: int| 0 <= e < i ==> !(#[trigger] self.dirty@[e]),
                forall|e: int| i <= e < n ==> #[trigger] self.dirty@[e] == old(self).dirty@[e],
            decreases n - i,
        {
            let ghost prev = due@;
            if self.dirty[i] {
                due.push(i);
                self.dirty.set(i, false);
            }
            assert forall|e: int| 0 <= e <= i implies (due@.contains(e as usize) <==> #[trigger] old(self).dirty@[e]) by {
                if due@.contains(e as usize) {
                    let k = choose|k: int| 0 <= k < due@.len() && due@[k] == e as usize;
                    if k < prev.len() {
                        assert(prev[k] == e);
                        assert(prev.contains(e as usize));
                    }
                }
                if old(self).dirty@[e] {
                    if e < i {
                        assert(prev.contains(e as usize));
                        let k = choose|k: int| 0 <= k < prev.len() && prev[k] == e as usize;
                        assert(due@[k] == e);
                    } else {
                        assert(due@[due@.len() - 1] == i);
                    }
                }
            }
            i = i + 1;
        }
        assert forall|f: int| 0 <= f < self.n_effects() implies #[trigger] self.effect_ok(f) by {
            assert(old(self).effect_ok(f));
        }
        due
    }

    /// Disposes effect `e`: returns the handle its last run acquired, for the
    /// host to release, and cuts it from every signal for good.
    pub fn dispose(&mut self, e: usize) -> (cleanup: Option<u64>)
        requires
            old(self).wf(),
            e < old(self).n_effects(),
            old(self).active != Some(e),
        ensures
            final(self).wf(),
            final(self).closed == old(self).closed,
            final(self).failed == old(self).failed,
            final(self).acquired == old(self).acquired,
            final(self).released@ == old(self).released@.update(e as int,
                old(self).released@[e as int] + live_count(old(self).timer@[e as int])),
            cleanup == old(self).timer@[e as int],
            final(self).disposed@ == old(self).disposed@.update(e as int, true),
            final(self).timer@ == old(self).timer@.update(e as int, None),
            final(self).dirty@ == old(self).dirty@.update(e as int, false),
            final(self).deps@[e as int]@.len() == 0,
            forall|f: int| 0 <= f < old(self).n_effects() && f != e ==> final(self).deps@[f] == old(self).deps@[f],
            final(self).values == old(self).values,
            final(self).active == old(self).active,
    {
        let cleanup = self.timer[e];
        self.timer.set(e, None);
        self.deps.set(e, Vec::new());
        self.dirty.set(e, false);
        self.disposed.set(e, true);
        self.released = Ghost(self.released@.update(e as int, self.released@[e as int] + live_count(cleanup)));
        proof {
            assert(old(self).effect_ok(e as int));
            lemma_frame(*old(self), *self, e as int);
        }
        cleanup
    }

    /// Replaces the value of signal `s` by `f` of it, in one step, with the
    /// same notification as `set`.
    pub fn update<F: Fn(u64) -> u64>(&mut self, s: usize, f: F)
        requires
            old(self).wf(),
            s < old(self).values@.len(),
            f.requires((old(self).values@[s as int],)),
        ensures
            final(self).wf(),
            old(self).closed ==> *final(self) == *old(self),
            !old(self).closed ==> exists|v: u64| f.ensures((old(self).values@[s as int],), v)
                && final(self).values@ == old(self).values@.update(s as int, v),
            final(self).dirty@ == marks_after_write(old(self).dirty@, *old(self), s),
            final(self).closed == old(self).closed,
            final(self).failed == old(self).failed,
            final(self).deps == old(self).deps,
            final(self).disposed == old(self).disposed,
            final(self).timer == old(self).timer,
            final(self).active == old(self).active,
            final(self).acquired == old(self).acquired,
            final(self).released == old(self).released,
    {
        let v = f(self.values[s]);
        self.set(s, v);
    }

    /// Disposes the whole scope: every effect is disposed, and later writes
    /// do nothing. Returns, for each effect, the handle the host must release.
    pub fn dispose_scope(&mut self) -> (cleanups: Vec<Option<u64>>)
        requires
            old(self).wf(),
            old(self).active is None,
        ensures
            final(self).wf(),
            final(self).closed,
            cleanups@ == old(self).timer@,
            final(self).n_effects() == old(self).n_effects(),
            forall|e: int| 0 <= e < old(self).n_effects() ==> {
                &&& #[trigger] final(self).disposed@[e]
                &&& final(self).timer@[e] is None
                &&& !final(self).dirty@[e]
                &&& final(self).released@[e] == final(self).acquired@[e]
            },
            final(self).failed == old(self).failed,
            final(self).values == old(self).values,
            final(self).active is None,
    {
        let n = self.dirty.len();
        let mut cleanups: Vec<Option<u64>> = Vec::new();
        let mut i: usize = 0;
        while i < n
            invariant
                self.wf(),
                old(self).wf(),
                n == self.n_effects(),
                n == old(self).n_effects(),
                i <= n,
                self.closed == old(self).closed,
                self.active is None,
                self.values == old(self).values,
                self.failed == old(self).failed,
                cleanups@ == old(self).timer@.subrange(0, i as int),
                forall|e: int| i <= e < n ==> #[trigger] self.timer@[e] == old(self).timer@[e],
                forall|e: int| 0 <= e < i ==> #[trigger] self.disposed@[e] && self.timer@[e] is None && !self.dirty@[e],
            decreases n - i,
        {
            let ghost before = self.timer@;
            let ghost before_disposed = self.disposed@;
            let ghost before_dirty = self.dirty@;
            let c = self.dispose(i);
            assert forall|e: int| 0 <= e < i + 1 implies #[trigger] self.disposed@[e] && self.timer@[e] is None
                && !self.dirty@[e] by {
                if e < i {
                    assert(before_disposed[e] && before[e] is None && !before_dirty[e]);
                }
            }
            cleanups.push(c);
            assert(cleanups@ =~= old(self).timer@.subrange(0, i + 1));
            assert forall|e: int| i < e < n implies #[trigger] self.timer@[e] == old(self).timer@[e] by {
                assert(before[e] == old(self).timer@[e]);
            }
            i = i + 1;
        }
        assert(cleanups@ =~= old(self).timer@);
        let ghost open_scope = *self;
        self.closed = true;
        assert forall|e: int| 0 <= e < self.n_effects() implies #[trigger] self.effect_ok(e) by {
            assert(open_scope.effect_ok(e));
        }
        assert forall|e: int| 0 <= e < n implies #[trigger] self.disposed@[e] && self.timer@[e] is None
            && !self.dirty@[e] && self.released@[e] == self.acquired@[e] by {
            assert(self.effect_ok(e));
        }
        cleanups
    }

    /// The body of the active effect `e` failed: the run ends and `e` is
    /// terminated, so no write can mark it again. The previous run's handle
    /// was already handed back by `begin_run`, and this run acquired none.
    pub fn abort_run(&mut self, e: usize)
        requires
            old(self).wf(),
            old(self).active == Some(e),
            old(self).timer@[e as int] is None,
        ensures
            final(self).wf(),
            final(self).closed == old(self).closed,
            final(self).acquired == old(self).acquired,
            final(self).released == old(self).released,
            final(self).failed@ == old(self).failed@.update(e as int, true),
            final(self).active is None,
            final(self).disposed@ == old(self).disposed@.update(e as int, true),
            final(self).dirty@ == old(self).dirty@.update(e as int, false),
            final(self).deps@[e as int]@.len() == 0,
            forall|f: int| 0 <= f < old(self).n_effects() && f != e ==> final(self).deps@[f] == old(self).deps@[f],
            final(self).timer == old(self).timer,
            final(self).values == old(self).values,
    {
        self.deps.set(e, Vec::new());
        self.dirty.set(e, false);
        self.disposed.set(e, true);
        self.failed.set(e, true);
        self.active = None;
        proof {
            assert(old(self).effect_ok(e as int));
            lemma_frame(*old(self), *self, e as int);
        }
    }

    /// One tick of the repeating timer owned by effect `e`: adds one to the
    /// counter signal `s`, unless `e` has been disposed, in which case a tick
    /// that still arrives changes nothing.
    pub fn tick(&mut self, e: usize, s: usize)
        requires
            old(self).wf(),
            e < old(self).n_effects(),
            s < old(self).values@.len(),
            old(self).values@[s as int] < u64::MAX,
        ensures
            final(self).wf(),
            final(self).closed == old(self).closed,
            final(self).failed == old(self).failed,
            final(self).acquired == old(self).acquired,
            final(self).released == old(self).released,
            final(self).active == old(self).active,
            !old(self).disposed@[e as int] ==> final(self).dirty@ == marks_after_write(old(self).dirty@, *old(self), s),
            old(self).disposed@[e as int] ==> final(self).dirty == old(self).dirty,
            old(self).disposed@[e as int] ==> *final(self) == *old(self),
            !old(self).disposed@[e as int] ==>
                final(self).values@ == old(self).values@.update(s as int, (old(self).values@[s as int] + 1) as u64),
            final(self).disposed == old(self).disposed,
            final(self).timer == old(self).timer,
            final(self).deps == old(self).deps,
    {
        if !self.disposed[e] {
            let v = self.values[s];
            self.set(s, v + 1);
        }
    }
}

/// A step that leaves every effect but `k` as it was (a write may only mark
/// live effects), keeps `k` well formed and does not shrink the signal store
/// keeps the per-effect part of `wf`.
proof fn lemma_frame(a: Runtime, b: Runtime, k: int)
    requires
        a.wf(),
        b.n_effects() == a.n_effects(),
        b.deps@.len() == a.n_effects(),
        b.timer@.len() == a.n_effects(),
        b.disposed@.len() == a.n_effects(),
        b.failed@.len() == a.n_effects(),
        b.acquired@.len() == a.n_effects(),
        b.released@.len() == a.n_effects(),
        a.values@.len() <= b.values@.len(),
        forall|e: int| 0 <= e < a.n_effects() && e != k ==> #[trigger] b.deps@[e] == a.deps@[e],
        forall|e: int| 0 <= e < a.n_effects() && e != k ==> #[trigger] b.timer@[e] == a.timer@[e],
        forall|e: int| 0 <= e < a.n_effects() && e != k ==> #[trigger] b.disposed@[e] == a.disposed@[e],
        forall|e: int| 0 <= e < a.n_effects() && e != k ==> #[trigger] b.failed@[e] == a.failed@[e],
        forall|e: int| 0 <= e < a.n_effects() && e != k ==> #[trigger] b.acquired@[e] == a.acquired@[e],
        forall|e: int| 0 <= e < a.n_effects() && e != k ==> #[trigger] b.released@[e] == a.released@[e],
        forall|e: int| 0 <= e < a.n_effects() && e != k ==> (#[trigger] b.dirty@[e] ==> a.dirty@[e] || !a.disposed@[e]),
        0 <= k < a.n_effects() ==> {
            &&& b.effect_ok(k)
            &&& (b.deps@[k]@.len() == 0 || b.deps@[k] == a.deps@[k])
        },
    ensures
        forall|e: int| 0 <= e < b.n_effects() ==> #[trigger] b.effect_ok(e),
        forall|e: int, j: int| 0 <= e < b.n_effects() && 0 <= j < b.deps@[e]@.len()
            ==> (#[trigger] b.deps@[e]@[j]) < b.values@.len(),
{
    assert forall|e: int| 0 <= e < b.n_effects() implies #[trigger] b.effect_ok(e) by {
        assert(a.effect_ok(e));
        if e != k {
            assert(b.dirty@[e] ==> a.dirty@[e] || !a.disposed@[e]);
            assert(b.deps@[e] == a.deps@[e]);
        }
    }
    assert forall|e: int, j: int| 0 <= e < b.n_effects() && 0 <= j < b.deps@[e]@.len()
        implies (#[trigger] b.deps@[e]@[j]) < b.values@.len() by {
        assert(b.deps@[e] == a.deps@[e]);
        assert(a.deps@[e]@[j] < a.values@.len());
    }
}

/// The re-run marks after a write to `s`, starting from marks `d`: an effect
/// is marked if it was, or if it is live and subscribed to `s`.
pub open spec fn marks_after_write(d: Seq<bool>, rt: Runtime, s: usize) -> Seq<bool> {
    Seq::new(d.len(), |e: int| d[e] || (!rt.disposed@[e] && rt.depends_on(e, s)))
}

/// Any number of writes to one signal within one synchronous block mark each
/// live subscriber exactly as one write does, so the next flush re-runs it
/// exactly once, and marks nothing else.
pub proof fn lemma_writes_mark_once(rt: Runtime, s: usize)
    requires
        rt.wf(),
    ensures
        marks_after_write(marks_after_write(rt.dirty@, rt, s), rt, s) == marks_after_write(rt.dirty@, rt, s),
        forall|e: int| 0 <= e < rt.n_effects() ==>
            (#[trigger] marks_after_write(rt.dirty@, rt, s)[e] <==> (rt.dirty@[e] || (!rt.disposed@[e] && rt.depends_on(e, s)))),
{
    assert(marks_after_write(marks_after_write(rt.dirty@, rt, s), rt, s) =~= marks_after_write(rt.dirty@, rt, s));
}

/// An effect holds at most one live external resource, and every resource it
/// acquired but the live one has been handed back for release: after N runs
/// that each acquired one, N - 1 have been released.
pub proof fn lemma_one_live_resource(rt: Runtime, e: int)
    requires
        rt.wf(),
        0 <= e < rt.n_effects(),
    ensures
        live_count(rt.timer@[e]) <= 1,
        rt.acquired@[e] == rt.released@[e] + live_count(rt.timer@[e]),
        rt.timer@[e] is Some ==> rt.released@[e] == rt.acquired@[e] - 1,
{
    assert(rt.effect_ok(e));
}

/// A disposed effect holds no resource and no subscription, and no write can
/// mark it for a re-run.
pub proof fn lemma_disposed_is_inert(rt: Runtime, e: int, s: usize)
    requires
        rt.wf(),
        0 <= e < rt.n_effects(),
        rt.disposed@[e],
    ensures
        rt.timer@[e] is None,
        !rt.depends_on(e, s),
        !marks_after_write(rt.dirty@, rt, s)[e],
{
    assert(rt.effect_ok(e));
}

/// Whether `x` occurs in `v`.
pub(crate) fn contains(v: &Vec<usize>, x: usize) -> (r: bool)
    ensures
        r == v@.contains(x),
{
    let mut i: usize = 0;
    while i < v.len()
        invariant
            i <= v@.len(),
            forall|j: int| 0 <= j < i ==> v@[j] != x,
        decreases v@.len() - i,
    {
        if v[i] == x {
            return true;
        }
        i = i + 1;
    }
    false
}

/// A copy of `v` with `x` appended.
fn pushed(v: &Vec<usize>, x: usize) -> (r: Vec<usize>)
    ensures
        r@ == v@.push(x),
{
    let mut r: Vec<usize> = Vec::new();
    let mut i: usize = 0;
    while i < v.len()
        invariant
            i <= v@.len(),
            r@ == v@.subrange(0, i as int),
        decreases v@.len() - i,
    {
        r.push(v[i]);
        i = i + 1;
    }
    assert(r@ == v@);
    r.push(x);
    r
}

} // verus!

use vstd::prelude::*;

use crate::runtime::{contains, marks_after_write, Runtime};

verus! {

/// What a resource holds: still loading, a value, or an error code.
#[derive(Clone, Copy, Debug, PartialEq, Eq, Structural)]
pub enum ResourceState {
    Pending,
    Ready(u64),
    Failed(u64),
}

/// A one-shot asynchronous computation seen as a reactive value.
///
/// Every launch of the fetcher gets a new generation; only the result tagged
/// with the current generation may settle the state. Older results are dropped,
/// and so is every result that arrives after the resource was torn down.
#[derive(Clone, Copy)]
pub struct Resource {
    pub generation: u64,
    pub state: ResourceState,
    pub disposed: bool,
}

impl Resource {
    /// A resource whose first fetch has been launched: generation 1, pending.
    pub fn new() -> (r: Resource)
        ensures
            r.generation == 1,
            r.state == ResourceState::Pending,
            !r.disposed,
    {
        Resource { generation: 1, state: ResourceState::Pending, disposed: false }
    }

    /// The key changed: launch a new fetch. Returns the tag the fetch must carry.
    pub fn refetch(&mut self) -> (g: u64)
        requires
            old(self).generation < u64::MAX,
            !old(self).disposed,
        ensures
            g == old(self).generation + 1,
            final(self).generation == g,
            final(self).state == ResourceState::Pending,
            !final(self).disposed,
    {
        self.generation = self.generation + 1;
        self.state = ResourceState::Pending;
        self.generation
    }

    /// A fetch tagged `g` finished with `outcome`. It settles the state when `g`
    /// is the current generation and the resource is live, and is ignored
    /// otherwise. Returns whether it
    /// was applied, which is when subscribers must be notified.
    pub fn complete(&mut self, g: u64, outcome: Result<u64, u64>) -> (applied: bool)
        ensures
            applied == (g == old(self).generation && !old(self).disposed),
            *final(self) == after_complete(*old(self), g, outcome),
    {
        if g == self.generation && !self.disposed {
            self.state = match outcome {
                Ok(v) => ResourceState::Ready(v),
                Err(e) => ResourceState::Failed(e),
            };
            true
        } else {
            false
        }
    }

    /// Reads the resource in scope `rt`, whose signal `sig` stands for it:
    /// the running effect, if any, subscribes to `sig` as with `Runtime::get`.
    pub fn read(&self, rt: &mut Runtime, sig: usize) -> (st: ResourceState)
        requires
            old(rt).wf(),
            sig < old(rt).values@.len(),
        ensures
            st == self.state,
            final(rt).wf(),
            final(rt).values == old(rt).values,
            final(rt).dirty == old(rt).dirty,
            final(rt).active == old(rt).active,
            old(rt).active is Some ==> final(rt).depends_on(old(rt).active.unwrap() as int, sig),
    {
        rt.get(sig);
        self.state
    }

    /// A fetch tagged `g` finished: `complete` it, and when the result is
    /// applied, write the resource's signal `sig` in scope `rt` so that every
    /// live reader is marked for a re-run. An ignored result writes nothing.
    pub fn settle(&mut self, rt: &mut Runtime, sig: usize, g: u64, outcome: Result<u64, u64>) -> (applied: bool)
        requires
            old(rt).wf(),
            sig < old(rt).values@.len(),
            old(rt).values@[sig as int] < u64::MAX,
        ensures
            applied == (g == old(self).generation && !old(self).disposed),
            *final(self) == after_complete(*old(self), g, outcome),
            final(rt).wf(),
            !applied ==> *final(rt) == *old(rt),
            applied ==> final(rt).dirty@ == marks_after_write(old(rt).dirty@, *old(rt), sig),
            applied && !old(rt).closed ==> final(rt).values@
                == old(rt).values@.update(sig as int, (old(rt).values@[sig as int] + 1) as u64),
            final(rt).active == old(rt).active,
    {
        let applied = self.complete(g, outcome);
        if applied {
            let v = rt.values[sig];
            rt.set(sig, v + 1);
        }
        applied
    }

    /// Tears the resource down with its scope: a fetch still in flight may
    /// finish, but its result is ignored.
    pub fn dispose(&mut self)
        ensures
            final(self).disposed,
            final(self).generation == old(self).generation,
            final(self).state == old(self).state,
    {
        self.disposed = true;
    }

    pub fn is_pending(&self) -> (r: bool)
        ensures
            r == (self.state is Pending),
    {
        match self.state {
            ResourceState::Pending => true,
            _ => false,
        }
    }
}

/// The state a finished fetch leaves behind.
pub open spec fn settled(outcome: Result<u64, u64>) -> ResourceState {
    match outcome {
        Ok(v) => ResourceState::Ready(v),
        Err(e) => ResourceState::Failed(e),
    }
}

/// The resource after a fetch tagged `g` finished with `outcome`.
pub open spec fn after_complete(r: Resource, g: u64, outcome: Result<u64, u64>) -> Resource {
    if g == r.generation && !r.disposed {
        Resource { generation: r.generation, state: settled(outcome), disposed: false }
    } else {
        r
    }
}

/// A late result from a superseded fetch never overwrites the result of a
/// later fetch: once the current fetch has settled, completing an older one
/// leaves the resource as it was.
pub proof fn lemma_stale_result_discarded(r: Resource, old_gen: u64, newer: Result<u64, u64>, late: Result<u64, u64>)
    requires
        old_gen < r.generation,
        !r.disposed,
    ensures
        after_complete(after_complete(r, r.generation, newer), old_gen, late)
            == after_complete(r, r.generation, newer),
        after_complete(r, r.generation, newer).state == settled(newer),
{
}

/// Once a resource is torn down, no result, however tagged, changes it.
pub proof fn lemma_disposed_resource_ignores_results(r: Resource, g: u64, outcome: Result<u64, u64>)
    requires
        r.disposed,
    ensures
        after_complete(r, g, outcome) == r,
{
}

/// What a suspense boundary shows.
#[derive(Clone, Copy, Debug, PartialEq, Eq, Structural)]
pub enum BoundaryView {
    Fallback,
    Content,
}

pub open spec fn all_settled(rs: Seq<ResourceState>) -> bool {
    forall|i: int| 0 <= i < rs.len() ==> !(#[trigger] rs[i] is Pending)
}

pub open spec fn view_for(rs: Seq<ResourceState>) -> BoundaryView {
    if all_settled(rs) { BoundaryView::Content } else { BoundaryView::Fallback }
}

/// The view a boundary shows for the states of the resources it tracks:
/// the content once none is pending, the fallback before.
pub fn boundary_view(rs: &Vec<ResourceState>) -> (v: BoundaryView)
    ensures
        v == view_for(rs@),
{
    let mut i: usize = 0;
    while i < rs.len()
        invariant
            i <= rs@.len(),
            forall|j: int| 0 <= j < i ==> !(#[trigger] rs@[j] is Pending),
        decreases rs@.len() - i,
    {
        if let ResourceState::Pending = rs[i] {
            return BoundaryView::Fallback;
        }
        i = i + 1;
    }
    BoundaryView::Content
}

/// The states of the resources `ids` picks out of `rs`.
pub open spec fn watched_states(ids: Seq<usize>, rs: Seq<Resource>) -> Seq<ResourceState> {
    ids.map_values(|i: usize| rs[i as int].state)
}

/// A suspense boundary: the resources read under it, what it shows now, and
/// how many times it has rendered its content (each switch from fallback to
/// content is one render).
pub struct Suspense {
    pub view: BoundaryView,
    pub content_renders: u64,
    pub watched: Vec<usize>,
}

impl Suspense {
    /// A boundary that starts on its fallback and watches nothing yet.
    pub fn new() -> (s: Suspense)
        ensures
            s.view == BoundaryView::Fallback,
            s.content_renders == 0,
            s.watched@.len() == 0,
    {
        Suspense { view: BoundaryView::Fallback, content_renders: 0, watched: Vec::new() }
    }

    /// The child subtree read resource `r` while being rendered for
    /// dependency discovery: the boundary watches it from now on. What the
    /// boundary shows is left as it is until the next `refresh`.
    pub fn track(&mut self, r: usize)
        ensures
            forall|x: usize| #[trigger] final(self).watched@.contains(x) <==> (old(self).watched@.contains(x) || x == r),
            final(self).view == old(self).view,
            final(self).content_renders == old(self).content_renders,
    {
        if !contains(&self.watched, r) {
            let ghost prev = self.watched@;
            self.watched.push(r);
            assert forall|x: usize| #[trigger] self.watched@.contains(x) <==> (prev.contains(x) || x == r) by {
                if x == r {
                    assert(self.watched@[prev.len() as int] == r);
                }
                if self.watched@.contains(x) {
                    let k = choose|k: int| 0 <= k < self.watched@.len() && self.watched@[k] == x;
                    if k < prev.len() {
                        assert(prev[k] == x);
                    }
                }
                if prev.contains(x) {
                    let k = choose|k: int| 0 <= k < prev.len() && prev[k] == x;
                    assert(self.watched@[k] == x);
                }
            }
        }
    }

    /// Recomputes the boundary over the states of the resources it tracks,
    /// found in the scope's resources `rs`. Returns whether the content was
    /// rendered by this step.
    pub fn refresh(&mut self, rs: &Vec<Resource>) -> (rendered: bool)
        requires
            old(self).content_renders < u64::MAX,
            forall|k: int| 0 <= k < old(self).watched@.len() ==> (#[trigger] old(self).watched@[k]) < rs@.len(),
        ensures
            final(self).watched == old(self).watched,
            final(self).view == view_for(watched_states(old(self).watched@, rs@)),
            rendered == (old(self).view == BoundaryView::Fallback
                && view_for(watched_states(old(self).watched@, rs@)) == BoundaryView::Content),
            final(self).content_renders == old(self).content_renders + (if rendered { 1int } else { 0int }),
    {
        let mut states: Vec<ResourceState> = Vec::new();
        let mut i: usize = 0;
        while i < self.watched.len()
            invariant
                i <= self.watched@.len(),
                forall|k: int| 0 <= k < self.watched@.len() ==> (#[trigger] self.watched@[k]) < rs@.len(),
                states@.len() == i,
                forall|j: int| 0 <= j < i ==> #[trigger] states@[j] == rs@[self.watched@[j] as int].state,
            decreases self.watched@.len() - i,
        {
            states.push(rs[self.watched[i]].state);
            i = i + 1;
        }
        assert(states@ =~= watched_states(self.watched@, rs@));
        let v = boundary_view(&states);
        let rendered = match (self.view, v) {
            (BoundaryView::Fallback, BoundaryView::Content) => true,
            _ => false,
        };
        if rendered {
            self.content_renders = self.content_renders + 1;
        }
        self.view = v;
        rendered
    }
}

} // verus!

//! The loading gate: work that waits until every resource it names is loaded.

use std::collections::HashMap;
use vstd::prelude::*;

verus! {

broadcast use vstd::std_specs::hash::group_hash_axioms;

/// What the loader reports of one resource.
#[derive(Clone, Copy, Debug, PartialEq, Eq, Structural)]
pub enum LoadState {
    Pending,
    Loaded,
    Failed,
}

/// Resources, named by their handles, and what is to be done once all of them are
/// loaded.
#[derive(Clone, Debug, PartialEq, Eq)]
pub struct LoadingBundle<C> {
    pub handles: Vec<u64>,
    pub on_load: C,
}

/// The bundles that still wait, oldest first.
#[derive(Clone, Debug, PartialEq, Eq)]
pub struct LoadingAssets<C>(pub Vec<LoadingBundle<C>>);

impl<C> View for LoadingAssets<C> {
    type V = Seq<LoadingBundle<C>>;

    open spec fn view(&self) -> Seq<LoadingBundle<C>> {
        self.0@
    }
}

/// Whether the loader reports `handle` as loaded; a handle that it does not report
/// at all is not.
pub open spec fn is_loaded(states: Map<u64, LoadState>, handle: u64) -> bool {
    states.contains_key(handle) && states[handle] == LoadState::Loaded
}

/// Whether every one of `handles` is reported as loaded.
pub open spec fn all_loaded(handles: Seq<u64>, states: Map<u64, LoadState>) -> bool {
    forall|i: int| 0 <= i < handles.len() ==> is_loaded(states, #[trigger] handles[i])
}

/// The test that a bundle passes once all its resources are loaded.
pub open spec fn ready<C>(states: Map<u64, LoadState>) -> spec_fn(LoadingBundle<C>) -> bool {
    |bundle: LoadingBundle<C>| all_loaded(bundle.handles@, states)
}

/// The test that a bundle passes while one of its resources is not loaded.
pub open spec fn waiting<C>(states: Map<u64, LoadState>) -> spec_fn(LoadingBundle<C>) -> bool {
    |bundle: LoadingBundle<C>| !all_loaded(bundle.handles@, states)
}

/// The bundles that one poll releases: those that are ready, in the order they
/// waited in.
pub open spec fn released<C>(
    bundles: Seq<LoadingBundle<C>>,
    states: Map<u64, LoadState>,
) -> Seq<LoadingBundle<C>> {
    bundles.filter(ready(states))
}

/// The bundles that one poll leaves waiting, in the order they waited in.
pub open spec fn retained<C>(
    bundles: Seq<LoadingBundle<C>>,
    states: Map<u64, LoadState>,
) -> Seq<LoadingBundle<C>> {
    bundles.filter(waiting(states))
}

/// Whether every one of `handles` is reported as loaded.
pub fn all_handles_loaded(handles: &Vec<u64>, states: &HashMap<u64, LoadState>) -> (loaded: bool)
    ensures
        loaded == all_loaded(handles@, states@),
{
    let mut i: usize = 0;
    while i < handles.len()
        invariant
            i <= handles.len(),
            forall|j: int| 0 <= j < i ==> is_loaded(states@, #[trigger] handles[j]),
        decreases handles.len() - i,
    {
        let loaded = match states.get(&handles[i]) {
            Some(state) => match *state {
                LoadState::Loaded => true,
                _ => false,
            },
            None => false,
        };
        if !loaded {
            assert(!is_loaded(states@, handles@[i as int]));
            return false;
        }
        i += 1;
    }
    true
}

impl<C> Default for LoadingAssets<C> {
    /// A gate at which nothing waits.
    fn default() -> (gate: LoadingAssets<C>)
        ensures
            gate@ == Seq::<LoadingBundle<C>>::empty(),
    {
        LoadingAssets(Vec::new())
    }
}

impl<C> LoadingAssets<C> {
    /// A gate at which nothing waits.
    pub fn new() -> (gate: LoadingAssets<C>)
        ensures
            gate@ == Seq::<LoadingBundle<C>>::empty(),
    {
        LoadingAssets(Vec::new())
    }

    /// Lets `bundle` wait behind the bundles that wait already.
    pub fn push(&mut self, bundle: LoadingBundle<C>)
        ensures
            final(self)@ == old(self)@.push(bundle),
    {
        self.0.push(bundle);
    }

    /// How many bundles wait.
    pub fn len(&self) -> (count: usize)
        ensures
            count == self@.len(),
    {
        self.0.len()
    }
}

/// One poll: takes out the waiting bundles whose resources are all reported as
/// loaded, and hands them over in the order they waited in; the others keep
/// waiting, in their order.
pub fn post_loading<C>(bundles: &mut LoadingAssets<C>, states: &HashMap<u64, LoadState>) -> (fired:
    Vec<LoadingBundle<C>>)
    ensures
        fired@ == released(old(bundles)@, states@),
        final(bundles)@ == retained(old(bundles)@, states@),
{
    let ghost before = bundles@;
    let ghost mut seen: int = 0;
    let mut fired: Vec<LoadingBundle<C>> = Vec::new();
    let mut i: usize = 0;
    proof {
        assert(before.take(0) =~= Seq::<LoadingBundle<C>>::empty());
        reveal(Seq::filter);
        assert(before.skip(0) =~= before);
    }
    while i < bundles.0.len()
        invariant
            0 <= seen <= before.len(),
            i + (before.len() - seen) == bundles@.len(),
            i == retained(before.take(seen), states@).len(),
            bundles@ =~= retained(before.take(seen), states@) + before.skip(seen),
            fired@ == released(before.take(seen), states@),
        decreases bundles@.len() - i,
    {
        assert(bundles@[i as int] == before.skip(seen)[0]);
        proof {
            assert(before.take(seen + 1) =~= before.take(seen).push(before[seen]));
            before.take(seen).lemma_filter_push(before[seen], ready(states@));
            before.take(seen).lemma_filter_push(before[seen], waiting(states@));
            assert(before.skip(seen).skip(1) =~= before.skip(seen + 1));
        }
        let loaded = all_handles_loaded(&bundles.0[i].handles, states);
        if loaded {
            let bundle = bundles.0.remove(i);
            fired.push(bundle);
        } else {
            i += 1;
        }
        proof {
            seen = seen + 1;
        }
    }
    assert(before.take(seen) =~= before);
    fired
}

/// The bundles that still wait after the given polls, one after the other, where
/// nothing was pushed between them.
pub open spec fn waiting_after<C>(
    bundles: Seq<LoadingBundle<C>>,
    polls: Seq<Map<u64, LoadState>>,
) -> Seq<LoadingBundle<C>>
    decreases polls.len(),
{
    if polls.len() == 0 {
        bundles
    } else {
        retained(waiting_after(bundles, polls.drop_last()), polls.last())
    }
}

/// The bundles that the poll with index `k` releases.
pub open spec fn released_at<C>(
    bundles: Seq<LoadingBundle<C>>,
    polls: Seq<Map<u64, LoadState>>,
    k: int,
) -> Seq<LoadingBundle<C>> {
    released(waiting_after(bundles, polls.take(k)), polls[k])
}

/// One poll parts the waiting bundles in two: a bundle that is ready is released
/// and waits no longer, any other bundle keeps waiting and is not released, and no
/// bundle comes from elsewhere.
pub proof fn law_poll_parts<C>(
    bundles: Seq<LoadingBundle<C>>,
    states: Map<u64, LoadState>,
    bundle: LoadingBundle<C>,
)
    ensures
        released(bundles, states).contains(bundle) <==> bundles.contains(bundle) && all_loaded(
            bundle.handles@,
            states,
        ),
        retained(bundles, states).contains(bundle) <==> bundles.contains(bundle) && !all_loaded(
            bundle.handles@,
            states,
        ),
{
    broadcast use {
        Seq::lemma_filter_contains,
        Seq::lemma_filter_contains_rev,
        Seq::lemma_filter_pred,
    };

    if bundles.contains(bundle) {
        let i = choose|i: int| 0 <= i < bundles.len() && bundles[i] == bundle;
        if all_loaded(bundle.handles@, states) {
            assert(ready::<C>(states)(bundles[i]));
            assert(bundles.filter(ready(states)).contains(bundles[i]));
        } else {
            assert(waiting::<C>(states)(bundles[i]));
            assert(bundles.filter(waiting(states)).contains(bundles[i]));
        }
    }
    if released(bundles, states).contains(bundle) {
        let i = choose|i: int|
            0 <= i < released(bundles, states).len() && released(bundles, states)[i] == bundle;
        assert(ready::<C>(states)(bundles.filter(ready(states))[i]));
    }
    if retained(bundles, states).contains(bundle) {
        let i = choose|i: int|
            0 <= i < retained(bundles, states).len() && retained(bundles, states)[i] == bundle;
        assert(waiting::<C>(states)(bundles.filter(waiting(states))[i]));
    }
}

/// A bundle that waits, and is ready at none of the polls, still waits after them.
pub proof fn lemma_still_waiting<C>(
    bundles: Seq<LoadingBundle<C>>,
    polls: Seq<Map<u64, LoadState>>,
    bundle: LoadingBundle<C>,
)
    requires
        bundles.contains(bundle),
        forall|k: int| 0 <= k < polls.len() ==> !all_loaded(bundle.handles@, #[trigger] polls[k]),
    ensures
        waiting_after(bundles, polls).contains(bundle),
    decreases polls.len(),
{
    if polls.len() > 0 {
        let earlier = polls.drop_last();
        assert forall|k: int| 0 <= k < earlier.len() implies !all_loaded(
            bundle.handles@,
            #[trigger] earlier[k],
        ) by {
            assert(earlier[k] == polls[k]);
        }
        lemma_still_waiting(bundles, earlier, bundle);
        law_poll_parts(waiting_after(bundles, earlier), polls.last(), bundle);
    }
}

/// A bundle that no longer waits after some polls does not wait after more polls.
pub proof fn lemma_gone_for_good<C>(
    bundles: Seq<LoadingBundle<C>>,
    polls: Seq<Map<u64, LoadState>>,
    bundle: LoadingBundle<C>,
    k: int,
    j: int,
)
    requires
        0 <= k <= j <= polls.len(),
        !waiting_after(bundles, polls.take(k)).contains(bundle),
    ensures
        !waiting_after(bundles, polls.take(j)).contains(bundle),
    decreases j - k,
{
    if k < j {
        lemma_gone_for_good(bundles, polls, bundle, k, j - 1);
        assert(polls.take(j).drop_last() =~= polls.take(j - 1));
        law_poll_parts(waiting_after(bundles, polls.take(j - 1)), polls.take(j).last(), bundle);
    }
}

/// A bundle with a resource that no poll reports as loaded is released by none of
/// the polls, however many there are, and still waits after them.
pub proof fn law_never_fires<C>(
    bundles: Seq<LoadingBundle<C>>,
    polls: Seq<Map<u64, LoadState>>,
    bundle: LoadingBundle<C>,
    stuck: int,
)
    requires
        bundles.contains(bundle),
        0 <= stuck < bundle.handles@.len(),
        forall|k: int|
            0 <= k < polls.len() ==> !is_loaded(#[trigger] polls[k], bundle.handles@[stuck]),
    ensures
        forall|k: int| 0 <= k < polls.len() ==> !(#[trigger] released_at(bundles, polls, k)).contains(bundle),
        waiting_after(bundles, polls).contains(bundle),
{
    assert forall|k: int| 0 <= k < polls.len() implies !all_loaded(
        bundle.handles@,
        #[trigger] polls[k],
    ) by {
        assert(!is_loaded(polls[k], bundle.handles@[stuck]));
    }
    lemma_still_waiting(bundles, polls, bundle);
    assert forall|k: int| 0 <= k < polls.len() implies !(#[trigger] released_at(
        bundles,
        polls,
        k,
    )).contains(bundle) by {
        law_poll_parts(waiting_after(bundles, polls.take(k)), polls[k], bundle);
    }
}

/// A bundle that waits is released by the first poll at which all its resources are
/// reported as loaded, by that poll alone, and waits no longer from then on.
pub proof fn law_fires_once<C>(
    bundles: Seq<LoadingBundle<C>>,
    polls: Seq<Map<u64, LoadState>>,
    bundle: LoadingBundle<C>,
    first: int,
)
    requires
        bundles.contains(bundle),
        0 <= first < polls.len(),
        all_loaded(bundle.handles@, polls[first]),
        forall|k: int| 0 <= k < first ==> !all_loaded(bundle.handles@, #[trigger] polls[k]),
    ensures
        released_at(bundles, polls, first).contains(bundle),
        forall|k: int|
            0 <= k < polls.len() && k != first ==> !(#[trigger] released_at(
                bundles,
                polls,
                k,
            )).contains(bundle),
        forall|k: int|
            first < k <= polls.len() ==> !(#[trigger] waiting_after(
                bundles,
                polls.take(k),
            )).contains(bundle),
{
    let earlier = polls.take(first);
    assert forall|k: int| 0 <= k < earlier.len() implies !all_loaded(
        bundle.handles@,
        #[trigger] earlier[k],
    ) by {
        assert(earlier[k] == polls[k]);
    }
    lemma_still_waiting(bundles, earlier, bundle);
    law_poll_parts(waiting_after(bundles, earlier), polls[first], bundle);
    assert(polls.take(first + 1).drop_last() =~= earlier);
    assert(polls.take(first + 1).last() == polls[first]);
    assert(!waiting_after(bundles, polls.take(first + 1)).contains(bundle));
    assert forall|k: int| first < k <= polls.len() implies !(#[trigger] waiting_after(
        bundles,
        polls.take(k),
    )).contains(bundle) by {
        lemma_gone_for_good(bundles, polls, bundle, first + 1, k);
    }
    assert forall|k: int| 0 <= k < polls.len() && k != first implies !(#[trigger] released_at(
        bundles,
        polls,
        k,
    )).contains(bundle) by {
        law_poll_parts(waiting_after(bundles, polls.take(k)), polls[k], bundle);
    }
}

} // verus!

//! Hooks that observe state changes.
use std::collections::HashMap;

use vstd::prelude::*;

verus! {

broadcast use vstd::std_specs::hash::group_hash_axioms;

/// Registry of the hooks that observe state changes, each under an identifier.
pub struct HookRegistry<F> {
    hooks: HashMap<usize, F>,
    next_id: u64,
}

/// Handle of a registered hook.
#[derive(Debug, Clone, Copy, PartialEq, Eq)]
pub struct HookHandle {
    id: u64,
}

impl HookHandle {
    /// The identifier of the hook.
    pub closed spec fn id(&self) -> u64 {
        self.id
    }
}

impl<F> View for HookRegistry<F> {
    type V = Map<usize, F>;

    /// The registered hooks by identifier.
    closed spec fn view(&self) -> Map<usize, F> {
        self.hooks@
    }
}

/// Whether `calls` is one call, with `state_change`, of each of the hooks, in some order.
pub open spec fn calls_each_once<F, T>(
    hooks: Map<usize, F>,
    state_change: &T,
    calls: Seq<(&F, &T)>,
) -> bool {
    exists|order: Seq<usize>| #[trigger] calls_in_order(hooks, state_change, calls, order)
}

/// Whether `calls` is one call, with `state_change`, of each of the hooks, in the order of the
/// identifiers in `order`.
pub open spec fn calls_in_order<F, T>(
    hooks: Map<usize, F>,
    state_change: &T,
    calls: Seq<(&F, &T)>,
    order: Seq<usize>,
) -> bool {
    &&& order.no_duplicates()
    &&& forall|id: usize| hooks.contains_key(id) <==> order.contains(id)
    &&& calls.len() == order.len()
    &&& forall|i: int|
        0 <= i < calls.len() ==> #[trigger] calls[i] == (&hooks[order[i]], state_change)
}

/// Whether `after` is `before` with a hook registered, and `handle` the hook's handle.
pub open spec fn registers<F>(
    before: HookRegistry<F>,
    after: HookRegistry<F>,
    hook: F,
    handle: HookHandle,
) -> bool {
    &&& handle.id() == before.next_id()
    &&& after@ == before@.insert(before.next_id() as usize, hook)
    &&& after.next_id() == if before.next_id() == u64::MAX {
        0
    } else {
        (before.next_id() + 1) as u64
    }
}

/// Whether `after` is `before` without the hook of `handle`.
pub open spec fn releases<F>(
    before: HookRegistry<F>,
    after: HookRegistry<F>,
    handle: HookHandle,
) -> bool {
    &&& after@ == before@.remove(handle.id() as usize)
    &&& after.next_id() == before.next_id()
}

impl<F> HookRegistry<F> {
    /// Whether the registry holds the given hooks, numbered from zero.
    pub open spec fn holds_given(&self, hooks: Seq<F>) -> bool {
        &&& forall|id: usize| #[trigger] self@.contains_key(id) <==> id < hooks.len()
        &&& forall|id: usize| id < hooks.len() ==> #[trigger] self@[id] == hooks[id as int]
    }

    /// The identifier that the next hook is registered under.
    pub closed spec fn next_id(&self) -> u64 {
        self.next_id
    }

    /// Whether the next identifier and all that follow it are unused.
    pub open spec fn next_ids_unused(&self) -> bool {
        forall|id: usize| #[trigger] self@.contains_key(id) ==> id < self.next_id()
    }

    /// A registry of the given hooks, numbered from zero. The next hook gets the number behind
    /// theirs, and one where none is given.
    pub fn new(hooks: Vec<F>) -> (r: HookRegistry<F>)
        ensures
            r.holds_given(hooks@),
            r.next_id() == if hooks@.len() == 0 {
                1
            } else {
                hooks@.len() as u64
            },
            r.next_ids_unused(),
    {
        let ghost all = hooks@;
        let count: usize = hooks.len();
        let mut map: HashMap<usize, F> = HashMap::new();
        let mut n: usize = 0;
        for hook in it: hooks
            invariant
                it.seq() == all,
                all.len() == count,
                n == it.index(),
                forall|id: usize| #[trigger] map@.contains_key(id) <==> id < n,
                forall|id: usize| id < n ==> #[trigger] map@[id] == all[id as int],
        {
            map.insert(n, hook);
            n = n + 1;
        }
        let next_id: u64 = if count == 0 {
            1
        } else {
            count as u64
        };
        HookRegistry { hooks: map, next_id }
    }

    /// Registers a hook under the next identifier, and leaves the registered hooks in place: the
    /// identifiers from the next one on are unused until the largest has been given out. Behind the
    /// largest they start over from zero.
    pub fn register(&mut self, hook: F) -> (r: HookHandle)
        ensures
            registers(*old(self), *final(self), hook, r),
            old(self).next_ids_unused() && old(self).next_id() <= usize::MAX
                ==> old(self)@.submap_of(final(self)@),
            old(self).next_ids_unused() && old(self).next_id() < usize::MAX
                ==> final(self).next_ids_unused(),
    {
        let id: u64 = self.next_id;
        self.next_id = if id == u64::MAX {
            0
        } else {
            id + 1
        };
        self.hooks.insert(id as usize, hook);
        proof {
            if old(self).next_ids_unused() && id <= usize::MAX {
                assert(!old(self)@.contains_key(id as usize));
            }
            if old(self).next_ids_unused() && id < usize::MAX {
                assert forall|k: usize| #[trigger] self@.contains_key(k) implies k
                    < self.next_id() by {
                    if k != id {
                        assert(old(self)@.contains_key(k));
                    }
                }
            }
        }
        HookHandle { id }
    }

    /// The calls that notify the hooks of a state change: each registered hook once, in no
    /// particular order.
    pub fn notify<'a, T>(&'a self, state_change: &'a T) -> (r: Vec<(&'a F, &'a T)>)
        ensures
            calls_each_once(self@, state_change, r@),
    {
        let mut r: Vec<(&'a F, &'a T)> = Vec::new();
        let ghost mut order: Seq<usize> = Seq::empty();
        for entry in it: self.hooks.iter()
            invariant
                it.seq().no_duplicates(),
                it.seq() == vstd::std_specs::iter::IteratorSpec::remaining(
                    &vstd::std_specs::hash::spec_hash_map_iter(&self.hooks),
                ),
                order.len() == it.index(),
                r@.len() == it.index(),
                forall|i: int| 0 <= i < it.index() ==> #[trigger] order[i] == *it.seq()[i].0,
                forall|i: int|
                    0 <= i < it.index() ==> #[trigger] r@[i] == (
                        &self.hooks@[order[i]],
                        state_change,
                    ),
        {
            let (id, hook) = entry;
            r.push((hook, state_change));
            proof {
                order = order.push(*id);
                assert(self.hooks@[*it.seq()[it.index() as int].0] == *hook);
            }
        }
        proof {
            let entries = vstd::std_specs::iter::IteratorSpec::remaining(
                &vstd::std_specs::hash::spec_hash_map_iter(&self.hooks),
            );
            assert forall|i: int, j: int|
                0 <= i < order.len() && 0 <= j < order.len() && i != j implies order[i]
                != order[j] by {
                assert(self.hooks@[*entries[i].0] == *entries[i].1);
                assert(self.hooks@[*entries[j].0] == *entries[j].1);
                assert(entries[i] != entries[j]);
            }
            assert forall|id: usize| self@.contains_key(id) <==> order.contains(id) by {
                if self@.contains_key(id) {
                    assert(entries.contains((&id, &self.hooks@[id])));
                    let k = choose|k: int|
                        0 <= k < entries.len() && entries[k] == (&id, &self.hooks@[id]);
                    assert(order[k] == id);
                }
                if order.contains(id) {
                    let k = choose|k: int| 0 <= k < order.len() && order[k] == id;
                    assert(self.hooks@.contains_key(*entries[k].0));
                }
            }
            assert(calls_in_order(self@, state_change, r@, order));
        }
        r
    }

    /// Removes the hook under an identifier, where there is one.
    pub fn unregister(&mut self, id: u64)
        ensures
            final(self)@ == old(self)@.remove(id as usize),
            final(self).next_id() == old(self).next_id(),
            old(self).next_ids_unused() ==> final(self).next_ids_unused(),
    {
        self.hooks.remove(&(id as usize));
        proof {
            if old(self).next_ids_unused() {
                assert forall|k: usize| #[trigger] self@.contains_key(k) implies k
                    < self.next_id() by {
                    assert(old(self)@.contains_key(k));
                }
            }
        }
    }

    /// Gives a handle up: the hook that it was issued for is unregistered.
    pub fn release(&mut self, handle: HookHandle)
        ensures
            releases(*old(self), *final(self), handle),
            old(self).next_ids_unused() ==> final(self).next_ids_unused(),
    {
        self.unregister(handle.id)
    }
}

/// In a registry whose next identifiers are unused, a registered hook leaves the others in place,
/// and once its handle is given up the registry holds what it held before. Giving up a copy of the
/// handle then changes nothing more.
pub proof fn law_release_undoes_register<F>(
    before: HookRegistry<F>,
    registered: HookRegistry<F>,
    released: HookRegistry<F>,
    hook: F,
    handle: HookHandle,
)
    requires
        before.next_ids_unused(),
        before.next_id() <= usize::MAX,
        registers(before, registered, hook, handle),
        releases(registered, released, handle),
    ensures
        registered@.contains_key(handle.id() as usize),
        registered@[handle.id() as usize] == hook,
        before@.submap_of(registered@),
        released@ == before@,
        released@.remove(handle.id() as usize) == released@,
{
    let id = handle.id() as usize;
    assert(!before@.contains_key(id));
    assert(released@ =~= before@);
    assert(released@.remove(id) =~= released@);
}

/// Two hooks that are registered one after the other get different identifiers, and giving up the
/// handle of one leaves the other in place.
pub proof fn law_handles_are_independent<F>(
    before: HookRegistry<F>,
    between: HookRegistry<F>,
    after: HookRegistry<F>,
    first: F,
    second: F,
    first_handle: HookHandle,
    second_handle: HookHandle,
)
    requires
        before.next_id() < usize::MAX,
        registers(before, between, first, first_handle),
        registers(between, after, second, second_handle),
    ensures
        first_handle.id() != second_handle.id(),
        after@.remove(first_handle.id() as usize).contains_key(second_handle.id() as usize),
        after@.remove(first_handle.id() as usize)[second_handle.id() as usize] == second,
        after@.remove(second_handle.id() as usize).contains_key(first_handle.id() as usize),
        after@.remove(second_handle.id() as usize)[first_handle.id() as usize] == first,
{
}

/// A notification calls a hook exactly where it is registered: there are as many calls as hooks,
/// and every registered hook is among the called ones.
pub proof fn law_notify_reaches_all<F, T>(
    hooks: Map<usize, F>,
    state_change: &T,
    calls: Seq<(&F, &T)>,
)
    requires
        calls_each_once(hooks, state_change, calls),
    ensures
        hooks.dom().finite(),
        calls.len() == hooks.dom().len(),
        forall|id: usize|
            hooks.contains_key(id) ==> calls.contains((&#[trigger] hooks[id], state_change)),
        forall|i: int|
            0 <= i < calls.len() ==> hooks.contains_value(*(#[trigger] calls[i]).0) && calls[i].1
                == state_change,
{
    let order = choose|order: Seq<usize>|
        #[trigger] calls_in_order(hooks, state_change, calls, order);
    assert(hooks.dom() =~= order.to_set());
    order.unique_seq_to_set();
    assert forall|id: usize| hooks.contains_key(id) implies calls.contains(
        (&#[trigger] hooks[id], state_change),
    ) by {
        let k = choose|k: int| 0 <= k < order.len() && order[k] == id;
        assert(calls[k] == (&hooks[order[k]], state_change));
    }
    assert forall|i: int| 0 <= i < calls.len() implies hooks.contains_value(
        *(#[trigger] calls[i]).0,
    ) && calls[i].1 == state_change by {
        assert(order.contains(order[i]));
        assert(calls[i] == (&hooks[order[i]], state_change));
    }
}

/// In a registry whose next identifiers are unused, a notification after a registration calls the
/// new hook and every hook that was registered before, each once.
pub proof fn law_notify_after_register<F, T>(
    before: HookRegistry<F>,
    registered: HookRegistry<F>,
    hook: F,
    handle: HookHandle,
    state_change: &T,
    calls: Seq<(&F, &T)>,
)
    requires
        before.next_ids_unused(),
        before.next_id() <= usize::MAX,
        registers(before, registered, hook, handle),
        calls_each_once(registered@, state_change, calls),
    ensures
        calls.len() == before@.dom().len() + 1,
        calls.contains((&hook, state_change)),
        forall|id: usize|
            before@.contains_key(id) ==> calls.contains((&#[trigger] before@[id], state_change)),
{
    let id = before.next_id() as usize;
    assert(!before@.contains_key(id));
    law_notify_reaches_all(registered@, state_change, calls);
    assert(registered@.dom() =~= before@.dom().insert(id));
    assert(before@.dom() =~= registered@.dom().remove(id));
    assert(registered@[id] == hook);
    assert forall|k: usize| before@.contains_key(k) implies calls.contains(
        (&#[trigger] before@[k], state_change),
    ) by {
        assert(registered@[k] == before@[k]);
    }
}

/// A notification of a registry as it was made calls every given hook, and makes as many calls as
/// hooks were given.
pub proof fn law_notify_given<F, T>(
    registry: HookRegistry<F>,
    hooks: Seq<F>,
    state_change: &T,
    calls: Seq<(&F, &T)>,
)
    requires
        registry.holds_given(hooks),
        hooks.len() <= usize::MAX,
        calls_each_once(registry@, state_change, calls),
    ensures
        calls.len() == hooks.len(),
        forall|i: int|
            0 <= i < hooks.len() ==> calls.contains((&#[trigger] hooks[i], state_change)),
{
    law_notify_reaches_all(registry@, state_change, calls);
    let ids = Seq::new(hooks.len(), |i: int| i as usize);
    assert(ids.no_duplicates());
    assert(registry@.dom() =~= ids.to_set()) by {
        assert forall|id: usize| registry@.contains_key(id) implies ids.contains(id) by {
            assert(ids[id as int] == id);
        }
    }
    ids.unique_seq_to_set();
    assert forall|i: int| 0 <= i < hooks.len() implies calls.contains(
        (&#[trigger] hooks[i], state_change),
    ) by {
        assert(registry@.contains_key(i as usize));
        assert(registry@[i as usize] == hooks[i]);
    }
}

} // verus!

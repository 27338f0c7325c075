//! The registry of child processes that must be stopped on exit.
use vstd::prelude::*;
use std::collections::HashSet;
use vstd::std_specs::iter::IteratorSpec;

verus! {

broadcast use vstd::std_specs::hash::group_hash_axioms;

/// Registry for active child process ids.
pub struct ProcessManager {
    pids: HashSet<u32>,
}

impl View for ProcessManager {
    type V = Set<u32>;

    closed spec fn view(&self) -> Set<u32> {
        self.pids@
    }
}

impl ProcessManager {
    /// An empty registry.
    pub fn new() -> (m: ProcessManager)
        ensures
            m@ == Set::<u32>::empty(),
    {
        ProcessManager { pids: HashSet::new() }
    }

    /// Registers a child process id for tracking.
    pub fn register(&mut self, pid: u32)
        ensures
            final(self)@ == old(self)@.insert(pid),
    {
        self.pids.insert(pid);
    }

    /// Unregisters a child process id once it has completed.
    pub fn unregister(&mut self, pid: u32)
        ensures
            final(self)@ == old(self)@.remove(pid),
    {
        self.pids.remove(&pid);
    }

    /// Whether a process id is registered.
    pub fn is_registered(&self, pid: u32) -> (b: bool)
        ensures
            b == self@.contains(pid),
    {
        self.pids.contains(&pid)
    }

    /// Hands out every registered id, each once, and empties the registry:
    /// the ids that `kill_all` must stop.
    pub fn take_all(&mut self) -> (ids: Vec<u32>)
        ensures
            final(self)@ == Set::<u32>::empty(),
            ids@.to_set() == old(self)@,
            ids@.no_duplicates(),
    {
        let mut ids: Vec<u32> = Vec::new();
        let ghost all = self.pids@;
        let ghost keys = vstd::std_specs::hash::spec_hash_keys_iter(&self.pids).remaining();
        for pid in it: self.pids.iter()
            invariant
                all == self.pids@,
                it.seq() == keys,
                ids@ == keys.take(it.index() as int).map_values(|p: &u32| *p),
        {
            ids.push(*pid);
            assert(ids@ =~= keys.take(it.index() + 1).map_values(|p: &u32| *p));
        }
        assert(ids@ =~= keys.map_values(|p: &u32| *p));
        assert(keys.map_values(|p: &u32| *p) =~= keys.unref());
        proof {
            vstd::std_specs::hash::axiom_spec_hash_keys_iter(&self.pids);
            assert(keys.no_duplicates());
            assert(ids@.no_duplicates()) by {
                assert forall|i: int, j: int| 0 <= i < ids@.len() && 0 <= j < ids@.len() && i != j
                    implies ids@[i] != ids@[j] by {
                    assert(keys[i] != keys[j]);
                }
            }
        }
        self.pids.clear();
        ids
    }
}

/// A registered process is forgotten once it is unregistered, and no other
/// registration is touched by either call.
pub proof fn law_register_unregister(before: Set<u32>, pid: u32, other: u32)
    requires
        other != pid,
    ensures
        before.insert(pid).contains(pid),
        !before.insert(pid).remove(pid).contains(pid),
        before.insert(pid).contains(other) == before.contains(other),
        before.remove(pid).contains(other) == before.contains(other),
{
}

} // verus!

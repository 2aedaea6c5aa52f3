//! The command actor: one consumer applies a stream of commands to a store,
//! one at a time, until it is told to stop. This module holds its decisions;
//! the loop that receives commands and sends replies runs around it.
use vstd::prelude::*;
use crate::store::{entry_of, search_result, MyData};

verus! {

/// A command for the actor. `Find` carries the predicate to search with.
pub enum Operation<P> {
    Insert(String, u64),
    Remove(String),
    Get(String),
    Find(P),
    Clear,
    Shutdown,
}

/// Whether the actor still takes commands.
#[derive(Debug, Clone, Copy, PartialEq, Eq, Structural)]
pub enum ActorState {
    Running,
    Stopped,
}

/// What a command hands back to its sender.
pub enum Reply {
    /// The command changed the store and owes no answer.
    Done,
    /// The answer to `Get`: the value found, if any.
    Value(Option<u64>),
    /// The answer to `Find`: the entries that matched.
    Matches(Vec<(String, u64)>),
    /// The actor has stopped; the command was not applied.
    Stopped,
}

/// Applies one command in state `state` and returns the next state and the
/// reply. A stopped actor changes nothing; `Shutdown` stops it.
pub fn apply_operation<P>(state: ActorState, data: &mut MyData, op: Operation<P>) -> (r: (ActorState, Reply))
    where
        P: Fn(&String, u64) -> bool,
    requires
        old(data).wf(),
        state == ActorState::Running && (op is Insert || op is Remove || op is Clear)
            ==> old(data).spec_op_count() < usize::MAX,
        op matches Operation::Find(p) ==> forall|k: &String, v: u64| p.requires((k, v)),
    ensures
        final(data).wf(),
        final(data).spec_id() == old(data).spec_id(),
        final(data).spec_num_segments() == old(data).spec_num_segments(),
        state == ActorState::Stopped ==> r.0 == ActorState::Stopped && r.1 is Stopped
            && *final(data) == *old(data),
        state == ActorState::Running ==> match op {
            Operation::Insert(k, v) => r.0 == ActorState::Running && r.1 is Done
                && final(data).view() == old(data).view().insert(k@, v)
                && final(data).spec_op_count() == old(data).spec_op_count() + 1,
            Operation::Remove(k) => r.0 == ActorState::Running && r.1 is Done
                && final(data).view() == old(data).view().remove(k@)
                && final(data).spec_op_count() == old(data).spec_op_count()
                    + (if old(data).view().contains_key(k@) { 1int } else { 0int }),
            Operation::Get(k) => r.0 == ActorState::Running
                && r.1 == Reply::Value(entry_of(old(data).view(), k@))
                && *final(data) == *old(data),
            Operation::Find(p) => r.0 == ActorState::Running && *final(data) == *old(data)
                && (r.1 matches Reply::Matches(found) && search_result(old(data).view(), p, found@)),
            Operation::Clear => r.0 == ActorState::Running && r.1 is Done
                && final(data).view() == Map::<Seq<char>, u64>::empty()
                && final(data).spec_op_count() == old(data).spec_op_count() + 1,
            Operation::Shutdown => r.0 == ActorState::Stopped && r.1 is Done
                && *final(data) == *old(data),
        },
{
    if state == ActorState::Stopped {
        return (ActorState::Stopped, Reply::Stopped);
    }
    match op {
        Operation::Insert(k, v) => {
            data.insert(k, v);
            (ActorState::Running, Reply::Done)
        },
        Operation::Remove(k) => {
            data.remove(&k);
            (ActorState::Running, Reply::Done)
        },
        Operation::Get(k) => (ActorState::Running, Reply::Value(data.get(&k))),
        Operation::Find(p) => (ActorState::Running, Reply::Matches(data.find(p))),
        Operation::Clear => {
            data.clear();
            (ActorState::Running, Reply::Done)
        },
        Operation::Shutdown => (ActorState::Stopped, Reply::Done),
    }
}

} // verus!

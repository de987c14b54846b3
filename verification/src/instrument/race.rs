//! The race pass's wire encodings: lock operations and memory-access
//! operations are passed to the race runtime as signed bytes.

use vstd::prelude::*;
use crate::race::IdSet;

verus! {

/// A lock-related call found in the instrumented code.
#[derive(Debug, PartialEq, Eq, Structural, Clone, Copy)]
pub enum LockTyp {
    Lock,
    UnLock,
}

impl LockTyp {
    /// The wire encoding of a lock operation: 1 for lock, 0 for unlock.
    pub fn i8(&self) -> (r: i8)
        ensures
            r == (if self is Lock {
                1i8
            } else {
                0i8
            }),
    {
        match self {
            Self::Lock => 1,
            Self::UnLock => 0,
        }
    }

    /// Decodes a wire byte; anything but 0 or 1 is not a lock operation.
    pub fn from_i8(t: i8) -> (r: Option<LockTyp>)
        ensures
            r == (if t == 1i8 {
                Some(LockTyp::Lock)
            } else if t == 0i8 {
                Some(LockTyp::UnLock)
            } else {
                None::<LockTyp>
            }),
    {
        match t {
            1 => Some(Self::Lock),
            0 => Some(Self::UnLock),
            _ => None,
        }
    }
}

/// A memory access of the instrumented code, as seen by the race runtime.
#[derive(Debug, PartialEq, Eq, Structural, Clone, Copy)]
pub enum AccessOperation {
    Write,
    Read,
}

impl AccessOperation {
    /// The wire encoding of an access: 1 for a write, 0 for a read.
    pub fn i8(&self) -> (r: i8)
        ensures
            r == (if self is Write {
                1i8
            } else {
                0i8
            }),
    {
        match self {
            Self::Write => 1,
            Self::Read => 0,
        }
    }

    /// Decodes a wire byte; anything but 0 or 1 is not an access.
    pub fn from_i8(t: i8) -> (r: Option<AccessOperation>)
        ensures
            r == (if t == 1i8 {
                Some(AccessOperation::Write)
            } else if t == 0i8 {
                Some(AccessOperation::Read)
            } else {
                None::<AccessOperation>
            }),
    {
        match t {
            1 => Some(Self::Write),
            0 => Some(Self::Read),
            _ => None,
        }
    }
}


/// One lock operation the race pass saw: its kind and the lock variable's
/// stable identifier.
#[derive(Debug, PartialEq, Eq, Structural, Clone, Copy)]
pub struct Lock {
    pub typ: LockTyp,
    pub lock: i64,
}

impl Lock {
    pub fn new(typ: LockTyp, lock: i64) -> (r: Lock)
        ensures
            r == (Lock { typ, lock }),
    {
        Lock { typ, lock }
    }
}

/// The unit of the race instrumentation pass.
pub struct RaceModule {}


/// What the race pass sees as it scans a function: a lock or unlock call,
/// or an access to a global integer variable.
pub enum RaceEvent {
    LockOp(Lock),
    Access { global_var_id: i64, op: AccessOperation, line: i64 },
}

/// The locks held after a scan: lock calls add, unlock calls remove, and
/// accesses change nothing.
pub open spec fn spec_live_locks(events: Seq<RaceEvent>) -> Set<i64>
    decreases events.len(),
{
    if events.len() == 0 {
        Set::empty()
    } else {
        let rest = spec_live_locks(events.drop_last());
        match events.last() {
            RaceEvent::LockOp(l) => if l.typ is Lock {
                rest.insert(l.lock)
            } else {
                rest.remove(l.lock)
            },
            RaceEvent::Access { .. } => rest,
        }
    }
}

/// Tracks the live locks across a scanned instruction sequence, as the race
/// pass does to snapshot each accessed global's candidate lockset.
#[verifier::loop_isolation(false)]
pub fn live_locks_after(events: &Vec<RaceEvent>) -> (r: IdSet)
    ensures
        r.wf(),
        r.to_set() =~= spec_live_locks(events@),
{
    let mut live = IdSet::new();
    let mut i: usize = 0;
    proof {
        assert(events@.subrange(0, 0) =~= Seq::<RaceEvent>::empty());
    }
    while i < events.len()
        invariant
            i <= events@.len(),
            live.wf(),
            live.to_set() == spec_live_locks(events@.subrange(0, i as int)),
        decreases events@.len() - i,
    {
        proof {
            assert(events@.subrange(0, i + 1).drop_last() =~= events@.subrange(0, i as int));
        }
        match &events[i] {
            RaceEvent::LockOp(l) => {
                match l.typ {
                    LockTyp::Lock => live.insert(l.lock),
                    LockTyp::UnLock => live.remove(l.lock),
                }
            },
            RaceEvent::Access { .. } => {},
        }
        i += 1;
    }
    proof {
        assert(events@.subrange(0, events@.len() as int) =~= events@);
    }
    live
}


/// The candidate lockset the race pass registers for one global: the locks
/// live at its last access in the scanned stream, or nothing when the
/// stream never accesses it. The module constructor emits one
/// `init_candidate_lockset_global_var` call per such global, followed by an
/// `init_candidate_lockset_lock_var` call per lock in this set.
pub open spec fn spec_candidate_lockset(events: Seq<RaceEvent>, var: i64) -> Option<Set<i64>>
    decreases events.len(),
{
    if events.len() == 0 {
        None
    } else {
        match events.last() {
            RaceEvent::Access { global_var_id, .. } => if global_var_id == var {
                Some(spec_live_locks(events.drop_last()))
            } else {
                spec_candidate_lockset(events.drop_last(), var)
            },
            RaceEvent::LockOp(_) => spec_candidate_lockset(events.drop_last(), var),
        }
    }
}

/// Computes the candidate lockset of one global over a scanned stream: the
/// live locks snapshotted at its last access.
#[verifier::loop_isolation(false)]
pub fn candidate_lockset_for(events: &Vec<RaceEvent>, var: i64) -> (r: Option<IdSet>)
    ensures
        r is Some <==> spec_candidate_lockset(events@, var) is Some,
        r matches Some(s) ==> s.wf() && spec_candidate_lockset(events@, var) == Some(s.to_set()),
{
    let mut live = IdSet::new();
    let mut found: Option<IdSet> = None;
    let mut i: usize = 0;
    proof {
        assert(events@.subrange(0, 0) =~= Seq::<RaceEvent>::empty());
    }
    while i < events.len()
        invariant
            i <= events@.len(),
            live.wf(),
            live.to_set() == spec_live_locks(events@.subrange(0, i as int)),
            match found {
                Some(s) => s.wf() && spec_candidate_lockset(events@.subrange(0, i as int), var)
                    == Some(s.to_set()),
                None => spec_candidate_lockset(events@.subrange(0, i as int), var) is None,
            },
        decreases events@.len() - i,
    {
        proof {
            assert(events@.subrange(0, i + 1).drop_last() =~= events@.subrange(0, i as int));
            assert(events@.subrange(0, i + 1).last() == events@[i as int]);
        }
        match &events[i] {
            RaceEvent::LockOp(l) => {
                match l.typ {
                    LockTyp::Lock => live.insert(l.lock),
                    LockTyp::UnLock => live.remove(l.lock),
                }
            },
            RaceEvent::Access { global_var_id, .. } => {
                if *global_var_id == var {
                    let held = live.as_vec();
                    let mut snapshot_ids: Vec<i64> = Vec::new();
                    let mut k: usize = 0;
                    while k < held.len()
                        invariant
                            k <= held@.len(),
                            snapshot_ids@ == held@.subrange(0, k as int),
                        decreases held@.len() - k,
                    {
                        let id = held[k];
                        snapshot_ids.push(id);
                        proof {
                            assert(snapshot_ids@ =~= held@.subrange(0, k + 1));
                        }
                        k += 1;
                    }
                    proof {
                        assert(snapshot_ids@ =~= live.ids@);
                    }
                    found = Some(IdSet { ids: snapshot_ids });
                }
            },
        }
        i += 1;
    }
    proof {
        assert(events@.subrange(0, events@.len() as int) =~= events@);
    }
    found
}

} // verus!

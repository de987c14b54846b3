//! The data-race detector runtime: the Eraser-style lockset algorithm with a
//! four-state machine per shared variable. Every access to a global variable
//! refines that variable's candidate lockset to the locks its thread holds;
//! a write to a variable that several threads have written without a common
//! lock is reported, once per `(thread, variable, declaration line, use
//! line)` key.

use vstd::prelude::*;
use std::collections::HashMap;
use crate::instrument::race::{AccessOperation, LockTyp};

verus! {

/// A small set of lock or thread identifiers, kept without duplicates.
pub struct IdSet {
    pub ids: Vec<i64>,
}

impl IdSet {
    /// The mathematical set of identifiers held.
    pub open spec fn to_set(self) -> Set<i64> {
        self.ids@.to_set()
    }

    /// No identifier is held twice.
    pub open spec fn wf(self) -> bool {
        self.ids@.no_duplicates()
    }

    pub fn new() -> (r: IdSet)
        ensures
            r.wf(),
            r.to_set() =~= Set::empty(),
    {
        IdSet { ids: Vec::new() }
    }

    pub fn contains(&self, x: i64) -> (r: bool)
        ensures
            r == self.to_set().contains(x),
    {
        let mut i: usize = 0;
        while i < self.ids.len()
            invariant
                i <= self.ids@.len(),
                forall|k: int| 0 <= k < i ==> self.ids@[k] != x,
            decreases self.ids@.len() - i,
        {
            if self.ids[i] == x {
                return true;
            }
            i += 1;
        }
        false
    }

    pub fn insert(&mut self, x: i64)
        requires
            old(self).wf(),
        ensures
            final(self).wf(),
            final(self).to_set() =~= old(self).to_set().insert(x),
    {
        if !self.contains(x) {
            proof {
                assert(!old(self).ids@.contains(x));
            }
            self.ids.push(x);
            proof {
                assert forall|y: i64| #[trigger]
                    self.to_set().contains(y) implies old(self).to_set().insert(x).contains(y) by {
                    let k = choose|k: int| 0 <= k < self.ids@.len() && self.ids@[k] == y;
                    if k < old(self).ids@.len() {
                        assert(old(self).ids@[k] == y);
                    }
                }
                assert forall|y: i64| #[trigger]
                    old(self).to_set().insert(x).contains(y) implies self.to_set().contains(y) by {
                    if y == x {
                        assert(self.ids@[self.ids@.len() - 1] == y);
                    } else {
                        let k = choose|k: int|
                            0 <= k < old(self).ids@.len() && old(self).ids@[k] == y;
                        assert(self.ids@[k] == y);
                    }
                }
                assert(self.ids@.no_duplicates()) by {
                    assert forall|i: int, j: int|
                        0 <= i < j < self.ids@.len() implies self.ids@[i] != self.ids@[j] by {
                        if j == self.ids@.len() - 1 {
                            assert(old(self).ids@[i] == self.ids@[i]);
                        }
                    }
                }
            }
        }
    }

    pub fn remove(&mut self, x: i64)
        requires
            old(self).wf(),
        ensures
            final(self).wf(),
            final(self).to_set() =~= old(self).to_set().remove(x),
    {
        let mut i: usize = 0;
        while i < self.ids.len()
            invariant
                self.wf(),
                i <= self.ids@.len(),
                self.ids@ == old(self).ids@,
                forall|k: int| 0 <= k < i ==> self.ids@[k] != x,
            decreases self.ids@.len() - i,
        {
            if self.ids[i] == x {
                self.ids.remove(i);
                proof {
                    assert(old(self).ids@.remove(i as int).no_duplicates());
                    assert forall|y: i64| self.to_set().contains(y) implies old(self).to_set().remove(x).contains(y) by {
                        let k = choose|k: int| 0 <= k < self.ids@.len() && self.ids@[k] == y;
                        if k < i {
                            assert(old(self).ids@[k] == y);
                        } else {
                            assert(old(self).ids@[k + 1] == y);
                        }
                    }
                    assert forall|y: i64| old(self).to_set().remove(x).contains(y) implies
                        self.to_set().contains(y) by {
                        let k = choose|k: int|
                            0 <= k < old(self).ids@.len() && old(self).ids@[k] == y;
                        if k < i {
                            assert(self.ids@[k] == y);
                        } else {
                            assert(k != i);
                            assert(self.ids@[k - 1] == y);
                        }
                    }
                }
                return ;
            }
            i += 1;
        }
        proof {
            assert(!self.ids@.contains(x));
        }
    }

    pub fn is_empty(&self) -> (r: bool)
        ensures
            r <==> self.to_set() =~= Set::empty(),
    {
        let r = self.ids.len() == 0;
        proof {
            if self.ids@.len() > 0 {
                assert(self.to_set().contains(self.ids@[0]));
            }
        }
        r
    }

    pub fn len(&self) -> (r: usize)
        ensures
            r == self.ids@.len(),
    {
        self.ids.len()
    }

    /// The identifiers held, for iteration outside the detector.
    pub fn as_vec(&self) -> (r: &Vec<i64>)
        ensures
            r@ == self.ids@,
            r@.to_set() == self.to_set(),
    {
        &self.ids
    }

    /// The identifiers held in both sets.
    pub fn intersect(&self, other: &IdSet) -> (r: IdSet)
        requires
            self.wf(),
        ensures
            r.wf(),
            r.to_set() =~= self.to_set().intersect(other.to_set()),
    {
        let mut out = IdSet::new();
        let mut i: usize = 0;
        while i < self.ids.len()
            invariant
                self.wf(),
                out.wf(),
                i <= self.ids@.len(),
                forall|k: int| #![auto]
                    0 <= k < i ==> (out.to_set().contains(self.ids@[k]) <==> other.to_set().contains(
                        self.ids@[k],
                    )),
                forall|y: i64|
                    out.to_set().contains(y) ==> self.to_set().contains(y)
                        && other.to_set().contains(y),
            decreases self.ids@.len() - i,
        {
            let x = self.ids[i];
            if other.contains(x) {
                out.insert(x);
            }
            i += 1;
        }
        proof {
            assert forall|y: i64|
                self.to_set().contains(y) && other.to_set().contains(y) implies out.to_set().contains(
                y,
            ) by {
                let k = choose|k: int| 0 <= k < self.ids@.len() && self.ids@[k] == y;
            }
        }
        out
    }
}

/// The name and declaration line of an instrumented global variable.
pub struct GlobalVarMetadata {
    pub global_var_name: String,
    pub global_var_decl_line: u32,
}

impl GlobalVarMetadata {
    pub fn new(global_var_name: String, global_var_decl_line: u32) -> (r: GlobalVarMetadata)
        ensures
            r.global_var_name == global_var_name,
            r.global_var_decl_line == global_var_decl_line,
    {
        GlobalVarMetadata { global_var_name, global_var_decl_line }
    }
}

/// The name and declaration line of an instrumented lock variable.
pub struct LockMetadata {
    pub lock_var_name: String,
    pub lock_var_decl_line: u32,
}

impl LockMetadata {
    pub fn new(lock_var_name: String, lock_var_decl_line: u32) -> (r: LockMetadata)
        ensures
            r.lock_var_name == lock_var_name,
            r.lock_var_decl_line == lock_var_decl_line,
    {
        LockMetadata { lock_var_name, lock_var_decl_line }
    }
}

/// The deduplication key of a race report.
#[derive(Debug, PartialEq, Eq, Structural, Clone, Copy)]
pub struct Reported {
    pub thread_id: i64,
    pub global_var_id: i64,
    pub global_var_decl: u32,
    pub global_var_used: i64,
}

impl Reported {
    pub fn new(thread_id: i64, global_var_id: i64, global_var_decl: u32, global_var_used: i64) -> (r:
        Reported)
        ensures
            r == (Reported { thread_id, global_var_id, global_var_decl, global_var_used }),
    {
        Reported { thread_id, global_var_id, global_var_decl, global_var_used }
    }
}

/// The state of one shared variable in the detector's state machine.
#[derive(Debug, PartialEq, Eq, Structural, Clone, Copy)]
pub enum State {
    Virgin,
    Exclusive,
    Shared,
    SharedModified,
}

/// The per-variable record: the threads that have accessed the variable and
/// its machine state.
pub struct ThreadState {
    pub thread_ids: IdSet,
    pub state: State,
}

impl ThreadState {
    pub open spec fn wf(self) -> bool {
        self.thread_ids.wf()
    }

    pub fn new() -> (r: ThreadState)
        ensures
            r.wf(),
            r.state == State::Virgin,
            r.thread_ids.to_set() =~= Set::empty(),
    {
        ThreadState { thread_ids: IdSet::new(), state: State::Virgin }
    }
}

/// The state a variable moves to on one access: `already` says whether the
/// accessing thread had already touched the variable.
pub open spec fn spec_state_transition(cur: State, already: bool, op: AccessOperation) -> State {
    match op {
        AccessOperation::Write => match cur {
            State::Virgin => State::Exclusive,
            State::Exclusive => if already {
                State::Exclusive
            } else {
                State::SharedModified
            },
            State::Shared => State::SharedModified,
            State::SharedModified => State::SharedModified,
        },
        AccessOperation::Read => match cur {
            State::Exclusive => if already {
                State::Exclusive
            } else {
                State::Shared
            },
            _ => cur,
        },
    }
}

/// Once a variable is `SharedModified` it stays so: no access moves it back
/// to `Exclusive`, `Shared` or `Virgin`.
pub proof fn lemma_shared_modified_is_final(already: bool, op: AccessOperation)
    ensures
        spec_state_transition(State::SharedModified, already, op) == State::SharedModified,
{
}


/// Whether a name carries the instrumenter's global-variable prefix
/// `__race.global.`.
pub open spec fn is_race_global_name(s: Seq<char>) -> bool {
    s.len() >= 14 && s.subrange(0, 14) == "__race.global."@
}

/// Strips the `__race.global.` prefix from an instrumented global's name.
pub fn strip_race_global_prefix(name: &str) -> (r: String)
    requires
        is_race_global_name(name@),
    ensures
        r@ == name@.subrange(14, name@.len() as int),
{
    let len = name.unicode_len();
    let stripped = name.substring_char(14, len);
    stripped.to_owned()
}

/// Whether one access records its thread in the variable's thread set.
pub open spec fn spec_records_thread(cur: State, already: bool, op: AccessOperation) -> bool {
    match op {
        AccessOperation::Write => match cur {
            State::Virgin => true,
            State::Exclusive => !already,
            State::Shared => true,
            State::SharedModified => false,
        },
        AccessOperation::Read => cur is Exclusive && !already,
    }
}

/// What the detector hands out when a race is reported: the keys of the
/// report and the identifiers of the candidate locks recorded for the
/// variable at module initialization.
pub struct RaceReport {
    pub report_index: usize,
    pub thread_id: i64,
    pub global_var_id: i64,
    pub global_var_decl_line: u32,
    pub used_line: i64,
    pub lock_ids: Vec<i64>,
}

/// The whole state of the race detector.
pub struct RaceDetector {
    pub global_var_metadata: HashMap<i64, GlobalVarMetadata>,
    pub lock_metadata: HashMap<i64, LockMetadata>,
    pub init_lock_set: HashMap<i64, IdSet>,
    pub lock_set: HashMap<i64, IdSet>,
    pub lock_held: HashMap<i64, IdSet>,
    pub state: HashMap<i64, ThreadState>,
    pub reported: Vec<Reported>,
}

impl RaceDetector {
    /// Every stored set is duplicate-free, every tracked variable has its
    /// metadata, and no race is reported twice (the report set is a set
    /// under the key `(thread, variable, declaration line, use line)`).
    pub open spec fn wf(self) -> bool {
        &&& forall|k: i64| #[trigger]
            self.init_lock_set@.contains_key(k) ==> self.init_lock_set@[k].wf()
        &&& forall|k: i64| #[trigger] self.lock_set@.contains_key(k) ==> self.lock_set@[k].wf()
        &&& forall|k: i64| #[trigger] self.lock_held@.contains_key(k) ==> self.lock_held@[k].wf()
        &&& forall|k: i64| #[trigger] self.state@.contains_key(k) ==> self.state@[k].wf()
        &&& forall|k: i64| #[trigger]
            self.state@.contains_key(k) ==> self.global_var_metadata@.contains_key(k)
        &&& self.reported@.no_duplicates()
    }

    pub fn new() -> (r: RaceDetector)
        ensures
            r.wf(),
            r.global_var_metadata@ =~= Map::empty(),
            r.lock_metadata@ =~= Map::empty(),
            r.init_lock_set@ =~= Map::empty(),
            r.lock_set@ =~= Map::empty(),
            r.lock_held@ =~= Map::empty(),
            r.state@ =~= Map::empty(),
            r.reported@ =~= Seq::empty(),
    {
        RaceDetector {
            global_var_metadata: HashMap::new(),
            lock_metadata: HashMap::new(),
            init_lock_set: HashMap::new(),
            lock_set: HashMap::new(),
            lock_held: HashMap::new(),
            state: HashMap::new(),
            reported: Vec::new(),
        }
    }

    /// Registers an instrumented global variable: stores its stripped name
    /// and declaration line and starts its state machine in `Virgin`.
    pub fn init_candidate_lockset_global_var(
        &mut self,
        global_var_name: &str,
        global_var_decl_line: u32,
        global_var_id: i64,
    )
        requires
            old(self).wf(),
            is_race_global_name(global_var_name@),
        ensures
            final(self).wf(),
            final(self).global_var_metadata@.contains_key(global_var_id),
            final(self).global_var_metadata@[global_var_id].global_var_name@ == global_var_name@.subrange(
                14,
                global_var_name@.len() as int,
            ),
            final(self).global_var_metadata@[global_var_id].global_var_decl_line
                == global_var_decl_line,
            forall|k: i64|
                k != global_var_id ==> final(self).global_var_metadata@.contains_key(k) == old(self).global_var_metadata@.contains_key(k),
            final(self).state@.contains_key(global_var_id),
            final(self).state@[global_var_id].state == State::Virgin,
            final(self).state@[global_var_id].thread_ids.to_set() =~= Set::empty(),
            forall|k: i64| #![auto]
                k != global_var_id && old(self).state@.contains_key(k) ==> final(self).state@.contains_key(k) && final(self).state@[k] == old(self).state@[k],
            final(self).reported@ == old(self).reported@,
            final(self).lock_set@ == old(self).lock_set@,
            final(self).lock_held@ == old(self).lock_held@,
            final(self).init_lock_set@ == old(self).init_lock_set@,
    {
        let stripped = strip_race_global_prefix(global_var_name);
        self.global_var_metadata.insert(
            global_var_id,
            GlobalVarMetadata::new(stripped, global_var_decl_line),
        );
        self.state.insert(global_var_id, ThreadState::new());
    }

    /// Registers a candidate lock of a global variable: stores the lock's
    /// stripped name and declaration line and adds it to both the current
    /// and the initial candidate lockset of the variable.
    pub fn init_candidate_lockset_lock_var(
        &mut self,
        global_var_id: i64,
        lock_var_name: &str,
        lock_var_decl_line: u32,
        lock_id: i64,
    )
        requires
            old(self).wf(),
            is_race_global_name(lock_var_name@),
        ensures
            final(self).wf(),
            final(self).lock_metadata@.contains_key(lock_id),
            final(self).lock_metadata@[lock_id].lock_var_name@ == lock_var_name@.subrange(
                14,
                lock_var_name@.len() as int,
            ),
            final(self).lock_metadata@[lock_id].lock_var_decl_line == lock_var_decl_line,
            final(self).lock_set@.contains_key(global_var_id),
            final(self).lock_set@[global_var_id].to_set() =~= (if old(self).lock_set@.contains_key(global_var_id) {
                old(self).lock_set@[global_var_id].to_set().insert(lock_id)
            } else {
                Set::empty().insert(lock_id)
            }),
            final(self).init_lock_set@.contains_key(global_var_id),
            final(self).init_lock_set@[global_var_id].to_set() =~= (if old(self).init_lock_set@.contains_key(global_var_id) {
                old(self).init_lock_set@[global_var_id].to_set().insert(lock_id)
            } else {
                Set::empty().insert(lock_id)
            }),
            final(self).state@ == old(self).state@,
            final(self).reported@ == old(self).reported@,
            final(self).global_var_metadata@ == old(self).global_var_metadata@,
            final(self).lock_held@ == old(self).lock_held@,
    {
        let stripped = strip_race_global_prefix(lock_var_name);
        self.lock_metadata.insert(lock_id, LockMetadata::new(stripped, lock_var_decl_line));
        let mut current = match self.lock_set.remove(&global_var_id) {
            Some(set_entry) => set_entry,
            None => IdSet::new(),
        };
        current.insert(lock_id);
        self.lock_set.insert(global_var_id, current);
        let mut initial = match self.init_lock_set.remove(&global_var_id) {
            Some(set_entry) => set_entry,
            None => IdSet::new(),
        };
        initial.insert(lock_id);
        self.init_lock_set.insert(global_var_id, initial);
    }

    /// Applies a lock or unlock call made by a thread to the set of locks
    /// that thread holds. A byte that encodes no lock operation changes
    /// nothing.
    pub fn update_lock_held(&mut self, is_lock: i8, thread_id: i64, lock_id: i64)
        requires
            old(self).wf(),
        ensures
            final(self).wf(),
            is_lock == 1 ==> final(self).lock_held@.contains_key(thread_id) && final(self).lock_held@[thread_id].to_set() =~= (if old(self).lock_held@.contains_key(thread_id) {
                old(self).lock_held@[thread_id].to_set().insert(lock_id)
            } else {
                Set::empty().insert(lock_id)
            }),
            is_lock == 0 && old(self).lock_held@.contains_key(thread_id) ==> final(self).lock_held@.contains_key(thread_id) && final(self).lock_held@[thread_id].to_set() =~= old(self).lock_held@[thread_id].to_set().remove(lock_id),
            is_lock == 0 && !old(self).lock_held@.contains_key(thread_id) ==> final(self).lock_held@ == old(self).lock_held@,
            !(is_lock == 0 || is_lock == 1) ==> final(self).lock_held@ == old(self).lock_held@,
            forall|k: i64|
                k != thread_id ==> final(self).lock_held@.contains_key(k) == old(self).lock_held@.contains_key(k),
            forall|k: i64| #![auto]
                k != thread_id && old(self).lock_held@.contains_key(k) ==> final(self).lock_held@[k] == old(self).lock_held@[k],
            final(self).state@ == old(self).state@,
            final(self).reported@ == old(self).reported@,
            final(self).lock_set@ == old(self).lock_set@,
            final(self).init_lock_set@ == old(self).init_lock_set@,
            final(self).global_var_metadata@ == old(self).global_var_metadata@,
            final(self).lock_metadata@ == old(self).lock_metadata@,
    {
        if let Some(lock_typ) = LockTyp::from_i8(is_lock) {
            match lock_typ {
                LockTyp::Lock => {
                    let mut held = match self.lock_held.remove(&thread_id) {
                        Some(set_entry) => set_entry,
                        None => IdSet::new(),
                    };
                    held.insert(lock_id);
                    self.lock_held.insert(thread_id, held);
                },
                LockTyp::UnLock => {
                    match self.lock_held.remove(&thread_id) {
                        Some(mut set_entry) => {
                            set_entry.remove(lock_id);
                            self.lock_held.insert(thread_id, set_entry);
                        },
                        None => {},
                    }
                },
            }
        }
    }

    /// Refines the candidate lockset of a global variable on an access by a
    /// thread: the new lockset is the intersection of the current one with
    /// the locks the thread holds, or empty when the thread holds none.
    pub fn update_shared_mem(&mut self, thread_id: i64, global_var_id: i64)
        requires
            old(self).wf(),
        ensures
            final(self).wf(),
            final(self).lock_set@.contains_key(global_var_id),
            final(self).lock_set@[global_var_id].to_set() =~= (if old(self).lock_held@.contains_key(thread_id) && old(self).lock_set@.contains_key(
                global_var_id,
            ) {
                old(self).lock_set@[global_var_id].to_set().intersect(
                    old(self).lock_held@[thread_id].to_set(),
                )
            } else {
                Set::empty()
            }),
            forall|k: i64|
                k != global_var_id ==> final(self).lock_set@.contains_key(k) == old(self).lock_set@.contains_key(k),
            forall|k: i64| #![auto]
                k != global_var_id && old(self).lock_set@.contains_key(k) ==> final(self).lock_set@[k] == old(self).lock_set@[k],
            final(self).state@ == old(self).state@,
            final(self).reported@ == old(self).reported@,
            final(self).lock_held@ == old(self).lock_held@,
            final(self).init_lock_set@ == old(self).init_lock_set@,
            final(self).global_var_metadata@ == old(self).global_var_metadata@,
            final(self).lock_metadata@ == old(self).lock_metadata@,
    {
        match self.lock_held.get(&thread_id) {
            Some(holds) => {
                let new_lockset = match self.lock_set.get(&global_var_id) {
                    Some(set_entry) => set_entry.intersect(holds),
                    None => IdSet::new(),
                };
                self.lock_set.insert(global_var_id, new_lockset);
            },
            None => {
                self.lock_set.insert(global_var_id, IdSet::new());
            },
        }
    }

    /// Records a race once per key: a race of a known key changes nothing
    /// and returns `None`; a fresh key is appended to the report set and the
    /// report data comes back for printing.
    #[verifier::loop_isolation(false)]
    pub fn report(&mut self, thread_id: i64, global_var_id: i64, line: i64) -> (r: Option<
        RaceReport,
    >)
        requires
            old(self).wf(),
            old(self).global_var_metadata@.contains_key(global_var_id),
        ensures
            final(self).wf(),
            ({
                let key = Reported {
                    thread_id,
                    global_var_id,
                    global_var_decl: old(self).global_var_metadata@[global_var_id].global_var_decl_line,
                    global_var_used: line,
                };
                if old(self).reported@.contains(key) {
                    final(self).reported@ == old(self).reported@ && r is None
                } else {
                    final(self).reported@ == old(self).reported@.push(key) && (r matches Some(
                        data,
                    ) && data.report_index == old(self).reported@.len() && data.thread_id
                        == thread_id && data.global_var_id == global_var_id
                        && data.global_var_decl_line == key.global_var_decl && data.used_line
                        == line)
                }
            }),
            final(self).state@ == old(self).state@,
            final(self).lock_set@ == old(self).lock_set@,
            final(self).lock_held@ == old(self).lock_held@,
            final(self).init_lock_set@ == old(self).init_lock_set@,
            final(self).global_var_metadata@ == old(self).global_var_metadata@,
            final(self).lock_metadata@ == old(self).lock_metadata@,
    {
        let decl_line = match self.global_var_metadata.get(&global_var_id) {
            Some(md) => md.global_var_decl_line,
            None => {
                proof {
                    assert(false);
                }
                0
            },
        };
        let key = Reported::new(thread_id, global_var_id, decl_line, line);
        let mut i: usize = 0;
        while i < self.reported.len()
            invariant
                i <= self.reported@.len(),
                forall|k: int| 0 <= k < i ==> self.reported@[k] != key,
            decreases self.reported@.len() - i,
        {
            if self.reported[i] == key {
                proof {
                    assert(self.reported@[i as int] == key);
                    assert(self.reported@.contains(key));
                }
                return None;
            }
            i += 1;
        }
        proof {
            assert(!self.reported@.contains(key));
        }
        let report_index = self.reported.len();
        let lock_ids = match self.init_lock_set.get(&global_var_id) {
            Some(set_entry) => set_entry.as_vec().clone(),
            None => Vec::new(),
        };
        self.reported.push(key);
        Some(
            RaceReport {
                report_index,
                thread_id,
                global_var_id,
                global_var_decl_line: decl_line,
                used_line: line,
                lock_ids,
            },
        )
    }

    /// Applies one memory access to the variable's state machine. A write
    /// in `SharedModified` with an empty candidate lockset is a race and is
    /// reported; the access never moves a variable out of `SharedModified`.
    pub fn state_transition(&mut self, is_write: i8, thread_id: i64, global_var_id: i64, line: i64)
        -> (r: Option<RaceReport>)
        requires
            old(self).wf(),
        ensures
            final(self).wf(),
            final(self).lock_set@ == old(self).lock_set@,
            final(self).lock_held@ == old(self).lock_held@,
            final(self).init_lock_set@ == old(self).init_lock_set@,
            final(self).global_var_metadata@ == old(self).global_var_metadata@,
            final(self).lock_metadata@ == old(self).lock_metadata@,
            !((is_write == 0 || is_write == 1) && old(self).state@.contains_key(global_var_id))
                ==> final(self).state@ == old(self).state@ && final(self).reported@ == old(self).reported@ && r is None,
            (is_write == 0 || is_write == 1) && old(self).state@.contains_key(global_var_id) ==> ({
                let ts0 = old(self).state@[global_var_id];
                let op = if is_write == 1 {
                    AccessOperation::Write
                } else {
                    AccessOperation::Read
                };
                let already = ts0.thread_ids.to_set().contains(thread_id);
                &&& final(self).state@.contains_key(global_var_id)
                &&& final(self).state@[global_var_id].state == spec_state_transition(
                    ts0.state,
                    already,
                    op,
                )
                &&& final(self).state@[global_var_id].thread_ids.to_set() =~= (if spec_records_thread(
                    ts0.state,
                    already,
                    op,
                ) {
                    ts0.thread_ids.to_set().insert(thread_id)
                } else {
                    ts0.thread_ids.to_set()
                })
                &&& forall|k: i64|
                    k != global_var_id ==> final(self).state@.contains_key(k) == old(self).state@.contains_key(k)
                &&& forall|k: i64| #![auto]
                    k != global_var_id && old(self).state@.contains_key(k) ==> final(self).state@[k] == old(self).state@[k]
                &&& if op is Write && ts0.state is SharedModified && old(self).lock_set@.contains_key(global_var_id) && old(self).lock_set@[global_var_id].to_set() =~= Set::empty() {
                    let key = Reported {
                        thread_id,
                        global_var_id,
                        global_var_decl: old(self).global_var_metadata@[global_var_id].global_var_decl_line,
                        global_var_used: line,
                    };
                    if old(self).reported@.contains(key) {
                        final(self).reported@ == old(self).reported@ && r is None
                    } else {
                        final(self).reported@ == old(self).reported@.push(key) && r is Some
                    }
                } else {
                    final(self).reported@ == old(self).reported@ && r is None
                }
            }),
            old(self).state@.contains_key(global_var_id) && old(self).state@[global_var_id].state is SharedModified ==> final(self).state@[global_var_id].state is SharedModified,
    {
        let op = match AccessOperation::from_i8(is_write) {
            Some(op) => op,
            None => {
                return None;
            },
        };
        let mut cur_state = match self.state.remove(&global_var_id) {
            Some(ts) => ts,
            None => {
                return None;
            },
        };
        let mut result: Option<RaceReport> = None;
        match op {
            AccessOperation::Write => {
                match cur_state.state {
                    State::Virgin => {
                        cur_state.state = State::Exclusive;
                        cur_state.thread_ids.insert(thread_id);
                        self.state.insert(global_var_id, cur_state);
                    },
                    State::Exclusive => {
                        if !cur_state.thread_ids.contains(thread_id) {
                            cur_state.state = State::SharedModified;
                            cur_state.thread_ids.insert(thread_id);
                        }
                        self.state.insert(global_var_id, cur_state);
                    },
                    State::Shared => {
                        cur_state.state = State::SharedModified;
                        cur_state.thread_ids.insert(thread_id);
                        self.state.insert(global_var_id, cur_state);
                    },
                    State::SharedModified => {
                        self.state.insert(global_var_id, cur_state);
                        let lockset_empty = match self.lock_set.get(&global_var_id) {
                            Some(set_entry) => set_entry.is_empty(),
                            None => false,
                        };
                        if lockset_empty {
                            result = self.report(thread_id, global_var_id, line);
                        }
                    },
                }
            },
            AccessOperation::Read => {
                if cur_state.state == State::Exclusive && !cur_state.thread_ids.contains(
                    thread_id,
                ) {
                    cur_state.state = State::Shared;
                    cur_state.thread_ids.insert(thread_id);
                }
                self.state.insert(global_var_id, cur_state);
            },
        }
        result
    }

    /// The number of races reported so far.
    pub fn reported_len(&self) -> (r: usize)
        ensures
            r == self.reported@.len(),
    {
        self.reported.len()
    }

    /// The stored name and declaration line of a lock, for printing a
    /// report.
    pub fn lock_metadata_of(&self, lock_id: i64) -> (r: Option<(String, u32)>)
        ensures
            r is Some <==> self.lock_metadata@.contains_key(lock_id),
            r matches Some(md) ==> md.0@ == self.lock_metadata@[lock_id].lock_var_name@
                && md.1 == self.lock_metadata@[lock_id].lock_var_decl_line,
    {
        match self.lock_metadata.get(&lock_id) {
            Some(md) => Some((md.lock_var_name.clone(), md.lock_var_decl_line)),
            None => None,
        }
    }

    /// The stored name of a global variable, for printing a report.
    pub fn global_var_name_of(&self, global_var_id: i64) -> (r: Option<String>)
        ensures
            r is Some <==> self.global_var_metadata@.contains_key(global_var_id),
            r matches Some(name) ==> name@
                == self.global_var_metadata@[global_var_id].global_var_name@,
    {
        match self.global_var_metadata.get(&global_var_id) {
            Some(md) => Some(md.global_var_name.clone()),
            None => None,
        }
    }
}


impl RaceDetector {
    /// One shared-memory access as the instrumented code reports it: the
    /// candidate lockset is refined first, then the state machine steps and
    /// a write to a shared-modified variable whose refined lockset is empty
    /// is reported, once per key.
    pub fn race_update_shared_mem(
        &mut self,
        is_write: i8,
        thread_id: i64,
        global_var_id: i64,
        line: i64,
    ) -> (r: Option<RaceReport>)
        requires
            old(self).wf(),
        ensures
            final(self).wf(),
            final(self).lock_held@ == old(self).lock_held@,
            final(self).init_lock_set@ == old(self).init_lock_set@,
            final(self).global_var_metadata@ == old(self).global_var_metadata@,
            final(self).lock_metadata@ == old(self).lock_metadata@,
            ({
                let refined = (if old(self).lock_held@.contains_key(thread_id) && old(self).lock_set@.contains_key(global_var_id) {
                    old(self).lock_set@[global_var_id].to_set().intersect(
                        old(self).lock_held@[thread_id].to_set(),
                    )
                } else {
                    Set::empty()
                });
                &&& final(self).lock_set@.contains_key(global_var_id)
                &&& final(self).lock_set@[global_var_id].to_set() =~= refined
                &&& forall|k: i64|
                    k != global_var_id ==> final(self).lock_set@.contains_key(k) == old(self).lock_set@.contains_key(k)
                &&& forall|k: i64| #![auto]
                    k != global_var_id && old(self).lock_set@.contains_key(k) ==> final(self).lock_set@[k] == old(self).lock_set@[k]
                &&& (!((is_write == 0 || is_write == 1) && old(self).state@.contains_key(
                    global_var_id,
                )) ==> final(self).state@ == old(self).state@ && final(self).reported@ == old(self).reported@ && r is None)
                &&& ((is_write == 0 || is_write == 1) && old(self).state@.contains_key(
                    global_var_id,
                ) ==> {
                    let ts0 = old(self).state@[global_var_id];
                    let op = if is_write == 1 {
                        AccessOperation::Write
                    } else {
                        AccessOperation::Read
                    };
                    let already = ts0.thread_ids.to_set().contains(thread_id);
                    &&& final(self).state@.contains_key(global_var_id)
                    &&& final(self).state@[global_var_id].state == spec_state_transition(
                        ts0.state,
                        already,
                        op,
                    )
                    &&& final(self).state@[global_var_id].thread_ids.to_set() =~= (
                    if spec_records_thread(ts0.state, already, op) {
                        ts0.thread_ids.to_set().insert(thread_id)
                    } else {
                        ts0.thread_ids.to_set()
                    })
                    &&& forall|k: i64|
                        k != global_var_id ==> final(self).state@.contains_key(k) == old(self).state@.contains_key(k)
                    &&& forall|k: i64| #![auto]
                        k != global_var_id && old(self).state@.contains_key(k) ==> final(self).state@[k] == old(self).state@[k]
                    &&& if op is Write && ts0.state is SharedModified && refined =~= Set::empty() {
                        let key = Reported {
                            thread_id,
                            global_var_id,
                            global_var_decl: old(self).global_var_metadata@[global_var_id].global_var_decl_line,
                            global_var_used: line,
                        };
                        if old(self).reported@.contains(key) {
                            final(self).reported@ == old(self).reported@ && r is None
                        } else {
                            final(self).reported@ == old(self).reported@.push(key) && r is Some
                        }
                    } else {
                        final(self).reported@ == old(self).reported@ && r is None
                    }
                })
            }),
    {
        self.update_shared_mem(thread_id, global_var_id);
        let r = self.state_transition(is_write, thread_id, global_var_id, line);
        proof {
            if (is_write == 0 || is_write == 1) && old(self).state@.contains_key(global_var_id) {
                assert(old(self).state@[global_var_id].state is SharedModified && is_write == 1
                    ==> (self.lock_set@[global_var_id].to_set() =~= Set::empty()
                    <==> self.lock_set@[global_var_id].to_set() == Set::<i64>::empty()));
            }
        }
        r
    }
}

} // verus!

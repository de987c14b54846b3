//! The reserved names of the runtime entry points that the instrumentation
//! engine inserts calls to, and the name prefixes its skip policy tests.

use vstd::prelude::*;

verus! {

pub const LLVM_GLOBAL_CTORS: &'static str = "llvm.global_ctors";

pub const COV_INIT: &'static str = "__cov_init";

pub const COV_INIT_ENTRY: &'static str = "__cov_init_entry";

pub const COV_MODULE_INIT: &'static str = "__cov_module_init";

pub const COV_HIT_BATCH: &'static str = "__cov_hit_batch";

pub const COV_MAPPING_SRC: &'static str = "__cov_mapping_src";

pub const ASAN_MEM_CHECK: &'static str = "__asan_mem_check";

pub const ASAN_MEM_INIT_REDZONE: &'static str = "__asan_init_redzone";

pub const FUZZER_MODULE_INIT: &'static str = "__fuzzer_module_init";

pub const FUZZER_INIT_ENTRY: &'static str = "__fuzzer_init_entry";

pub const FUZZER_FORKSERVER_INIT: &'static str = "__fuzzer_forkserver_init";

pub const FUZZER_TRACE_EDGE: &'static str = "__fuzzer_trace_edge";

pub const SYMBOLIC_MAKE_VAR: &'static str = "__make_symbolic";

pub const SYMBOLIC_MODULE_ADD_SYM: &'static str = "__symbolic_module_add_sym";

pub const SYMBOLIC_INIT_ENTRY: &'static str = "__symbolic_init_entry";

pub const SYMBOLIC_INIT: &'static str = "__symbolic_init";

pub const SYMBOLIC_MAKE_PREPARE: &'static str = "__symbolic_make_prepare";

pub const PTHREAD_MUTEX_LOCK: &'static str = "pthread_mutex_lock";

pub const PTHREAD_MUTEX_UNLOCK: &'static str = "pthread_mutex_unlock";

pub const PTHREAD_SELF: &'static str = "pthread_self";

pub const RACE_MODULE_INIT: &'static str = "__race_module_init";

pub const RACE_INIT_ENTRY: &'static str = "__race_init_entry";

pub const RACE_INIT_CANDIDATE_LOCKSET_GLOBAL_VAR: &'static str =
    "__race_init_candidate_lockset_global_var";

pub const RACE_INIT_CANDIDATE_LOCKSET_LOCK_VAR: &'static str =
    "__race_init_candidate_lockset_lock_var";

pub const RACE_LOCK_HELD: &'static str = "__race_update_lock_held";

pub const RACE_UPDATE_SHARED_MEM: &'static str = "__race_update_shared_mem";

pub const RACE_GLOBAL_PREFIX: &'static str = "__race.global.";


/// Whether `p` is a prefix of `s`.
pub open spec fn has_prefix(s: Seq<char>, p: Seq<char>) -> bool {
    p.len() <= s.len() && s.subrange(0, p.len() as int) == p
}

/// Whether one string starts with another.
#[verifier::loop_isolation(false)]
pub fn starts_with(s: &str, p: &str) -> (r: bool)
    ensures
        r == has_prefix(s@, p@),
{
    let sl = s.unicode_len();
    let pl = p.unicode_len();
    if pl > sl {
        return false;
    }
    let mut i: usize = 0;
    while i < pl
        invariant
            i <= pl,
            forall|k: int| 0 <= k < i ==> s@[k] == p@[k],
        decreases pl - i,
    {
        if s.get_char(i) != p.get_char(i) {
            proof {
                assert(s@.subrange(0, pl as int)[i as int] != p@[i as int]);
            }
            return false;
        }
        i += 1;
    }
    proof {
        assert(s@.subrange(0, pl as int) =~= p@);
    }
    true
}

/// The skip policy of every pass: a function is left alone when it has no
/// body or its name begins with a reserved runtime prefix.
pub fn can_skip_instrument(func_name: &str, has_body: bool) -> (r: bool)
    ensures
        r == (!has_body || has_prefix(func_name@, "__cov_"@) || has_prefix(func_name@, "__asan_"@)
            || has_prefix(func_name@, "__fuzzer_"@) || has_prefix(func_name@, "__symbolic_"@)
            || has_prefix(func_name@, "__race_"@)),
{
    if !has_body {
        return true;
    }
    starts_with(func_name, "__cov_") || starts_with(func_name, "__asan_") || starts_with(
        func_name,
        "__fuzzer_",
    ) || starts_with(func_name, "__symbolic_") || starts_with(func_name, "__race_")
}

} // verus!

//! The fuzzer host's decisions and wire protocol: the delivery mode, the
//! words exchanged with the fork-server, what counts as a crash, and the
//! events and records the campaign aggregates.

use vstd::prelude::*;
use crate::covmap::CovReport;
use crate::edge::{PROCESS_EXIT_NORMAL, SIGKILL};
use crate::seed::Seed;

verus! {

/// The terminate sentinel of the fork-server wire protocol.
pub const TERMINATE_SENTINEL: u64 = 99999999999;

/// How a seed reaches the target: written to a file passed as an argument,
/// or fed on standard input.
#[derive(Debug, Clone, Copy, PartialEq, Eq, Structural)]
pub enum FuzzInput {
    ProgramArgument,
    Stdin,
}

impl FuzzInput {
    /// The mode's name on the command line.
    pub fn as_str(&self) -> (r: &'static str)
        ensures
            self is ProgramArgument ==> r@ == "file"@,
            self is Stdin ==> r@ == "stdin"@,
    {
        match self {
            Self::ProgramArgument => "file",
            Self::Stdin => "stdin",
        }
    }

    /// The mode a name parses to.
    pub fn from_str(input_typ: &str) -> (r: Option<FuzzInput>)
        ensures
            r == spec_fuzz_input_of(input_typ@),
    {
        if crate::instrument::cli::str_eq_str(input_typ, "file") {
            Some(Self::ProgramArgument)
        } else if crate::instrument::cli::str_eq_str(input_typ, "stdin") {
            Some(Self::Stdin)
        } else {
            None
        }
    }
}

/// The delivery mode a name parses to: `file`, `stdin`, or nothing.
pub open spec fn spec_fuzz_input_of(s: Seq<char>) -> Option<FuzzInput> {
    if s == "file"@ {
        Some(FuzzInput::ProgramArgument)
    } else if s == "stdin"@ {
        Some(FuzzInput::Stdin)
    } else {
        None
    }
}

/// What the host sends the fork-server: a per-run timeout, or the terminate
/// sentinel.
pub enum HostSend {
    Terminate,
    Wakeup(u64),
}

/// The outcome of a fuzzing campaign.
#[derive(Debug)]
pub enum FuzzResult {
    AllSeedConsumed(u64),
    UserTerminated,
    Success,
}

/// The 64-bit word the host writes to wake the fork-server: the timeout in
/// seconds, never zero (a zero timeout is sent as one), or the terminate
/// sentinel.
pub fn wakeup_word(kind: HostSend) -> (r: u64)
    ensures
        kind is Terminate ==> r == TERMINATE_SENTINEL,
        kind matches HostSend::Wakeup(t) ==> r == (if t == 0 {
            1u64
        } else {
            t
        }),
{
    match kind {
        HostSend::Wakeup(timeout) => {
            if timeout == 0 {
                1
            } else {
                timeout
            }
        },
        HostSend::Terminate => TERMINATE_SENTINEL,
    }
}

/// Whether a wakeup word read off the wire orders the fork-server to exit.
pub fn should_terminate(host_sent: u64) -> (r: bool)
    ensures
        r == (host_sent == TERMINATE_SENTINEL),
{
    host_sent == TERMINATE_SENTINEL
}

/// The status word the fork-server writes back for a reaped child: the exit
/// status, with zero rewritten so the host never reads an empty word.
pub fn notify_word(status: u64) -> (r: u64)
    ensures
        status == 0 ==> r == PROCESS_EXIT_NORMAL,
        status != 0 ==> r == status,
{
    if status == 0 {
        PROCESS_EXIT_NORMAL
    } else {
        status
    }
}

/// Whether a run's status is a crash: neither a normal exit nor a hang
/// killed by the watchdog.
pub fn is_crash(status: i32) -> (r: bool)
    ensures
        r == (status != PROCESS_EXIT_NORMAL as i32 && status != SIGKILL),
{
    status != PROCESS_EXIT_NORMAL as i32 && status != SIGKILL
}

/// One minimized crash and the seed it came from.
#[derive(Debug)]
pub struct CrashInfo {
    pub crashes: usize,
    pub origin: Seed,
    pub minimized: Seed,
}

impl CrashInfo {
    pub fn new(crashes: usize, origin: Seed, minimized: Seed) -> (r: CrashInfo)
        ensures
            r.crashes == crashes,
            r.origin == origin,
            r.minimized == minimized,
    {
        CrashInfo { crashes, origin, minimized }
    }
}

/// The campaign's running counters; the times are in milliseconds.
#[derive(Debug)]
pub struct FuzzerMetadata {
    pub fuzz_cnt: u64,
    pub fuzz_input_typ: FuzzInput,
    pub timeout: u64,
    pub target_elpased_time: u64,
    pub total_elpased_time: u64,
}

impl FuzzerMetadata {
    pub fn new(
        fuzz_cnt: u64,
        fuzz_input_typ: FuzzInput,
        timeout: u64,
        target_elpased_time: u64,
        total_elpased_time: u64,
    ) -> (r: FuzzerMetadata)
        ensures
            r == (FuzzerMetadata {
                fuzz_cnt,
                fuzz_input_typ,
                timeout,
                target_elpased_time,
                total_elpased_time,
            }),
    {
        FuzzerMetadata { fuzz_cnt, fuzz_input_typ, timeout, target_elpased_time, total_elpased_time }
    }
}

/// One step of seed bookkeeping: the pool size, the seed that ran and the
/// mutant that entered, and the coverage counters.
#[derive(Debug)]
pub struct FuzzerSeed {
    pub seeds: usize,
    pub cur_seed: Seed,
    pub next_seed: Seed,
    pub visit_edges: u64,
    pub new_paths: usize,
}

impl FuzzerSeed {
    pub fn new(seeds: usize, cur_seed: Seed, next_seed: Seed, visit_edges: u64, new_paths: usize)
        -> (r: FuzzerSeed)
        ensures
            r.seeds == seeds,
            r.cur_seed == cur_seed,
            r.next_seed == next_seed,
            r.visit_edges == visit_edges,
            r.new_paths == new_paths,
    {
        FuzzerSeed { seeds, cur_seed, next_seed, visit_edges, new_paths }
    }
}

/// One event on the campaign's channel.
#[derive(Debug)]
pub enum FuzzShot {
    ProgramOutput(String),
    Coverage(Vec<CovReport>),
    Crash(CrashInfo),
    Metadata(FuzzerMetadata),
    SeedInfo(FuzzerSeed),
    Terminated,
}

/// Everything the campaign has aggregated so far.
#[derive(Debug)]
pub struct FuzzingCampaign {
    pub program_output: Vec<String>,
    pub coverage: Vec<CovReport>,
    pub crash: CrashInfo,
    pub metadata: FuzzerMetadata,
    pub seed_info: FuzzerSeed,
}

impl FuzzingCampaign {
    /// An empty campaign record.
    pub fn new(fuzz_input: FuzzInput) -> (r: FuzzingCampaign)
        ensures
            r.program_output@.len() == 1,
            r.coverage@.len() == 1,
            r.metadata.fuzz_input_typ == fuzz_input,
            r.metadata.fuzz_cnt == 0,
    {
        FuzzingCampaign {
            program_output: vec![String::new()],
            coverage: vec![
                crate::covmap::CovReport {
                    file: String::new(),
                    funcs_hit_ratio: String::new(),
                    uncovered_funcs: String::new(),
                    brs_hit_ratio: String::new(),
                    uncovered_brs: String::new(),
                    lines_hit_ratio: String::new(),
                    uncovered_lines: String::new(),
                },
            ],
            crash: CrashInfo::new(0, Seed::new(Vec::new(), 0), Seed::new(Vec::new(), 0)),
            metadata: FuzzerMetadata::new(0, fuzz_input, 0, 0, 0),
            seed_info: FuzzerSeed::new(0, Seed::new(Vec::new(), 0), Seed::new(Vec::new(), 0), 0, 0),
        }
    }

    pub fn add_program_output(&mut self, pgm_output: String)
        ensures
            final(self).program_output@ == old(self).program_output@.push(pgm_output),
            final(self).coverage == old(self).coverage,
            final(self).metadata == old(self).metadata,
    {
        self.program_output.push(pgm_output);
    }

    /// Replaces the coverage report, unless the new one is empty.
    pub fn set_coverage(&mut self, coverage: Vec<CovReport>)
        ensures
            coverage@.len() > 0 ==> final(self).coverage == coverage,
            coverage@.len() == 0 ==> final(self).coverage == old(self).coverage,
            final(self).program_output == old(self).program_output,
            final(self).metadata == old(self).metadata,
    {
        if coverage.len() > 0 {
            self.coverage = coverage;
        }
    }

    pub fn set_crash(&mut self, crash: CrashInfo)
        ensures
            final(self).crash == crash,
            final(self).program_output == old(self).program_output,
    {
        self.crash = crash;
    }

    pub fn set_metadata(&mut self, metadata: FuzzerMetadata)
        ensures
            final(self).metadata == metadata,
            final(self).program_output == old(self).program_output,
    {
        self.metadata = metadata;
    }

    pub fn set_seed_info(&mut self, seed_info: FuzzerSeed)
        ensures
            final(self).seed_info == seed_info,
            final(self).program_output == old(self).program_output,
    {
        self.seed_info = seed_info;
    }
}

} // verus!

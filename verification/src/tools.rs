//! The build orchestrator's decisions: validating the compiler and
//! optimization-level selectors, the front-end's flag names, and the file
//! name a path ends in.

use vstd::prelude::*;
use crate::instrument::cli::str_eq_str;

verus! {

/// The flags of the build front-end.
#[derive(Debug, Clone, Copy)]
pub enum Flag {
    InputFilePath,
    OutDir,
    OutBinName,
    Compiler,
    OptLevel,
    CoverageRuntimeLibPath,
    CoverageRuntimeLibName,
    AsanRuntimeLibPath,
    AsanRuntimeLibName,
    FuzzerRuntimeLibPath,
    FuzzerRuntimeLibName,
    SymbolicRuntimeLibPath,
    SymbolicRuntimeLibName,
    RaceRuntimeLibPath,
    RaceRuntimeLibName,
}

impl Flag {
    /// The flag's name on the command line.
    pub fn as_str(&self) -> (r: &'static str)
        ensures
            self is InputFilePath ==> r@ == "input_file_path"@,
            self is Compiler ==> r@ == "compiler"@,
            self is OptLevel ==> r@ == "opt_level"@,
    {
        match self {
            Self::InputFilePath => "input_file_path",
            Self::OutDir => "output directory",
            Self::OutBinName => "output_bin_name",
            Self::Compiler => "compiler",
            Self::OptLevel => "opt_level",
            Self::CoverageRuntimeLibPath => "coverage_runtime_lib_path",
            Self::CoverageRuntimeLibName => "coverage_runtime_lib_name",
            Self::AsanRuntimeLibPath => "asan_runtime_lib_path",
            Self::AsanRuntimeLibName => "asan_runtime_lib_name",
            Self::FuzzerRuntimeLibPath => "fuzzer_runtime_lib_path",
            Self::FuzzerRuntimeLibName => "fuzzer_runtime_lib_name",
            Self::SymbolicRuntimeLibPath => "symbolic_runtime_lib_path",
            Self::SymbolicRuntimeLibName => "symbolic_runtime_lib_name",
            Self::RaceRuntimeLibPath => "race_runtime_lib_path",
            Self::RaceRuntimeLibName => "race_runtime_lib_name",
        }
    }
}

/// Whether an optimization-level selector is one the orchestrator accepts.
pub fn valid_opt_level(opt_level: &str) -> (r: bool)
    ensures
        r == (opt_level@ == "O0"@ || opt_level@ == "O1"@ || opt_level@ == "O2"@ || opt_level@
            == "O3"@),
{
    str_eq_str(opt_level, "O0") || str_eq_str(opt_level, "O1") || str_eq_str(opt_level, "O2")
        || str_eq_str(opt_level, "O3")
}

/// Whether a compiler selector is one the orchestrator accepts.
pub fn valid_compiler(compiler: &str) -> (r: bool)
    ensures
        r == (compiler@ == "clang"@ || compiler@ == "clang++"@),
{
    str_eq_str(compiler, "clang") || str_eq_str(compiler, "clang++")
}

/// Everything after the last slash of a path.
pub open spec fn tail_after_slash(s: Seq<char>) -> Seq<char>
    decreases s.len(),
{
    if s.len() == 0 {
        Seq::empty()
    } else if s.last() == '/' {
        Seq::empty()
    } else {
        tail_after_slash(s.drop_last()).push(s.last())
    }
}

/// A path with its trailing slashes dropped.
pub open spec fn trim_trailing_slashes(s: Seq<char>) -> Seq<char>
    decreases s.len(),
{
    if s.len() == 0 {
        s
    } else if s.last() == '/' {
        trim_trailing_slashes(s.drop_last())
    } else {
        s
    }
}

/// The file name a path ends in: everything after the last slash, trailing
/// slashes ignored, with the current- and parent-directory names counting
/// as no file name at all.
pub open spec fn spec_extract_filename(s: Seq<char>) -> Seq<char> {
    let t = tail_after_slash(trim_trailing_slashes(s));
    if t == "."@ || t == ".."@ {
        Seq::empty()
    } else {
        t
    }
}

proof fn lemma_tail_is_suffix(s: Seq<char>, k: int)
    requires
        0 <= k <= s.len(),
        forall|j: int| k <= j < s.len() ==> s[j] != '/',
        k > 0 ==> s[k - 1] == '/',
    ensures
        tail_after_slash(s) == s.subrange(k, s.len() as int),
    decreases s.len(),
{
    if s.len() == 0 {
        assert(s.subrange(0, 0) =~= Seq::<char>::empty());
    } else if s.last() == '/' {
        assert(k == s.len());
        assert(s.subrange(k, s.len() as int) =~= Seq::<char>::empty());
    } else {
        assert(k < s.len());
        let shorter = s.drop_last();
        assert(forall|j: int| k <= j < shorter.len() ==> shorter[j] == s[j]);
        if k > 0 {
            assert(shorter[k - 1] == s[k - 1]);
        }
        lemma_tail_is_suffix(shorter, k);
        assert(tail_after_slash(s) =~= s.subrange(k, s.len() as int)) by {
            assert(shorter.subrange(k, shorter.len() as int) =~= s.subrange(
                k,
                s.len() as int,
            ).drop_last());
        }
    }
}

/// The file name a path ends in.
#[verifier::loop_isolation(false)]
#[verifier::rlimit(30)]
pub fn extract_filename(file: &str) -> (r: String)
    ensures
        r@ == spec_extract_filename(file@),
{
    let n = file.unicode_len();
    let mut e: usize = n;
    proof {
        assert(file@.take(n as int) =~= file@);
    }
    while e > 0 && file.get_char(e - 1) == '/'
        invariant
            e <= n == file@.len(),
            trim_trailing_slashes(file@) == trim_trailing_slashes(file@.take(e as int)),
        decreases e,
    {
        proof {
            assert(file@.take(e as int).drop_last() =~= file@.take(e - 1));
        }
        e -= 1;
    }
    proof {
        assert(trim_trailing_slashes(file@) =~= file@.take(e as int));
    }
    let mut k: usize = e;
    let mut scanning = true;
    while scanning && k > 0
        invariant
            k <= e,
            forall|j: int| k <= j < e ==> file@[j] != '/',
            !scanning ==> k > 0 && file@[k - 1] == '/',
        decreases k + (if scanning {
            1int
        } else {
            0int
        }),
    {
        if file.get_char(k - 1) == '/' {
            scanning = false;
        } else {
            k -= 1;
        }
    }
    proof {
        assert(forall|j: int|
            k <= j < e ==> #[trigger] file@.take(e as int)[j] == file@[j]);
        lemma_tail_is_suffix(file@.take(e as int), k as int);
        assert(file@.take(e as int).subrange(k as int, e as int) =~= file@.subrange(
            k as int,
            e as int,
        ));
    }
    let tail = file.substring_char(k, e).to_owned();
    if str_eq_str(tail.as_str(), ".") || str_eq_str(tail.as_str(), "..") {
        String::new()
    } else {
        tail
    }
}

} // verus!

//! The instrumenter front-end's module selector.

use vstd::prelude::*;

verus! {

/// Which pass, or all of them, a run of the instrumenter applies.
#[derive(Clone, Copy, Debug)]
pub enum ModuleTyp {
    Coverage,
    Asan,
    Fuzz,
    Symbolic,
    Race,
    All,
}

impl ModuleTyp {
    /// The selector's name on the command line.
    pub fn as_str(&self) -> (r: &'static str)
        ensures
            self is Coverage ==> r@ == "coverage"@,
            self is Asan ==> r@ == "asan"@,
            self is Fuzz ==> r@ == "fuzz"@,
            self is Race ==> r@ == "race"@,
            self is Symbolic ==> r@ == "symbolic"@,
            self is All ==> r@ == "all"@,
    {
        match self {
            Self::Coverage => "coverage",
            Self::Asan => "asan",
            Self::Fuzz => "fuzz",
            Self::Race => "race",
            Self::Symbolic => "symbolic",
            Self::All => "all",
        }
    }

    /// Parses a selector; an unknown name selects nothing.
    pub fn from_str(module_typ: &str) -> (r: Option<ModuleTyp>)
        ensures
            r == spec_module_typ_of(module_typ@),
    {
        if str_eq_str(module_typ, "coverage") {
            Some(Self::Coverage)
        } else if str_eq_str(module_typ, "asan") {
            Some(Self::Asan)
        } else if str_eq_str(module_typ, "fuzz") {
            Some(Self::Fuzz)
        } else if str_eq_str(module_typ, "race") {
            Some(Self::Race)
        } else if str_eq_str(module_typ, "symbolic") {
            Some(Self::Symbolic)
        } else if str_eq_str(module_typ, "all") {
            Some(Self::All)
        } else {
            None
        }
    }
}

/// The selector a name parses to: the first of the six whose name it
/// equals, else nothing.
pub open spec fn spec_module_typ_of(s: Seq<char>) -> Option<ModuleTyp> {
    if s == "coverage"@ {
        Some(ModuleTyp::Coverage)
    } else if s == "asan"@ {
        Some(ModuleTyp::Asan)
    } else if s == "fuzz"@ {
        Some(ModuleTyp::Fuzz)
    } else if s == "race"@ {
        Some(ModuleTyp::Race)
    } else if s == "symbolic"@ {
        Some(ModuleTyp::Symbolic)
    } else if s == "all"@ {
        Some(ModuleTyp::All)
    } else {
        None
    }
}

/// String equality between two borrowed strings.
pub fn str_eq_str(a: &str, b: &str) -> (r: bool)
    ensures
        r == (a@ == b@),
{
    let owned_a: String = a.to_owned();
    let owned_b: String = b.to_owned();
    owned_a.eq(&owned_b)
}

} // verus!

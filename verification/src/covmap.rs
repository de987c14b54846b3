//! The line/branch/function coverage runtime: per-file source mappings, a
//! hit counter per recorded location, and the per-file report that compares
//! what the instrumenter registered with what ran.

use vstd::prelude::*;
use crate::strfmt::{pct_to_string, push_char, spec_dec, spec_pct, u64_to_string};

verus! {

/// The registered source structure of one file: its instrumented lines, its
/// branch-target lines as consecutive sibling pairs, and its function start
/// lines.
pub struct SourceMapping {
    pub lines: Vec<u32>,
    pub brs: Vec<u32>,
    pub funcs: Vec<u32>,
}

/// A source location.
pub struct LineMapping {
    pub file: String,
    pub line: u32,
}

/// The coverage runtime state: the source map per file, the index of each
/// recorded location, one hit counter per location, and the feature
/// toggles.
pub struct CoverageState {
    pub source_map: Vec<(String, SourceMapping)>,
    pub location_map: Vec<(LineMapping, usize)>,
    pub lines: Vec<u64>,
    pub enabled: bool,
    pub color: bool,
}

/// The set of values a list holds.
pub open spec fn set_of(s: Seq<u32>) -> Set<u32> {
    s.to_set()
}

/// A strictly increasing list: sorted with no duplicates.
pub open spec fn strictly_sorted(s: Seq<u32>) -> bool {
    forall|i: int, j: int| 0 <= i < j < s.len() ==> s[i] < s[j]
}

/// Whether a list contains a value.
pub fn contains_u32(v: &Vec<u32>, x: u32) -> (r: bool)
    ensures
        r == v@.contains(x),
{
    let mut i: usize = 0;
    while i < v.len()
        invariant
            i <= v@.len(),
            forall|k: int| 0 <= k < i ==> v@[k] != x,
        decreases v@.len() - i,
    {
        if v[i] == x {
            proof {
                assert(v@[i as int] == x);
            }
            return true;
        }
        i += 1;
    }
    false
}

/// Inserts a value into a strictly increasing list, keeping it strictly
/// increasing; a value already present is left alone.
pub fn insert_unique_sorted(v: &mut Vec<u32>, x: u32)
    requires
        strictly_sorted(old(v)@),
    ensures
        strictly_sorted(final(v)@),
        set_of(final(v)@) =~= set_of(old(v)@).insert(x),
        final(v)@.len() <= old(v)@.len() + 1,
{
    let mut i: usize = 0;
    while i < v.len() && v[i] < x
        invariant
            i <= v@.len(),
            forall|k: int| 0 <= k < i ==> v@[k] < x,
            v@ == old(v)@,
        decreases v@.len() - i,
    {
        i += 1;
    }
    if i < v.len() {
        let existing = v[i];
        if existing == x {
            proof {
                assert(v@.contains(x));
                assert(set_of(v@).insert(x) =~= set_of(v@));
            }
            return ;
        }
    }
    v.insert(i, x);
    proof {
        assert(v@ == old(v)@.insert(i as int, x));
        assert forall|a: int, b: int| 0 <= a < b < v@.len() implies v@[a] < v@[b] by {
            let ii = i as int;
            let oa = if a < ii {
                a
            } else {
                a - 1
            };
            let ob = if b < ii {
                b
            } else {
                b - 1
            };
            if a == ii {
                assert(v@[b] == old(v)@[ob]);
            } else if b == ii {
                assert(v@[a] == old(v)@[oa]);
            } else {
                assert(v@[a] == old(v)@[oa]);
                assert(v@[b] == old(v)@[ob]);
            }
        }
        assert forall|y: u32| set_of(v@).contains(y) implies set_of(old(v)@).insert(x).contains(
            y,
        ) by {
            let k = choose|k: int| 0 <= k < v@.len() && v@[k] == y;
            if k != i as int {
                let ok = if k < i as int {
                    k
                } else {
                    k - 1
                };
                assert(old(v)@[ok] == y);
            }
        }
        assert forall|y: u32| set_of(old(v)@).insert(x).contains(y) implies set_of(v@).contains(
            y,
        ) by {
            if y == x {
                assert(v@[i as int] == y);
            } else {
                let k = choose|k: int| 0 <= k < old(v)@.len() && old(v)@[k] == y;
                if k < i as int {
                    assert(v@[k] == y);
                } else {
                    assert(v@[k + 1] == y);
                }
            }
        }
    }
}

/// The deduplicated, ascending version of a list.
pub fn to_sorted_set(v: &Vec<u32>) -> (r: Vec<u32>)
    ensures
        strictly_sorted(r@),
        set_of(r@) =~= set_of(v@),
        r@.len() <= v@.len(),
{
    let mut out: Vec<u32> = Vec::new();
    let mut i: usize = 0;
    while i < v.len()
        invariant
            i <= v@.len(),
            strictly_sorted(out@),
            out@.len() <= i,
            set_of(out@) =~= set_of(v@.subrange(0, i as int)),
        decreases v@.len() - i,
    {
        let x = v[i];
        insert_unique_sorted(&mut out, x);
        proof {
            assert(v@.subrange(0, i + 1).drop_last() =~= v@.subrange(0, i as int));
            assert forall|y: u32| set_of(v@.subrange(0, i + 1)).contains(y) implies set_of(
                out@,
            ).contains(y) by {
                let k = choose|k: int| 0 <= k < i + 1 && #[trigger] v@.subrange(0, i + 1)[k] == y;
                if k < i {
                    assert(v@.subrange(0, i as int)[k] == y);
                }
            }
            assert forall|y: u32| set_of(out@).contains(y) implies set_of(
                v@.subrange(0, i + 1),
            ).contains(y) by {
                if y != x {
                    let k = choose|k: int| 0 <= k < i && v@.subrange(0, i as int)[k] == y;
                    assert(v@.subrange(0, i + 1)[k] == y);
                } else {
                    assert(v@.subrange(0, i + 1)[i as int] == y);
                }
            }
            assert(set_of(out@) =~= set_of(v@.subrange(0, i + 1)));
        }
        i += 1;
    }
    proof {
        assert(v@.subrange(0, v@.len() as int) =~= v@);
    }
    out
}

/// The values two lists share, deduplicated and ascending.
pub fn get_intersect(values: &Vec<u32>, other: &Vec<u32>) -> (r: Vec<u32>)
    ensures
        strictly_sorted(r@),
        set_of(r@) =~= set_of(values@).intersect(set_of(other@)),
{
    let mut out: Vec<u32> = Vec::new();
    let mut i: usize = 0;
    while i < values.len()
        invariant
            i <= values@.len(),
            strictly_sorted(out@),
            forall|y: u32|
                set_of(out@).contains(y) ==> set_of(values@).contains(y) && set_of(
                    other@,
                ).contains(y),
            forall|k: int| #![auto]
                0 <= k < i && set_of(other@).contains(values@[k]) ==> set_of(out@).contains(values@[k]),
        decreases values@.len() - i,
    {
        let x = values[i];
        if contains_u32(other, x) {
            insert_unique_sorted(&mut out, x);
        }
        i += 1;
    }
    proof {
        assert forall|y: u32|
            set_of(values@).intersect(set_of(other@)).contains(y) implies set_of(out@).contains(
            y,
        ) by {
            let k = choose|k: int| 0 <= k < values@.len() && values@[k] == y;
        }
    }
    out
}

/// The values in exactly one of two lists, deduplicated and ascending.
pub fn get_symmetric_diff(values: &Vec<u32>, other: &Vec<u32>) -> (r: Vec<u32>)
    ensures
        strictly_sorted(r@),
        forall|y: u32| #[trigger]
            set_of(r@).contains(y) == (set_of(values@).contains(y) != set_of(other@).contains(y)),
{
    let mut out: Vec<u32> = Vec::new();
    let mut i: usize = 0;
    while i < values.len()
        invariant
            i <= values@.len(),
            strictly_sorted(out@),
            forall|y: u32|
                set_of(out@).contains(y) ==> (set_of(values@).contains(y) && !set_of(
                    other@,
                ).contains(y)),
            forall|k: int| #![auto]
                0 <= k < i && !set_of(other@).contains(values@[k]) ==> set_of(out@).contains(values@[k]),
        decreases values@.len() - i,
    {
        let x = values[i];
        if !contains_u32(other, x) {
            insert_unique_sorted(&mut out, x);
        }
        i += 1;
    }
    let mut j: usize = 0;
    while j < other.len()
        invariant
            j <= other@.len(),
            strictly_sorted(out@),
            forall|y: u32|
                set_of(out@).contains(y) ==> (set_of(values@).contains(y) != set_of(
                    other@,
                ).contains(y)),
            forall|k: int| #![auto]
                0 <= k < values@.len() && !set_of(other@).contains(values@[k]) ==> set_of(
                    out@,
                ).contains(values@[k]),
            forall|k: int| #![auto]
                0 <= k < j && !set_of(values@).contains(other@[k]) ==> set_of(out@).contains(other@[k]),
        decreases other@.len() - j,
    {
        let x = other[j];
        if !contains_u32(values, x) {
            insert_unique_sorted(&mut out, x);
            proof {
                assert forall|y: u32|
                    set_of(out@).contains(y) implies (set_of(values@).contains(y) != set_of(
                    other@,
                ).contains(y)) by {
                    if y == x {
                        assert(other@[j as int] == x);
                    }
                }
            }
        }
        j += 1;
    }
    proof {
        assert forall|y: u32|
            (set_of(values@).contains(y) != set_of(other@).contains(y)) implies set_of(
            out@,
        ).contains(y) by {
            if values@.contains(y) {
                let k = choose|k: int| 0 <= k < values@.len() && values@[k] == y;
            } else {
                let k = choose|k: int| 0 <= k < other@.len() && other@[k] == y;
            }
        }
    }
    out
}


/// String equality between a borrowed and an owned string.
fn str_eq(a: &str, b: &String) -> (r: bool)
    ensures
        r == (a@ == b@),
{
    let owned: String = a.to_owned();
    owned.eq(b)
}

/// The percentage, in hundredths and rounded to the nearest, of `hits` out
/// of `total`; an empty total counts as zero.
pub open spec fn spec_pct_hundredths(hits: int, total: int) -> int {
    if total == 0 {
        0
    } else {
        (hits * 10000 + total / 2) / total
    }
}

/// Computes a percentage in hundredths, rounding to the nearest.
pub fn pct_hundredths(hits: usize, total: usize) -> (r: u64)
    requires
        hits <= total,
    ensures
        r == spec_pct_hundredths(hits as int, total as int),
        r <= 10000,
{
    if total == 0 {
        return 0;
    }
    let wide = (hits as u128) * 10000 + (total as u128) / 2;
    let out = wide / (total as u128);
    proof {
        let t = total as int;
        let w = wide as int;
        assert((hits as int) * 10000 <= t * 10000) by (nonlinear_arith)
            requires
                hits as int <= t,
        ;
        vstd::arithmetic::div_mod::lemma_div_is_strictly_smaller(t, 2);
        assert(w <= t * 10000 + (t - 1));
        vstd::arithmetic::div_mod::lemma_div_is_ordered(w, t * 10000 + (t - 1), t);
        vstd::arithmetic::div_mod::lemma_div_multiples_vanish_fancy(10000, t - 1, t);
    }
    out as u64
}

/// The position of the first recorded entry for a location, if any.
pub open spec fn spec_loc_index(m: Seq<(LineMapping, usize)>, file: Seq<char>, line: u32) -> Option<
    int,
>
    decreases m.len(),
{
    if m.len() == 0 {
        None
    } else if m[0].0.file@ == file && m[0].0.line == line {
        Some(0)
    } else {
        match spec_loc_index(m.drop_first(), file, line) {
            Some(k) => Some(k + 1),
            None => None,
        }
    }
}

proof fn lemma_loc_index_found(m: Seq<(LineMapping, usize)>, file: Seq<char>, line: u32, i: int)
    requires
        0 <= i < m.len(),
        forall|k: int|
            0 <= k < i ==> !((#[trigger] m[k]).0.file@ == file && m[k].0.line == line),
        m[i].0.file@ == file && m[i].0.line == line,
    ensures
        spec_loc_index(m, file, line) == Some(i),
    decreases i,
{
    if i > 0 {
        lemma_loc_index_found(m.drop_first(), file, line, i - 1);
    }
}

proof fn lemma_loc_index_missing(m: Seq<(LineMapping, usize)>, file: Seq<char>, line: u32)
    requires
        forall|k: int|
            0 <= k < m.len() ==> !((#[trigger] m[k]).0.file@ == file && m[k].0.line == line),
    ensures
        spec_loc_index(m, file, line) is None,
    decreases m.len(),
{
    if m.len() > 0 {
        lemma_loc_index_missing(m.drop_first(), file, line);
    }
}

/// The lines recorded as hit for one file.
pub open spec fn hit_lines_of(m: Seq<(LineMapping, usize)>, file: Seq<char>) -> Set<u32> {
    Set::new(
        |l: u32|
            exists|i: int| 0 <= i < m.len() && (#[trigger] m[i]).0.file@ == file && m[i].0.line
                == l,
    )
}

impl CoverageState {
    /// Location indices stay inside the counter array, and no file is
    /// registered twice.
    pub open spec fn wf(self) -> bool {
        &&& forall|i: int|
            0 <= i < self.location_map@.len() ==> (#[trigger] self.location_map@[i]).1
                < self.lines@.len()
        &&& forall|i: int, j: int|
            0 <= i < j < self.source_map@.len() ==> (#[trigger] self.source_map@[i]).0@ != (
            #[trigger] self.source_map@[j]).0@
    }

    /// A fresh coverage state: empty maps, coverage and color enabled.
    pub fn new() -> (r: CoverageState)
        ensures
            r.wf(),
            r.source_map@.len() == 0,
            r.location_map@.len() == 0,
            r.lines@.len() == 0,
            r.enabled,
            r.color,
    {
        CoverageState {
            source_map: Vec::new(),
            location_map: Vec::new(),
            lines: Vec::new(),
            enabled: true,
            color: true,
        }
    }

    /// Clears the registered mappings and counters and re-enables coverage.
    pub fn cov_clear(&mut self)
        ensures
            final(self).wf(),
            final(self).source_map@.len() == 0,
            final(self).location_map@.len() == 0,
            final(self).lines@.len() == 0,
            final(self).enabled,
            final(self).color == old(self).color,
    {
        self.source_map = Vec::new();
        self.location_map = Vec::new();
        self.lines = Vec::new();
        self.enabled = true;
    }

    /// Records one hit at a source location: a known location's counter goes
    /// up by one (wrapping), a fresh location gets a counter starting at
    /// one. Returns the count before this hit; recording is a no-op while
    /// coverage is disabled.
    #[verifier::loop_isolation(false)]
    pub fn cov_record(&mut self, file: &str, line: u32) -> (r: u64)
        requires
            old(self).wf(),
        ensures
            final(self).wf(),
            final(self).source_map@ == old(self).source_map@,
            final(self).enabled == old(self).enabled,
            final(self).color == old(self).color,
            !old(self).enabled ==> r == 0 && final(self).location_map@ == old(self).location_map@
                && final(self).lines@ == old(self).lines@,
            old(self).enabled ==> match spec_loc_index(old(self).location_map@, file@, line) {
                Some(k) => {
                    let idx = old(self).location_map@[k].1 as int;
                    &&& final(self).location_map@ == old(self).location_map@
                    &&& final(self).lines@ == old(self).lines@.update(
                        idx,
                        vstd::wrapping::u64_specs::wrapping_add(old(self).lines@[idx], 1),
                    )
                    &&& r == old(self).lines@[idx]
                },
                None => {
                    &&& final(self).location_map@.len() == old(self).location_map@.len() + 1
                    &&& final(self).location_map@.last().0.file@ == file@
                    &&& final(self).location_map@.last().0.line == line
                    &&& final(self).location_map@.last().1 == old(self).lines@.len()
                    &&& forall|j: int|
                        0 <= j < old(self).location_map@.len() ==> final(self).location_map@[j]
                            == old(self).location_map@[j]
                    &&& final(self).lines@ == old(self).lines@.push(1)
                    &&& r == 0
                },
            },
            old(self).enabled ==> hit_lines_of(final(self).location_map@, file@) =~= hit_lines_of(
                old(self).location_map@,
                file@,
            ).insert(line),
            old(self).enabled ==> forall|f: Seq<char>|
                f != file@ ==> hit_lines_of(final(self).location_map@, f) =~= hit_lines_of(
                    old(self).location_map@,
                    f,
                ),
    {
        if !self.enabled {
            return 0;
        }
        let mut idx: usize = 0;
        let mut found = false;
        let mut i: usize = 0;
        while i < self.location_map.len()
            invariant
                i <= self.location_map@.len(),
                self.wf(),
                forall|k: int|
                    0 <= k < i ==> !((#[trigger] self.location_map@[k]).0.file@ == file@
                        && self.location_map@[k].0.line == line),
                found ==> i < self.location_map@.len() && (
                #[trigger] self.location_map@[i as int]).0.file@ == file@
                    && self.location_map@[i as int].0.line == line
                    && self.location_map@[i as int].1 == idx,
            decreases self.location_map@.len() - i,
        {
            let entry_line = self.location_map[i].0.line;
            if entry_line == line && str_eq(file, &self.location_map[i].0.file) {
                idx = self.location_map[i].1;
                found = true;
                break ;
            }
            i += 1;
        }
        if found {
            proof {
                lemma_loc_index_found(self.location_map@, file@, line, i as int);
                assert(hit_lines_of(old(self).location_map@, file@).contains(line));
            }
            let prev = self.lines[idx];
            let bumped = prev.wrapping_add(1);
            self.lines.set(idx, bumped);
            proof {
                assert(hit_lines_of(self.location_map@, file@) =~= hit_lines_of(
                    old(self).location_map@,
                    file@,
                ).insert(line));
            }
            prev
        } else {
            proof {
                lemma_loc_index_missing(self.location_map@, file@, line);
            }
            let new_idx = self.lines.len();
            let loc = LineMapping { file: file.to_owned(), line };
            self.location_map.push((loc, new_idx));
            self.lines.push(1);
            proof {
                let m1 = self.location_map@;
                let m0 = old(self).location_map@;
                let n = m1.len() - 1;
                assert(m1[n].0.file@ == file@ && m1[n].0.line == line);
                assert forall|l: u32| #[trigger]
                    hit_lines_of(m1, file@).contains(l) implies hit_lines_of(
                    m0,
                    file@,
                ).insert(line).contains(l) by {
                    let k = choose|k: int|
                        0 <= k < m1.len() && (#[trigger] m1[k]).0.file@ == file@ && m1[k].0.line
                            == l;
                    if k < n {
                        assert(m0[k] == m1[k]);
                    }
                }
                assert forall|l: u32| #[trigger]
                    hit_lines_of(m0, file@).insert(line).contains(l) implies hit_lines_of(
                    m1,
                    file@,
                ).contains(l) by {
                    if l == line {
                        assert(m1[n].0.file@ == file@ && m1[n].0.line == l);
                    } else {
                        let k = choose|k: int|
                            0 <= k < m0.len() && (#[trigger] m0[k]).0.file@ == file@
                                && m0[k].0.line == l;
                        assert(m1[k] == m0[k]);
                        assert(m1[k].0.file@ == file@ && m1[k].0.line == l);
                    }
                }
                assert(hit_lines_of(m1, file@) =~= hit_lines_of(m0, file@).insert(line));
                assert forall|f: Seq<char>| f != file@ implies hit_lines_of(m1, f) =~= hit_lines_of(
                    m0,
                    f,
                ) by {
                    assert forall|l: u32| #[trigger]
                        hit_lines_of(m1, f).contains(l) implies hit_lines_of(m0, f).contains(
                        l,
                    ) by {
                        let k = choose|k: int|
                            0 <= k < m1.len() && (#[trigger] m1[k]).0.file@ == f && m1[k].0.line
                                == l;
                        assert(k != n);
                        assert(m0[k] == m1[k]);
                    }
                    assert forall|l: u32| #[trigger]
                        hit_lines_of(m0, f).contains(l) implies hit_lines_of(m1, f).contains(
                        l,
                    ) by {
                        let k = choose|k: int|
                            0 <= k < m0.len() && (#[trigger] m0[k]).0.file@ == f && m0[k].0.line
                                == l;
                        assert(m1[k] == m0[k]);
                    }
                }
            }
            0
        }
    }

    /// Records a batch of hit lines for one file.
    #[verifier::loop_isolation(false)]
    pub fn cov_hit_batch(&mut self, file: &str, lines: &Vec<u32>)
        requires
            old(self).wf(),
        ensures
            final(self).wf(),
            final(self).source_map@ == old(self).source_map@,
            final(self).enabled == old(self).enabled,
            final(self).color == old(self).color,
            old(self).enabled ==> hit_lines_of(final(self).location_map@, file@) =~= hit_lines_of(
                old(self).location_map@,
                file@,
            ).union(set_of(lines@)),
            !old(self).enabled ==> final(self).location_map@ == old(self).location_map@ && final(self).lines@ == old(self).lines@,
    {
        let mut i: usize = 0;
        while i < lines.len()
            invariant
                i <= lines@.len(),
                self.wf(),
                self.source_map@ == old(self).source_map@,
                self.enabled == old(self).enabled,
                self.color == old(self).color,
                old(self).enabled ==> hit_lines_of(self.location_map@, file@) =~= hit_lines_of(
                    old(self).location_map@,
                    file@,
                ).union(set_of(lines@.subrange(0, i as int))),
                !old(self).enabled ==> self.location_map@ == old(self).location_map@
                    && self.lines@ == old(self).lines@,
            decreases lines@.len() - i,
        {
            let line = lines[i];
            let ghost before_map = self.location_map@;
            self.cov_record(file, line);
            proof {
                if old(self).enabled {
                    assert(hit_lines_of(self.location_map@, file@) =~= hit_lines_of(
                        before_map,
                        file@,
                    ).insert(line));
                    assert(lines@.subrange(0, i + 1).drop_last() =~= lines@.subrange(0, i as int));
                    assert forall|y: u32| set_of(lines@.subrange(0, i + 1)).contains(y)
                        implies set_of(lines@.subrange(0, i as int)).insert(line).contains(y) by {
                        let k = choose|k: int|
                            0 <= k < i + 1 && #[trigger] lines@.subrange(0, i + 1)[k] == y;
                        if k < i {
                            assert(lines@.subrange(0, i as int)[k] == y);
                        }
                    }
                    assert forall|y: u32| set_of(lines@.subrange(0, i as int)).insert(
                        line,
                    ).contains(y) implies set_of(lines@.subrange(0, i + 1)).contains(y) by {
                        if y == line {
                            assert(lines@.subrange(0, i + 1)[i as int] == y);
                        } else {
                            let k = choose|k: int|
                                0 <= k < i && #[trigger] lines@.subrange(0, i as int)[k] == y;
                            assert(lines@.subrange(0, i + 1)[k] == y);
                        }
                    }
                    assert(set_of(lines@.subrange(0, i + 1)) =~= set_of(
                        lines@.subrange(0, i as int),
                    ).insert(line));
                    assert(hit_lines_of(self.location_map@, file@) =~= hit_lines_of(
                        old(self).location_map@,
                        file@,
                    ).union(set_of(lines@.subrange(0, i + 1))));
                }
            }
            i += 1;
        }
        proof {
            assert(lines@.subrange(0, lines@.len() as int) =~= lines@);
        }
    }

    /// Registers the source structure of one file: a known file's entry is
    /// replaced in place, a fresh file appends one entry, and every other
    /// file's entry stands as it was.
    #[verifier::loop_isolation(false)]
    pub fn cov_mapping_src(&mut self, file: &str, funcs: Vec<u32>, brs: Vec<u32>, lines: Vec<u32>)
        requires
            old(self).wf(),
        ensures
            final(self).wf(),
            final(self).location_map@ == old(self).location_map@,
            final(self).lines@ == old(self).lines@,
            final(self).enabled == old(self).enabled,
            final(self).color == old(self).color,
            (exists|i: int|
                0 <= i < old(self).source_map@.len() && (#[trigger] old(self).source_map@[i]).0@
                    == file@) ==> {
                let i = choose|i: int|
                    0 <= i < old(self).source_map@.len() && (#[trigger] old(self).source_map@[i]).0@ == file@;
                &&& final(self).source_map@.len() == old(self).source_map@.len()
                &&& final(self).source_map@[i].0@ == file@
                &&& final(self).source_map@[i].1.funcs@ == funcs@
                &&& final(self).source_map@[i].1.brs@ == brs@
                &&& final(self).source_map@[i].1.lines@ == lines@
                &&& forall|j: int|
                    0 <= j < old(self).source_map@.len() && j != i ==> final(self).source_map@[j] == old(self).source_map@[j]
            },
            !(exists|i: int|
                0 <= i < old(self).source_map@.len() && (#[trigger] old(self).source_map@[i]).0@
                    == file@) ==> {
                &&& final(self).source_map@.len() == old(self).source_map@.len() + 1
                &&& final(self).source_map@.last().0@ == file@
                &&& final(self).source_map@.last().1.funcs@ == funcs@
                &&& final(self).source_map@.last().1.brs@ == brs@
                &&& final(self).source_map@.last().1.lines@ == lines@
                &&& forall|j: int|
                    0 <= j < old(self).source_map@.len() ==> final(self).source_map@[j] == old(self).source_map@[j]
            },
    {
        let sm = SourceMapping { lines, brs, funcs };
        let mut i: usize = 0;
        while i < self.source_map.len()
            invariant
                i <= self.source_map@.len(),
                self.wf(),
                self.location_map@ == old(self).location_map@,
                self.lines@ == old(self).lines@,
                self.enabled == old(self).enabled,
                self.color == old(self).color,
                self.source_map@ == old(self).source_map@,
                forall|k: int| 0 <= k < i ==> (#[trigger] self.source_map@[k]).0@ != file@,
            decreases self.source_map@.len() - i,
        {
            if str_eq(file, &self.source_map[i].0) {
                let key = file.to_owned();
                self.source_map.set(i, (key, sm));
                proof {
                    assert((self.source_map@[i as int]).0@ == file@);
                    assert(self.source_map@[i as int].1.funcs@ == funcs@);
                    let c = choose|c: int|
                        0 <= c < old(self).source_map@.len() && (#[trigger] old(self).source_map@[c]).0@ == file@;
                    assert(c == i as int);
                }
                return ;
            }
            i += 1;
        }
        let key = file.to_owned();
        self.source_map.push((key, sm));
        proof {
            let n = self.source_map@.len() - 1;
            assert((self.source_map@[n]).0@ == file@);
            assert(self.source_map@[n].1.funcs@ == funcs@);
        }
    }

    /// Zeroes every hit counter.
    #[verifier::loop_isolation(false)]
    pub fn cov_reset(&mut self)
        ensures
            final(self).wf() == old(self).wf(),
            final(self).lines@.len() == old(self).lines@.len(),
            forall|i: int| 0 <= i < final(self).lines@.len() ==> final(self).lines@[i] == 0,
            final(self).location_map@ == old(self).location_map@,
            final(self).source_map@ == old(self).source_map@,
            final(self).enabled == old(self).enabled,
            final(self).color == old(self).color,
    {
        let mut i: usize = 0;
        while i < self.lines.len()
            invariant
                i <= self.lines@.len(),
                self.lines@.len() == old(self).lines@.len(),
                forall|k: int| 0 <= k < i ==> self.lines@[k] == 0,
                self.location_map@ == old(self).location_map@,
                self.source_map@ == old(self).source_map@,
                self.enabled == old(self).enabled,
                self.color == old(self).color,
            decreases self.lines@.len() - i,
        {
            self.lines.set(i, 0);
            i += 1;
        }
    }

    /// The first `len` hit counters, for a consumer's bitmap.
    #[verifier::loop_isolation(false)]
    pub fn cov_get_hit_map(&self, len: usize) -> (r: Vec<u64>)
        ensures
            r@.len() == (if self.lines@.len() < len {
                self.lines@.len()
            } else {
                len as nat
            }),
            forall|i: int| 0 <= i < r@.len() ==> r@[i] == self.lines@[i],
    {
        let count = self.lines.len();
        let take = if count < len {
            count
        } else {
            len
        };
        let mut out: Vec<u64> = Vec::new();
        let mut i: usize = 0;
        while i < take
            invariant
                i <= take <= self.lines@.len(),
                out@.len() == i,
                forall|k: int| 0 <= k < i ==> out@[k] == self.lines@[k],
            decreases take - i,
        {
            let v = self.lines[i];
            out.push(v);
            i += 1;
        }
        out
    }

    /// The hit lines recorded for one file, as a deduplicated ascending
    /// list.
    #[verifier::loop_isolation(false)]
    pub fn hit_lines_for(&self, file: &String) -> (r: Vec<u32>)
        ensures
            strictly_sorted(r@),
            set_of(r@) =~= hit_lines_of(self.location_map@, file@),
    {
        let mut out: Vec<u32> = Vec::new();
        let mut i: usize = 0;
        while i < self.location_map.len()
            invariant
                i <= self.location_map@.len(),
                strictly_sorted(out@),
                forall|l: u32|
                    set_of(out@).contains(l) ==> hit_lines_of(self.location_map@, file@).contains(
                        l,
                    ),
                forall|k: int|
                    0 <= k < i && (#[trigger] self.location_map@[k]).0.file@ == file@ ==> set_of(
                        out@,
                    ).contains(self.location_map@[k].0.line),
            decreases self.location_map@.len() - i,
        {
            let entry_file_matches = str_eq(self.location_map[i].0.file.as_str(), file);
            if entry_file_matches {
                let l = self.location_map[i].0.line;
                insert_unique_sorted(&mut out, l);
            }
            i += 1;
        }
        proof {
            assert forall|l: u32| #[trigger]
                hit_lines_of(self.location_map@, file@).contains(l) implies set_of(out@).contains(
                l,
            ) by {
                let k = choose|k: int|
                    0 <= k < self.location_map@.len() && (#[trigger] self.location_map@[k]).0.file@
                        == file@ && self.location_map@[k].0.line == l;
            }
        }
        out
    }
}


/// Joins rendered items with commas.
pub open spec fn spec_join(items: Seq<Seq<char>>) -> Seq<char>
    decreases items.len(),
{
    if items.len() == 0 {
        Seq::empty()
    } else if items.len() == 1 {
        items[0]
    } else {
        spec_join(items.drop_last()) + seq![','] + items.last()
    }
}

/// The rendering of an uncovered list: nothing when empty, at most the
/// first five items joined with commas, with a leading ellipsis when more
/// were cut.
pub open spec fn spec_report_str(items: Seq<Seq<char>>) -> Seq<char> {
    if items.len() == 0 {
        Seq::empty()
    } else if items.len() > 5 {
        seq!['.', '.', '.'] + spec_join(items.take(5))
    } else {
        spec_join(items)
    }
}

/// Renders an uncovered list: at most the first five entries, a leading
/// ellipsis when more were cut.
#[verifier::loop_isolation(false)]
pub fn make_report_str(items: &Vec<String>) -> (r: String)
    ensures
        r@ == spec_report_str(items@.map_values(|x: String| x@)),
{
    let ghost views = items@.map_values(|x: String| x@);
    if items.len() == 0 {
        let out = String::new();
        proof {
            assert(views.len() == 0);
        }
        return out;
    }
    let shown = if items.len() > 5 {
        5
    } else {
        items.len()
    };
    let mut joined: String = String::new();
    joined.append(items[0].as_str());
    proof {
        assert(views.take(1) =~= seq![views[0]]);
        assert(joined@ =~= spec_join(views.take(1)));
    }
    let mut i: usize = 1;
    while i < shown
        invariant
            1 <= i <= shown,
            joined@ == spec_join(views.take(i as int)),
        decreases shown - i,
    {
        push_char(&mut joined, ',');
        joined.append(items[i].as_str());
        proof {
            assert(views.take(i + 1).drop_last() =~= views.take(i as int));
            assert(views.take(i + 1).last() == views[i as int]);
            assert(joined@ =~= spec_join(views.take(i + 1)));
        }
        i += 1;
    }
    if items.len() > 5 {
        let mut out = String::new();
        push_char(&mut out, '.');
        push_char(&mut out, '.');
        push_char(&mut out, '.');
        out.append(joined.as_str());
        proof {
            assert(out@ =~= seq!['.', '.', '.'] + spec_join(views.take(5)));
        }
        out
    } else {
        proof {
            assert(views.take(views.len() as int) =~= views);
        }
        joined
    }
}

/// One file's coverage report, every field rendered for display.
#[derive(Debug)]
pub struct CovReport {
    pub file: String,
    pub funcs_hit_ratio: String,
    pub uncovered_funcs: String,
    pub brs_hit_ratio: String,
    pub uncovered_brs: String,
    pub lines_hit_ratio: String,
    pub uncovered_lines: String,
}

/// Renders the numbers of a list in decimal.
fn render_lines(v: &Vec<u32>) -> (r: Vec<String>)
    ensures
        r@.len() == v@.len(),
        forall|i: int| 0 <= i < v@.len() ==> (#[trigger] r@[i])@ == spec_dec(v@[i] as int),
{
    let mut out: Vec<String> = Vec::new();
    let mut i: usize = 0;
    while i < v.len()
        invariant
            i <= v@.len(),
            out@.len() == i,
            forall|k: int| 0 <= k < i ==> (#[trigger] out@[k])@ == spec_dec(v@[k] as int),
        decreases v@.len() - i,
    {
        let n = v[i];
        out.push(u64_to_string(n as u64));
        i += 1;
    }
    out
}

impl CovReport {
    /// Assembles one report: the percentages come in hundredths and render
    /// with two decimals; the uncovered lists come pre-rendered.
    pub fn new(
        filename: String,
        funcs_hits_hundredths: u64,
        untouched_func_lines: &Vec<String>,
        brs_hits_hundredths: u64,
        untouched_brs_lines: &Vec<String>,
        lines_hits_hundredths: u64,
        untouched_lines_lines: &Vec<String>,
    ) -> (r: CovReport)
        ensures
            r.file == filename,
            r.funcs_hit_ratio@ == spec_pct(funcs_hits_hundredths as int),
            r.uncovered_funcs@ == spec_report_str(
                untouched_func_lines@.map_values(|x: String| x@),
            ),
            r.brs_hit_ratio@ == spec_pct(brs_hits_hundredths as int),
            r.uncovered_brs@ == spec_report_str(untouched_brs_lines@.map_values(|x: String| x@)),
            r.lines_hit_ratio@ == spec_pct(lines_hits_hundredths as int),
            r.uncovered_lines@ == spec_report_str(
                untouched_lines_lines@.map_values(|x: String| x@),
            ),
    {
        CovReport {
            file: filename,
            funcs_hit_ratio: pct_to_string(funcs_hits_hundredths),
            uncovered_funcs: make_report_str(untouched_func_lines),
            brs_hit_ratio: pct_to_string(brs_hits_hundredths),
            uncovered_brs: make_report_str(untouched_brs_lines),
            lines_hit_ratio: pct_to_string(lines_hits_hundredths),
            uncovered_lines: make_report_str(untouched_lines_lines),
        }
    }
}

/// The sibling line of an uncovered branch line when it appears as a true
/// target: the false target of the last pair whose true target it is.
pub open spec fn br_true_partner(brs: Seq<u32>, line: u32) -> Option<u32>
    decreases brs.len(),
{
    if brs.len() < 2 {
        None
    } else if brs[brs.len() - 2] == line {
        Some(brs[brs.len() - 1])
    } else {
        br_true_partner(brs.take(brs.len() - 2), line)
    }
}

/// The sibling line of an uncovered branch line when it appears as a false
/// target: the true target of the last pair whose false target it is.
pub open spec fn br_false_partner(brs: Seq<u32>, line: u32) -> Option<u32>
    decreases brs.len(),
{
    if brs.len() < 2 {
        None
    } else if brs[brs.len() - 1] == line {
        Some(brs[brs.len() - 2])
    } else {
        br_false_partner(brs.take(brs.len() - 2), line)
    }
}

/// The decoration of one uncovered branch line: `L(S:F)` when its sibling
/// `S` is its false target, `L(S:T)` when its sibling is its true target,
/// nothing when it is not a recorded target.
pub open spec fn spec_br_marker(brs: Seq<u32>, line: u32) -> Seq<char> {
    match br_true_partner(brs, line) {
        Some(fline) => spec_dec(line as int) + seq!['('] + spec_dec(fline as int) + seq![
            ':',
            'F',
            ')',
        ],
        None => match br_false_partner(brs, line) {
            Some(tline) => spec_dec(line as int) + seq!['('] + spec_dec(tline as int) + seq![
                ':',
                'T',
                ')',
            ],
            None => Seq::empty(),
        },
    }
}

fn find_true_partner(brs: &Vec<u32>, line: u32, upto: usize) -> (r: Option<u32>)
    requires
        upto % 2 == 0,
        upto <= brs@.len(),
    ensures
        r == br_true_partner(brs@.take(upto as int), line),
    decreases upto,
{
    if upto < 2 {
        return None;
    }
    proof {
        assert(brs@.take(upto as int).take(upto - 2) =~= brs@.take(upto - 2));
    }
    if brs[upto - 2] == line {
        Some(brs[upto - 1])
    } else {
        find_true_partner(brs, line, upto - 2)
    }
}

fn find_false_partner(brs: &Vec<u32>, line: u32, upto: usize) -> (r: Option<u32>)
    requires
        upto % 2 == 0,
        upto <= brs@.len(),
    ensures
        r == br_false_partner(brs@.take(upto as int), line),
    decreases upto,
{
    if upto < 2 {
        return None;
    }
    proof {
        assert(brs@.take(upto as int).take(upto - 2) =~= brs@.take(upto - 2));
    }
    if brs[upto - 1] == line {
        Some(brs[upto - 2])
    } else {
        find_false_partner(brs, line, upto - 2)
    }
}

/// Renders one uncovered branch line with its sibling decoration.
fn br_marker(brs: &Vec<u32>, line: u32) -> (r: String)
    requires
        brs@.len() % 2 == 0,
    ensures
        r@ == spec_br_marker(brs@, line),
{
    proof {
        assert(brs@.take(brs@.len() as int) =~= brs@);
    }
    let len = brs.len();
    let t = find_true_partner(brs, line, len);
    match t {
        Some(fline) => {
            let mut out = u64_to_string(line as u64);
            push_char(&mut out, '(');
            out.append(u64_to_string(fline as u64).as_str());
            push_char(&mut out, ':');
            push_char(&mut out, 'F');
            push_char(&mut out, ')');
            proof {
                assert(out@ =~= spec_br_marker(brs@, line));
            }
            out
        },
        None => {
            let f = find_false_partner(brs, line, len);
            match f {
                Some(tline) => {
                    let mut out = u64_to_string(line as u64);
                    push_char(&mut out, '(');
                    out.append(u64_to_string(tline as u64).as_str());
                    push_char(&mut out, ':');
                    push_char(&mut out, 'T');
                    push_char(&mut out, ')');
                    proof {
                        assert(out@ =~= spec_br_marker(brs@, line));
                    }
                    out
                },
                None => String::new(),
            }
        },
    }
}

/// Function coverage of one file: the uncovered function start lines in
/// ascending order, and the percentage of the registered function list that
/// was hit.
pub fn get_func_cov(funcs: &Vec<u32>, hit_lines: &Vec<u32>) -> (r: (Vec<u32>, u64))
    ensures
        strictly_sorted(r.0@),
        forall|y: u32| #[trigger]
            set_of(r.0@).contains(y) == (set_of(funcs@).contains(y) && !set_of(
                hit_lines@,
            ).contains(y)),
        r.1 == spec_pct_hundredths(
            set_of(funcs@).intersect(set_of(hit_lines@)).len() as int,
            funcs@.len() as int,
        ),
{
    let func_locs = to_sorted_set(funcs);
    let func_hits = get_intersect(hit_lines, &func_locs);
    let untouched = get_symmetric_diff(&func_locs, &func_hits);
    proof {
        assert(func_hits@.no_duplicates()) by {
            assert(strictly_sorted(func_hits@));
        }
        func_hits@.unique_seq_to_set();
        assert(set_of(func_hits@) =~= set_of(funcs@).intersect(set_of(hit_lines@)));
        vstd::seq_lib::seq_to_set_is_finite(funcs@);
        vstd::set_lib::lemma_len_subset(set_of(func_hits@), set_of(funcs@));
        funcs@.lemma_cardinality_of_set();
    }
    let ratio = pct_hundredths(func_hits.len(), funcs.len());
    proof {
        assert forall|y: u32| #[trigger]
            set_of(untouched@).contains(y) == (set_of(funcs@).contains(y) && !set_of(
                hit_lines@,
            ).contains(y)) by {
        }
    }
    (untouched, ratio)
}


/// Line coverage of one file: the lines in exactly one of the registered
/// and hit sets, ascending, and the percentage of registered lines hit.
pub fn get_lines_cov(src_lines: &Vec<u32>, hit_lines: &Vec<u32>) -> (r: (Vec<u32>, u64))
    ensures
        strictly_sorted(r.0@),
        forall|y: u32| #[trigger]
            set_of(r.0@).contains(y) == (set_of(src_lines@).contains(y) != set_of(
                hit_lines@,
            ).contains(y)),
        r.1 == spec_pct_hundredths(
            set_of(src_lines@).intersect(set_of(hit_lines@)).len() as int,
            set_of(src_lines@).len() as int,
        ),
{
    let src_set = to_sorted_set(src_lines);
    let line_hits = get_intersect(hit_lines, &src_set);
    let untouched = get_symmetric_diff(&src_set, hit_lines);
    proof {
        assert(line_hits@.no_duplicates()) by {
            assert(strictly_sorted(line_hits@));
        }
        assert(src_set@.no_duplicates()) by {
            assert(strictly_sorted(src_set@));
        }
        line_hits@.unique_seq_to_set();
        src_set@.unique_seq_to_set();
        assert(set_of(line_hits@) =~= set_of(src_lines@).intersect(set_of(hit_lines@)));
        vstd::seq_lib::seq_to_set_is_finite(src_set@);
        vstd::set_lib::lemma_len_subset(set_of(line_hits@), set_of(src_set@));
    }
    let ratio = pct_hundredths(line_hits.len(), src_set.len());
    (untouched, ratio)
}

/// Branch coverage of one file: the uncovered branch-target lines in
/// ascending order, the percentage of distinct branch targets hit, and the
/// sibling decoration of each uncovered line.
pub fn get_br_cov(brs: &Vec<u32>, hit_lines: &Vec<u32>) -> (r: (Vec<u32>, u64, Vec<String>))
    requires
        brs@.len() % 2 == 0,
    ensures
        strictly_sorted(r.0@),
        forall|y: u32| #[trigger]
            set_of(r.0@).contains(y) == (set_of(brs@).contains(y) && !set_of(
                hit_lines@,
            ).contains(y)),
        r.1 == spec_pct_hundredths(
            set_of(brs@).intersect(set_of(hit_lines@)).len() as int,
            set_of(brs@).len() as int,
        ),
        r.2@.len() == r.0@.len(),
        forall|i: int|
            0 <= i < r.0@.len() ==> (#[trigger] r.2@[i])@ == spec_br_marker(brs@, r.0@[i]),
{
    let br_locs = to_sorted_set(brs);
    let br_hits = get_intersect(hit_lines, &br_locs);
    let br_untouched = get_symmetric_diff(&br_locs, &br_hits);
    proof {
        assert(br_hits@.no_duplicates()) by {
            assert(strictly_sorted(br_hits@));
        }
        assert(br_locs@.no_duplicates()) by {
            assert(strictly_sorted(br_locs@));
        }
        br_hits@.unique_seq_to_set();
        br_locs@.unique_seq_to_set();
        assert(set_of(br_hits@) =~= set_of(brs@).intersect(set_of(hit_lines@)));
        vstd::seq_lib::seq_to_set_is_finite(br_locs@);
        vstd::set_lib::lemma_len_subset(set_of(br_hits@), set_of(br_locs@));
    }
    let ratio = pct_hundredths(br_hits.len(), br_locs.len());
    let mut markers: Vec<String> = Vec::new();
    let mut i: usize = 0;
    while i < br_untouched.len()
        invariant
            i <= br_untouched@.len(),
            markers@.len() == i,
            brs@.len() % 2 == 0,
            forall|k: int|
                0 <= k < i ==> (#[trigger] markers@[k])@ == spec_br_marker(
                    brs@,
                    br_untouched@[k],
                ),
        decreases br_untouched@.len() - i,
    {
        let line = br_untouched[i];
        let marker = br_marker(brs, line);
        markers.push(marker);
        i += 1;
    }
    (br_untouched, ratio, markers)
}

/// Assembles the per-file coverage reports: for each registered file, the
/// function, branch and line percentages of what ran, and the uncovered
/// entries of each kind, rendered.
#[verifier::loop_isolation(false)]
pub fn make_cov(state: &CoverageState) -> (r: Vec<CovReport>)
    requires
        forall|i: int|
            0 <= i < state.source_map@.len() ==> (#[trigger] state.source_map@[i]).1.brs@.len() % 2
                == 0,
    ensures
        r@.len() == state.source_map@.len(),
        forall|i: int|
            0 <= i < r@.len() ==> {
                let file = (#[trigger] state.source_map@[i]).0@;
                let sm = state.source_map@[i].1;
                let hits = hit_lines_of(state.location_map@, file);
                &&& r@[i].file@ == file
                &&& r@[i].funcs_hit_ratio@ == spec_pct(
                    spec_pct_hundredths(
                        set_of(sm.funcs@).intersect(hits).len() as int,
                        sm.funcs@.len() as int,
                    ),
                )
                &&& r@[i].brs_hit_ratio@ == spec_pct(
                    spec_pct_hundredths(
                        set_of(sm.brs@).intersect(hits).len() as int,
                        set_of(sm.brs@).len() as int,
                    ),
                )
                &&& r@[i].lines_hit_ratio@ == spec_pct(
                    spec_pct_hundredths(
                        set_of(sm.lines@).intersect(hits).len() as int,
                        set_of(sm.lines@).len() as int,
                    ),
                )
                &&& exists|u: Seq<u32>|
                    strictly_sorted(u) && (forall|y: u32| #[trigger]
                        u.to_set().contains(y) == (set_of(sm.funcs@).contains(y)
                            && !hits.contains(y))) && r@[i].uncovered_funcs@ == spec_report_str(
                        u.map_values(|x: u32| spec_dec(x as int)),
                    )
                &&& exists|u: Seq<u32>|
                    strictly_sorted(u) && (forall|y: u32| #[trigger]
                        u.to_set().contains(y) == (set_of(sm.lines@).contains(y)
                            != hits.contains(y))) && r@[i].uncovered_lines@ == spec_report_str(
                        u.map_values(|x: u32| spec_dec(x as int)),
                    )
                &&& exists|u: Seq<u32>|
                    strictly_sorted(u) && (forall|y: u32| #[trigger]
                        u.to_set().contains(y) == (set_of(sm.brs@).contains(y) && !hits.contains(
                            y,
                        ))) && r@[i].uncovered_brs@ == spec_report_str(
                        u.map_values(|x: u32| spec_br_marker(sm.brs@, x)),
                    )
            },
{
    let mut reports: Vec<CovReport> = Vec::new();
    let mut i: usize = 0;
    while i < state.source_map.len()
        invariant
            i <= state.source_map@.len(),
            reports@.len() == i,
            forall|k: int|
                0 <= k < i ==> {
                    let file = (#[trigger] state.source_map@[k]).0@;
                    let sm = state.source_map@[k].1;
                    let hits = hit_lines_of(state.location_map@, file);
                    &&& reports@[k].file@ == file
                    &&& reports@[k].funcs_hit_ratio@ == spec_pct(
                        spec_pct_hundredths(
                            set_of(sm.funcs@).intersect(hits).len() as int,
                            sm.funcs@.len() as int,
                        ),
                    )
                    &&& reports@[k].brs_hit_ratio@ == spec_pct(
                        spec_pct_hundredths(
                            set_of(sm.brs@).intersect(hits).len() as int,
                            set_of(sm.brs@).len() as int,
                        ),
                    )
                    &&& reports@[k].lines_hit_ratio@ == spec_pct(
                        spec_pct_hundredths(
                            set_of(sm.lines@).intersect(hits).len() as int,
                            set_of(sm.lines@).len() as int,
                        ),
                    )
                    &&& exists|u: Seq<u32>|
                        strictly_sorted(u) && (forall|y: u32| #[trigger]
                            u.to_set().contains(y) == (set_of(sm.funcs@).contains(y)
                                && !hits.contains(y))) && reports@[k].uncovered_funcs@
                            == spec_report_str(u.map_values(|x: u32| spec_dec(x as int)))
                    &&& exists|u: Seq<u32>|
                        strictly_sorted(u) && (forall|y: u32| #[trigger]
                            u.to_set().contains(y) == (set_of(sm.lines@).contains(y)
                                != hits.contains(y))) && reports@[k].uncovered_lines@
                            == spec_report_str(u.map_values(|x: u32| spec_dec(x as int)))
                    &&& exists|u: Seq<u32>|
                        strictly_sorted(u) && (forall|y: u32| #[trigger]
                            u.to_set().contains(y) == (set_of(sm.brs@).contains(y)
                                && !hits.contains(y))) && reports@[k].uncovered_brs@
                            == spec_report_str(u.map_values(|x: u32| spec_br_marker(sm.brs@, x)))
                },
        decreases state.source_map@.len() - i,
    {
        let filename = state.source_map[i].0.clone();
        let hit_vec = state.hit_lines_for(&filename);
        let (funcs_untouched, funcs_ratio) = get_func_cov(&state.source_map[i].1.funcs, &hit_vec);
        let (brs_untouched, brs_ratio, brs_markers) = get_br_cov(
            &state.source_map[i].1.brs,
            &hit_vec,
        );
        let (lines_untouched, lines_ratio) = get_lines_cov(
            &state.source_map[i].1.lines,
            &hit_vec,
        );
        let funcs_rendered = render_lines(&funcs_untouched);
        let lines_rendered = render_lines(&lines_untouched);
        let report = CovReport::new(
            filename,
            funcs_ratio,
            &funcs_rendered,
            brs_ratio,
            &brs_markers,
            lines_ratio,
            &lines_rendered,
        );
        proof {
            let file = state.source_map@[i as int].0@;
            let hits = hit_lines_of(state.location_map@, file);
            assert(set_of(hit_vec@) == hits);
            assert(funcs_rendered@.map_values(|x: String| x@) =~= funcs_untouched@.map_values(
                |x: u32| spec_dec(x as int),
            ));
            assert(lines_rendered@.map_values(|x: String| x@) =~= lines_untouched@.map_values(
                |x: u32| spec_dec(x as int),
            ));
            assert(brs_markers@.map_values(|x: String| x@) =~= brs_untouched@.map_values(
                |x: u32| spec_br_marker(state.source_map@[i as int].1.brs@, x),
            ));
            let sm = state.source_map@[i as int].1;
            assert forall|y: u32| #[trigger]
                funcs_untouched@.to_set().contains(y) == (set_of(sm.funcs@).contains(y)
                    && !hits.contains(y)) by {
                assert(set_of(funcs_untouched@).contains(y) == (set_of(sm.funcs@).contains(y)
                    && !set_of(hit_vec@).contains(y)));
            }
            assert(report.uncovered_funcs@ == spec_report_str(
                funcs_untouched@.map_values(|x: u32| spec_dec(x as int)),
            ));
            assert forall|y: u32| #[trigger]
                lines_untouched@.to_set().contains(y) == (set_of(sm.lines@).contains(y)
                    != hits.contains(y)) by {
                assert(set_of(lines_untouched@).contains(y) == (set_of(sm.lines@).contains(y)
                    != set_of(hit_vec@).contains(y)));
            }
            assert(report.uncovered_lines@ == spec_report_str(
                lines_untouched@.map_values(|x: u32| spec_dec(x as int)),
            ));
            assert forall|y: u32| #[trigger]
                brs_untouched@.to_set().contains(y) == (set_of(sm.brs@).contains(y)
                    && !hits.contains(y)) by {
                assert(set_of(brs_untouched@).contains(y) == (set_of(sm.brs@).contains(y)
                    && !set_of(hit_vec@).contains(y)));
            }
            assert(report.uncovered_brs@ == spec_report_str(
                brs_untouched@.map_values(|x: u32| spec_br_marker(sm.brs@, x)),
            ));
        }
        reports.push(report);
        i += 1;
    }
    reports
}


/// How a report table is rendered for display: with terminal colors or
/// plain.
#[derive(Debug, Clone, Copy)]
pub enum TableFormatter {
    TableWithColor,
    TableWithoutColor,
}


/// The staging region for serialized reports, when the environment mapped
/// one.
pub struct CovShm {
    pub mem: Option<Vec<u8>>,
    pub size: Option<usize>,
}

/// Takes over the mapped staging region for coverage reports; without one,
/// reports are only printed.
pub fn init_cov_shm(mem: Option<Vec<u8>>, size: Option<usize>) -> (r: CovShm)
    ensures
        r.mem == mem,
        r.size == size,
{
    CovShm { mem, size }
}

} // verus!

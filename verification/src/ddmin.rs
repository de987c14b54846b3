//! Delta debugging: a binary-chunked reducer over byte inputs. Given an
//! input on which a failure oracle reports `Fail`, `ddmin` searches ever
//! finer partitions of the input and their complements for a smaller input
//! that still fails, and returns one that the oracle still rejects and whose
//! bytes all come from the original input.

use vstd::prelude::*;
use vstd::multiset::Multiset;
use vstd::seq_lib::lemma_multiset_commutative;

verus! {

pub type Data = Vec<u8>;

/// The verdict of a failure oracle on one candidate input.
#[derive(PartialEq, Eq, Structural, Debug, Clone, Copy)]
pub enum TestResult {
    Pass,
    Fail,
}

/// A failure oracle: a deterministic judgement on byte inputs, with an
/// executable test that agrees with its mathematical model.
pub trait Oracle {
    /// The oracle's verdict as a mathematical function of the input bytes.
    spec fn model(&self, data: Seq<u8>) -> TestResult;

    /// Runs the oracle on one candidate.
    fn test(&self, data: &Data) -> (r: TestResult)
        ensures
            r == self.model(data@),
    ;
}

/// The bytes of `s[a .. b]` are among the bytes of `s`, with multiplicity.
proof fn lemma_subrange_multiset_le(s: Seq<u8>, a: int, b: int)
    requires
        0 <= a <= b <= s.len(),
    ensures
        s.subrange(a, b).to_multiset().subset_of(s.to_multiset()),
{
    let pre = s.subrange(0, a);
    let mid = s.subrange(a, b);
    let post = s.subrange(b, s.len() as int);
    assert(s =~= (pre + mid) + post);
    lemma_multiset_commutative(pre + mid, post);
    lemma_multiset_commutative(pre, mid);
}

/// The bytes of `s` with `s[a .. b]` cut out are among the bytes of `s`,
/// with multiplicity.
proof fn lemma_complement_multiset_le(s: Seq<u8>, a: int, b: int)
    requires
        0 <= a <= b <= s.len(),
    ensures
        (s.subrange(0, a) + s.subrange(b, s.len() as int)).to_multiset().subset_of(
            s.to_multiset(),
        ),
{
    let pre = s.subrange(0, a);
    let mid = s.subrange(a, b);
    let post = s.subrange(b, s.len() as int);
    assert(s =~= (pre + mid) + post);
    lemma_multiset_commutative(pre + mid, post);
    lemma_multiset_commutative(pre, mid);
    lemma_multiset_commutative(pre, post);
}

/// Multiset inclusion is transitive.
proof fn lemma_subset_of_transitive(a: Multiset<u8>, b: Multiset<u8>, c: Multiset<u8>)
    requires
        a.subset_of(b),
        b.subset_of(c),
    ensures
        a.subset_of(c),
{
}

/// A copy of `data[a .. b]`.
fn subvec(data: &Data, a: usize, b: usize) -> (r: Data)
    requires
        a <= b <= data@.len(),
    ensures
        r@ == data@.subrange(a as int, b as int),
{
    let mut r: Data = Vec::new();
    let mut i = a;
    while i < b
        invariant
            a <= i <= b <= data@.len(),
            r@ == data@.subrange(a as int, i as int),
        decreases b - i,
    {
        let byte = data[i];
        r.push(byte);
        proof {
            assert(r@ =~= data@.subrange(a as int, i + 1));
        }
        i += 1;
    }
    r
}

/// Byte-for-byte equality of two inputs.
fn bytes_eq(a: &Data, b: &Data) -> (r: bool)
    ensures
        r == (a@ == b@),
{
    if a.len() != b.len() {
        proof {
            assert(a@ != b@);
        }
        return false;
    }
    let mut i: usize = 0;
    while i < a.len()
        invariant
            i <= a@.len() == b@.len(),
            forall|k: int| 0 <= k < i ==> a@[k] == b@[k],
        decreases a@.len() - i,
    {
        if a[i] != b[i] {
            proof {
                assert(a@ != b@);
            }
            return false;
        }
        i += 1;
    }
    proof {
        assert(a@ =~= b@);
    }
    true
}

/// The size of chunk `i` when a length splits into `n` near-equal chunks:
/// the first `len % n` chunks carry one extra byte.
pub open spec fn spec_chunk_size(len: int, n: int, i: int) -> int {
    len / n + if i < len % n {
        1int
    } else {
        0int
    }
}

/// Where chunk `i` starts: the sum of the sizes before it.
pub open spec fn spec_chunk_start(len: int, n: int, i: int) -> int
    decreases i,
{
    if i <= 0 {
        0
    } else {
        spec_chunk_start(len, n, i - 1) + spec_chunk_size(len, n, i - 1)
    }
}

proof fn lemma_chunk_start_form(len: int, n: int, i: int)
    requires
        0 <= len,
        1 <= n,
        0 <= i <= n,
    ensures
        spec_chunk_start(len, n, i) == (len / n) * i + (if i <= len % n {
            i
        } else {
            len % n
        }),
    decreases i,
{
    vstd::arithmetic::div_mod::lemma_mod_bound(len, n);
    if i > 0 {
        lemma_chunk_start_form(len, n, i - 1);
        vstd::arithmetic::mul::lemma_mul_is_distributive_add(len / n, i - 1, 1);
        vstd::arithmetic::mul::lemma_mul_basics(len / n);
        assert((len / n) * i == (len / n) * (i - 1) + len / n);
        assert(spec_chunk_start(len, n, i) == spec_chunk_start(len, n, i - 1) + spec_chunk_size(
            len,
            n,
            i - 1,
        ));
        if i - 1 < len % n {
            assert(spec_chunk_size(len, n, i - 1) == len / n + 1);
            assert(i <= len % n);
            assert(spec_chunk_start(len, n, i) == (len / n) * i + i);
        } else {
            assert(spec_chunk_size(len, n, i - 1) == len / n);
            assert(!(i <= len % n));
            assert(spec_chunk_start(len, n, i) == (len / n) * i + len % n);
        }
    } else {
        assert(spec_chunk_start(len, n, 0) == 0);
        assert((len / n) * 0 == 0);
    }
}

/// The chunks tile the whole input: the last chunk ends at the length.
proof fn lemma_chunk_start_total(len: int, n: int)
    requires
        0 <= len,
        1 <= n,
    ensures
        spec_chunk_start(len, n, n) == len,
        forall|i: int|
            0 <= i < n ==> 0 <= #[trigger] spec_chunk_start(len, n, i) <= spec_chunk_start(
                len,
                n,
                i + 1,
            ) <= len,
{
    vstd::arithmetic::div_mod::lemma_fundamental_div_mod(len, n);
    vstd::arithmetic::div_mod::lemma_mod_bound(len, n);
    lemma_chunk_start_form(len, n, n);
    vstd::arithmetic::div_mod::lemma_div_pos_is_pos(len, n);
    assert(spec_chunk_start(len, n, n) == len) by {
        assert((len / n) * n == n * (len / n)) by (nonlinear_arith);
    }
    assert forall|i: int|
        0 <= i < n implies 0 <= #[trigger] spec_chunk_start(len, n, i) <= spec_chunk_start(
        len,
        n,
        i + 1,
    ) <= len by {
        lemma_chunk_start_form(len, n, i);
        lemma_chunk_start_form(len, n, i + 1);
        assert(0 <= (len / n) * i) by (nonlinear_arith)
            requires
                0 <= len / n && 0 <= i,
        ;
        assert((len / n) * i <= (len / n) * n && (len / n) * (i + 1) <= (len / n) * n)
            by (nonlinear_arith)
            requires
                0 <= len / n && 0 <= i && i + 1 <= n,
        ;
    }
}

/// When the granularity is at least the length, the first `len` chunks are
/// single bytes.
proof fn lemma_unit_chunks(len: int, n: int, p: int)
    requires
        1 <= n,
        0 <= len <= n,
        0 <= p <= len,
    ensures
        spec_chunk_start(len, n, p) == p,
    decreases p,
{
    if len < n {
        vstd::arithmetic::div_mod::lemma_basic_div(len, n);
        vstd::arithmetic::div_mod::lemma_small_mod(len as nat, n as nat);
    } else {
        vstd::arithmetic::div_mod::lemma_div_by_self(n);
        vstd::arithmetic::div_mod::lemma_mod_self_0(n);
    }
    if p > 0 {
        lemma_unit_chunks(len, n, p - 1);
    }
}

/// Chunk `i` of the input.
pub open spec fn spec_delta(data: Seq<u8>, n: int, i: int) -> Seq<u8> {
    data.subrange(spec_chunk_start(data.len() as int, n, i), spec_chunk_start(data.len() as int, n, i + 1))
}

/// The input with chunk `i` cut out.
pub open spec fn spec_complement(data: Seq<u8>, n: int, i: int) -> Seq<u8> {
    data.subrange(0, spec_chunk_start(data.len() as int, n, i)) + data.subrange(
        spec_chunk_start(data.len() as int, n, i + 1),
        data.len() as int,
    )
}

/// Whether complement `i` survives the filter: it equals no chunk.
pub open spec fn spec_complement_kept(data: Seq<u8>, n: int, i: int) -> bool {
    !exists|j: int| 0 <= j < n && spec_delta(data, n, j) == spec_complement(data, n, i)
}

/// The filtered complement list, in chunk order.
pub open spec fn spec_complement_list(data: Seq<u8>, n: int, upto: int) -> Seq<Seq<u8>>
    decreases upto,
{
    if upto <= 0 {
        Seq::empty()
    } else {
        let rest = spec_complement_list(data, n, upto - 1);
        if spec_complement_kept(data, n, upto - 1) {
            rest.push(spec_complement(data, n, upto - 1))
        } else {
            rest
        }
    }
}

/// A kept complement appears in the filtered list.
proof fn lemma_complement_list_member(data: Seq<u8>, n: int, upto: int, i: int)
    requires
        0 <= i < upto,
        spec_complement_kept(data, n, i),
    ensures
        spec_complement_list(data, n, upto).contains(spec_complement(data, n, i)),
    decreases upto,
{
    if i == upto - 1 {
        let l = spec_complement_list(data, n, upto);
        assert(l.last() == spec_complement(data, n, i));
    } else {
        lemma_complement_list_member(data, n, upto - 1, i);
        let rest = spec_complement_list(data, n, upto - 1);
        let k = choose|k: int| 0 <= k < rest.len() && rest[k] == spec_complement(data, n, i);
        assert(spec_complement_list(data, n, upto)[k] == spec_complement(data, n, i));
    }
}

/// What `split` promises of the partition `(delta_set, complement_set)` of
/// `data` into `n` near-equal chunks.
pub open spec fn split_post(
    data: Seq<u8>,
    n: int,
    deltas: Seq<Data>,
    complements: Seq<Data>,
) -> bool {
    &&& (n == 0 ==> deltas.len() == 0 && complements.len() == 0)
    &&& forall|i: int|
        0 <= i < deltas.len() ==> (#[trigger] deltas[i])@.to_multiset().subset_of(
            data.to_multiset(),
        )
    &&& forall|i: int|
        0 <= i < complements.len() ==> (#[trigger] complements[i])@.to_multiset().subset_of(
            data.to_multiset(),
        )
    &&& forall|i: int| 0 <= i < deltas.len() ==> (#[trigger] deltas[i])@.len() <= data.len()
    &&& (n >= 2 ==> forall|i: int|
        0 <= i < deltas.len() ==> (#[trigger] deltas[i])@.len() < data.len() || data.len() <= 1)
    &&& forall|i: int| 0 <= i < complements.len() ==> (#[trigger] complements[i])@.len() <= data.len()
    &&& (n >= 2 ==> forall|i: int|
        0 <= i < complements.len() ==> (#[trigger] complements[i])@.len() < data.len() || n
            > data.len())
    &&& (n >= 2 && data.len() <= 1 ==> complements.len() == 0)
    &&& (n >= 1 ==> deltas.len() == n)
    &&& (n >= 1 ==> forall|i: int|
        0 <= i < n ==> (#[trigger] deltas[i])@ == spec_delta(data, n, i))
    &&& (n >= 1 ==> complements.map_values(|v: Data| v@) == spec_complement_list(data, n, n))
}

/// Bounds on one chunk's size: chunks are never longer than the input, a
/// granularity of at least two keeps every chunk strictly shorter than an
/// input of at least two bytes, and a granularity within the length keeps
/// every chunk nonempty.
proof fn lemma_chunk_size_facts(len: int, n: int, j: int)
    requires
        1 <= n,
        0 <= len,
        0 <= j < n,
    ensures
        0 <= spec_chunk_size(len, n, j) <= len,
        n >= 2 && len >= 2 ==> spec_chunk_size(len, n, j) < len,
        n <= len ==> spec_chunk_size(len, n, j) >= 1,
{
    vstd::arithmetic::div_mod::lemma_fundamental_div_mod(len, n);
    vstd::arithmetic::div_mod::lemma_mod_bound(len, n);
    vstd::arithmetic::div_mod::lemma_div_pos_is_pos(len, n);
    let exact = len / n;
    assert(n * exact >= exact) by (nonlinear_arith)
        requires
            exact >= 0,
            n >= 1,
    ;
    if n >= 2 {
        assert(n * exact >= 2 * exact) by (nonlinear_arith)
            requires
                n >= 2,
                exact >= 0,
        ;
    }
    if n <= len {
        if exact == 0 {
            assert(n * exact == 0) by (nonlinear_arith)
                requires
                    exact == 0,
            ;
            assert(len % n < n);
            assert(false);
        }
    }
}

/// The input with `data[s .. e]` cut out.
fn complement_of(data: &Data, s: usize, e: usize) -> (r: Data)
    requires
        s <= e <= data@.len(),
    ensures
        r@ == data@.subrange(0, s as int) + data@.subrange(e as int, data@.len() as int),
{
    let data_len = data.len();
    let mut complement = subvec(data, 0, s);
    let tail = subvec(data, e, data_len);
    let ghost head_view = complement@;
    let mut t: usize = 0;
    while t < tail.len()
        invariant
            t <= tail@.len(),
            tail@ == data@.subrange(e as int, data@.len() as int),
            complement@ == head_view + tail@.subrange(0, t as int),
            head_view == data@.subrange(0, s as int),
        decreases tail@.len() - t,
    {
        let byte = tail[t];
        complement.push(byte);
        proof {
            assert(complement@ =~= head_view + tail@.subrange(0, t + 1));
        }
        t += 1;
    }
    proof {
        assert(tail@.subrange(0, tail@.len() as int) =~= tail@);
    }
    complement
}

/// Whether one of the chunks equals this candidate byte-for-byte.
fn find_in_deltas(delta_set: &Vec<Data>, candidate: &Data) -> (r: bool)
    ensures
        r == exists|j: int|
            0 <= j < delta_set@.len() && (#[trigger] delta_set@[j])@ == candidate@,
{
    let mut d: usize = 0;
    while d < delta_set.len()
        invariant
            d <= delta_set@.len(),
            forall|j: int| 0 <= j < d ==> (#[trigger] delta_set@[j])@ != candidate@,
        decreases delta_set@.len() - d,
    {
        if bytes_eq(&delta_set[d], candidate) {
            return true;
        }
        d += 1;
    }
    false
}

/// Partitions `data` into `n` near-equal chunks. Returns the chunks and, for
/// each chunk, the rest of the input with that chunk cut out; complements
/// that equal one of the chunks are dropped.
#[verifier::loop_isolation(false)]
#[verifier::rlimit(100)]
pub fn split(data: &Data, n: usize) -> (r: (Vec<Data>, Vec<Data>))
    ensures
        split_post(data@, n as int, r.0@, r.1@),
{
    if n == 0 {
        return (Vec::new(), Vec::new());
    }
    let data_len = data.len();
    let exact_chunk_size = data_len / n;
    let remainder = data_len % n;
    proof {
        lemma_chunk_start_total(data_len as int, n as int);
        if data_len < n {
            vstd::arithmetic::div_mod::lemma_basic_div(data_len as int, n as int);
            vstd::arithmetic::div_mod::lemma_small_mod(data_len as nat, n as nat);
        }
    }

    let mut starts: Vec<usize> = Vec::new();
    let mut ends: Vec<usize> = Vec::new();
    let mut cur_pos: usize = 0;
    let mut stopped = false;
    let mut i: usize = 0;
    while i < n
        invariant
            i <= n,
            !stopped,
            starts@.len() == i,
            ends@.len() == i,
            cur_pos == spec_chunk_start(data_len as int, n as int, i as int),
            cur_pos <= data_len,
            forall|k: int|
                0 <= k < i ==> #[trigger] starts@[k] == spec_chunk_start(
                    data_len as int,
                    n as int,
                    k,
                ),
            forall|k: int|
                0 <= k < i ==> #[trigger] ends@[k] == spec_chunk_start(
                    data_len as int,
                    n as int,
                    k + 1,
                ),
        decreases n - i,
    {
        let mut chunk_size = exact_chunk_size;
        if i < remainder {
            chunk_size = chunk_size + 1;
        }
        proof {
            assert(chunk_size == spec_chunk_size(data_len as int, n as int, i as int));
            assert(cur_pos + chunk_size == spec_chunk_start(data_len as int, n as int, i + 1));
        }
        if !stopped {
            if chunk_size > data_len - cur_pos {
                proof {
                    assert(false);
                }
                stopped = true;
            } else {
                starts.push(cur_pos);
                ends.push(cur_pos + chunk_size);
                proof {
                    assert(starts@[i as int] == spec_chunk_start(
                        data_len as int,
                        n as int,
                        i as int,
                    ));
                    assert(ends@[i as int] == spec_chunk_start(data_len as int, n as int, i + 1));
                }
                cur_pos = cur_pos + chunk_size;
            }
        }
        i += 1;
    }

    let mut delta_set: Vec<Data> = Vec::new();
    let mut k: usize = 0;
    while k < n
        invariant
            k <= n,
            delta_set@.len() == k,
            forall|j: int|
                0 <= j < k ==> (#[trigger] delta_set@[j])@ == spec_delta(data@, n as int, j),
        decreases n - k,
    {
        let s = starts[k];
        let e = ends[k];
        let piece = subvec(data, s, e);
        delta_set.push(piece);
        k += 1;
    }

    let mut complement_set: Vec<Data> = Vec::new();
    let mut k: usize = 0;
    while k < n
        invariant
            k <= n,
            complement_set@.map_values(|v: Data| v@) == spec_complement_list(
                data@,
                n as int,
                k as int,
            ),
            forall|j: int|
                0 <= j < complement_set@.len() ==> (#[trigger] complement_set@[j])@.to_multiset().subset_of(
                    data@.to_multiset(),
                ),
            forall|j: int|
                0 <= j < complement_set@.len() ==> (#[trigger] complement_set@[j])@.len()
                    <= data@.len(),
            forall|j: int|
                0 <= j < complement_set@.len() ==> ((#[trigger] complement_set@[j])@.len()
                    < data@.len() || exact_chunk_size == 0),
            data_len <= 1 && n >= 2 ==> complement_set@.len() == 0,
        decreases n - k,
    {
        let s = starts[k];
        let e = ends[k];
        let complement = complement_of(data, s, e);
        proof {
            assert(complement@ == spec_complement(data@, n as int, k as int));
        }
        let in_deltas = find_in_deltas(&delta_set, &complement);
        proof {
            if in_deltas {
                let j = choose|j: int|
                    0 <= j < delta_set@.len() && (#[trigger] delta_set@[j])@ == complement@;
                assert(spec_delta(data@, n as int, j) == complement@);
                assert(!spec_complement_kept(data@, n as int, k as int));
            } else {
                assert forall|j: int|
                    0 <= j < n implies spec_delta(data@, n as int, j) != spec_complement(
                    data@,
                    n as int,
                    k as int,
                ) by {
                    assert((delta_set@[j])@ == spec_delta(data@, n as int, j));
                    assert((delta_set@[j])@ != complement@);
                }
                assert(spec_complement_kept(data@, n as int, k as int));
            }
        }
        if !in_deltas {
            proof {
                assert(complement_set@.push(complement).map_values(|v: Data| v@)
                    =~= complement_set@.map_values(|v: Data| v@).push(complement@));
                lemma_complement_multiset_le(data@, s as int, e as int);
                lemma_chunk_size_facts(data_len as int, n as int, k as int);
                if data_len <= 1 && n >= 2 {
                    // every complement of a tiny input equals a chunk and is
                    // dropped by the filter
                    if e as int - s as int == 0 {
                        assert(complement@ =~= data@);
                        assert((delta_set@[0])@ =~= data@);
                        assert(false);
                    } else {
                        assert(data_len == 1 && s == 0 && e == 1);
                        assert(complement@ =~= Seq::<u8>::empty());
                        assert((delta_set@[1])@ =~= Seq::<u8>::empty());
                        assert(false);
                    }
                }
                if exact_chunk_size >= 1 {
                    assert(complement@.len() < data@.len());
                }
            }
            complement_set.push(complement);
        }
        k += 1;
    }
    proof {
        if exact_chunk_size == 0 {
            vstd::arithmetic::div_mod::lemma_fundamental_div_mod(data_len as int, n as int);
            vstd::arithmetic::div_mod::lemma_mod_bound(data_len as int, n as int);
            assert(n as int * (data_len as int / n as int) == 0) by (nonlinear_arith)
                requires
                    data_len as int / n as int == 0,
            ;
            assert(data_len < n);
        }
        assert forall|j: int| 0 <= j < delta_set@.len() implies (
        #[trigger] delta_set@[j])@.to_multiset().subset_of(data@.to_multiset()) by {
            lemma_chunk_start_total(data_len as int, n as int);
            lemma_subrange_multiset_le(
                data@,
                spec_chunk_start(data_len as int, n as int, j),
                spec_chunk_start(data_len as int, n as int, j + 1),
            );
        }
        assert forall|j: int| 0 <= j < delta_set@.len() implies ((
        #[trigger] delta_set@[j])@.len() <= data@.len() && (n < 2 || (delta_set@[j])@.len()
            < data@.len() || data@.len() <= 1)) by {
            lemma_chunk_size_facts(data_len as int, n as int, j);
        }
    }
    (delta_set, complement_set)
}

/// One round of the reducer at granularity `n`: tries each chunk, then each
/// complement, then a finer granularity. The result's bytes come from
/// `data`, and a failing input reduces to a failing input.
#[verifier::loop_isolation(false)]
fn do_ddmin<O: Oracle>(data: &Data, n: usize, test: &O) -> (r: Data)
    requires
        n >= 2,
        test.model(Seq::empty()) == TestResult::Pass,
    ensures
        r@.to_multiset().subset_of(data@.to_multiset()),
        test.model(data@) == TestResult::Fail ==> test.model(r@) == TestResult::Fail,
        (forall|s: Seq<u8>|
            s.to_multiset().subset_of(data@.to_multiset()) ==> #[trigger] test.model(s)
                == TestResult::Pass) ==> r@ == data@,
        forall|p: int|
            0 <= p < r@.len() ==> test.model(#[trigger] r@.remove(p)) == TestResult::Pass,
    decreases
            data@.len(),
            (if n > data@.len() {
                n - data@.len()
            } else {
                0int
            }),
            (if n <= data@.len() {
                data@.len() - n
            } else {
                0int
            }),
{
    let (delta_set, complement_set) = split(data, n);
    let mut i: usize = 0;
    while i < delta_set.len()
        invariant
            i <= delta_set@.len(),
            forall|j: int|
                0 <= j < i ==> test.model((#[trigger] delta_set@[j])@) == TestResult::Pass,
        decreases delta_set@.len() - i,
    {
        let delta = &delta_set[i];
        if test.test(delta) == TestResult::Fail {
            proof {
                if delta@.len() == 0 {
                    assert(delta@ =~= Seq::<u8>::empty());
                }
                if forall|s: Seq<u8>|
                    s.to_multiset().subset_of(data@.to_multiset()) ==> #[trigger] test.model(s)
                        == TestResult::Pass {
                    assert(test.model(delta@) == TestResult::Pass);
                    assert(false);
                }
            }
            if delta.len() == 1 {
                let single = subvec(delta, 0, 1);
                proof {
                    assert(single@ =~= delta@);
                    assert(single@.remove(0) =~= Seq::<u8>::empty());
                }
                return single;
            }
            let reduced = do_ddmin(delta, 2, test);
            proof {
                lemma_subset_of_transitive(
                    reduced@.to_multiset(),
                    delta@.to_multiset(),
                    data@.to_multiset(),
                );
            }
            return reduced;
        }
        i += 1;
    }
    let mut i: usize = 0;
    while i < complement_set.len()
        invariant
            i <= complement_set@.len(),
            forall|j: int|
                0 <= j < i ==> test.model((#[trigger] complement_set@[j])@) == TestResult::Pass,
        decreases complement_set@.len() - i,
    {
        let complement = &complement_set[i];
        if test.test(complement) == TestResult::Fail {
            proof {
                if complement@.len() == 0 {
                    assert(complement@ =~= Seq::<u8>::empty());
                }
                if forall|s: Seq<u8>|
                    s.to_multiset().subset_of(data@.to_multiset()) ==> #[trigger] test.model(s)
                        == TestResult::Pass {
                    assert(test.model(complement@) == TestResult::Pass);
                    assert(false);
                }
            }
            let next_n = if n - 1 > 2 {
                n - 1
            } else {
                2
            };
            let reduced = do_ddmin(complement, next_n, test);
            proof {
                lemma_subset_of_transitive(
                    reduced@.to_multiset(),
                    complement@.to_multiset(),
                    data@.to_multiset(),
                );
            }
            return reduced;
        }
        i += 1;
    }
    let data_len = data.len();
    if n < data_len {
        let next_n = if data_len - n <= n {
            data_len
        } else {
            2 * n
        };
        return do_ddmin(data, next_n, test);
    }
    let whole = subvec(data, 0, data_len);
    proof {
        assert(whole@ =~= data@);
        let len = data@.len() as int;
        let n_i = n as int;
        assert forall|p: int|
            0 <= p < whole@.len() implies test.model(#[trigger] whole@.remove(p))
            == TestResult::Pass by {
            lemma_unit_chunks(len, n_i, p);
            lemma_unit_chunks(len, n_i, p + 1);
            assert(spec_complement(data@, n_i, p) =~= data@.remove(p));
            if spec_complement_kept(data@, n_i, p) {
                lemma_complement_list_member(data@, n_i, n_i, p);
                let lst = complement_set@.map_values(|v: Data| v@);
                let k = choose|k: int|
                    0 <= k < lst.len() && lst[k] == spec_complement(data@, n_i, p);
                assert((complement_set@[k])@ == spec_complement(data@, n_i, p));
                assert(test.model((complement_set@[k])@) == TestResult::Pass);
            } else {
                let j = choose|j: int|
                    0 <= j < n_i && spec_delta(data@, n_i, j) == spec_complement(data@, n_i, p);
                assert((delta_set@[j])@ == spec_delta(data@, n_i, j));
                assert(test.model((delta_set@[j])@) == TestResult::Pass);
            }
            assert(whole@.remove(p) =~= data@.remove(p));
        }
    }
    whole
}

/// Minimizes a failing input: the result's bytes all come from `fail_input`
/// (as a multiset); if the oracle fails on `fail_input` it still fails on
/// the result; an input none of whose sub-multisets fails comes back
/// unchanged; and the result is one-minimal — dropping any single byte of
/// it gives an input the oracle passes. The oracle must pass the empty
/// input: an oracle that rejects even the empty input gives the reducer
/// nothing to stop at.
pub fn ddmin<O: Oracle>(data: &Data, test: &O) -> (r: Data)
    requires
        test.model(Seq::empty()) == TestResult::Pass,
    ensures
        r@.to_multiset().subset_of(data@.to_multiset()),
        test.model(data@) == TestResult::Fail ==> test.model(r@) == TestResult::Fail,
        (forall|s: Seq<u8>|
            s.to_multiset().subset_of(data@.to_multiset()) ==> #[trigger] test.model(s)
                == TestResult::Pass) ==> r@ == data@,
        forall|p: int|
            0 <= p < r@.len() ==> test.model(#[trigger] r@.remove(p)) == TestResult::Pass,
{
    do_ddmin(data, 2, test)
}


/// How many times `b` occurs in `v`.
fn count_byte(v: &Data, b: u8) -> (r: usize)
    ensures
        r == v@.to_multiset().count(b),
{
    broadcast use vstd::seq_lib::group_to_multiset_ensures;
    broadcast use vstd::multiset::group_multiset_axioms;

    let mut i: usize = 0;
    let mut acc: usize = 0;
    proof {
        assert(v@.subrange(0, 0).to_multiset() =~= Multiset::empty());
    }
    while i < v.len()
        invariant
            i <= v@.len(),
            acc <= i,
            acc == v@.subrange(0, i as int).to_multiset().count(b),
        decreases v@.len() - i,
    {
        proof {
            assert(v@.subrange(0, i + 1) =~= v@.subrange(0, i as int).push(v@[i as int]));
            v@.subrange(0, i as int).to_multiset_ensures();
            assert(v@.subrange(0, i as int).push(v@[i as int]).to_multiset() =~= v@.subrange(
                0,
                i as int,
            ).to_multiset().insert(v@[i as int]));
            assert(v@.subrange(0, i as int).to_multiset().insert(v@[i as int]).count(b) == v@.subrange(
                0,
                i as int,
            ).to_multiset().count(b) + (if v@[i as int] == b {
                1int
            } else {
                0int
            }));
        }
        if v[i] == b {
            acc += 1;
        }
        i += 1;
    }
    proof {
        assert(v@.subrange(0, v@.len() as int) =~= v@);
    }
    acc
}

/// An oracle that fails exactly on the candidates that still contain every
/// byte of a chosen fail-inducing input, with multiplicity.
pub struct ByteCountOracle {
    pub needed: Vec<u8>,
}

impl ByteCountOracle {
    pub fn new(needed: Vec<u8>) -> (r: ByteCountOracle)
        ensures
            r.needed == needed,
    {
        ByteCountOracle { needed }
    }
}

impl Oracle for ByteCountOracle {
    /// Fail when the fail-inducing bytes are all present in the candidate.
    open spec fn model(&self, data: Seq<u8>) -> TestResult {
        if self.needed@.to_multiset().subset_of(data.to_multiset()) {
            TestResult::Fail
        } else {
            TestResult::Pass
        }
    }

    fn test(&self, data: &Data) -> (r: TestResult)
        ensures
            r == self.model(data@),
    {
        broadcast use vstd::seq_lib::group_to_multiset_ensures;
        broadcast use vstd::multiset::group_multiset_axioms;

        let mut i: usize = 0;
        while i < self.needed.len()
            invariant
                i <= self.needed@.len(),
                forall|k: int| #![auto]
                    0 <= k < i ==> self.needed@.to_multiset().count(self.needed@[k])
                        <= data@.to_multiset().count(self.needed@[k]),
            decreases self.needed@.len() - i,
        {
            let b = self.needed[i];
            let have = count_byte(data, b);
            let need = count_byte(&self.needed, b);
            if need > have {
                proof {
                    assert(!self.needed@.to_multiset().subset_of(data@.to_multiset()));
                }
                return TestResult::Pass;
            }
            i += 1;
        }
        proof {
            assert forall|x: u8|
                self.needed@.to_multiset().count(x) <= data@.to_multiset().count(x) by {
                if self.needed@.to_multiset().count(x) > 0 {
                    assert(self.needed@.contains(x));
                    let k = choose|k: int|
                        0 <= k < self.needed@.len() && self.needed@[k] == x;
                }
            }
            assert(self.needed@.to_multiset().subset_of(data@.to_multiset()));
        }
        TestResult::Fail
    }
}

} // verus!

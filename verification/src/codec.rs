//! The compact binary encoding of coverage reports staged in shared memory:
//! a count, then each report's seven fields, each field a character count
//! followed by its characters as 32-bit little-endian scalar values. The
//! decoder inverts the encoder exactly.

use vstd::prelude::*;
use vstd::bytes::{
    spec_u32_from_le_bytes, spec_u32_to_le_bytes, spec_u64_from_le_bytes, spec_u64_to_le_bytes,
    u32_from_le_bytes, u32_to_le_bytes, u64_from_le_bytes, u64_to_le_bytes,
    lemma_auto_spec_u32_to_from_le_bytes, lemma_auto_spec_u64_to_from_le_bytes,
};
use vstd::slice::slice_subrange;
use crate::covmap::CovReport;
use crate::strfmt::push_char;

verus! {

/// A Unicode scalar value: what a character may hold.
pub open spec fn is_scalar_value(w: u32) -> bool {
    w <= 0x10FFFF && !(0xD800 <= w <= 0xDFFF)
}

/// Relies on char::from_u32: `Some` exactly on Unicode scalar values,
/// returning the character with that value.
#[verifier::external_body]
fn char_from_u32(w: u32) -> (r: Option<char>)
    ensures
        r is Some <==> is_scalar_value(w),
        r matches Some(c) ==> c == w as char && c as u32 == w,
{
    char::from_u32(w)
}

/// The encoding of characters: each as its scalar value in four
/// little-endian bytes.
pub open spec fn enc_chars(s: Seq<char>) -> Seq<u8>
    decreases s.len(),
{
    if s.len() == 0 {
        Seq::empty()
    } else {
        spec_u32_to_le_bytes(s[0] as u32) + enc_chars(s.drop_first())
    }
}

/// The encoding of one string: its character count, then its characters.
pub open spec fn enc_string(s: Seq<char>) -> Seq<u8> {
    spec_u64_to_le_bytes(s.len() as u64) + enc_chars(s)
}

proof fn lemma_enc_chars_len(s: Seq<char>)
    ensures
        enc_chars(s).len() == 4 * s.len(),
    decreases s.len(),
{
    lemma_auto_spec_u32_to_from_le_bytes();
    if s.len() > 0 {
        lemma_enc_chars_len(s.drop_first());
    }
}

/// The decoding of `n` characters starting at `pos`.
pub open spec fn dec_chars(b: Seq<u8>, pos: int, n: int) -> Option<Seq<char>>
    decreases n,
{
    if n <= 0 {
        Some(Seq::empty())
    } else if pos < 0 || pos + 4 > b.len() {
        None
    } else {
        let w = spec_u32_from_le_bytes(b.subrange(pos, pos + 4));
        if is_scalar_value(w) {
            match dec_chars(b, pos + 4, n - 1) {
                Some(rest) => Some(seq![w as char] + rest),
                None => None,
            }
        } else {
            None
        }
    }
}

/// The decoding of one string starting at `pos`: the string and the
/// position just past it.
pub open spec fn dec_string(b: Seq<u8>, pos: int) -> Option<(Seq<char>, int)> {
    if pos < 0 || pos + 8 > b.len() {
        None
    } else {
        let n = spec_u64_from_le_bytes(b.subrange(pos, pos + 8)) as int;
        match dec_chars(b, pos + 8, n) {
            Some(cs) => Some((cs, pos + 8 + 4 * n)),
            None => None,
        }
    }
}

/// Every character holds a Unicode scalar value.
proof fn lemma_char_is_scalar(c: char)
    ensures
        is_scalar_value(c as u32),
{
    vstd::utf8::char_is_scalar(c);
    assert(vstd::utf8::is_scalar(c as u32));
}

/// Decoding inverts encoding for the characters of a string found inside a
/// larger buffer.
proof fn lemma_dec_chars_of_enc(b: Seq<u8>, pos: int, s: Seq<char>)
    requires
        0 <= pos,
        pos + 4 * s.len() <= b.len(),
        b.subrange(pos, pos + 4 * s.len()) == enc_chars(s),
    ensures
        dec_chars(b, pos, s.len() as int) == Some(s),
    decreases s.len(),
{
    lemma_auto_spec_u32_to_from_le_bytes();
    lemma_enc_chars_len(s);
    if s.len() > 0 {
        lemma_enc_chars_len(s.drop_first());
        assert(b.subrange(pos, pos + 4) =~= enc_chars(s).subrange(0, 4));
        assert(enc_chars(s).subrange(0, 4) =~= spec_u32_to_le_bytes(s[0] as u32));
        let w = spec_u32_from_le_bytes(b.subrange(pos, pos + 4));
        assert(w == s[0] as u32);
        lemma_char_is_scalar(s[0]);
        assert(b.subrange(pos + 4, pos + 4 + 4 * s.drop_first().len()) =~= enc_chars(
            s,
        ).subrange(4, enc_chars(s).len() as int));
        assert(enc_chars(s).subrange(4, enc_chars(s).len() as int) =~= enc_chars(s.drop_first()));
        lemma_dec_chars_of_enc(b, pos + 4, s.drop_first());
        vstd::utf8::char_u32_cast(s[0], w);
        assert(w as char == s[0]);
        assert(seq![s[0]] + s.drop_first() =~= s);
    }
}

/// Decoding inverts encoding for one string found inside a larger buffer.
proof fn lemma_dec_string_of_enc(b: Seq<u8>, pos: int, s: Seq<char>)
    requires
        0 <= pos,
        s.len() < 0x1_0000_0000_0000_0000,
        pos + enc_string(s).len() <= b.len(),
        b.subrange(pos, pos + enc_string(s).len() as int) == enc_string(s),
    ensures
        dec_string(b, pos) == Some((s, pos + enc_string(s).len() as int)),
{
    lemma_auto_spec_u64_to_from_le_bytes();
    lemma_enc_chars_len(s);
    assert(b.subrange(pos, pos + 8) =~= enc_string(s).subrange(0, 8));
    assert(enc_string(s).subrange(0, 8) =~= spec_u64_to_le_bytes(s.len() as u64));
    assert(b.subrange(pos + 8, pos + 8 + 4 * s.len()) =~= enc_string(s).subrange(
        8,
        enc_string(s).len() as int,
    ));
    assert(enc_string(s).subrange(8, enc_string(s).len() as int) =~= enc_chars(s));
    lemma_dec_chars_of_enc(b, pos + 8, s);
}

/// Encodes one string.
#[verifier::loop_isolation(false)]
fn encode_string(s: &String, out: &mut Vec<u8>)
    ensures
        final(out)@ == old(out)@ + enc_string(s@),
        s@.len() < 0x1_0000_0000_0000_0000,
{
    proof {
        lemma_auto_spec_u64_to_from_le_bytes();
        lemma_auto_spec_u32_to_from_le_bytes();
    }
    let len = s.unicode_len();
    let len_bytes = u64_to_le_bytes(len as u64);
    let ghost base = out@;
    let mut k: usize = 0;
    while k < 8
        invariant
            k <= 8,
            len_bytes@ == spec_u64_to_le_bytes(s@.len() as u64),
            out@ == base + len_bytes@.subrange(0, k as int),
        decreases 8 - k,
    {
        let byte = len_bytes[k];
        out.push(byte);
        proof {
            assert(out@ =~= base + len_bytes@.subrange(0, k + 1));
        }
        k += 1;
    }
    proof {
        assert(len_bytes@.subrange(0, 8) =~= len_bytes@);
    }
    let ghost base2 = out@;
    let mut i: usize = 0;
    while i < len
        invariant
            i <= len == s@.len(),
            out@ == base2 + enc_chars(s@.take(i as int)),
        decreases len - i,
    {
        let c = s.as_str().get_char(i);
        let w = c as u32;
        let wb = u32_to_le_bytes(w);
        let b0 = wb[0];
        let b1 = wb[1];
        let b2 = wb[2];
        let b3 = wb[3];
        out.push(b0);
        out.push(b1);
        out.push(b2);
        out.push(b3);
        proof {
            lemma_enc_chars_take_step(s@, i as int);
            assert(out@ =~= base2 + enc_chars(s@.take(i + 1)));
        }
        i += 1;
    }
    proof {
        assert(s@.take(s@.len() as int) =~= s@);
        assert(out@ =~= base + enc_string(s@));
    }
}

/// Extending the encoded prefix of a string by one character appends that
/// character's bytes.
proof fn lemma_enc_chars_take_step(s: Seq<char>, i: int)
    requires
        0 <= i < s.len(),
    ensures
        enc_chars(s.take(i + 1)) == enc_chars(s.take(i)) + spec_u32_to_le_bytes(s[i] as u32),
    decreases i,
{
    if i == 0 {
        assert(s.take(1) =~= seq![s[0]]);
        assert(s.take(1).drop_first() =~= Seq::<char>::empty());
        assert(s.take(0) =~= Seq::<char>::empty());
        assert(enc_chars(s.take(1)) =~= enc_chars(s.take(0)) + spec_u32_to_le_bytes(s[0] as u32));
    } else {
        assert(s.take(i + 1)[0] == s[0]);
        assert(s.take(i + 1).drop_first() =~= s.drop_first().take(i));
        assert(s.take(i).drop_first() =~= s.drop_first().take(i - 1));
        lemma_enc_chars_take_step(s.drop_first(), i - 1);
        assert(s.drop_first()[i - 1] == s[i]);
        assert(enc_chars(s.take(i + 1)) =~= enc_chars(s.take(i)) + spec_u32_to_le_bytes(
            s[i] as u32,
        ));
    }
}

/// Decodes one string starting at `pos`; returns the string and the
/// position just past it.
#[verifier::loop_isolation(false)]
fn decode_string(b: &Vec<u8>, pos: usize) -> (r: Option<(String, usize)>)
    ensures
        match r {
            Some(sp) => dec_string(b@, pos as int) == Some((sp.0@, sp.1 as int)) && sp.1
                <= b@.len() && sp.1 >= pos + 8,
            None => dec_string(b@, pos as int) is None,
        },
{
    proof {
        lemma_auto_spec_u64_to_from_le_bytes();
        lemma_auto_spec_u32_to_from_le_bytes();
    }
    let blen = b.len();
    if pos > blen || blen - pos < 8 {
        return None;
    }
    let n_w = u64_from_le_bytes(slice_subrange(b.as_slice(), pos, pos + 8));
    let ghost n_spec = spec_u64_from_le_bytes(b@.subrange(pos as int, pos as int + 8)) as int;
    let mut out = String::new();
    let mut i: u64 = 0;
    let mut cur: usize = pos + 8;
    while i < n_w
        invariant
            0 <= i <= n_w,
            pos + 8 <= cur <= b@.len(),
            cur == pos + 8 + 4 * i,
            n_spec == n_w,
            blen == b@.len(),
            dec_chars(b@, pos as int + 8, n_spec) matches Some(cs) ==> (dec_chars(
                b@,
                cur as int,
                n_spec - i,
            ) matches Some(rest) && cs == out@ + rest),
            dec_chars(b@, pos as int + 8, n_spec) is None ==> dec_chars(
                b@,
                cur as int,
                n_spec - i,
            ) is None,
        decreases n_w - i,
    {
        if blen - cur < 4 {
            proof {
                assert(dec_chars(b@, cur as int, n_spec - i) is None);
            }
            return None;
        }
        let w = u32_from_le_bytes(slice_subrange(b.as_slice(), cur, cur + 4));
        match char_from_u32(w) {
            Some(c) => {
                let ghost prev_out = out@;
                push_char(&mut out, c);
                proof {
                    if dec_chars(b@, pos as int + 8, n_spec) is Some {
                        let cs = dec_chars(b@, pos as int + 8, n_spec)->0;
                        let rest = dec_chars(b@, cur as int, n_spec - i)->0;
                        let rest2 = dec_chars(b@, cur as int + 4, n_spec - i - 1)->0;
                        assert(rest == seq![w as char] + rest2);
                        assert(cs =~= out@ + rest2);
                    }
                }
            },
            None => {
                proof {
                    assert(dec_chars(b@, cur as int, n_spec - i) is None);
                }
                return None;
            },
        }
        cur += 4;
        i += 1;
    }
    proof {
        assert(dec_chars(b@, cur as int, 0) == Some(Seq::<char>::empty()));
        if dec_chars(b@, pos as int + 8, n_spec) is Some {
            let cs = dec_chars(b@, pos as int + 8, n_spec)->0;
            assert(cs =~= out@);
        }
    }
    Some((out, cur))
}


/// The encoding of a list of strings, one after the other.
pub open spec fn enc_strings(ss: Seq<Seq<char>>) -> Seq<u8>
    decreases ss.len(),
{
    if ss.len() == 0 {
        Seq::empty()
    } else {
        enc_string(ss[0]) + enc_strings(ss.drop_first())
    }
}

/// The decoding of `k` strings starting at `pos`: the strings and the
/// position just past them.
pub open spec fn dec_strings(b: Seq<u8>, pos: int, k: int) -> Option<(Seq<Seq<char>>, int)>
    decreases k,
{
    if k <= 0 {
        Some((Seq::empty(), pos))
    } else {
        match dec_string(b, pos) {
            Some(sp) => match dec_strings(b, sp.1, k - 1) {
                Some(rest) => Some((seq![sp.0] + rest.0, rest.1)),
                None => None,
            },
            None => None,
        }
    }
}

/// Decoding inverts encoding for a run of strings found inside a larger
/// buffer.
proof fn lemma_dec_strings_of_enc(b: Seq<u8>, pos: int, ss: Seq<Seq<char>>)
    requires
        0 <= pos,
        forall|i: int| 0 <= i < ss.len() ==> (#[trigger] ss[i]).len() < 0x1_0000_0000_0000_0000,
        pos + enc_strings(ss).len() <= b.len(),
        b.subrange(pos, pos + enc_strings(ss).len() as int) == enc_strings(ss),
    ensures
        dec_strings(b, pos, ss.len() as int) == Some((ss, pos + enc_strings(ss).len() as int)),
    decreases ss.len(),
{
    if ss.len() > 0 {
        let s0 = ss[0];
        let rest = ss.drop_first();
        let l0 = enc_string(s0).len() as int;
        let ltot = enc_strings(ss).len() as int;
        assert(b.subrange(pos, pos + l0) =~= enc_strings(ss).subrange(0, l0));
        assert(enc_strings(ss).subrange(0, l0) =~= enc_string(s0));
        lemma_dec_string_of_enc(b, pos, s0);
        assert(b.subrange(pos + l0, pos + ltot) =~= enc_strings(ss).subrange(l0, ltot));
        assert(enc_strings(ss).subrange(l0, ltot) =~= enc_strings(rest));
        lemma_dec_strings_of_enc(b, pos + l0, rest);
        assert(seq![s0] + rest =~= ss);
    }
}

/// The seven rendered fields of a report, in their wire order.
pub open spec fn report_fields(r: CovReport) -> Seq<Seq<char>> {
    seq![
        r.file@,
        r.funcs_hit_ratio@,
        r.uncovered_funcs@,
        r.brs_hit_ratio@,
        r.uncovered_brs@,
        r.lines_hit_ratio@,
        r.uncovered_lines@,
    ]
}

/// The encoding of one report: its seven fields.
pub open spec fn enc_report(r: CovReport) -> Seq<u8> {
    enc_strings(report_fields(r))
}

/// The encoding of a list of reports, one after the other.
pub open spec fn enc_reports(rs: Seq<CovReport>) -> Seq<u8>
    decreases rs.len(),
{
    if rs.len() == 0 {
        Seq::empty()
    } else {
        enc_report(rs[0]) + enc_reports(rs.drop_first())
    }
}

/// The whole staged payload: the report count, then the reports.
pub open spec fn enc_payload(rs: Seq<CovReport>) -> Seq<u8> {
    spec_u64_to_le_bytes(rs.len() as u64) + enc_reports(rs)
}

/// The decoding of `k` reports starting at `pos`, as their field lists.
pub open spec fn dec_reports(b: Seq<u8>, pos: int, k: int) -> Option<(Seq<Seq<Seq<char>>>, int)>
    decreases k,
{
    if k <= 0 {
        Some((Seq::empty(), pos))
    } else {
        match dec_strings(b, pos, 7) {
            Some(fp) => match dec_reports(b, fp.1, k - 1) {
                Some(rest) => Some((seq![fp.0] + rest.0, rest.1)),
                None => None,
            },
            None => None,
        }
    }
}

/// The decoding of the whole staged payload, as field lists.
pub open spec fn dec_payload(b: Seq<u8>) -> Option<Seq<Seq<Seq<char>>>> {
    if b.len() < 8 {
        None
    } else {
        let k = spec_u64_from_le_bytes(b.subrange(0, 8)) as int;
        match dec_reports(b, 8, k) {
            Some(rp) => Some(rp.0),
            None => None,
        }
    }
}

/// Every rendered field of every report is shorter than the count field can
/// carry.
pub open spec fn reports_bounded(rs: Seq<CovReport>) -> bool {
    forall|i: int, j: int|
        0 <= i < rs.len() && 0 <= j < 7 ==> (#[trigger] report_fields(rs[i])[j]).len()
            < 0x1_0000_0000_0000_0000
}

proof fn lemma_dec_reports_of_enc(b: Seq<u8>, pos: int, rs: Seq<CovReport>)
    requires
        0 <= pos,
        reports_bounded(rs),
        pos + enc_reports(rs).len() <= b.len(),
        b.subrange(pos, pos + enc_reports(rs).len() as int) == enc_reports(rs),
    ensures
        dec_reports(b, pos, rs.len() as int) matches Some(rp) && rp.0 == rs.map_values(
            |r: CovReport| report_fields(r),
        ) && rp.1 == pos + enc_reports(rs).len(),
    decreases rs.len(),
{
    if rs.len() > 0 {
        let r0 = rs[0];
        let rest = rs.drop_first();
        let l0 = enc_report(r0).len() as int;
        let ltot = enc_reports(rs).len() as int;
        assert(b.subrange(pos, pos + l0) =~= enc_reports(rs).subrange(0, l0));
        assert(enc_reports(rs).subrange(0, l0) =~= enc_report(r0));
        assert(forall|j: int|
            0 <= j < 7 ==> (#[trigger] report_fields(r0)[j]).len() < 0x1_0000_0000_0000_0000);
        lemma_dec_strings_of_enc(b, pos, report_fields(r0));
        assert(b.subrange(pos + l0, pos + ltot) =~= enc_reports(rs).subrange(l0, ltot));
        assert(enc_reports(rs).subrange(l0, ltot) =~= enc_reports(rest));
        assert(reports_bounded(rest)) by {
            assert(forall|i: int, j: int|
                0 <= i < rest.len() && 0 <= j < 7 ==> (#[trigger] report_fields(rest[i])[j]).len()
                    < 0x1_0000_0000_0000_0000) by {
                assert(forall|i: int| 0 <= i < rest.len() ==> rest[i] == rs[i + 1]);
            }
        }
        lemma_dec_reports_of_enc(b, pos + l0, rest);
        assert(seq![report_fields(r0)] + rest.map_values(|r: CovReport| report_fields(r))
            =~= rs.map_values(|r: CovReport| report_fields(r)));
    }
}

/// The staged payload decodes back to the reports it was made from:
/// serialization round-trips.
pub proof fn lemma_report_round_trip(rs: Seq<CovReport>)
    requires
        reports_bounded(rs),
        rs.len() < 0x1_0000_0000_0000_0000,
    ensures
        dec_payload(enc_payload(rs)) matches Some(fields) && fields == rs.map_values(
            |r: CovReport| report_fields(r),
        ),
{
    lemma_auto_spec_u64_to_from_le_bytes();
    let b = enc_payload(rs);
    assert(b.subrange(0, 8) =~= spec_u64_to_le_bytes(rs.len() as u64));
    assert(b.subrange(8, b.len() as int) =~= enc_reports(rs));
    lemma_dec_reports_of_enc(b, 8, rs);
}


proof fn lemma_enc_reports_take_step(rs: Seq<CovReport>, i: int)
    requires
        0 <= i < rs.len(),
    ensures
        enc_reports(rs.take(i + 1)) == enc_reports(rs.take(i)) + enc_report(rs[i]),
    decreases i,
{
    if i == 0 {
        assert(rs.take(1) =~= seq![rs[0]]);
        assert(rs.take(1).drop_first() =~= Seq::<CovReport>::empty());
        assert(rs.take(0) =~= Seq::<CovReport>::empty());
        assert(enc_reports(rs.take(1)) =~= enc_reports(rs.take(0)) + enc_report(rs[0]));
    } else {
        assert(rs.take(i + 1)[0] == rs[0]);
        assert(rs.take(i + 1).drop_first() =~= rs.drop_first().take(i));
        assert(rs.take(i).drop_first() =~= rs.drop_first().take(i - 1));
        lemma_enc_reports_take_step(rs.drop_first(), i - 1);
        assert(rs.drop_first()[i - 1] == rs[i]);
        assert(enc_reports(rs.take(i + 1)) =~= enc_reports(rs.take(i)) + enc_report(rs[i]));
    }
}

#[verifier::rlimit(50)]
proof fn lemma_enc_strings7(
    a: Seq<char>,
    b: Seq<char>,
    c: Seq<char>,
    d: Seq<char>,
    e: Seq<char>,
    f: Seq<char>,
    g: Seq<char>,
)
    ensures
        enc_strings(seq![a, b, c, d, e, f, g]) == enc_string(a) + enc_string(b) + enc_string(c)
            + enc_string(d) + enc_string(e) + enc_string(f) + enc_string(g),
{
    assert(seq![g].drop_first() =~= Seq::<Seq<char>>::empty());
    assert(enc_strings(Seq::<Seq<char>>::empty()) == Seq::<u8>::empty());
    assert(enc_strings(seq![g]) =~= enc_string(g));
    assert(seq![f, g].drop_first() =~= seq![g]);
    assert(enc_strings(seq![f, g]) =~= enc_string(f) + enc_string(g));
    assert(seq![e, f, g].drop_first() =~= seq![f, g]);
    assert(enc_strings(seq![e, f, g]) =~= enc_string(e) + enc_string(f) + enc_string(g));
    assert(seq![d, e, f, g].drop_first() =~= seq![e, f, g]);
    assert(enc_strings(seq![d, e, f, g]) =~= enc_string(d) + enc_string(e) + enc_string(f)
        + enc_string(g));
    assert(seq![c, d, e, f, g].drop_first() =~= seq![d, e, f, g]);
    assert(enc_strings(seq![c, d, e, f, g]) =~= enc_string(c) + enc_string(d) + enc_string(e)
        + enc_string(f) + enc_string(g));
    assert(seq![b, c, d, e, f, g].drop_first() =~= seq![c, d, e, f, g]);
    assert(enc_strings(seq![b, c, d, e, f, g]) =~= enc_string(b) + enc_string(c) + enc_string(d)
        + enc_string(e) + enc_string(f) + enc_string(g));
    assert(seq![a, b, c, d, e, f, g].drop_first() =~= seq![b, c, d, e, f, g]);
    assert(enc_strings(seq![a, b, c, d, e, f, g]) =~= enc_string(a) + enc_string(b) + enc_string(
        c,
    ) + enc_string(d) + enc_string(e) + enc_string(f) + enc_string(g));
}

/// Encodes the seven fields of one report.
fn encode_report(r: &CovReport, out: &mut Vec<u8>)
    ensures
        final(out)@ == old(out)@ + enc_report(*r),
        forall|j: int|
            0 <= j < 7 ==> (#[trigger] report_fields(*r)[j]).len() < 0x1_0000_0000_0000_0000,
{
    encode_string(&r.file, out);
    encode_string(&r.funcs_hit_ratio, out);
    encode_string(&r.uncovered_funcs, out);
    encode_string(&r.brs_hit_ratio, out);
    encode_string(&r.uncovered_brs, out);
    encode_string(&r.lines_hit_ratio, out);
    encode_string(&r.uncovered_lines, out);
    proof {
        lemma_enc_strings7(
            r.file@,
            r.funcs_hit_ratio@,
            r.uncovered_funcs@,
            r.brs_hit_ratio@,
            r.uncovered_brs@,
            r.lines_hit_ratio@,
            r.uncovered_lines@,
        );
        assert(final(out)@ =~= old(out)@ + enc_report(*r));
    }
}

/// Encodes a list of reports into the staged payload: the count, then each
/// report's fields.
#[verifier::loop_isolation(false)]
pub fn encode_reports(reports: &Vec<CovReport>) -> (r: Vec<u8>)
    ensures
        r@ == enc_payload(reports@),
        reports_bounded(reports@),
        reports@.len() < 0x1_0000_0000_0000_0000,
{
    proof {
        lemma_auto_spec_u64_to_from_le_bytes();
    }
    let mut out: Vec<u8> = Vec::new();
    let count_bytes = u64_to_le_bytes(reports.len() as u64);
    let ghost base = out@;
    let mut k: usize = 0;
    while k < 8
        invariant
            k <= 8,
            count_bytes@ == spec_u64_to_le_bytes(reports@.len() as u64),
            out@ == count_bytes@.subrange(0, k as int),
        decreases 8 - k,
    {
        let byte = count_bytes[k];
        out.push(byte);
        proof {
            assert(out@ =~= count_bytes@.subrange(0, k + 1));
        }
        k += 1;
    }
    proof {
        assert(count_bytes@.subrange(0, 8) =~= count_bytes@);
        assert(reports@.take(0) =~= Seq::<CovReport>::empty());
        assert(out@ =~= count_bytes@ + enc_reports(reports@.take(0)));
    }
    let mut i: usize = 0;
    while i < reports.len()
        invariant
            i <= reports@.len(),
            count_bytes@ == spec_u64_to_le_bytes(reports@.len() as u64),
            out@ == count_bytes@ + enc_reports(reports@.take(i as int)),
            forall|a: int, j: int|
                0 <= a < i && 0 <= j < 7 ==> (#[trigger] report_fields(reports@[a])[j]).len()
                    < 0x1_0000_0000_0000_0000,
        decreases reports@.len() - i,
    {
        encode_report(&reports[i], &mut out);
        proof {
            lemma_enc_reports_take_step(reports@, i as int);
            assert(out@ =~= count_bytes@ + enc_reports(reports@.take(i + 1)));
        }
        i += 1;
    }
    proof {
        assert(reports@.take(reports@.len() as int) =~= reports@);
    }
    out
}

/// Decodes `k` strings starting at `pos`.
#[verifier::loop_isolation(false)]
fn decode_strings(b: &Vec<u8>, pos: usize, k: usize) -> (r: Option<(Vec<String>, usize)>)
    ensures
        match r {
            Some(sp) => dec_strings(b@, pos as int, k as int) == Some(
                (sp.0@.map_values(|x: String| x@), sp.1 as int),
            ) && (k > 0 ==> sp.1 <= b@.len()) && sp.0@.len() == k && sp.1 >= pos,
            None => dec_strings(b@, pos as int, k as int) is None,
        },
{
    let mut out: Vec<String> = Vec::new();
    let mut cur: usize = pos;
    let mut i: usize = 0;
    while i < k
        invariant
            i <= k,
            cur <= b@.len() || i == 0,
            pos <= cur,
            out@.len() == i,
            dec_strings(b@, pos as int, k as int) matches Some(all) ==> (dec_strings(
                b@,
                cur as int,
                k - i,
            ) matches Some(rest) && all.0 == out@.map_values(|x: String| x@) + rest.0 && all.1
                == rest.1),
            dec_strings(b@, pos as int, k as int) is None ==> dec_strings(
                b@,
                cur as int,
                k - i,
            ) is None,
        decreases k - i,
    {
        match decode_string(b, cur) {
            Some((piece, next)) => {
                let ghost prev = out@;
                out.push(piece);
                proof {
                    if dec_strings(b@, pos as int, k as int) is Some {
                        let all = dec_strings(b@, pos as int, k as int)->Some_0;
                        let rest = dec_strings(b@, cur as int, (k - i) as int)->Some_0;
                        let rest2 = dec_strings(b@, next as int, k - i - 1)->Some_0;
                        assert(rest.0 == seq![out@[i as int]@] + rest2.0);
                        assert(out@.map_values(|x: String| x@) =~= prev.map_values(
                            |x: String| x@,
                        ).push(out@[i as int]@));
                        assert(all.0 =~= out@.map_values(|x: String| x@) + rest2.0);
                    }
                }
                cur = next;
            },
            None => {
                return None;
            },
        }
        i += 1;
    }
    proof {
        if dec_strings(b@, pos as int, k as int) is Some {
            let all = dec_strings(b@, pos as int, k as int)->Some_0;
            assert(all.0 =~= out@.map_values(|x: String| x@));
            assert(all.1 == cur as int);
            assert(all == (out@.map_values(|x: String| x@), cur as int));
        }
    }
    Some((out, cur))
}

/// Decodes one report starting at `pos`.
fn decode_report(b: &Vec<u8>, pos: usize) -> (r: Option<(CovReport, usize)>)
    ensures
        match r {
            Some(rp) => dec_strings(b@, pos as int, 7) == Some(
                (report_fields(rp.0), rp.1 as int),
            ) && rp.1 <= b@.len() && rp.1 >= pos,
            None => dec_strings(b@, pos as int, 7) is None,
        },
{
    match decode_strings(b, pos, 7) {
        Some((mut fields, next)) => {
            let uncovered_lines = fields.pop().unwrap();
            let lines_hit_ratio = fields.pop().unwrap();
            let uncovered_brs = fields.pop().unwrap();
            let brs_hit_ratio = fields.pop().unwrap();
            let uncovered_funcs = fields.pop().unwrap();
            let funcs_hit_ratio = fields.pop().unwrap();
            let file = fields.pop().unwrap();
            let report = CovReport {
                file,
                funcs_hit_ratio,
                uncovered_funcs,
                brs_hit_ratio,
                uncovered_brs,
                lines_hit_ratio,
                uncovered_lines,
            };
            Some((report, next))
        },
        None => None,
    }
}

/// Decodes the staged payload into reports; `None` when the bytes do not
/// parse.
#[verifier::loop_isolation(false)]
pub fn decode_payload(b: &Vec<u8>) -> (r: Option<Vec<CovReport>>)
    ensures
        match r {
            Some(rs) => dec_payload(b@) == Some(rs@.map_values(|x: CovReport| report_fields(x))),
            None => dec_payload(b@) is None,
        },
{
    proof {
        lemma_auto_spec_u64_to_from_le_bytes();
    }
    let blen = b.len();
    if blen < 8 {
        return None;
    }
    let count_w = u64_from_le_bytes(slice_subrange(b.as_slice(), 0, 8));
    let ghost count = spec_u64_from_le_bytes(b@.subrange(0, 8)) as int;
    let mut out: Vec<CovReport> = Vec::new();
    let mut cur: usize = 8;
    let mut i: u64 = 0;
    while i < count_w
        invariant
            0 <= i <= count_w,
            8 <= cur <= b@.len(),
            count == count_w,
            out@.len() == i,
            dec_reports(b@, 8, count) matches Some(all) ==> (dec_reports(
                b@,
                cur as int,
                count - i,
            ) matches Some(rest) && all.0 == out@.map_values(|x: CovReport| report_fields(x))
                + rest.0),
            dec_reports(b@, 8, count) is None ==> dec_reports(b@, cur as int, count - i) is None,
        decreases count_w - i,
    {
        match decode_report(b, cur) {
            Some((report, next)) => {
                let ghost prev = out@;
                out.push(report);
                proof {
                    if dec_reports(b@, 8, count) is Some {
                        let all = dec_reports(b@, 8, count)->Some_0;
                        let rest = dec_reports(b@, cur as int, count - i)->Some_0;
                        let rest2 = dec_reports(b@, next as int, count - i - 1)->Some_0;
                        assert(rest.0 == seq![report_fields(out@[i as int])] + rest2.0);
                        assert(out@.map_values(|x: CovReport| report_fields(x)) =~= prev.map_values(
                            |x: CovReport| report_fields(x),
                        ).push(report_fields(out@[i as int])));
                        assert(all.0 =~= out@.map_values(|x: CovReport| report_fields(x))
                            + rest2.0);
                    }
                }
                cur = next;
            },
            None => {
                return None;
            },
        }
        i += 1;
    }
    proof {
        if dec_reports(b@, 8, count) is Some {
            let all = dec_reports(b@, 8, count)->Some_0;
            assert(all.0 =~= out@.map_values(|x: CovReport| report_fields(x)));
        }
    }
    Some(out)
}


/// Stages the encoded reports in the shared coverage region: an 8-byte
/// length, then the payload. Returns whether the region was large enough.
pub fn write_cov_shm(mem: &mut Vec<u8>, reports: &Vec<CovReport>) -> (ok: bool)
    ensures
        final(mem)@.len() == old(mem)@.len(),
        ok ==> {
            let payload = enc_payload(reports@);
            &&& 8 + payload.len() <= final(mem)@.len()
            &&& crate::bytes::spec_read_u64(final(mem)@, 0) == payload.len()
            &&& final(mem)@.subrange(8, 8 + payload.len() as int) == payload
        },
        !ok ==> final(mem)@ == old(mem)@,
{
    let encoded = encode_reports(reports);
    let mem_len = mem.len();
    let enc_len = encoded.len();
    if mem_len < 8 || mem_len - 8 < enc_len {
        return false;
    }
    crate::bytes::write_u64(mem, 0, enc_len as u64);
    let ghost after_len = mem@;
    let mut i: usize = 0;
    while i < enc_len
        invariant
            i <= enc_len == encoded@.len(),
            8 + enc_len <= mem_len == mem@.len() == after_len.len(),
            forall|k: int| 0 <= k < i ==> mem@[8 + k] == encoded@[k],
            forall|k: int| 0 <= k < mem@.len() && !(8 <= k < 8 + i) ==> mem@[k] == after_len[k],
        decreases enc_len - i,
    {
        let byte = encoded[i];
        mem.set(8 + i, byte);
        i += 1;
    }
    proof {
        lemma_auto_spec_u64_to_from_le_bytes();
        assert(mem@.subrange(0, 8) =~= after_len.subrange(0, 8));
        assert(mem@.subrange(8, 8 + enc_len as int) =~= encoded@);
    }
    true
}

/// What the staged region decodes to: the field lists of the payload under
/// the length prefix, when the prefix fits and the payload parses.
pub open spec fn spec_staged_fields(mem: Seq<u8>) -> Option<Seq<Seq<Seq<char>>>> {
    if mem.len() < 8 {
        None
    } else {
        let size = crate::bytes::spec_read_u64(mem, 0) as int;
        if 8 + size <= mem.len() {
            dec_payload(mem.subrange(8, 8 + size))
        } else {
            None
        }
    }
}

/// Reads the staged reports back out of the shared coverage region; bytes
/// that do not parse give no reports, as an unwritten region would.
pub fn read_cov_report(mem: &Vec<u8>) -> (r: Vec<CovReport>)
    ensures
        match spec_staged_fields(mem@) {
            Some(fields) => r@.map_values(|x: CovReport| report_fields(x)) == fields,
            None => r@.len() == 0,
        },
{
    let mem_len = mem.len();
    if mem_len < 8 {
        return Vec::new();
    }
    let size_w = crate::bytes::read_u64(mem, 0);
    if size_w > (mem_len - 8) as u64 {
        return Vec::new();
    }
    let size = size_w as usize;
    let payload = vstd::slice::slice_to_vec(vstd::slice::slice_subrange(mem.as_slice(), 8, 8 + size));
    match decode_payload(&payload) {
        Some(reports) => reports,
        None => Vec::new(),
    }
}

} // verus!

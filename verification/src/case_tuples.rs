//! Checks of a case-label tuple fixture: each recorded `(pc, op, byte, key)` or
//! `(pc, op, byte, nextKey)` row against the live schedule and the HTML candidate.
use vstd::prelude::*;
use crate::fmt::{decimal, hex2, push_decimal, push_hex2, push_str};
use crate::json::{as_array, as_str, as_u64, jarr, jor, jstr, ju64, member, or_else_ref, JsonValue};
use crate::oracle::{derefs, harvest_tuple_rows, html_candidate, html_candidate_from_oracle, tuple_rows, u64_or0, unwrap_u64};
use crate::run_program_vm::{
    decode_opcode, fetch_branch_b_late_spec, fetch_live, next_key, oracle_mismatch_message, spec_decode_opcode,
    spec_next_key, verify_oracle_tuple, FetchParams,
};
use crate::text::{str_eq, to_string};

verus! {

/// The candidate schedule spelled `23196*(mix*mix)+mix*32619+19372` in one captured iframe.
pub open spec fn html_candidate_23196_spec() -> FetchParams {
    FetchParams {
        label: "html-candidate-23196",
        init_pc: 0,
        init_key: 63,
        byte_bias: 217,
        key_mul: 23196,
        key_add: 19372,
        key_quad_b: 32619,
    }
}

/// A test candidate only, not the live schedule.
pub fn html_candidate_23196() -> (p: FetchParams)
    ensures
        p == html_candidate_23196_spec(),
{
    FetchParams {
        label: "html-candidate-23196",
        init_pc: 0,
        init_key: 63,
        byte_bias: 217,
        key_mul: 23196,
        key_add: 19372,
        key_quad_b: 32619,
    }
}

/// Index of the first `scriptFetchConst` event, or the event count.
pub open spec fn first_fetch_const(es: Seq<JsonValue>) -> int
    decreases es.len(),
{
    if es.len() == 0 {
        0
    } else {
        let i = first_fetch_const(es.drop_last());
        if i < es.len() - 1 {
            i
        } else if jstr(member(es.last(), "kind"@)) == Some("scriptFetchConst"@) {
            es.len() - 1
        } else {
            es.len() as int
        }
    }
}

/// The `marker` of the first `scriptFetchConst` event (`""` when none or not a string).
pub open spec fn fixture_marker(v: JsonValue) -> Seq<char> {
    let es = match jarr(member(v, "events"@)) {
        Some(a) => a,
        None => seq![],
    };
    let i = first_fetch_const(es);
    if i < es.len() {
        match jstr(member(es[i], "marker"@)) {
            Some(m) => m,
            None => seq![],
        }
    } else {
        seq![]
    }
}

proof fn lemma_first_fetch_const_prefix(es: Seq<JsonValue>, n: int)
    requires
        0 <= n < es.len(),
        first_fetch_const(es.subrange(0, n)) == n,
        jstr(member(es[n], "kind"@)) == Some("scriptFetchConst"@),
    ensures
        first_fetch_const(es) == n,
    decreases es.len() - n,
{
    let p = es.subrange(0, n + 1);
    assert(p.drop_last() =~= es.subrange(0, n));
    lemma_first_fetch_const_keep(es, n + 1);
}

proof fn lemma_first_fetch_const_keep(es: Seq<JsonValue>, m: int)
    requires
        0 < m <= es.len(),
        first_fetch_const(es.subrange(0, m)) < m,
    ensures
        first_fetch_const(es) == first_fetch_const(es.subrange(0, m)),
    decreases es.len() - m,
{
    if m < es.len() {
        let q = es.subrange(0, m + 1);
        assert(q.drop_last() =~= es.subrange(0, m));
        lemma_first_fetch_const_keep(es, m + 1);
    } else {
        assert(es.subrange(0, m) =~= es);
    }
}

fn marker_of(v: &JsonValue) -> (m: String)
    ensures
        m@ == fixture_marker(*v),
{
    proof {
        reveal_strlit("");
    }
    match as_array(v.get("events")) {
        Some(es) => {
            let mut i: usize = 0;
            while i < es.len()
                invariant
                    i <= es@.len(),
                    jarr(member(*v, "events"@)) == Some(es@),
                    first_fetch_const(es@.subrange(0, i as int)) == i,
                decreases es@.len() - i,
            {
                proof {
                    let q = es@.subrange(0, i as int + 1);
                    assert(q.drop_last() =~= es@.subrange(0, i as int));
                    assert(q.last() == es@[i as int]);
                }
                let kind_ok = match as_str(es[i].get("kind")) {
                    Some(k) => str_eq(k, "scriptFetchConst"),
                    None => false,
                };
                if kind_ok {
                    proof {
                        lemma_first_fetch_const_prefix(es@, i as int);
                    }
                    let e: &JsonValue = &es[i];
                    let mk = as_str(e.get("marker"));
                    let out = match mk {
                        Some(m) => to_string(m),
                        None => String::new(),
                    };
                    proof {
                        assert(*e == es@[i as int]);
                        assert(first_fetch_const(es@) == i);
                        assert(out@ == match jstr(member(es@[i as int], "marker"@)) {
                            Some(m) => m,
                            None => seq![],
                        });
                    }
                    return out;
                }
                i = i + 1;
            }
            proof {
                assert(es@.subrange(0, es@.len() as int) =~= es@);
            }
            to_string("")
        },
        None => to_string(""),
    }
}

/// The schedules a fixture's rows are checked against: the live one, then the HTML
/// candidate when it names another multiplier, or the `23196` candidate when the
/// fixture names no candidate but its marker reads `23196`.
pub open spec fn case_candidates(v: JsonValue) -> Seq<FetchParams> {
    match html_candidate(v) {
        Some(h) => if h.key_mul != fetch_branch_b_late_spec().key_mul {
            seq![fetch_branch_b_late_spec(), h]
        } else {
            seq![fetch_branch_b_late_spec()]
        },
        None => if fixture_marker(v) == "23196"@ {
            seq![fetch_branch_b_late_spec(), html_candidate_23196_spec()]
        } else {
            seq![fetch_branch_b_late_spec()]
        },
    }
}

// ---- one row ----

pub open spec fn tuple_pc(f: JsonValue) -> u32 {
    u64_or0(ju64(member(f, "pc"@))) as u32
}

pub open spec fn tuple_byte(f: JsonValue) -> u8 {
    u64_or0(ju64(member(f, "byte"@))) as u8
}

pub open spec fn tuple_op(f: JsonValue) -> u8 {
    u64_or0(ju64(jor(member(f, "op"@), member(f, "caseOp"@)))) as u8
}

pub open spec fn opt_byte(o: Option<u64>) -> Option<u8> {
    match o {
        Some(n) => Some(n as u8),
        None => None,
    }
}

pub open spec fn tuple_key(f: JsonValue) -> Option<u8> {
    opt_byte(ju64(member(f, "key"@)))
}

pub open spec fn tuple_next_key(f: JsonValue) -> Option<u8> {
    opt_byte(ju64(jor(member(f, "nextKey"@), member(f, "next_key"@))))
}

/// The least fetch key at or above `k` that decodes `byte` to `op` and steps to `nk`.
pub open spec fn recover_from(params: FetchParams, op: u8, byte: u8, nk: u8, k: nat) -> Option<u8>
    decreases 256 - k,
{
    if k >= 256 {
        None
    } else if spec_decode_opcode(params, k as u8, byte) == op && spec_next_key(params, k as u8, op) == nk {
        Some(k as u8)
    } else {
        recover_from(params, op, byte, nk, k + 1)
    }
}

/// The report for a row whose fetch key no key explains.
pub open spec fn unrecovered_message(params: FetchParams, pc: u32, op: u8, byte: u8, nk: u8) -> Seq<char> {
    "pc "@ + decimal(pc as nat) + ": no fetch key decodes byte 0x"@ + hex2(byte) + " to "@ + decimal(op as nat)
        + " with next key "@ + decimal(nk as nat) + " ("@ + params.label@ + ")"@
}

/// Recovers the fetch key of a `(pc, op, byte, nextKey)` row: the least key that decodes
/// `byte` to `op` and steps to `nk`.
pub fn verify_oracle_tuple_next_key(params: FetchParams, pc: u32, op: u8, byte: u8, nk: u8) -> (r: Result<u8, String>)
    ensures
        match recover_from(params, op, byte, nk, 0) {
            Some(k) => r == Ok::<u8, String>(k),
            None => r matches Err(e) && e@ == unrecovered_message(params, pc, op, byte, nk),
        },
{
    let mut k: u32 = 0;
    while k < 256
        invariant
            k <= 256,
            recover_from(params, op, byte, nk, 0) == recover_from(params, op, byte, nk, k as nat),
        decreases 256 - k,
    {
        let key = k as u8;
        if decode_opcode(params, key, byte) == op && next_key(params, key, op) == nk {
            return Ok(key);
        }
        k = k + 1;
    }
    let mut m = String::new();
    push_str(&mut m, "pc ");
    push_decimal(&mut m, pc as u64);
    push_str(&mut m, ": no fetch key decodes byte 0x");
    push_hex2(&mut m, byte);
    push_str(&mut m, " to ");
    push_decimal(&mut m, op as u64);
    push_str(&mut m, " with next key ");
    push_decimal(&mut m, nk as u64);
    push_str(&mut m, " (");
    push_str(&mut m, params.label);
    push_str(&mut m, ")");
    proof {
        assert(m@ =~= unrecovered_message(params, pc, op, byte, nk));
    }
    Err(m)
}

/// What a row yields against `params`: its fetch key, or the report of why not.
pub open spec fn row_outcome(params: FetchParams, f: JsonValue) -> Result<u8, Seq<char>> {
    match tuple_key(f) {
        Some(k) => {
            let got = spec_decode_opcode(params, k, tuple_byte(f));
            if got == tuple_op(f) {
                Ok(k)
            } else {
                Err(oracle_mismatch_message(params, tuple_pc(f), k, tuple_byte(f), got, tuple_op(f)))
            }
        },
        None => match tuple_next_key(f) {
            Some(nk) => match recover_from(params, tuple_op(f), tuple_byte(f), nk, 0) {
                Some(k) => Ok(k),
                None => Err(unrecovered_message(params, tuple_pc(f), tuple_op(f), tuple_byte(f), nk)),
            },
            None => Err("missing key and nextKey"@),
        },
    }
}

/// A row whose fetch key checked out or was recovered.
#[derive(Debug, Clone, Copy, PartialEq, Eq)]
pub struct TupleRecovered {
    pub index: usize,
    pub pc: u32,
    pub op: u8,
    pub byte: u8,
    pub next_key: Option<u8>,
    pub fetch_key: u8,
}

/// A row that failed, with the reason.
#[derive(Debug, Clone)]
pub struct TupleFailure {
    pub index: usize,
    pub pc: u32,
    pub op: u8,
    pub byte: u8,
    pub next_key: Option<u8>,
    pub key: Option<u8>,
    pub error: String,
}

/// A [`TupleFailure`] with its reason as text.
pub struct TupleFailureView {
    pub index: int,
    pub pc: u32,
    pub op: u8,
    pub byte: u8,
    pub next_key: Option<u8>,
    pub key: Option<u8>,
    pub error: Seq<char>,
}

pub open spec fn failure_view(f: TupleFailure) -> TupleFailureView {
    TupleFailureView { index: f.index as int, pc: f.pc, op: f.op, byte: f.byte, next_key: f.next_key, key: f.key, error: f.error@ }
}

/// Consecutive fetch-keyed rows whose keys do not chain by the schedule.
#[derive(Debug, Clone, Copy, PartialEq, Eq)]
pub struct ChainBreak {
    /// The `pc` of the earlier row, when it is an integer.
    pub pc: Option<u64>,
    pub op: u8,
    pub key: u8,
    pub next_row_key: u8,
    pub expected_next_key: u8,
}

/// The rows that yield a key, in order.
pub open spec fn recovered_rows(params: FetchParams, rows: Seq<JsonValue>) -> Seq<TupleRecovered>
    decreases rows.len(),
{
    if rows.len() == 0 {
        seq![]
    } else {
        let prev = recovered_rows(params, rows.drop_last());
        let f = rows.last();
        match row_outcome(params, f) {
            Ok(k) => prev.push(
                TupleRecovered {
                    index: (rows.len() - 1) as usize,
                    pc: tuple_pc(f),
                    op: tuple_op(f),
                    byte: tuple_byte(f),
                    next_key: tuple_next_key(f),
                    fetch_key: k,
                },
            ),
            Err(_) => prev,
        }
    }
}

/// The rows that fail, in order.
pub open spec fn failed_rows(params: FetchParams, rows: Seq<JsonValue>) -> Seq<TupleFailureView>
    decreases rows.len(),
{
    if rows.len() == 0 {
        seq![]
    } else {
        let prev = failed_rows(params, rows.drop_last());
        let f = rows.last();
        match row_outcome(params, f) {
            Ok(_) => prev,
            Err(e) => prev.push(
                TupleFailureView {
                    index: rows.len() - 1,
                    pc: tuple_pc(f),
                    op: tuple_op(f),
                    byte: tuple_byte(f),
                    next_key: tuple_next_key(f),
                    key: tuple_key(f),
                    error: e,
                },
            ),
        }
    }
}

/// Every row names a fetch key.
pub open spec fn all_keyed(rows: Seq<JsonValue>) -> bool {
    forall|i: int| 0 <= i < rows.len() ==> #[trigger] tuple_key(rows[i]) is Some
}

/// The breaks among the first `n` rows' consecutive pairs.
pub open spec fn chain_breaks_upto(params: FetchParams, rows: Seq<JsonValue>, n: nat) -> Seq<ChainBreak>
    decreases n,
{
    if n < 2 {
        seq![]
    } else {
        let prev = chain_breaks_upto(params, rows, (n - 1) as nat);
        let a = rows[n - 2];
        let b = rows[n - 1];
        let k0 = tuple_key(a)->0;
        let k1 = tuple_key(b)->0;
        let got = spec_next_key(params, k0, tuple_op(a));
        if got != k1 {
            prev.push(ChainBreak { pc: ju64(member(a, "pc"@)), op: tuple_op(a), key: k0, next_row_key: k1, expected_next_key: got })
        } else {
            prev
        }
    }
}

/// The key-chain breaks: checked only when every row names a fetch key and there are two or more.
pub open spec fn chain_breaks(params: FetchParams, rows: Seq<JsonValue>) -> Seq<ChainBreak> {
    if all_keyed(rows) && rows.len() >= 2 {
        chain_breaks_upto(params, rows, rows.len())
    } else {
        seq![]
    }
}

/// The report for one candidate schedule.
#[derive(Debug, Clone)]
pub struct CandidateReport {
    pub label: &'static str,
    pub key_mul: u32,
    pub ok: usize,
    pub recovered: Vec<TupleRecovered>,
    pub errors: Vec<TupleFailure>,
    pub key_chain_fail: Vec<ChainBreak>,
    /// No row failed, some row passed, and the key chain holds.
    pub all_ok: bool,
}

/// `c` is the report of `params` over `rows`.
pub open spec fn candidate_report_is(c: CandidateReport, params: FetchParams, rows: Seq<JsonValue>) -> bool {
    &&& c.label == params.label
    &&& c.key_mul == params.key_mul
    &&& c.recovered@ == recovered_rows(params, rows)
    &&& c.ok == recovered_rows(params, rows).len()
    &&& c.errors@.map_values(|f: TupleFailure| failure_view(f)) == failed_rows(params, rows)
    &&& c.key_chain_fail@ == chain_breaks(params, rows)
    &&& c.all_ok == (failed_rows(params, rows).len() == 0 && recovered_rows(params, rows).len() > 0 && chain_breaks(
        params,
        rows,
    ).len() == 0)
}

fn check_rows(params: FetchParams, rows: &Vec<&JsonValue>) -> (r: (Vec<TupleRecovered>, Vec<TupleFailure>))
    ensures
        r.0@ == recovered_rows(params, derefs(rows@)),
        r.1@.map_values(|f: TupleFailure| failure_view(f)) == failed_rows(params, derefs(rows@)),
{
    let mut rec: Vec<TupleRecovered> = Vec::new();
    let mut fail: Vec<TupleFailure> = Vec::new();
    let ghost all = derefs(rows@);
    let mut i: usize = 0;
    while i < rows.len()
        invariant
            i <= rows@.len(),
            all == derefs(rows@),
            rec@ == recovered_rows(params, all.subrange(0, i as int)),
            fail@.map_values(|f: TupleFailure| failure_view(f)) == failed_rows(params, all.subrange(0, i as int)),
        decreases rows@.len() - i,
    {
        let f: &JsonValue = rows[i];
        proof {
            let q = all.subrange(0, i as int + 1);
            assert(q.drop_last() =~= all.subrange(0, i as int));
            assert(q.last() == all[i as int]);
            assert(all[i as int] == *f);
        }
        let pc = unwrap_u64(as_u64(f.get("pc"))) as u32;
        let byte = unwrap_u64(as_u64(f.get("byte"))) as u8;
        let op = unwrap_u64(as_u64(or_else_ref(f.get("op"), f.get("caseOp")))) as u8;
        let fetch_key = match as_u64(f.get("key")) {
            Some(n) => Some(n as u8),
            None => None,
        };
        let next_k = match as_u64(or_else_ref(f.get("nextKey"), f.get("next_key"))) {
            Some(n) => Some(n as u8),
            None => None,
        };
        let result: Result<u8, String> = match fetch_key {
            Some(key) => match verify_oracle_tuple(params, pc, key, byte, op) {
                Ok(()) => Ok(key),
                Err(e) => Err(e),
            },
            None => match next_k {
                Some(nk) => verify_oracle_tuple_next_key(params, pc, op, byte, nk),
                None => Err(to_string("missing key and nextKey")),
            },
        };
        let ghost fail_before = fail@;
        match result {
            Ok(key) => {
                rec.push(TupleRecovered { index: i, pc, op, byte, next_key: next_k, fetch_key: key });
            },
            Err(e) => {
                fail.push(TupleFailure { index: i, pc, op, byte, next_key: next_k, key: fetch_key, error: e });
                proof {
                    assert(fail@.map_values(|f: TupleFailure| failure_view(f)) =~= fail_before.map_values(
                        |f: TupleFailure| failure_view(f),
                    ).push(failure_view(fail@[fail@.len() - 1])));
                }
            },
        }
        i = i + 1;
        proof {
            assert(fail@.map_values(|f: TupleFailure| failure_view(f)) =~= failed_rows(params, all.subrange(0, i as int)));
        }
    }
    proof {
        assert(all.subrange(0, rows@.len() as int) =~= all);
    }
    (rec, fail)
}

fn check_chain(params: FetchParams, rows: &Vec<&JsonValue>) -> (r: Vec<ChainBreak>)
    ensures
        r@ == chain_breaks(params, derefs(rows@)),
{
    let ghost all = derefs(rows@);
    let mut keyed = true;
    let mut i: usize = 0;
    while i < rows.len()
        invariant
            i <= rows@.len(),
            all == derefs(rows@),
            keyed == (forall|j: int| 0 <= j < i ==> #[trigger] tuple_key(all[j]) is Some),
        decreases rows@.len() - i,
    {
        proof {
            assert(all[i as int] == *rows@[i as int]);
        }
        let has = as_u64(rows[i].get("key")).is_some();
        proof {
            assert(has == (tuple_key(all[i as int]) is Some));
        }
        keyed = keyed && has;
        i = i + 1;
    }
    let mut out: Vec<ChainBreak> = Vec::new();
    if !keyed || rows.len() < 2 {
        return out;
    }
    let mut m: usize = 1;
    while m < rows.len()
        invariant
            1 <= m <= rows@.len(),
            all == derefs(rows@),
            all_keyed(all),
            out@ == chain_breaks_upto(params, all, m as nat),
        decreases rows@.len() - m,
    {
        let a: &JsonValue = rows[m - 1];
        let b: &JsonValue = rows[m];
        proof {
            assert(all[m - 1] == *a);
            assert(all[m as int] == *b);
            assert(tuple_key(all[m - 1]) is Some);
            assert(tuple_key(all[m as int]) is Some);
        }
        #[verifier::truncate]
        let k0 = unwrap_u64(as_u64(a.get("key"))) as u8;
        #[verifier::truncate]
        let k1 = unwrap_u64(as_u64(b.get("key"))) as u8;
        let op0 = unwrap_u64(as_u64(or_else_ref(a.get("op"), a.get("caseOp")))) as u8;
        let got = next_key(params, k0, op0);
        if got != k1 {
            out.push(ChainBreak { pc: as_u64(a.get("pc")), op: op0, key: k0, next_row_key: k1, expected_next_key: got });
        }
        m = m + 1;
    }
    out
}

/// Checks the rows against one candidate schedule.
pub fn check_candidate(params: FetchParams, rows: &Vec<&JsonValue>) -> (c: CandidateReport)
    ensures
        candidate_report_is(c, params, derefs(rows@)),
{
    let (recovered, errors) = check_rows(params, rows);
    let key_chain_fail = check_chain(params, rows);
    let ok = recovered.len();
    let all_ok = errors.len() == 0 && ok > 0 && key_chain_fail.len() == 0;
    proof {
        assert(errors@.map_values(|f: TupleFailure| failure_view(f)).len() == errors@.len());
    }
    CandidateReport { label: params.label, key_mul: params.key_mul, ok, recovered, errors, key_chain_fail, all_ok }
}

/// What checking a case-label tuple fixture reports.
#[derive(Debug, Clone)]
pub struct CaseTuplesReport {
    pub row_count: usize,
    pub marker: String,
    /// One report per candidate schedule, in [`case_candidates`] order.
    pub candidates: Vec<CandidateReport>,
}

/// Checks a case-label tuple fixture: its tuple rows (see [`tuple_rows`]) against each
/// candidate schedule (see [`case_candidates`]).
pub fn verify_case_tuples_document(v: &JsonValue) -> (r: CaseTuplesReport)
    ensures
        r.row_count == tuple_rows(*v).len(),
        r.marker@ == fixture_marker(*v),
        r.candidates@.len() == case_candidates(*v).len(),
        forall|j: int|
            0 <= j < r.candidates@.len() ==> candidate_report_is(
                #[trigger] r.candidates@[j],
                case_candidates(*v)[j],
                tuple_rows(*v),
            ),
{
    proof {
        reveal_strlit("23196");
    }
    let rows = harvest_tuple_rows(v);
    let marker = marker_of(v);
    let live = fetch_live();
    let mut params: Vec<FetchParams> = Vec::new();
    params.push(live);
    match html_candidate_from_oracle(v) {
        Some(h) => {
            if h.key_mul != live.key_mul {
                params.push(h);
            }
        },
        None => {
            if str_eq(marker.as_str(), "23196") {
                params.push(html_candidate_23196());
            }
        },
    }
    proof {
        assert(params@ =~= case_candidates(*v));
    }
    let mut candidates: Vec<CandidateReport> = Vec::new();
    let mut j: usize = 0;
    while j < params.len()
        invariant
            j <= params@.len(),
            params@ == case_candidates(*v),
            derefs(rows@) == tuple_rows(*v),
            candidates@.len() == j,
            forall|i: int| 0 <= i < j ==> candidate_report_is(#[trigger] candidates@[i], params@[i], tuple_rows(*v)),
        decreases params@.len() - j,
    {
        candidates.push(check_candidate(params[j], &rows));
        j = j + 1;
    }
    CaseTuplesReport { row_count: rows.len(), marker, candidates }
}

} // verus!

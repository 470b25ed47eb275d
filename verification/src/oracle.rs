//! Checks of a headed-Chrome oracle fixture against the crate's static findings: the
//! recorded opcode fetches, PC deltas, first tags and `/fo/` body and init-JSON facts.
use vstd::prelude::*;
use crate::fmt::{decimal, push_decimal, push_str};
use crate::fo_body::{
    body_chars_in_charset, chars_in_charset, charset_is_well_formed, charset_ok, classify_fo_body_len,
    fo_body_len_band, FoBodyLenBand, CHARSET_BRANCH_B,
};
use crate::fo_init_json::{keys_match_snapshot, INIT_JSON_KEYS_B};
use crate::json::{
    as_array, as_i64, as_str, as_u64, deref_opt, get_in, ji64, jarr, jget, jor, jstr, jstr_is, ju64, member,
    or_else_ref, str_is, JsonValue,
};
use crate::run_program_ops::{
    classify_pc_delta, observes, spec_handler_layout_b, WidthObservation, DN_TAG_STRING,
};
use crate::run_program_vm::{
    fetch_branch_b, fetch_branch_b_spec, oracle_mismatch_message, oracle_snapshot, params_from_oracle_fetch,
    spec_decode_opcode, spec_opcode_table_b, verify_oracle_tuple, FetchParams,
};
use crate::oracle_followup::{check_followup, check_followup_json, followup_errors, followup_json_errors};
use crate::oracle_late::{check_late_tables, late_rows, late_tables_errors};
use crate::text::to_string;

verus! {

/// The texts of a list of messages.
pub open spec fn msgs(v: Seq<String>) -> Seq<Seq<char>> {
    v.map_values(|s: String| s@)
}

/// Appends one message.
pub(crate) fn add_msg(errors: &mut Vec<String>, m: String)
    ensures
        msgs(final(errors)@) == msgs(old(errors)@).push(m@),
{
    errors.push(m);
    proof {
        assert(msgs(errors@) =~= msgs(old(errors)@).push(m@));
    }
}

/// Appends one fixed message.
pub(crate) fn add_text(errors: &mut Vec<String>, m: &str)
    ensures
        msgs(final(errors)@) == msgs(old(errors)@).push(m@),
{
    add_msg(errors, to_string(m));
}

/// The messages of the checks `0..n` that fail, in order.
pub open spec fn indexed_errors(n: nat, bad: spec_fn(int) -> bool, msg: spec_fn(int) -> Seq<char>) -> Seq<Seq<char>>
    decreases n,
{
    if n == 0 {
        seq![]
    } else {
        let prev = indexed_errors((n - 1) as nat, bad, msg);
        if bad(n - 1) {
            prev.push(msg(n - 1))
        } else {
            prev
        }
    }
}

/// `[m]` when `bad`, else nothing.
#[verifier::opaque]
pub open spec fn error_if(bad: bool, m: Seq<char>) -> Seq<Seq<char>> {
    if bad {
        seq![m]
    } else {
        seq![]
    }
}

/// Appends `m` when `bad`.
pub(crate) fn add_text_if(errors: &mut Vec<String>, bad: bool, m: &str)
    ensures
        msgs(final(errors)@) == msgs(old(errors)@) + error_if(bad, m@),
{
    if bad {
        add_text(errors, m);
    }
    proof {
        reveal(error_if);
        assert(msgs(errors@) =~= msgs(old(errors)@) + error_if(bad, m@));
    }
}

/// `o.unwrap_or(0)` on a `u64` reading.
pub open spec fn u64_or0(o: Option<u64>) -> u64 {
    match o {
        Some(n) => n,
        None => 0,
    }
}

pub(crate) fn unwrap_u64(o: Option<u64>) -> (r: u64)
    ensures
        r == u64_or0(o),
{
    match o {
        Some(n) => n,
        None => 0,
    }
}

/// `o.unwrap_or(0)` on an `i64` reading.
pub open spec fn i64_or0(o: Option<i64>) -> i64 {
    match o {
        Some(n) => n,
        None => 0,
    }
}

/// The `pc` of a recorded fetch (`0` when absent).
pub open spec fn row_pc(f: JsonValue) -> u32 {
    u64_or0(ju64(member(f, "pc"@))) as u32
}

/// The fetch key of a recorded fetch (`0` when absent).
pub open spec fn row_key(f: JsonValue) -> u8 {
    u64_or0(ju64(member(f, "key"@))) as u8
}

/// The encoded byte of a recorded fetch; top-level rows may spell it `b`.
pub open spec fn row_byte(f: JsonValue, alt_b: bool) -> u8 {
    u64_or0(ju64(if alt_b { jor(member(f, "byte"@), member(f, "b"@)) } else { member(f, "byte"@) })) as u8
}

/// The decoded opcode of a recorded fetch (`op`, else `opcode`).
pub open spec fn row_op(f: JsonValue) -> u8 {
    u64_or0(ju64(jor(member(f, "op"@), member(f, "opcode"@)))) as u8
}

/// One message per recorded fetch that `params` does not decode to its opcode.
pub open spec fn fetch_errors(params: FetchParams, rows: Seq<JsonValue>, head: Seq<char>, alt_b: bool) -> Seq<Seq<char>>
    decreases rows.len(),
{
    if rows.len() == 0 {
        seq![]
    } else {
        let prev = fetch_errors(params, rows.drop_last(), head, alt_b);
        let f = rows.last();
        let got = spec_decode_opcode(params, row_key(f), row_byte(f, alt_b));
        if got != row_op(f) {
            prev.push(
                head + decimal((rows.len() - 1) as nat) + ": "@ + oracle_mismatch_message(
                    params,
                    row_pc(f),
                    row_key(f),
                    row_byte(f, alt_b),
                    got,
                    row_op(f),
                ),
            )
        } else {
            prev
        }
    }
}

/// Checks each recorded fetch against `params`.
pub(crate) fn check_fetch_rows(params: FetchParams, rows: &Vec<JsonValue>, head: &str, alt_b: bool, errors: &mut Vec<String>)
    ensures
        msgs(final(errors)@) == msgs(old(errors)@) + fetch_errors(params, rows@, head@, alt_b),
{
    let mut i: usize = 0;
    while i < rows.len()
        invariant
            i <= rows@.len(),
            msgs(errors@) == msgs(old(errors)@) + fetch_errors(params, rows@.subrange(0, i as int), head@, alt_b),
        decreases rows@.len() - i,
    {
        let f = &rows[i];
        let pc = unwrap_u64(as_u64(f.get("pc"))) as u32;
        let key = unwrap_u64(as_u64(f.get("key"))) as u8;
        let byte_field = if alt_b {
            or_else_ref(f.get("byte"), f.get("b"))
        } else {
            f.get("byte")
        };
        let byte = unwrap_u64(as_u64(byte_field)) as u8;
        let op = unwrap_u64(as_u64(or_else_ref(f.get("op"), f.get("opcode")))) as u8;
        proof {
            let s = rows@.subrange(0, i as int + 1);
            assert(s.drop_last() =~= rows@.subrange(0, i as int));
            assert(s.last() == rows@[i as int]);
        }
        match verify_oracle_tuple(params, pc, key, byte, op) {
            Ok(()) => {},
            Err(e) => {
                let mut m = String::new();
                push_str(&mut m, head);
                push_decimal(&mut m, i as u64);
                push_str(&mut m, ": ");
                push_str(&mut m, e.as_str());
                add_msg(errors, m);
            },
        }
        i = i + 1;
        proof {
            assert(msgs(errors@) =~= msgs(old(errors)@) + fetch_errors(params, rows@.subrange(0, i as int), head@, alt_b));
        }
    }
    proof {
        assert(rows@.subrange(0, rows@.len() as int) =~= rows@);
    }
}

/// The fetch constants of a fixture: its `fetch` member, else the document itself.
pub open spec fn fetch_doc(v: JsonValue) -> JsonValue {
    match member(v, "fetch"@) {
        Some(f) => f,
        None => v,
    }
}

/// The snapshot that a fetch object names, if any.
pub open spec fn named_snapshot(f: JsonValue) -> Option<FetchParams> {
    oracle_snapshot(
        u64_or0(ju64(member(f, "init_key"@))) as u8,
        u64_or0(ju64(member(f, "byte_bias"@))) as u8,
        u64_or0(ju64(member(f, "key_mul"@))) as u32,
    )
}

/// The schedule a fixture is checked against (early `b` when its constants match none).
pub open spec fn oracle_params(v: JsonValue) -> FetchParams {
    match named_snapshot(fetch_doc(v)) {
        Some(p) => p,
        None => fetch_branch_b_spec(),
    }
}

pub(crate) fn snapshot_of(f: &JsonValue) -> (r: Option<FetchParams>)
    ensures
        r == named_snapshot(*f),
{
    let init_key = unwrap_u64(as_u64(f.get("init_key"))) as u8;
    let byte_bias = unwrap_u64(as_u64(f.get("byte_bias"))) as u8;
    let key_mul = unwrap_u64(as_u64(f.get("key_mul"))) as u32;
    params_from_oracle_fetch(init_key, byte_bias, key_mul)
}

/// The recorded fetches of a fixture (`opcodeFetches`, else `fetches`).
pub open spec fn top_rows(v: JsonValue) -> Seq<JsonValue> {
    match jarr(jor(member(v, "opcodeFetches"@), member(v, "fetches"@))) {
        Some(a) => a,
        None => seq![],
    }
}

/// The recorded fetches of a fixture, when it lists them.
pub fn oracle_fetch_rows(v: &JsonValue) -> (r: Option<&Vec<JsonValue>>)
    ensures
        match r {
            Some(a) => jarr(jor(member(*v, "opcodeFetches"@), member(*v, "fetches"@))) == Some(a@),
            None => jarr(jor(member(*v, "opcodeFetches"@), member(*v, "fetches"@))) is None,
        },
{
    as_array(or_else_ref(v.get("opcodeFetches"), v.get("fetches")))
}

/// The recorded PC deltas of a fixture (`pcDeltas`, else `pc_deltas`).
pub open spec fn delta_rows(v: JsonValue) -> Seq<JsonValue> {
    match jarr(jor(member(v, "pcDeltas"@), member(v, "pc_deltas"@))) {
        Some(a) => a,
        None => seq![],
    }
}

pub open spec fn delta_op(d: JsonValue) -> u8 {
    u64_or0(ju64(jor(member(d, "op"@), member(d, "opcode"@)))) as u8
}

pub open spec fn delta_width(d: JsonValue) -> i32 {
    i64_or0(ji64(member(d, "width"@))) as i32
}

/// Each PC delta compared with the early-`b` layouts.
fn classify_deltas(rows: &Vec<JsonValue>) -> (w: Vec<WidthObservation>)
    ensures
        w@.len() == rows@.len(),
        forall|i: int|
            0 <= i < rows@.len() ==> observes(
                #[trigger] w@[i],
                delta_op(rows@[i]),
                delta_width(rows@[i]),
                spec_opcode_table_b(),
                spec_handler_layout_b(),
            ),
{
    let mut w: Vec<WidthObservation> = Vec::new();
    let mut i: usize = 0;
    while i < rows.len()
        invariant
            i <= rows@.len(),
            w@.len() == i,
            forall|k: int|
                0 <= k < i ==> observes(
                    #[trigger] w@[k],
                    delta_op(rows@[k]),
                    delta_width(rows@[k]),
                    spec_opcode_table_b(),
                    spec_handler_layout_b(),
                ),
        decreases rows@.len() - i,
    {
        let d = &rows[i];
        let op = unwrap_u64(as_u64(or_else_ref(d.get("op"), d.get("opcode")))) as u8;
        let width = match as_i64(d.get("width")) {
            Some(n) => n,
            None => 0,
        } as i32;
        w.push(classify_pc_delta(op, width));
        i = i + 1;
    }
    w
}

/// The first `dN` tag a fixture records (`firstDnTag`, else `first_dn_tag`).
pub open spec fn first_tag(v: JsonValue) -> Option<u8> {
    match ju64(jor(member(v, "firstDnTag"@), member(v, "first_dn_tag"@))) {
        Some(n) => Some(n as u8),
        None => None,
    }
}

pub open spec fn first_tag_errors(v: JsonValue) -> Seq<Seq<char>> {
    match first_tag(v) {
        Some(tag) => if tag != DN_TAG_STRING {
            seq![
                "first dN tag "@ + decimal(tag as nat) + ", expected string tag "@ + decimal(DN_TAG_STRING as nat)
                    + " for TX5omy48 magic"@,
            ]
        } else {
            seq![]
        },
        None => seq![],
    }
}

/// The `/fo/` body facts of a fixture (`laterSameDay.foBody`, else `foBody`).
pub open spec fn fo_body_doc(v: JsonValue) -> Option<JsonValue> {
    jor(jget(member(v, "laterSameDay"@), "foBody"@), member(v, "foBody"@))
}

/// The compressor alphabet a body section names (branch `b` by default).
pub open spec fn fo_charset(fo: JsonValue) -> Seq<char> {
    match jstr(member(fo, "charset"@)) {
        Some(c) => c,
        None => CHARSET_BRANCH_B@,
    }
}

/// A prefix entry's text (`""` for a non-string).
pub open spec fn entry_text(p: JsonValue) -> Seq<char> {
    match jstr(Some(p)) {
        Some(s) => s,
        None => seq![],
    }
}

pub open spec fn prefix_errors(ps: Seq<JsonValue>, cs: Seq<char>) -> Seq<Seq<char>>
    decreases ps.len(),
{
    if ps.len() == 0 {
        seq![]
    } else {
        let prev = prefix_errors(ps.drop_last(), cs);
        if chars_in_charset(entry_text(ps.last()), cs) {
            prev
        } else {
            prev.push("foBody prefix "@ + decimal((ps.len() - 1) as nat) + " not in charset"@)
        }
    }
}

/// How many prefixes lie in the alphabet.
pub open spec fn prefix_ok_count(ps: Seq<JsonValue>, cs: Seq<char>) -> nat
    decreases ps.len(),
{
    if ps.len() == 0 {
        0
    } else {
        prefix_ok_count(ps.drop_last(), cs) + if chars_in_charset(entry_text(ps.last()), cs) {
            1nat
        } else {
            0nat
        }
    }
}

/// A length entry (`0` for a non-integer).
pub open spec fn entry_len(n: JsonValue) -> usize {
    u64_or0(ju64(Some(n))) as usize
}

/// One message per length outside `band`.
pub open spec fn body_len_errors(ls: Seq<JsonValue>, band: FoBodyLenBand, head: Seq<char>, tail: Seq<char>) -> Seq<Seq<char>>
    decreases ls.len(),
{
    if ls.len() == 0 {
        seq![]
    } else {
        let prev = body_len_errors(ls.drop_last(), band, head, tail);
        let len = entry_len(ls.last());
        if fo_body_len_band(len as int) != band {
            prev.push(head + decimal((ls.len() - 1) as nat) + "]="@ + decimal(len as nat) + tail)
        } else {
            prev
        }
    }
}

pub open spec fn opt_list_errors(o: Option<Seq<JsonValue>>, f: spec_fn(Seq<JsonValue>) -> Seq<Seq<char>>) -> Seq<Seq<char>> {
    match o {
        Some(a) => f(a),
        None => seq![],
    }
}

pub open spec fn fo_charset_errors(fo: JsonValue) -> Seq<Seq<char>> {
    error_if(!charset_ok(fo_charset(fo)), "foBody.charset is not a 65-char custom alphabet"@)
}

pub open spec fn fo_name_errors(fo: JsonValue) -> Seq<Seq<char>> {
    error_if(!jstr_is(member(fo, "compressorLiveName"@), "f4"@), "foBody.compressorLiveName should be f4"@)
}

pub open spec fn fo_prefix_part(fo: JsonValue) -> Seq<Seq<char>> {
    match jarr(member(fo, "prefixes"@)) {
        Some(ps) => prefix_errors(ps, fo_charset(fo)),
        None => seq![],
    }
}

pub open spec fn fo_lens_part(fo: JsonValue, field: Seq<char>, band: FoBodyLenBand, head: Seq<char>, tail: Seq<char>) -> Seq<Seq<char>> {
    match jarr(member(fo, field)) {
        Some(ls) => body_len_errors(ls, band, head, tail),
        None => seq![],
    }
}

/// The messages for a `/fo/` body section: its alphabet, compressor name, prefixes and lengths.
pub open spec fn fo_body_errors(fo: JsonValue) -> Seq<Seq<char>> {
    fo_charset_errors(fo) + fo_name_errors(fo) + fo_prefix_part(fo)
        + fo_lens_part(fo, "initLens"@, FoBodyLenBand::Init, "foBody initLens["@, " not in init band"@)
        + fo_lens_part(fo, "followUpLens"@, FoBodyLenBand::FollowUp, "foBody followUpLens["@, " not in follow-up band"@)
}

pub open spec fn fo_prefix_count(fo: JsonValue) -> nat {
    match jarr(member(fo, "prefixes"@)) {
        Some(ps) => prefix_ok_count(ps, fo_charset(fo)),
        None => 0,
    }
}

fn check_prefixes(ps: &Vec<JsonValue>, cs: &str, errors: &mut Vec<String>) -> (n: usize)
    ensures
        msgs(final(errors)@) == msgs(old(errors)@) + prefix_errors(ps@, cs@),
        n == prefix_ok_count(ps@, cs@),
{
    let mut n: usize = 0;
    let mut i: usize = 0;
    while i < ps.len()
        invariant
            i <= ps@.len(),
            n == prefix_ok_count(ps@.subrange(0, i as int), cs@),
            n <= i,
            msgs(errors@) == msgs(old(errors)@) + prefix_errors(ps@.subrange(0, i as int), cs@),
        decreases ps@.len() - i,
    {
        let s = match as_str(Some(&ps[i])) {
            Some(t) => t,
            None => "",
        };
        proof {
            reveal_strlit("");
            let q = ps@.subrange(0, i as int + 1);
            assert(q.drop_last() =~= ps@.subrange(0, i as int));
            assert(q.last() == ps@[i as int]);
            assert(s@ == entry_text(ps@[i as int]));
        }
        if body_chars_in_charset(s, cs) {
            n = n + 1;
        } else {
            let mut m = String::new();
            push_str(&mut m, "foBody prefix ");
            push_decimal(&mut m, i as u64);
            push_str(&mut m, " not in charset");
            add_msg(errors, m);
        }
        i = i + 1;
        proof {
            assert(msgs(errors@) =~= msgs(old(errors)@) + prefix_errors(ps@.subrange(0, i as int), cs@));
        }
    }
    proof {
        assert(ps@.subrange(0, ps@.len() as int) =~= ps@);
    }
    n
}

pub(crate) fn check_body_lens(ls: &Vec<JsonValue>, band: FoBodyLenBand, head: &str, tail: &str, errors: &mut Vec<String>)
    ensures
        msgs(final(errors)@) == msgs(old(errors)@) + body_len_errors(ls@, band, head@, tail@),
{
    let mut i: usize = 0;
    while i < ls.len()
        invariant
            i <= ls@.len(),
            msgs(errors@) == msgs(old(errors)@) + body_len_errors(ls@.subrange(0, i as int), band, head@, tail@),
        decreases ls@.len() - i,
    {
        let len = unwrap_u64(as_u64(Some(&ls[i]))) as usize;
        proof {
            let q = ls@.subrange(0, i as int + 1);
            assert(q.drop_last() =~= ls@.subrange(0, i as int));
            assert(q.last() == ls@[i as int]);
        }
        if classify_fo_body_len(len) != band {
            let mut m = String::new();
            push_str(&mut m, head);
            push_decimal(&mut m, i as u64);
            push_str(&mut m, "]=");
            push_decimal(&mut m, len as u64);
            push_str(&mut m, tail);
            add_msg(errors, m);
        }
        i = i + 1;
        proof {
            assert(msgs(errors@) =~= msgs(old(errors)@) + body_len_errors(ls@.subrange(0, i as int), band, head@, tail@));
        }
    }
    proof {
        assert(ls@.subrange(0, ls@.len() as int) =~= ls@);
    }
}

/// Checks a `/fo/` body section; returns how many prefixes lie in its alphabet.
fn check_fo_body(fo: &JsonValue, errors: &mut Vec<String>) -> (n: usize)
    ensures
        msgs(final(errors)@) == msgs(old(errors)@) + fo_body_errors(*fo),
        n == fo_prefix_count(*fo),
{
    let cs = match as_str(fo.get("charset")) {
        Some(c) => c,
        None => CHARSET_BRANCH_B,
    };
    proof {
        assert(cs@ == fo_charset(*fo));
    }
    add_text_if(errors, !charset_is_well_formed(cs), "foBody.charset is not a 65-char custom alphabet");
    add_text_if(errors, !str_is(fo.get("compressorLiveName"), "f4"), "foBody.compressorLiveName should be f4");
    proof {
        assert(msgs(errors@) =~= msgs(old(errors)@) + (fo_charset_errors(*fo) + fo_name_errors(*fo)));
    }
    let ghost e2 = msgs(errors@);
    let mut n: usize = 0;
    match as_array(fo.get("prefixes")) {
        Some(ps) => {
            n = check_prefixes(ps, cs, errors);
        },
        None => {},
    }
    proof {
        assert(msgs(errors@) =~= e2 + fo_prefix_part(*fo));
        assert(msgs(errors@) =~= msgs(old(errors)@) + (fo_charset_errors(*fo) + fo_name_errors(*fo) + fo_prefix_part(*fo)));
    }
    let ghost e3 = msgs(errors@);
    match as_array(fo.get("initLens")) {
        Some(ls) => check_body_lens(ls, FoBodyLenBand::Init, "foBody initLens[", " not in init band", errors),
        None => {},
    }
    proof {
        assert(msgs(errors@) =~= e3 + fo_lens_part(*fo, "initLens"@, FoBodyLenBand::Init, "foBody initLens["@, " not in init band"@));
    }
    let ghost e4 = msgs(errors@);
    match as_array(fo.get("followUpLens")) {
        Some(ls) => check_body_lens(ls, FoBodyLenBand::FollowUp, "foBody followUpLens[", " not in follow-up band", errors),
        None => {},
    }
    proof {
        assert(msgs(errors@) =~= e4 + fo_lens_part(*fo, "followUpLens"@, FoBodyLenBand::FollowUp, "foBody followUpLens["@, " not in follow-up band"@));
        assert(msgs(errors@) =~= msgs(old(errors)@) + fo_body_errors(*fo));
    }
    n
}

/// The init-JSON facts of a fixture (`laterSameDay.foInitJson`, else `foInitJson`).
pub open spec fn fo_init_doc(v: JsonValue) -> Option<JsonValue> {
    jor(jget(member(v, "laterSameDay"@), "foInitJson"@), member(v, "foInitJson"@))
}

/// The string entries of an array, in order (others skipped).
pub open spec fn strings_of(a: Seq<JsonValue>) -> Seq<Seq<char>>
    decreases a.len(),
{
    if a.len() == 0 {
        seq![]
    } else {
        let prev = strings_of(a.drop_last());
        match jstr(Some(a.last())) {
            Some(s) => prev.push(s),
            None => prev,
        }
    }
}

/// The string entries of an array, in order.
pub(crate) fn strings_in(a: &Vec<JsonValue>) -> (r: Vec<String>)
    ensures
        msgs(r@) == strings_of(a@),
{
    let mut r: Vec<String> = Vec::new();
    let mut i: usize = 0;
    while i < a.len()
        invariant
            i <= a@.len(),
            msgs(r@) == strings_of(a@.subrange(0, i as int)),
        decreases a@.len() - i,
    {
        proof {
            let q = a@.subrange(0, i as int + 1);
            assert(q.drop_last() =~= a@.subrange(0, i as int));
            assert(q.last() == a@[i as int]);
        }
        match as_str(Some(&a[i])) {
            Some(s) => {
                let ghost before = r@;
                r.push(to_string(s));
                proof {
                    assert(msgs(r@) =~= msgs(before).push(s@));
                }
            },
            None => {},
        }
        i = i + 1;
    }
    proof {
        assert(a@.subrange(0, a@.len() as int) =~= a@);
    }
    r
}

/// The keys an init-JSON section lists match the branch-`b` snapshot.
pub open spec fn init_keys_match(keys: Seq<Seq<char>>) -> bool {
    keys.len() == INIT_JSON_KEYS_B@.len() && forall|i: int| 0 <= i < keys.len() ==> #[trigger] keys[i] == INIT_JSON_KEYS_B@[i]@
}

pub open spec fn fo_init_errors(init: JsonValue) -> Seq<Seq<char>> {
    (if ju64(member(init, "keyCount"@)) == Some(47u64) {
        seq![]
    } else {
        seq!["foInitJson.keyCount should be 47"@]
    }) + (if ju64(member(init, "setTimeoutDelayMs"@)) == Some(100u64) {
        seq![]
    } else {
        seq!["foInitJson.setTimeoutDelayMs should be 100"@]
    }) + match jarr(member(init, "keys"@)) {
        Some(ks) => if init_keys_match(strings_of(ks)) {
            seq![]
        } else {
            seq!["foInitJson.keys do not match branch-b snapshot"@]
        },
        None => seq![],
    }
}

pub open spec fn fo_init_keys_ok(init: JsonValue) -> bool {
    match jarr(member(init, "keys"@)) {
        Some(ks) => init_keys_match(strings_of(ks)),
        None => false,
    }
}

/// Checks an init-JSON section; returns whether its keys match the snapshot.
fn check_fo_init(init: &JsonValue, errors: &mut Vec<String>) -> (ok: bool)
    ensures
        msgs(final(errors)@) == msgs(old(errors)@) + fo_init_errors(*init),
        ok == fo_init_keys_ok(*init),
{
    let ghost e0 = msgs(errors@);
    if as_u64(init.get("keyCount")) != Some(47u64) {
        add_text(errors, "foInitJson.keyCount should be 47");
    }
    let ghost e1 = msgs(errors@);
    if as_u64(init.get("setTimeoutDelayMs")) != Some(100u64) {
        add_text(errors, "foInitJson.setTimeoutDelayMs should be 100");
    }
    let ghost e2 = msgs(errors@);
    let mut ok = false;
    match as_array(init.get("keys")) {
        Some(ks) => {
            let keys = strings_in(ks);
            let snap: &[&str] = &INIT_JSON_KEYS_B;
            if keys_match_snapshot(keys.as_slice(), snap) {
                ok = true;
                proof {
                    assert forall|i: int| 0 <= i < strings_of(ks@).len() implies #[trigger] strings_of(ks@)[i] == INIT_JSON_KEYS_B@[i]@ by {
                        assert(strings_of(ks@)[i] == keys@[i]@);
                    }
                }
            } else {
                proof {
                    if init_keys_match(strings_of(ks@)) {
                        assert forall|i: int| 0 <= i < keys@.len() implies #[trigger] keys@[i]@ == snap@[i]@ by {
                            assert(strings_of(ks@)[i] == keys@[i]@);
                        }
                    }
                }
                add_text(errors, "foInitJson.keys do not match branch-b snapshot");
            }
        },
        None => {},
    }
    proof {
        assert(msgs(errors@) =~= e0 + (e1.subrange(e0.len() as int, e1.len() as int)) + (e2.subrange(e1.len() as int, e2.len() as int))
            + (msgs(errors@).subrange(e2.len() as int, msgs(errors@).len() as int)));
        assert(msgs(errors@) =~= msgs(old(errors)@) + fo_init_errors(*init));
    }
    ok
}

/// The follow-up envelope and follow-up JSON messages of a later-same-day section.
pub open spec fn late_followup_errors(late: JsonValue) -> Seq<Seq<char>> {
    (match member(late, "foFollowUp"@) {
        Some(fu) => followup_errors(fu),
        None => seq![],
    }) + match member(late, "foFollowUpJson"@) {
        Some(fj) => followup_json_errors(fj),
        None => seq![],
    }
}

/// The messages for a fixture's later-same-day section, when it has one: its fetches are
/// checked against the snapshot its own constants name, else that mismatch is the one message.
pub open spec fn late_errors(v: JsonValue) -> Seq<Seq<char>> {
    match member(v, "laterSameDay"@) {
        Some(late) => match named_snapshot(fetch_doc(late)) {
            Some(lp) => fetch_errors(lp, late_rows(late), "laterSameDay fetch "@, false) + late_tables_errors(late)
                + late_followup_errors(late),
            None => seq!["laterSameDay fetch constants did not match FETCH_BRANCH_B_LATE"@],
        },
        None => seq![],
    }
}

fn check_late_followups(late: &JsonValue, errors: &mut Vec<String>)
    ensures
        msgs(final(errors)@) == msgs(old(errors)@) + late_followup_errors(*late),
{
    match late.get("foFollowUp") {
        Some(fu) => check_followup(fu, errors),
        None => {},
    }
    match late.get("foFollowUpJson") {
        Some(fj) => check_followup_json(fj, errors),
        None => {},
    }
    proof {
        assert(msgs(errors@) =~= msgs(old(errors)@) + late_followup_errors(*late));
    }
}

fn check_late(v: &JsonValue, errors: &mut Vec<String>)
    ensures
        msgs(final(errors)@) == msgs(old(errors)@) + late_errors(*v),
{
    match v.get("laterSameDay") {
        Some(late) => {
            let late_fetch = match late.get("fetch") {
                Some(f) => f,
                None => late,
            };
            match snapshot_of(late_fetch) {
                Some(lp) => {
                    let empty: Vec<JsonValue> = Vec::new();
                    let rows = match as_array(late.get("fetches")) {
                        Some(a) => a,
                        None => &empty,
                    };
                    check_fetch_rows(lp, rows, "laterSameDay fetch ", false, errors);
                    check_late_tables(late, errors);
                    check_late_followups(late, errors);
                },
                None => add_text(errors, "laterSameDay fetch constants did not match FETCH_BRANCH_B_LATE"),
            }
        },
        None => {},
    }
    proof {
        assert(msgs(errors@) =~= msgs(old(errors)@) + late_errors(*v));
    }
}

fn check_first_tag(v: &JsonValue, errors: &mut Vec<String>) -> (t: Option<u8>)
    ensures
        msgs(final(errors)@) == msgs(old(errors)@) + first_tag_errors(*v),
        t == first_tag(*v),
{
    let first_dn_tag = match as_u64(or_else_ref(v.get("firstDnTag"), v.get("first_dn_tag"))) {
        Some(n) => Some(n as u8),
        None => None,
    };
    match first_dn_tag {
        Some(tag) => {
            if tag != DN_TAG_STRING {
                let mut m = String::new();
                push_str(&mut m, "first dN tag ");
                push_decimal(&mut m, tag as u64);
                push_str(&mut m, ", expected string tag ");
                push_decimal(&mut m, DN_TAG_STRING as u64);
                push_str(&mut m, " for TX5omy48 magic");
                add_msg(errors, m);
            }
        },
        None => {},
    }
    proof {
        assert(msgs(errors@) =~= msgs(old(errors)@) + first_tag_errors(*v));
    }
    first_dn_tag
}

/// The `/fo/` body and init-JSON messages of a fixture.
pub open spec fn fo_section_errors(v: JsonValue) -> Seq<Seq<char>> {
    (match fo_body_doc(v) {
        Some(fo) => fo_body_errors(fo),
        None => seq![],
    }) + match fo_init_doc(v) {
        Some(i) => fo_init_errors(i),
        None => seq![],
    }
}

fn check_fo_sections(v: &JsonValue, errors: &mut Vec<String>) -> (r: (usize, bool))
    ensures
        msgs(final(errors)@) == msgs(old(errors)@) + fo_section_errors(*v),
        r.0 == match fo_body_doc(*v) {
            Some(fo) => fo_prefix_count(fo),
            None => 0,
        },
        r.1 == match fo_init_doc(*v) {
            Some(i) => fo_init_keys_ok(i),
            None => false,
        },
{
    let fo_body = or_else_ref(get_in(v.get("laterSameDay"), "foBody"), v.get("foBody"));
    let mut fo_prefix_ok: usize = 0;
    match fo_body {
        Some(fo) => {
            fo_prefix_ok = check_fo_body(fo, errors);
        },
        None => {},
    }
    let ghost e1 = msgs(errors@);
    let fo_init = or_else_ref(get_in(v.get("laterSameDay"), "foInitJson"), v.get("foInitJson"));
    let mut fo_init_keys_ok = false;
    match fo_init {
        Some(i) => {
            fo_init_keys_ok = check_fo_init(i, errors);
        },
        None => {},
    }
    proof {
        assert(e1 =~= msgs(old(errors)@) + match fo_body_doc(*v) {
            Some(fo) => fo_body_errors(fo),
            None => seq![],
        });
        assert(msgs(errors@) =~= msgs(old(errors)@) + fo_section_errors(*v));
    }
    (fo_prefix_ok, fo_init_keys_ok)
}

/// What checking a fixture reports.
pub struct OracleReport {
    /// No check failed.
    pub ok: bool,
    /// The schedule the recorded fetches were checked against.
    pub params_label: &'static str,
    pub fetch_count: usize,
    pub pc_delta_count: usize,
    /// Each recorded PC delta compared with the early-`b` layouts.
    pub widths: Vec<WidthObservation>,
    pub first_dn_tag: Option<u8>,
    /// One message per failed check, in the order the checks run.
    pub errors: Vec<String>,
    /// How many recorded `/fo/` body prefixes lie in the compressor alphabet.
    pub fo_prefix_ok: usize,
    /// The recorded init-JSON keys match the branch-`b` snapshot.
    pub fo_init_keys_ok: bool,
}

/// Every message a fixture yields: top-level fetches, the later-same-day section, the first
/// `dN` tag, the `/fo/` body section and the init-JSON section, in that order.
pub open spec fn oracle_errors(v: JsonValue) -> Seq<Seq<char>> {
    fetch_errors(oracle_params(v), top_rows(v), "fetch "@, true) + late_errors(v) + first_tag_errors(v)
        + fo_section_errors(v)
}

/// Checks a headed-Chrome oracle fixture against the crate's static findings.
pub fn verify_oracle_document(v: &JsonValue) -> (r: OracleReport)
    ensures
        msgs(r.errors@) == oracle_errors(*v),
        r.ok == (r.errors@.len() == 0),
        r.params_label == oracle_params(*v).label,
        r.fetch_count == top_rows(*v).len(),
        r.pc_delta_count == delta_rows(*v).len(),
        r.widths@.len() == delta_rows(*v).len(),
        forall|i: int|
            0 <= i < delta_rows(*v).len() ==> observes(
                #[trigger] r.widths@[i],
                delta_op(delta_rows(*v)[i]),
                delta_width(delta_rows(*v)[i]),
                spec_opcode_table_b(),
                spec_handler_layout_b(),
            ),
        r.first_dn_tag == first_tag(*v),
        r.fo_prefix_ok == match fo_body_doc(*v) {
            Some(fo) => fo_prefix_count(fo),
            None => 0,
        },
        r.fo_init_keys_ok == match fo_init_doc(*v) {
            Some(i) => fo_init_keys_ok(i),
            None => false,
        },
{
    let mut errors: Vec<String> = Vec::new();
    let fetch = match v.get("fetch") {
        Some(f) => f,
        None => v,
    };
    let params = match snapshot_of(fetch) {
        Some(p) => p,
        None => fetch_branch_b(),
    };
    let empty: Vec<JsonValue> = Vec::new();
    let fetches = match oracle_fetch_rows(v) {
        Some(a) => a,
        None => &empty,
    };
    check_fetch_rows(params, fetches, "fetch ", true, &mut errors);
    check_late(v, &mut errors);
    let no_deltas: Vec<JsonValue> = Vec::new();
    let deltas = match as_array(or_else_ref(v.get("pcDeltas"), v.get("pc_deltas"))) {
        Some(a) => a,
        None => &no_deltas,
    };
    let widths = classify_deltas(deltas);
    let first_dn_tag = check_first_tag(v, &mut errors);
    let (fo_prefix_ok, fo_init_keys_ok) = check_fo_sections(v, &mut errors);
    proof {
        assert(msgs(errors@) =~= oracle_errors(*v));
    }
    let ok = errors.len() == 0;
    OracleReport {
        ok,
        params_label: params.label,
        fetch_count: fetches.len(),
        pc_delta_count: deltas.len(),
        widths,
        first_dn_tag,
        errors,
        fo_prefix_ok,
        fo_init_keys_ok,
    }
}

// ---- case-label tuple rows ----

/// A row names its opcode (`op`, else `caseOp`) and its encoded byte.
pub open spec fn row_has_op_byte(f: JsonValue) -> bool {
    ju64(jor(member(f, "op"@), member(f, "caseOp"@))) is Some && ju64(member(f, "byte"@)) is Some
}

/// A row names the key its opcode was fetched with.
pub open spec fn row_has_fetch_key(f: JsonValue) -> bool {
    ju64(member(f, "key"@)) is Some
}

/// A row names the key after its opcode (`nextKey`, else `next_key`).
pub open spec fn row_has_next_key(f: JsonValue) -> bool {
    ju64(jor(member(f, "nextKey"@), member(f, "next_key"@))) is Some
}

/// The rows that name an opcode, a byte and (`fetch`) a fetch key or (not `fetch`) a next key.
pub open spec fn rows_with(s: Seq<JsonValue>, fetch: bool) -> Seq<JsonValue>
    decreases s.len(),
{
    if s.len() == 0 {
        seq![]
    } else {
        let prev = rows_with(s.drop_last(), fetch);
        let f = s.last();
        if row_has_op_byte(f) && (if fetch { row_has_fetch_key(f) } else { row_has_next_key(f) }) {
            prev.push(f)
        } else {
            prev
        }
    }
}

/// The values behind a list of references.
pub open spec fn derefs(s: Seq<&JsonValue>) -> Seq<JsonValue> {
    s.map_values(|r: &JsonValue| *r)
}

/// The tuple rows of a case-label fixture: the injected `{pc, op, key, byte}` rows of
/// `opcodeFetches` then `fetchLoopTuples`, when any has a fetch key; else the rows of
/// `fetchLoopTuples` then `opcodeFetches` that name a next key.
pub open spec fn tuple_rows(v: JsonValue) -> Seq<JsonValue> {
    let loop_rows = match jarr(member(v, "fetchLoopTuples"@)) {
        Some(a) => a,
        None => seq![],
    };
    let op_rows = match jarr(member(v, "opcodeFetches"@)) {
        Some(a) => a,
        None => seq![],
    };
    let complete = rows_with(op_rows + loop_rows, true);
    if complete.len() > 0 {
        complete
    } else {
        rows_with(loop_rows + op_rows, false)
    }
}

fn has_op_byte(f: &JsonValue) -> (r: bool)
    ensures
        r == row_has_op_byte(*f),
{
    as_u64(or_else_ref(f.get("op"), f.get("caseOp"))).is_some() && as_u64(f.get("byte")).is_some()
}

/// Appends the rows of `s` that pass, in order.
fn push_rows_with<'a>(out: &mut Vec<&'a JsonValue>, s: &'a Vec<JsonValue>, fetch: bool)
    ensures
        derefs(final(out)@) == derefs(old(out)@) + rows_with(s@, fetch),
{
    let mut i: usize = 0;
    while i < s.len()
        invariant
            i <= s@.len(),
            derefs(out@) == derefs(old(out)@) + rows_with(s@.subrange(0, i as int), fetch),
        decreases s@.len() - i,
    {
        let f = &s[i];
        proof {
            let q = s@.subrange(0, i as int + 1);
            assert(q.drop_last() =~= s@.subrange(0, i as int));
            assert(q.last() == s@[i as int]);
        }
        let keyed = if fetch {
            as_u64(f.get("key")).is_some()
        } else {
            as_u64(or_else_ref(f.get("nextKey"), f.get("next_key"))).is_some()
        };
        if has_op_byte(f) && keyed {
            let ghost before = out@;
            out.push(f);
            proof {
                assert(derefs(out@) =~= derefs(before).push(*f));
            }
        }
        i = i + 1;
        proof {
            assert(derefs(out@) =~= derefs(old(out)@) + rows_with(s@.subrange(0, i as int), fetch));
        }
    }
    proof {
        assert(s@.subrange(0, s@.len() as int) =~= s@);
    }
}

proof fn lemma_rows_with_concat(a: Seq<JsonValue>, b: Seq<JsonValue>, fetch: bool)
    ensures
        rows_with(a + b, fetch) == rows_with(a, fetch) + rows_with(b, fetch),
    decreases b.len(),
{
    if b.len() == 0 {
        assert(a + b =~= a);
        assert(rows_with(a, fetch) + rows_with(b, fetch) =~= rows_with(a, fetch));
    } else {
        assert((a + b).drop_last() =~= a + b.drop_last());
        lemma_rows_with_concat(a, b.drop_last(), fetch);
        assert((a + b).last() == b.last());
        assert(rows_with(a + b, fetch) =~= rows_with(a, fetch) + rows_with(b, fetch));
    }
}

/// The rows of an optional array.
pub open spec fn opt_rows(o: Option<&Vec<JsonValue>>) -> Seq<JsonValue> {
    match o {
        Some(a) => a@,
        None => seq![],
    }
}

fn push_rows_in<'a>(out: &mut Vec<&'a JsonValue>, o: Option<&'a Vec<JsonValue>>, fetch: bool)
    ensures
        derefs(final(out)@) == derefs(old(out)@) + rows_with(opt_rows(o), fetch),
{
    match o {
        Some(s) => push_rows_with(out, s, fetch),
        None => {
            proof {
                assert(derefs(out@) =~= derefs(old(out)@) + rows_with(opt_rows(o), fetch));
            }
        },
    }
}

/// Picks the tuple rows of a case-label fixture (see [`tuple_rows`]).
pub fn harvest_tuple_rows(v: &JsonValue) -> (r: Vec<&JsonValue>)
    ensures
        derefs(r@) == tuple_rows(*v),
{
    let loop_rows = as_array(v.get("fetchLoopTuples"));
    let op_rows = as_array(v.get("opcodeFetches"));
    proof {
        assert(opt_rows(loop_rows) == match jarr(member(*v, "fetchLoopTuples"@)) {
            Some(a) => a,
            None => seq![],
        });
        assert(opt_rows(op_rows) == match jarr(member(*v, "opcodeFetches"@)) {
            Some(a) => a,
            None => seq![],
        });
    }
    let mut complete: Vec<&JsonValue> = Vec::new();
    push_rows_in(&mut complete, op_rows, true);
    push_rows_in(&mut complete, loop_rows, true);
    proof {
        lemma_rows_with_concat(opt_rows(op_rows), opt_rows(loop_rows), true);
        assert(derefs(complete@) =~= rows_with(opt_rows(op_rows) + opt_rows(loop_rows), true));
    }
    if complete.len() > 0 {
        return complete;
    }
    let mut rows: Vec<&JsonValue> = Vec::new();
    push_rows_in(&mut rows, loop_rows, false);
    push_rows_in(&mut rows, op_rows, false);
    proof {
        lemma_rows_with_concat(opt_rows(loop_rows), opt_rows(op_rows), false);
        assert(derefs(rows@) =~= rows_with(opt_rows(loop_rows) + opt_rows(op_rows), false));
    }
    rows
}

/// The candidate schedule a case-label fixture spells in its `fetchSchedule`: all of
/// `keyMul`, `keyAdd`, `byteBias` and `initKeyCandidate` present, `keyMul` nonzero.
pub open spec fn html_candidate(v: JsonValue) -> Option<FetchParams> {
    match member(v, "fetchSchedule"@) {
        Some(fs) => {
            let mul = ju64(member(fs, "keyMul"@));
            let add = ju64(member(fs, "keyAdd"@));
            let bias = ju64(member(fs, "byteBias"@));
            let init = ju64(member(fs, "initKeyCandidate"@));
            if mul is Some && add is Some && bias is Some && init is Some && mul->0 as u32 != 0 {
                Some(
                    FetchParams {
                        label: "html-candidate",
                        init_pc: 0,
                        init_key: init->0 as u8,
                        byte_bias: bias->0 as u8,
                        key_mul: mul->0 as u32,
                        key_add: add->0 as u32,
                        key_quad_b: u64_or0(ju64(member(fs, "keyQuadB"@))) as u32,
                    },
                )
            } else {
                None
            }
        },
        None => None,
    }
}

/// The candidate schedule a case-label fixture spells (see [`html_candidate`]).
pub fn html_candidate_from_oracle(v: &JsonValue) -> (r: Option<FetchParams>)
    ensures
        r == html_candidate(*v),
{
    let fs = match v.get("fetchSchedule") {
        Some(f) => f,
        None => return None,
    };
    let mul = match as_u64(fs.get("keyMul")) {
        Some(n) => n as u32,
        None => return None,
    };
    let add = match as_u64(fs.get("keyAdd")) {
        Some(n) => n as u32,
        None => return None,
    };
    let bias = match as_u64(fs.get("byteBias")) {
        Some(n) => n as u8,
        None => return None,
    };
    let init = match as_u64(fs.get("initKeyCandidate")) {
        Some(n) => n as u8,
        None => return None,
    };
    let quad = unwrap_u64(as_u64(fs.get("keyQuadB"))) as u32;
    if mul == 0 {
        return None;
    }
    Some(FetchParams { label: "html-candidate", init_pc: 0, init_key: init, byte_bias: bias, key_mul: mul, key_add: add, key_quad_b: quad })
}

} // verus!

//! Checks of an oracle fixture's follow-up `/fo/` facts: the envelope that follows
//! `runProgram` and the JSON object it carries.
use vstd::prelude::*;
use crate::fmt::{decimal, push_decimal, push_str};
use crate::fo_blob::{debug_quote, debug_str};
use crate::fo_body::FoBodyLenBand;
use crate::fo_followup::{
    classify_fo_response_len, fo_response_len_band, live_fo_followup, live_run_program_return, FoResponseLenBand,
    BODY_ENCODER_LIVE_NAME, DEBUG_LOGGER_LIVE_NAME, SEND_HELPER_LIVE_NAME,
};
use crate::fo_followup_json::{
    borrowed_keys, classify_fo_plaintext, plaintext_kind, spec_extra_ident_html_b, spec_followup_field_write_b,
    FoPlaintextKind, EXTRA_IDENT_HTML_NAME, EXTRA_IDENT_HTML_WHERE, FIELD_WRITE_NAME, FIELD_WRITE_PATH,
    FIELD_WRITE_SOURCE, FOLLOWUP_COPIED_COUNT_B, FOLLOWUP_DROPPED_INIT_B, FOLLOWUP_EXTRA_IDENT_B,
    FOLLOWUP_LIVE_PACKED_PREFIX, FOLLOWUP_NUMERIC_SLOT_KEYCOUNT_MIN_B, FOLLOWUP_UNSEEN_EXTRA_IDENT_B,
};
use crate::fo_init_json::INIT_JSON_KEYS_B;
use crate::json::{as_array, as_u64, get_in, is_bool, jarr, jis_bool, jstr_is, ju64, member, str_is, JsonValue};
use crate::oracle::{
    add_msg, add_text, add_text_if, body_len_errors, check_body_lens, entry_len, error_if, indexed_errors, msgs, strings_in,
    strings_of, u64_or0, unwrap_u64,
};
use crate::oracle_late::min_nat;
use crate::text::{str_eq, to_string};

verus! {

/// One message per response length outside the follow-up ack band.
pub open spec fn resp_len_errors(ls: Seq<JsonValue>) -> Seq<Seq<char>>
    decreases ls.len(),
{
    if ls.len() == 0 {
        seq![]
    } else {
        let prev = resp_len_errors(ls.drop_last());
        let len = entry_len(ls.last());
        if fo_response_len_band(len as int) != FoResponseLenBand::FollowUpAck {
            prev.push("foFollowUp.chromeRespLens["@ + decimal((ls.len() - 1) as nat) + "]="@ + decimal(len as nat) + " not ack band"@)
        } else {
            prev
        }
    }
}

fn check_resp_lens(ls: &Vec<JsonValue>, errors: &mut Vec<String>)
    ensures
        msgs(final(errors)@) == msgs(old(errors)@) + resp_len_errors(ls@),
{
    let mut i: usize = 0;
    while i < ls.len()
        invariant
            i <= ls@.len(),
            msgs(errors@) == msgs(old(errors)@) + resp_len_errors(ls@.subrange(0, i as int)),
        decreases ls@.len() - i,
    {
        let len = unwrap_u64(as_u64(Some(&ls[i]))) as usize;
        proof {
            let q = ls@.subrange(0, i as int + 1);
            assert(q.drop_last() =~= ls@.subrange(0, i as int));
            assert(q.last() == ls@[i as int]);
        }
        if classify_fo_response_len(len) != FoResponseLenBand::FollowUpAck {
            let mut m = String::new();
            push_str(&mut m, "foFollowUp.chromeRespLens[");
            push_decimal(&mut m, i as u64);
            push_str(&mut m, "]=");
            push_decimal(&mut m, len as u64);
            push_str(&mut m, " not ack band");
            add_msg(errors, m);
        }
        i = i + 1;
        proof {
            assert(msgs(errors@) =~= msgs(old(errors)@) + resp_len_errors(ls@.subrange(0, i as int)));
        }
    }
    proof {
        assert(ls@.subrange(0, ls@.len() as int) =~= ls@);
    }
}

/// The fixed-value checks of a follow-up envelope section.
pub open spec fn followup_fact_errors(fu: JsonValue) -> Seq<Seq<char>> {
    error_if(
        !jstr_is(member(fu, "plaintextKind"@), "compressed_blob_after_runProgram"@),
        "foFollowUp.plaintextKind should be compressed_blob_after_runProgram"@,
    ) + error_if(!jis_bool(member(fu, "notPackedProgram"@), true), "foFollowUp.notPackedProgram should be true"@)
        + error_if(!jis_bool(member(fu, "sameNWrapper"@), true), "foFollowUp.sameNWrapper should be true"@)
        + error_if(!jstr_is(member(fu, "sendHelper"@), SEND_HELPER_LIVE_NAME@), "foFollowUp.sendHelper should be fj"@)
        + error_if(!jstr_is(member(fu, "debugLogger"@), DEBUG_LOGGER_LIVE_NAME@), "foFollowUp.debugLogger should be fz"@)
        + error_if(!jstr_is(member(fu, "bodyEncoder"@), BODY_ENCODER_LIVE_NAME@), "foFollowUp.bodyEncoder should be f3"@)
        + error_if(!jstr_is(member(fu, "invokeIfFn"@), "fn(initObj, fj)"@), "foFollowUp.invokeIfFn mismatch"@)
}

/// The messages for a follow-up envelope section.
pub open spec fn followup_errors(fu: JsonValue) -> Seq<Seq<char>> {
    followup_fact_errors(fu) + match jarr(member(fu, "chromeLens"@)) {
        Some(ls) => body_len_errors(ls, FoBodyLenBand::FollowUp, "foFollowUp.chromeLens["@, " not follow-up band"@),
        None => seq![],
    } + match jarr(member(fu, "chromeRespLens"@)) {
        Some(ls) => resp_len_errors(ls),
        None => seq![],
    }
}

fn check_followup_facts(fu: &JsonValue, errors: &mut Vec<String>)
    ensures
        msgs(final(errors)@) == msgs(old(errors)@) + followup_fact_errors(*fu),
{
    add_text_if(errors, !str_is(fu.get("plaintextKind"), "compressed_blob_after_runProgram"), "foFollowUp.plaintextKind should be compressed_blob_after_runProgram");
    add_text_if(errors, !is_bool(fu.get("notPackedProgram"), true), "foFollowUp.notPackedProgram should be true");
    add_text_if(errors, !is_bool(fu.get("sameNWrapper"), true), "foFollowUp.sameNWrapper should be true");
    add_text_if(errors, !str_is(fu.get("sendHelper"), SEND_HELPER_LIVE_NAME), "foFollowUp.sendHelper should be fj");
    add_text_if(errors, !str_is(fu.get("debugLogger"), DEBUG_LOGGER_LIVE_NAME), "foFollowUp.debugLogger should be fz");
    add_text_if(errors, !str_is(fu.get("bodyEncoder"), BODY_ENCODER_LIVE_NAME), "foFollowUp.bodyEncoder should be f3");
    add_text_if(errors, !str_is(fu.get("invokeIfFn"), live_run_program_return().invoke_if_fn), "foFollowUp.invokeIfFn mismatch");
    if !str_eq(live_fo_followup().send_helper, SEND_HELPER_LIVE_NAME) {
        add_text(errors, "LIVE_FO_FOLLOWUP.send_helper should match SEND_HELPER_LIVE_NAME");
    }
    proof {
        assert(msgs(errors@) =~= msgs(old(errors)@) + followup_fact_errors(*fu));
    }
}

pub(crate) fn check_followup(fu: &JsonValue, errors: &mut Vec<String>)
    ensures
        msgs(final(errors)@) == msgs(old(errors)@) + followup_errors(*fu),
{
    check_followup_facts(fu, errors);
    match as_array(fu.get("chromeLens")) {
        Some(ls) => check_body_lens(ls, FoBodyLenBand::FollowUp, "foFollowUp.chromeLens[", " not follow-up band", errors),
        None => {},
    }
    match as_array(fu.get("chromeRespLens")) {
        Some(ls) => check_resp_lens(ls, errors),
        None => {},
    }
    proof {
        assert(msgs(errors@) =~= msgs(old(errors)@) + followup_errors(*fu));
    }
}

// ---- the follow-up JSON section ----

/// `{:?}` of a list of strings, without the brackets.
pub open spec fn debug_items(s: Seq<Seq<char>>) -> Seq<char>
    decreases s.len(),
{
    if s.len() == 0 {
        seq![]
    } else if s.len() == 1 {
        debug_str(s[0])
    } else {
        debug_items(s.drop_last()) + ", "@ + debug_str(s.last())
    }
}

/// `{:?}` of a list of strings.
pub open spec fn debug_list(s: Seq<Seq<char>>) -> Seq<char> {
    "["@ + debug_items(s) + "]"@
}

fn push_debug_list(m: &mut String, items: &Vec<String>)
    ensures
        final(m)@ == old(m)@ + debug_list(msgs(items@)),
{
    push_str(m, "[");
    let mut i: usize = 0;
    while i < items.len()
        invariant
            i <= items@.len(),
            m@ == old(m)@ + "["@ + debug_items(msgs(items@).subrange(0, i as int)),
        decreases items@.len() - i,
    {
        let ghost before = m@;
        if i > 0 {
            push_str(m, ", ");
        }
        let q = debug_quote(items[i].as_str());
        push_str(m, q.as_str());
        proof {
            let s = msgs(items@).subrange(0, i as int + 1);
            assert(s.drop_last() =~= msgs(items@).subrange(0, i as int));
            assert(s.last() == items@[i as int]@);
            if i == 0 {
                assert(s.len() == 1);
                assert(debug_items(msgs(items@).subrange(0, 0)) =~= Seq::<char>::empty());
            }
        }
        i = i + 1;
        proof {
            assert(m@ =~= old(m)@ + "["@ + debug_items(msgs(items@).subrange(0, i as int)));
        }
    }
    push_str(m, "]");
    proof {
        assert(msgs(items@).subrange(0, items@.len() as int) =~= msgs(items@));
        assert(m@ =~= old(m)@ + debug_list(msgs(items@)));
    }
}

/// The texts of a constant list, as owned strings.
fn owned_texts(a: &[&str]) -> (r: Vec<String>)
    ensures
        msgs(r@) == borrowed_keys(a@),
{
    let mut r: Vec<String> = Vec::new();
    let mut i: usize = 0;
    while i < a.len()
        invariant
            i <= a@.len(),
            msgs(r@) == borrowed_keys(a@.subrange(0, i as int)),
        decreases a@.len() - i,
    {
        let ghost before = r@;
        let t = to_string(a[i]);
        r.push(t);
        proof {
            assert(msgs(r@) =~= msgs(before).push(a@[i as int]@));
            assert(borrowed_keys(a@.subrange(0, i as int + 1)) =~= borrowed_keys(a@.subrange(0, i as int)).push(a@[i as int]@));
        }
        i = i + 1;
    }
    proof {
        assert(a@.subrange(0, a@.len() as int) =~= a@);
    }
    r
}

/// The strings equal the constant list, in order.
fn same_texts(got: &Vec<String>, want: &[&str]) -> (r: bool)
    ensures
        r == (msgs(got@) == borrowed_keys(want@)),
{
    if got.len() != want.len() {
        proof {
            assert(msgs(got@).len() != borrowed_keys(want@).len());
        }
        return false;
    }
    let mut i: usize = 0;
    while i < got.len()
        invariant
            i <= got@.len(),
            got@.len() == want@.len(),
            forall|k: int| 0 <= k < i ==> #[trigger] got@[k]@ == want@[k]@,
        decreases got@.len() - i,
    {
        if !str_eq(got[i].as_str(), want[i]) {
            proof {
                assert(msgs(got@)[i as int] != borrowed_keys(want@)[i as int]);
            }
            return false;
        }
        i = i + 1;
    }
    proof {
        assert(msgs(got@) =~= borrowed_keys(want@));
    }
    true
}

/// `field=<got> expected <want>` when the listed names differ from the constant list.
pub open spec fn list_errors(o: Option<Seq<JsonValue>>, want: Seq<Seq<char>>, head: Seq<char>) -> Seq<Seq<char>> {
    match o {
        Some(a) => error_if(strings_of(a) != want, head + debug_list(strings_of(a)) + " expected "@ + debug_list(want)),
        None => seq![],
    }
}

fn check_list(o: Option<&Vec<JsonValue>>, want: &[&str], head: &str, errors: &mut Vec<String>)
    ensures
        msgs(final(errors)@) == msgs(old(errors)@) + list_errors(
            match o {
                Some(a) => Some(a@),
                None => None,
            },
            borrowed_keys(want@),
            head@,
        ),
{
    proof {
        reveal(error_if);
    }
    match o {
        Some(a) => {
            let got = strings_in(a);
            if !same_texts(&got, want) {
                let expected = owned_texts(want);
                let mut m = String::new();
                push_str(&mut m, head);
                push_debug_list(&mut m, &got);
                push_str(&mut m, " expected ");
                push_debug_list(&mut m, &expected);
                add_msg(errors, m);
            }
        },
        None => {},
    }
}

pub open spec fn html_bad(p: Seq<JsonValue>) -> spec_fn(int) -> bool {
    |k: int|
        !jstr_is(member(p[k], "name"@), spec_extra_ident_html_b()[k].name@) || !jstr_is(
            member(p[k], "html"@),
            spec_extra_ident_html_b()[k].html@,
        )
}

pub open spec fn html_msg() -> spec_fn(int) -> Seq<char> {
    |k: int| "foFollowUpJson.extraIdentHtml."@ + spec_extra_ident_html_b()[k].name@ + " mismatch"@
}

pub open spec fn html_section_errors(fj: JsonValue) -> Seq<Seq<char>> {
    match jarr(member(fj, "extraIdentHtml"@)) {
        Some(p) => error_if(p.len() != 14, "foFollowUpJson.extraIdentHtml length mismatch"@)
            + indexed_errors(min_nat(14, p.len()), html_bad(p), html_msg()),
        None => seq![],
    }
}

fn check_html_sources(p: &Vec<JsonValue>, errors: &mut Vec<String>)
    ensures
        msgs(final(errors)@) == msgs(old(errors)@) + error_if(p@.len() != 14, "foFollowUpJson.extraIdentHtml length mismatch"@)
            + indexed_errors(min_nat(14, p@.len()), html_bad(p@), html_msg()),
{
    add_text_if(errors, p.len() != 14, "foFollowUpJson.extraIdentHtml length mismatch");
    let ghost e1 = msgs(errors@);
    let n: usize = if p.len() < 14 { p.len() } else { 14 };
    let mut k: usize = 0;
    while k < n
        invariant
            k <= n,
            n == min_nat(14, p@.len()),
            msgs(errors@) == e1 + indexed_errors(k as nat, html_bad(p@), html_msg()),
        decreases n - k,
    {
        let row = Some(&p[k]);
        let bad = !str_is(get_in(row, "name"), EXTRA_IDENT_HTML_NAME[k]) || !str_is(get_in(row, "html"), EXTRA_IDENT_HTML_WHERE[k]);
        proof {
            assert(bad == html_bad(p@)(k as int));
        }
        if bad {
            let mut m = String::new();
            push_str(&mut m, "foFollowUpJson.extraIdentHtml.");
            push_str(&mut m, EXTRA_IDENT_HTML_NAME[k]);
            push_str(&mut m, " mismatch");
            proof {
                assert(m@ == html_msg()(k as int));
            }
            add_msg(errors, m);
        }
        k = k + 1;
        proof {
            assert(msgs(errors@) =~= e1 + indexed_errors(k as nat, html_bad(p@), html_msg()));
        }
    }
}

pub open spec fn write_bad(p: Seq<JsonValue>) -> spec_fn(int) -> bool {
    |k: int|
        !jstr_is(member(p[k], "name"@), spec_followup_field_write_b()[k].name@) || !jstr_is(
            member(p[k], "source"@),
            spec_followup_field_write_b()[k].source@,
        ) || !jstr_is(member(p[k], "writePath"@), spec_followup_field_write_b()[k].write_path@)
}

pub open spec fn write_msg() -> spec_fn(int) -> Seq<char> {
    |k: int| "foFollowUpJson.writes."@ + spec_followup_field_write_b()[k].name@ + " mismatch"@
}

pub open spec fn write_section_errors(fj: JsonValue) -> Seq<Seq<char>> {
    match jarr(member(fj, "writes"@)) {
        Some(p) => error_if(p.len() != 16, "foFollowUpJson.writes length mismatch"@)
            + indexed_errors(min_nat(16, p.len()), write_bad(p), write_msg()),
        None => seq![],
    }
}

fn check_writes(p: &Vec<JsonValue>, errors: &mut Vec<String>)
    ensures
        msgs(final(errors)@) == msgs(old(errors)@) + error_if(p@.len() != 16, "foFollowUpJson.writes length mismatch"@)
            + indexed_errors(min_nat(16, p@.len()), write_bad(p@), write_msg()),
{
    add_text_if(errors, p.len() != 16, "foFollowUpJson.writes length mismatch");
    let ghost e1 = msgs(errors@);
    let n: usize = if p.len() < 16 { p.len() } else { 16 };
    let mut k: usize = 0;
    while k < n
        invariant
            k <= n,
            n == min_nat(16, p@.len()),
            msgs(errors@) == e1 + indexed_errors(k as nat, write_bad(p@), write_msg()),
        decreases n - k,
    {
        let row = Some(&p[k]);
        let bad = !str_is(get_in(row, "name"), FIELD_WRITE_NAME[k]) || !str_is(get_in(row, "source"), FIELD_WRITE_SOURCE[k])
            || !str_is(get_in(row, "writePath"), FIELD_WRITE_PATH[k]);
        proof {
            assert(bad == write_bad(p@)(k as int));
        }
        if bad {
            let mut m = String::new();
            push_str(&mut m, "foFollowUpJson.writes.");
            push_str(&mut m, FIELD_WRITE_NAME[k]);
            push_str(&mut m, " mismatch");
            proof {
                assert(m@ == write_msg()(k as int));
            }
            add_msg(errors, m);
        }
        k = k + 1;
        proof {
            assert(msgs(errors@) =~= e1 + indexed_errors(k as nat, write_bad(p@), write_msg()));
        }
    }
}

pub open spec fn copied_count_errors(fj: JsonValue) -> Seq<Seq<char>> {
    match ju64(member(fj, "copiedCount"@)) {
        Some(n) => error_if(
            n != FOLLOWUP_COPIED_COUNT_B as u64,
            "foFollowUpJson.copiedCount="@ + decimal(n as nat) + " expected "@ + decimal(FOLLOWUP_COPIED_COUNT_B as nat),
        ),
        None => seq![],
    }
}

/// The first half of the follow-up JSON checks: copy flags, counts, name lists, sources, writes.
pub open spec fn followup_json_errors_a(fj: JsonValue) -> Seq<Seq<char>> {
    error_if(!jis_bool(member(fj, "copiedFromInit"@), true), "foFollowUpJson.copiedFromInit should be true"@)
        + error_if(!jis_bool(member(fj, "numericVmEntries"@), true), "foFollowUpJson.numericVmEntries should be true"@)
        + copied_count_errors(fj)
        + list_errors(jarr(member(fj, "extraIdent"@)), borrowed_keys(FOLLOWUP_EXTRA_IDENT_B@), "foFollowUpJson.extraIdent="@)
        + list_errors(jarr(member(fj, "droppedInit"@)), borrowed_keys(FOLLOWUP_DROPPED_INIT_B@), "foFollowUpJson.droppedInit="@)
        + html_section_errors(fj)
        + error_if(jis_bool(member(fj, "numericKeysInHtml"@), true), "foFollowUpJson.numericKeysInHtml should be false"@)
        + write_section_errors(fj)
}

pub open spec fn harvest_errors(fj: JsonValue) -> Seq<Seq<char>> {
    match member(fj, "inlinePackedHarvest"@) {
        Some(hv) => error_if(!jis_bool(member(hv, "extraIdentInStub"@), false), "inlinePackedHarvest.extraIdentInStub should be false"@)
            + error_if(
            jstr_is(member(hv, "stopped"@), "unparsed_op_177_XU"@),
            "inlinePackedHarvest.stopped should not be unparsed_op_177_XU (XU immediates are skipped without apply)"@,
        ),
        None => seq![],
    }
}

pub open spec fn slot_errors(fj: JsonValue) -> Seq<Seq<char>> {
    if jstr_is(member(fj, "numericSlotKind"@), "object"@) {
        error_if(
            ju64(member(fj, "numericSlotKeyCountMin"@)) != Some(FOLLOWUP_NUMERIC_SLOT_KEYCOUNT_MIN_B as u64),
            "foFollowUpJson.numericSlotKeyCountMin mismatch"@,
        )
    } else {
        seq![]
    }
}

pub open spec fn leftover_errors(fj: JsonValue) -> Seq<Seq<char>> {
    match member(fj, "leftoverProbe"@) {
        Some(lp) => error_if(jis_bool(member(lp, "opcodeRecovered"@), true), "leftoverProbe.opcodeRecovered should be false"@)
            + match jarr(member(lp, "unseenNames"@)) {
            Some(a) => error_if(strings_of(a) != borrowed_keys(FOLLOWUP_UNSEEN_EXTRA_IDENT_B@), "leftoverProbe.unseenNames mismatch"@),
            None => seq![],
        },
        None => seq![],
    }
}

pub open spec fn packed_harvest_errors(fj: JsonValue) -> Seq<Seq<char>> {
    match member(fj, "packedHarvest"@) {
        Some(ph) => error_if(!jis_bool(member(ph, "recaptured"@), true), "packedHarvest.recaptured should be true"@)
            + error_if(!jis_bool(member(ph, "fetchLiveUnchanged"@), true), "packedHarvest.fetchLiveUnchanged should be true"@)
            + error_if(!jstr_is(member(ph, "packedPrefix"@), FOLLOWUP_LIVE_PACKED_PREFIX@), "packedHarvest.packedPrefix mismatch"@)
            + error_if(
            match jarr(member(ph, "unseenIdentHits"@)) {
                Some(a) => a.len() != 0,
                None => true,
            },
            "packedHarvest.unseenIdentHits should be empty"@,
        ),
        None => seq![],
    }
}

/// The numeric-key count a follow-up JSON section states (`0` when absent).
pub open spec fn numeric_count(fj: JsonValue) -> usize {
    u64_or0(ju64(member(fj, "numericKeyCount"@))) as usize
}

pub open spec fn ident_key_errors(fj: JsonValue) -> Seq<Seq<char>> {
    match jarr(member(fj, "identKeys"@)) {
        Some(a) => error_if(
            strings_of(a).len() >= 40 && plaintext_kind(strings_of(a), numeric_count(fj) as int, borrowed_keys(INIT_JSON_KEYS_B@))
                != FoPlaintextKind::FollowUp,
            "foFollowUpJson.identKeys did not classify as follow-up"@,
        ),
        None => seq![],
    }
}

/// The second half of the follow-up JSON checks: harvest notes, slots, probes, ident keys.
pub open spec fn followup_json_errors_b(fj: JsonValue) -> Seq<Seq<char>> {
    harvest_errors(fj) + slot_errors(fj) + leftover_errors(fj) + packed_harvest_errors(fj) + ident_key_errors(fj)
}

/// The messages for a follow-up JSON section.
pub open spec fn followup_json_errors(fj: JsonValue) -> Seq<Seq<char>> {
    followup_json_errors_a(fj) + followup_json_errors_b(fj)
}

fn check_copied_count(fj: &JsonValue, errors: &mut Vec<String>)
    ensures
        msgs(final(errors)@) == msgs(old(errors)@) + copied_count_errors(*fj),
{
    proof {
        reveal(error_if);
    }
    match as_u64(fj.get("copiedCount")) {
        Some(n) => {
            if n != FOLLOWUP_COPIED_COUNT_B as u64 {
                let mut m = String::new();
                push_str(&mut m, "foFollowUpJson.copiedCount=");
                push_decimal(&mut m, n);
                push_str(&mut m, " expected ");
                push_decimal(&mut m, FOLLOWUP_COPIED_COUNT_B as u64);
                add_msg(errors, m);
            }
        },
        None => {},
    }
    proof {
        assert(msgs(errors@) =~= msgs(old(errors)@) + copied_count_errors(*fj));
    }
}

fn check_html_section(fj: &JsonValue, errors: &mut Vec<String>)
    ensures
        msgs(final(errors)@) == msgs(old(errors)@) + html_section_errors(*fj),
{
    match as_array(fj.get("extraIdentHtml")) {
        Some(p) => check_html_sources(p, errors),
        None => {},
    }
    proof {
        assert(msgs(errors@) =~= msgs(old(errors)@) + html_section_errors(*fj));
    }
}

fn check_write_section(fj: &JsonValue, errors: &mut Vec<String>)
    ensures
        msgs(final(errors)@) == msgs(old(errors)@) + write_section_errors(*fj),
{
    match as_array(fj.get("writes")) {
        Some(p) => check_writes(p, errors),
        None => {},
    }
    proof {
        assert(msgs(errors@) =~= msgs(old(errors)@) + write_section_errors(*fj));
    }
}

fn check_followup_json_a(fj: &JsonValue, errors: &mut Vec<String>)
    ensures
        msgs(final(errors)@) == msgs(old(errors)@) + followup_json_errors_a(*fj),
{
    add_text_if(errors, !is_bool(fj.get("copiedFromInit"), true), "foFollowUpJson.copiedFromInit should be true");
    add_text_if(errors, !is_bool(fj.get("numericVmEntries"), true), "foFollowUpJson.numericVmEntries should be true");
    check_copied_count(fj, errors);
    let extra: &[&str] = &FOLLOWUP_EXTRA_IDENT_B;
    check_list(as_array(fj.get("extraIdent")), extra, "foFollowUpJson.extraIdent=", errors);
    let dropped: &[&str] = &FOLLOWUP_DROPPED_INIT_B;
    check_list(as_array(fj.get("droppedInit")), dropped, "foFollowUpJson.droppedInit=", errors);
    check_html_section(fj, errors);
    add_text_if(errors, is_bool(fj.get("numericKeysInHtml"), true), "foFollowUpJson.numericKeysInHtml should be false");
    check_write_section(fj, errors);
    proof {
        assert(msgs(errors@) =~= msgs(old(errors)@) + followup_json_errors_a(*fj));
    }
}

fn check_harvest(fj: &JsonValue, errors: &mut Vec<String>)
    ensures
        msgs(final(errors)@) == msgs(old(errors)@) + harvest_errors(*fj),
{
    match fj.get("inlinePackedHarvest") {
        Some(hv) => {
            add_text_if(errors, !is_bool(hv.get("extraIdentInStub"), false), "inlinePackedHarvest.extraIdentInStub should be false");
            add_text_if(errors, str_is(hv.get("stopped"), "unparsed_op_177_XU"), "inlinePackedHarvest.stopped should not be unparsed_op_177_XU (XU immediates are skipped without apply)");
        },
        None => {},
    }
    proof {
        assert(msgs(errors@) =~= msgs(old(errors)@) + harvest_errors(*fj));
    }
}

fn check_slot(fj: &JsonValue, errors: &mut Vec<String>)
    ensures
        msgs(final(errors)@) == msgs(old(errors)@) + slot_errors(*fj),
{
    if str_is(fj.get("numericSlotKind"), "object") {
        add_text_if(errors, as_u64(fj.get("numericSlotKeyCountMin")) != Some(FOLLOWUP_NUMERIC_SLOT_KEYCOUNT_MIN_B as u64), "foFollowUpJson.numericSlotKeyCountMin mismatch");
    }
    proof {
        assert(msgs(errors@) =~= msgs(old(errors)@) + slot_errors(*fj));
    }
}

fn check_leftover(fj: &JsonValue, errors: &mut Vec<String>)
    ensures
        msgs(final(errors)@) == msgs(old(errors)@) + leftover_errors(*fj),
{
    match fj.get("leftoverProbe") {
        Some(lp) => {
            add_text_if(errors, is_bool(lp.get("opcodeRecovered"), true), "leftoverProbe.opcodeRecovered should be false");
            let ghost e1 = msgs(errors@);
            match as_array(lp.get("unseenNames")) {
                Some(a) => {
                    let got = strings_in(a);
                    let unseen: &[&str] = &FOLLOWUP_UNSEEN_EXTRA_IDENT_B;
                    add_text_if(errors, !same_texts(&got, unseen), "leftoverProbe.unseenNames mismatch");
                },
                None => {},
            }
            proof {
                assert(msgs(errors@) =~= e1 + match jarr(member(*lp, "unseenNames"@)) {
                    Some(a) => error_if(strings_of(a) != borrowed_keys(FOLLOWUP_UNSEEN_EXTRA_IDENT_B@), "leftoverProbe.unseenNames mismatch"@),
                    None => seq![],
                });
            }
        },
        None => {},
    }
    proof {
        assert(msgs(errors@) =~= msgs(old(errors)@) + leftover_errors(*fj));
    }
}

fn check_packed_harvest(fj: &JsonValue, errors: &mut Vec<String>)
    ensures
        msgs(final(errors)@) == msgs(old(errors)@) + packed_harvest_errors(*fj),
{
    match fj.get("packedHarvest") {
        Some(ph) => {
            add_text_if(errors, !is_bool(ph.get("recaptured"), true), "packedHarvest.recaptured should be true");
            add_text_if(errors, !is_bool(ph.get("fetchLiveUnchanged"), true), "packedHarvest.fetchLiveUnchanged should be true");
            add_text_if(errors, !str_is(ph.get("packedPrefix"), FOLLOWUP_LIVE_PACKED_PREFIX), "packedHarvest.packedPrefix mismatch");
            let empty = match as_array(ph.get("unseenIdentHits")) {
                Some(a) => a.len() == 0,
                None => false,
            };
            add_text_if(errors, !empty, "packedHarvest.unseenIdentHits should be empty");
        },
        None => {},
    }
    proof {
        assert(msgs(errors@) =~= msgs(old(errors)@) + packed_harvest_errors(*fj));
    }
}

fn check_ident_keys(fj: &JsonValue, errors: &mut Vec<String>)
    ensures
        msgs(final(errors)@) == msgs(old(errors)@) + ident_key_errors(*fj),
{
    proof {
        reveal(error_if);
    }
    match as_array(fj.get("identKeys")) {
        Some(a) => {
            let names = strings_in(a);
            #[verifier::truncate]
            let numeric = unwrap_u64(as_u64(fj.get("numericKeyCount"))) as usize;
            if names.len() >= 40 {
                let init: &[&str] = &INIT_JSON_KEYS_B;
                let kind = classify_fo_plaintext(names.as_slice(), numeric, init);
                proof {
                    assert(crate::fo_followup_json::owned_keys(names@) =~= msgs(names@));
                }
                if kind != FoPlaintextKind::FollowUp {
                    add_text(errors, "foFollowUpJson.identKeys did not classify as follow-up");
                }
            }
        },
        None => {},
    }
    proof {
        assert(msgs(errors@) =~= msgs(old(errors)@) + ident_key_errors(*fj));
    }
}

fn check_followup_json_b(fj: &JsonValue, errors: &mut Vec<String>)
    ensures
        msgs(final(errors)@) == msgs(old(errors)@) + followup_json_errors_b(*fj),
{
    check_harvest(fj, errors);
    check_slot(fj, errors);
    check_leftover(fj, errors);
    check_packed_harvest(fj, errors);
    check_ident_keys(fj, errors);
    proof {
        assert(msgs(errors@) =~= msgs(old(errors)@) + followup_json_errors_b(*fj));
    }
}

/// Checks a follow-up JSON section.
pub(crate) fn check_followup_json(fj: &JsonValue, errors: &mut Vec<String>)
    ensures
        msgs(final(errors)@) == msgs(old(errors)@) + followup_json_errors(*fj),
{
    check_followup_json_a(fj, errors);
    check_followup_json_b(fj, errors);
    proof {
        assert(msgs(errors@) =~= msgs(old(errors)@) + followup_json_errors(*fj));
    }
}

} // verus!

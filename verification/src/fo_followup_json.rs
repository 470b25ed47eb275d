//! Second `/fo/` POST plaintext field set: which init keys are copied, which
//! are dropped, which extra identifiers and numeric slots the VM adds, and how
//! each follow-up field is written.
use vstd::prelude::*;
use vstd::string::StringSliceAdditionalSpecFns;
use crate::fo_init_json::INIT_JSON_KEY_COUNT;
use crate::text::str_eq;

verus! {

/// Remaining live gap after the follow-up field-set names are snapshotted.
pub const NEXT_AFTER_FOLLOWUP_JSON: &'static str = "handler_semantics";

/// Historical crate inserted VM entries under `"1".."N"` (1-based).
pub const NUMERIC_KEYS_ARE_ONE_BASED: bool = true;

/// Init ident keys still present on the later follow-up object (branch `b`).
pub const FOLLOWUP_COPIED_COUNT_B: usize = 46;

/// Init ident dropped before the numeric follow-up (branch `b`).
pub const FOLLOWUP_DROPPED_INIT_B: [&'static str; 1] = [
    "MaOkK2",
];

/// Extra ident names on the later follow-up object (branch `b`).
pub const FOLLOWUP_EXTRA_IDENT_B: [&'static str; 14] = [
    "SMrTl9",
    "OQbM0",
    "xBCsP4",
    "UjLjP6",
    "YfDjo7",
    "Iqrc9",
    "OZgbm6",
    "pFyv1",
    "SfUI1",
    "sqKXG6",
    "HUDi4",
    "DTBF3",
    "mQiic7",
    "gNcr3",
];

/// Extra ident whose live kinds were `function` or `undefined` (JSON.stringify omits).
pub const FOLLOWUP_EXTRA_IDENT_OMITTED_BY_JSON_B: [&'static str; 5] = [
    "OQbM0",
    "UjLjP6",
    "YfDjo7",
    "Iqrc9",
    "OZgbm6",
];

/// Last numeric follow-up snapshot (`"1"`..`"39"`). An earlier one stopped at 38.
pub const FOLLOWUP_NUMERIC_KEY_MIN_B: u32 = 1;

pub const FOLLOWUP_NUMERIC_KEY_MAX_B: u32 = 39;

/// Quoted `"1":` style keys are not in the iframe HTML; numeric slots are runtime writes.
pub const FOLLOWUP_NUMERIC_KEYS_IN_HTML: bool = false;

/// Every `"1"`..`"39"` value is an object (entry), not a string or number.
pub const FOLLOWUP_NUMERIC_SLOT_KIND_B: &'static str = "object";

/// Own-key counts on those entry objects. Lengths only.
pub const FOLLOWUP_NUMERIC_SLOT_KEYCOUNT_MIN_B: u32 = 9;

pub const FOLLOWUP_NUMERIC_SLOT_KEYCOUNT_MAX_B: u32 = 32;

/// Extra ident still unseen in dumps after HTML, stub skip-harvest and live recapture.
pub const FOLLOWUP_UNSEEN_EXTRA_IDENT_B: [&'static str; 12] = [
    "OQbM0",
    "UjLjP6",
    "YfDjo7",
    "Iqrc9",
    "OZgbm6",
    "pFyv1",
    "SfUI1",
    "sqKXG6",
    "HUDi4",
    "DTBF3",
    "mQiic7",
    "gNcr3",
];

/// The write opcode of the leftover names was not recovered.
pub const FOLLOWUP_LEFTOVER_OPCODE_RECOVERED: bool = false;

/// A live `/fo/` packed body was recaptured (runtime `runProgram` argument).
pub const FOLLOWUP_LIVE_PACKED_RECAPTURED: bool = true;

/// First 20 chars of the live packed `runProgram` argument.
pub const FOLLOWUP_LIVE_PACKED_PREFIX: &'static str = "1oUjjpq4sauymkoqjx4C";

/// Init `/fo/` response length (packed-runProgram band).
pub const FOLLOWUP_LIVE_PACKED_RESP_LEN: usize = 846200;

/// Fetch multiplier of that recaptured program (not the live 56907 schedule).
pub const FOLLOWUP_LIVE_PACKED_FETCH_MUL: u32 = 23196;

/// The write path named by a Chrome leftover assignment opcode.
pub open spec fn write_path_for(opcode: Option<u8>) -> &'static str {
    match opcode {
        Some(177) => "host_xi",
        Some(226) => "bytecode_string",
        Some(227) | Some(169) | Some(138) => "property_set",
        _ => "unseen_in_dumps",
    }
}

/// Map a Chrome leftover assignment opcode to a write path; unknown stays unseen.
pub fn write_path_from_chrome_opcode(opcode: Option<u8>) -> (r: &'static str)
    ensures
        r == write_path_for(opcode),
{
    match opcode {
        Some(177) => "host_xi",
        Some(226) => "bytecode_string",
        Some(227) | Some(169) | Some(138) => "property_set",
        _ => "unseen_in_dumps",
    }
}

#[derive(Debug, Clone, Copy)]
pub struct ExtraIdentHtmlSource {
    pub name: &'static str,
    /// `chl_opt` / `other_object` / `string_table` / `absent`.
    pub html: &'static str,
    pub note: &'static str,
}

pub const EXTRA_IDENT_HTML_NAME: [&'static str; 14] = [
    "SMrTl9",
    "OQbM0",
    "xBCsP4",
    "UjLjP6",
    "YfDjo7",
    "Iqrc9",
    "OZgbm6",
    "pFyv1",
    "SfUI1",
    "sqKXG6",
    "HUDi4",
    "DTBF3",
    "mQiic7",
    "gNcr3",
];

pub const EXTRA_IDENT_HTML_WHERE: [&'static str; 14] = [
    "chl_opt",
    "absent",
    "chl_opt",
    "absent",
    "absent",
    "absent",
    "absent",
    "absent",
    "absent",
    "other_object",
    "absent",
    "absent",
    "string_table",
    "absent",
];

pub const EXTRA_IDENT_HTML_NOTE: [&'static str; 14] = [
    "_cf_chl_opt ray (16-hex); also string table",
    "not in 56907 iframe HTML",
    "_cf_chl_opt: []; also string table",
    "not in 56907 iframe HTML",
    "not in 56907 iframe HTML",
    "not in 56907 iframe HTML",
    "not in 56907 iframe HTML",
    "not in 56907 iframe HTML",
    "not in 56907 iframe HTML",
    "worker-like object literal, not init JSON",
    "not in 56907 iframe HTML",
    "not in 56907 iframe HTML",
    "string-table token only",
    "not in 56907 iframe HTML",
];

pub open spec fn spec_extra_ident_html_b() -> Seq<ExtraIdentHtmlSource> {
    Seq::new(14, |i: int| ExtraIdentHtmlSource { name: EXTRA_IDENT_HTML_NAME@[i], html: EXTRA_IDENT_HTML_WHERE@[i], note: EXTRA_IDENT_HTML_NOTE@[i] })
}

/// Where each extra ident string appears in the iframe HTML (not values).
pub fn followup_extra_ident_html_b() -> (t: Vec<ExtraIdentHtmlSource>)
    ensures
        t@ == spec_extra_ident_html_b(),
{
    let mut t: Vec<ExtraIdentHtmlSource> = Vec::new();
    let mut i: usize = 0;
    while i < 14
        invariant
            i <= 14,
            t@ == spec_extra_ident_html_b().subrange(0, i as int),
        decreases 14 - i,
    {
        t.push(ExtraIdentHtmlSource { name: EXTRA_IDENT_HTML_NAME[i], html: EXTRA_IDENT_HTML_WHERE[i], note: EXTRA_IDENT_HTML_NOTE[i] });
        i = i + 1;
        assert(t@ =~= spec_extra_ident_html_b().subrange(0, i as int));
    }
    assert(t@ =~= spec_extra_ident_html_b());
    t
}

#[derive(Debug, Clone, Copy)]
pub struct FollowUpFieldWrite {
    pub name: &'static str,
    /// `chl_opt` / `other_object` / `string_table` / `absent` / `init_obj` / `numeric_family`.
    pub source: &'static str,
    /// `host_copy` / `bytecode_string` / `glue` / `host_xi` / `property_set` /
    /// `vm_entry_index` / `unseen_in_dumps`.
    pub write_path: &'static str,
    pub opcode: Option<u8>,
    pub evidence: &'static str,
}

pub const FIELD_WRITE_NAME: [&'static str; 16] = [
    "SMrTl9",
    "OQbM0",
    "xBCsP4",
    "UjLjP6",
    "YfDjo7",
    "Iqrc9",
    "OZgbm6",
    "pFyv1",
    "SfUI1",
    "sqKXG6",
    "HUDi4",
    "DTBF3",
    "mQiic7",
    "gNcr3",
    "MaOkK2",
    "1..39",
];

pub const FIELD_WRITE_SOURCE: [&'static str; 16] = [
    "chl_opt",
    "absent",
    "chl_opt",
    "absent",
    "absent",
    "absent",
    "absent",
    "absent",
    "absent",
    "other_object",
    "absent",
    "absent",
    "string_table",
    "absent",
    "init_obj",
    "numeric_family",
];

pub const FIELD_WRITE_PATH: [&'static str; 16] = [
    "host_copy",
    "unseen_in_dumps",
    "host_copy",
    "unseen_in_dumps",
    "unseen_in_dumps",
    "unseen_in_dumps",
    "unseen_in_dumps",
    "unseen_in_dumps",
    "unseen_in_dumps",
    "unseen_in_dumps",
    "unseen_in_dumps",
    "unseen_in_dumps",
    "unseen_in_dumps",
    "unseen_in_dumps",
    "glue",
    "vm_entry_index",
];

pub const FIELD_WRITE_EVIDENCE: [&'static str; 16] = [
    "_cf_chl_opt SMrTl9 is the 16-hex ray; follow-up kind string. Not on the init JSON literal. Assignment onto initObj is not in HTML.",
    "not in 56907 HTML or the HTML-embedded packed stub; Chrome kind undefined (stringify omits). Leftover headed Chrome 2026-08-22: still on later f4; assignment opcode not recovered (OOPIF ignores Fetch rewrite; fetch-loop BP off).",
    "_cf_chl_opt xBCsP4: []; follow-up kind array. Early f4 is init plus this key (no numeric slots) before the later mutated f4.",
    "not in 56907 HTML or the HTML-embedded packed stub; Chrome kind function (stringify omits). Leftover headed Chrome: still on later f4; opcode not recovered.",
    "not in 56907 HTML or the HTML-embedded packed stub; Chrome kind undefined. Leftover headed Chrome: still on later f4; opcode not recovered.",
    "not in 56907 HTML or the HTML-embedded packed stub; Chrome kind undefined. Leftover headed Chrome: still on later f4; opcode not recovered.",
    "not in 56907 HTML or the HTML-embedded packed stub; Chrome kind function (stringify omits). Leftover headed Chrome: still on later f4; opcode not recovered.",
    "not in 56907 HTML or the HTML-embedded packed stub; Chrome kind number. Leftover headed Chrome: still on later f4; opcode not recovered.",
    "not in 56907 HTML or the HTML-embedded packed stub; Chrome kind array. Leftover headed Chrome: still on later f4; opcode not recovered.",
    "HTML has Xu={\"sqKXG6\":W?W:undefined,...} on an /eb/ error beacon (stack file string), not the /fo/ init literal. Follow-up kind string. Copy onto initObj not in HTML; stub harvest miss. Leftover headed Chrome: still on later f4; opcode not recovered.",
    "not in 56907 HTML or the HTML-embedded packed stub; Chrome kind string. Leftover headed Chrome: still on later f4; opcode not recovered.",
    "not in 56907 HTML or the HTML-embedded packed stub; Chrome kind string. Leftover headed Chrome: still on later f4; opcode not recovered.",
    "semicolon string-table token only; follow-up kind number. Stub harvest miss. Leftover headed Chrome: still on later f4; opcode not recovered.",
    "not in 56907 HTML or the HTML-embedded packed stub; Chrome kind number. Leftover headed Chrome: still on later f4; opcode not recovered.",
    "on the init object literal (\"MaOkK2\": host call). Absent from later f4 identKeys. delete/drop not in HTML.",
    "consecutive 1-based keys, count 39, no quoted \"1\": in HTML. Same kind as orchestrate-era parsed_vm.entries under \"1\"..\"N\". Headed Chrome later f4 (chrome-oracle-keys): every slot is object, own-key counts 9..=32. ge/169 can write an integer key imm; the HTML-embedded stub harvested none in 1..=39.",
];

pub open spec fn spec_followup_field_write_b() -> Seq<FollowUpFieldWrite> {
    Seq::new(16, |i: int| FollowUpFieldWrite { name: FIELD_WRITE_NAME@[i], source: FIELD_WRITE_SOURCE@[i], write_path: FIELD_WRITE_PATH@[i], opcode: None, evidence: FIELD_WRITE_EVIDENCE@[i] })
}

/// How each follow-up field is written (names were already known; no opcode recovered).
pub fn followup_field_write_b() -> (t: Vec<FollowUpFieldWrite>)
    ensures
        t@ == spec_followup_field_write_b(),
{
    let mut t: Vec<FollowUpFieldWrite> = Vec::new();
    let mut i: usize = 0;
    while i < 16
        invariant
            i <= 16,
            t@ == spec_followup_field_write_b().subrange(0, i as int),
        decreases 16 - i,
    {
        t.push(FollowUpFieldWrite { name: FIELD_WRITE_NAME[i], source: FIELD_WRITE_SOURCE[i], write_path: FIELD_WRITE_PATH[i], opcode: None, evidence: FIELD_WRITE_EVIDENCE[i] });
        i = i + 1;
        assert(t@ =~= spec_followup_field_write_b().subrange(0, i as int));
    }
    assert(t@ =~= spec_followup_field_write_b());
    t
}

#[derive(Debug, Clone, Copy, PartialEq, Eq, Structural)]
pub enum FoPlaintextKind {
    Init,
    FollowUp,
    Other,
}

#[derive(Debug, Clone, Copy)]
pub struct FoFollowUpJsonShape {
    pub copied_from_init: bool,
    pub numeric_vm_entries: bool,
    pub extra_ident_from_vm: bool,
    pub init_ident_count: usize,
    pub copied_count: usize,
    pub extra_ident_count: usize,
    pub numeric_key_min: u32,
    pub numeric_key_max: u32,
    pub note: &'static str,
}

/// The follow-up field-set facts for branch `b`.
pub fn live_fo_followup_json() -> (s: FoFollowUpJsonShape)
    ensures
        s.copied_from_init && s.numeric_vm_entries && s.extra_ident_from_vm,
        s.init_ident_count == INIT_JSON_KEY_COUNT,
        s.copied_count == FOLLOWUP_COPIED_COUNT_B,
        s.extra_ident_count == FOLLOWUP_EXTRA_IDENT_B@.len(),
        s.numeric_key_min == FOLLOWUP_NUMERIC_KEY_MIN_B,
        s.numeric_key_max == FOLLOWUP_NUMERIC_KEY_MAX_B,
{
    FoFollowUpJsonShape {
        copied_from_init: true,
        numeric_vm_entries: true,
        extra_ident_from_vm: true,
        init_ident_count: INIT_JSON_KEY_COUNT,
        copied_count: FOLLOWUP_COPIED_COUNT_B,
        extra_ident_count: FOLLOWUP_EXTRA_IDENT_B.len(),
        numeric_key_min: FOLLOWUP_NUMERIC_KEY_MIN_B,
        numeric_key_max: FOLLOWUP_NUMERIC_KEY_MAX_B,
        note: "follow-up is 46 of 47 init keys (MaOkK2 dropped) plus numeric 1..39 plus 14 extra ident names. Names only — do not fill or POST.",
    }
}

/// Non-empty and all ASCII digits.
pub open spec fn numeric_key_shape(k: Seq<u8>) -> bool {
    k.len() > 0 && forall|i: int| 0 <= i < k.len() ==> 48 <= #[trigger] k[i] <= 57
}

pub fn looks_like_numeric_key(k: &str) -> (r: bool)
    ensures
        r == numeric_key_shape(k.spec_bytes()),
{
    let b = k.as_bytes();
    if b.len() == 0 {
        return false;
    }
    let mut i: usize = 0;
    while i < b.len()
        invariant
            b@ == k.spec_bytes(),
            i <= b@.len(),
            forall|j: int| 0 <= j < i ==> 48 <= #[trigger] b@[j] <= 57,
        decreases b@.len() - i,
    {
        if b[i] < 48 || b[i] > 57 {
            assert(!(48 <= b@[i as int] <= 57));
            return false;
        }
        i = i + 1;
    }
    true
}

/// Chars of each owned key.
pub open spec fn owned_keys(ident: Seq<String>) -> Seq<Seq<char>> {
    ident.map_values(|s: String| s@)
}

/// Chars of each borrowed key.
pub open spec fn borrowed_keys(init: Seq<&str>) -> Seq<Seq<char>> {
    init.map_values(|s: &str| s@)
}

/// Keys whose membership in `list` is `want`.
pub open spec fn membership(list: Seq<Seq<char>>, want: bool) -> spec_fn(Seq<char>) -> bool {
    |k: Seq<char>| list.contains(k) == want
}

/// Ident keys that were on the init object, in order.
pub open spec fn copied_keys(ident: Seq<Seq<char>>, init: Seq<Seq<char>>) -> Seq<Seq<char>> {
    ident.filter(membership(init, true))
}

/// Ident keys that were not on the init object, in order.
pub open spec fn extra_keys(ident: Seq<Seq<char>>, init: Seq<Seq<char>>) -> Seq<Seq<char>> {
    ident.filter(membership(init, false))
}

/// Init keys missing from the ident keys, in order.
pub open spec fn dropped_keys(ident: Seq<Seq<char>>, init: Seq<Seq<char>>) -> Seq<Seq<char>> {
    init.filter(membership(ident, false))
}

fn borrowed_contains(list: &[&str], k: &str) -> (r: bool)
    ensures
        r == borrowed_keys(list@).contains(k@),
{
    let ghost v = borrowed_keys(list@);
    let mut i: usize = 0;
    while i < list.len()
        invariant
            v == borrowed_keys(list@),
            i <= list@.len(),
            forall|j: int| 0 <= j < i ==> v[j] != k@,
        decreases list@.len() - i,
    {
        if str_eq(list[i], k) {
            assert(v[i as int] == k@);
            return true;
        }
        i = i + 1;
    }
    false
}

fn owned_contains(list: &[String], k: &str) -> (r: bool)
    ensures
        r == owned_keys(list@).contains(k@),
{
    let ghost v = owned_keys(list@);
    let mut i: usize = 0;
    while i < list.len()
        invariant
            v == owned_keys(list@),
            i <= list@.len(),
            forall|j: int| 0 <= j < i ==> v[j] != k@,
        decreases list@.len() - i,
    {
        if str_eq(list[i].as_str(), k) {
            assert(v[i as int] == k@);
            return true;
        }
        i = i + 1;
    }
    false
}

fn ident_by_membership<'a>(ident: &'a [String], init: &[&str], want: bool) -> (r: Vec<&'a str>)
    ensures
        r@.len() == owned_keys(ident@).filter(membership(borrowed_keys(init@), want)).len(),
        forall|k: int| 0 <= k < r@.len() ==> #[trigger] r@[k]@ == owned_keys(ident@).filter(membership(borrowed_keys(init@), want))[k],
{
    let ghost keys = owned_keys(ident@);
    let ghost pred = membership(borrowed_keys(init@), want);
    let mut out: Vec<&'a str> = Vec::new();
    let mut i: usize = 0;
    assert(keys.take(0).filter(pred) =~= Seq::<Seq<char>>::empty()) by {
        reveal(Seq::filter);
    }
    while i < ident.len()
        invariant
            keys == owned_keys(ident@),
            pred == membership(borrowed_keys(init@), want),
            i <= ident@.len(),
            out@.len() == keys.take(i as int).filter(pred).len(),
            forall|k: int| 0 <= k < out@.len() ==> #[trigger] out@[k]@ == keys.take(i as int).filter(pred)[k],
        decreases ident@.len() - i,
    {
        let k = ident[i].as_str();
        let keep = borrowed_contains(init, k) == want;
        proof {
            reveal(Seq::filter);
            assert(keys.take(i + 1).drop_last() =~= keys.take(i as int));
            assert(keys.take(i + 1).last() == keys[i as int]);
            assert(keys[i as int] == k@);
        }
        if keep {
            let ghost old_out = out@;
            out.push(k);
            proof {
                assert forall|t: int| 0 <= t < out@.len() implies #[trigger] out@[t]@ == keys.take(i + 1).filter(pred)[t] by {
                    if t < old_out.len() {
                        assert(out@[t] == old_out[t]);
                    }
                }
            }
        }
        i = i + 1;
    }
    assert(keys.take(ident@.len() as int) =~= keys);
    out
}

/// Ident keys that already appeared on the init object.
pub fn copied_init_keys<'a>(ident: &'a [String], init: &[&str]) -> (r: Vec<&'a str>)
    ensures
        r@.len() == copied_keys(owned_keys(ident@), borrowed_keys(init@)).len(),
        forall|k: int| 0 <= k < r@.len() ==> #[trigger] r@[k]@ == copied_keys(owned_keys(ident@), borrowed_keys(init@))[k],
{
    ident_by_membership(ident, init, true)
}

/// Named keys the VM added that were not in the init literal.
pub fn extra_ident_keys<'a>(ident: &'a [String], init: &[&str]) -> (r: Vec<&'a str>)
    ensures
        r@.len() == extra_keys(owned_keys(ident@), borrowed_keys(init@)).len(),
        forall|k: int| 0 <= k < r@.len() ==> #[trigger] r@[k]@ == extra_keys(owned_keys(ident@), borrowed_keys(init@))[k],
{
    ident_by_membership(ident, init, false)
}

/// Init keys absent from the ident keys.
pub fn dropped_init_keys<'a>(ident: &[String], init: &'a [&str]) -> (r: Vec<&'a str>)
    ensures
        r@.len() == dropped_keys(owned_keys(ident@), borrowed_keys(init@)).len(),
        forall|k: int| 0 <= k < r@.len() ==> #[trigger] r@[k]@ == dropped_keys(owned_keys(ident@), borrowed_keys(init@))[k],
{
    let ghost keys = borrowed_keys(init@);
    let ghost pred = membership(owned_keys(ident@), false);
    let mut out: Vec<&'a str> = Vec::new();
    let mut i: usize = 0;
    assert(keys.take(0).filter(pred) =~= Seq::<Seq<char>>::empty()) by {
        reveal(Seq::filter);
    }
    while i < init.len()
        invariant
            keys == borrowed_keys(init@),
            pred == membership(owned_keys(ident@), false),
            i <= init@.len(),
            out@.len() == keys.take(i as int).filter(pred).len(),
            forall|k: int| 0 <= k < out@.len() ==> #[trigger] out@[k]@ == keys.take(i as int).filter(pred)[k],
        decreases init@.len() - i,
    {
        let k = init[i];
        let keep = !owned_contains(ident, k);
        proof {
            reveal(Seq::filter);
            assert(keys.take(i + 1).drop_last() =~= keys.take(i as int));
            assert(keys.take(i + 1).last() == keys[i as int]);
            assert(keys[i as int] == k@);
        }
        if keep {
            let ghost old_out = out@;
            out.push(k);
            proof {
                assert forall|t: int| 0 <= t < out@.len() implies #[trigger] out@[t]@ == keys.take(i + 1).filter(pred)[t] by {
                    if t < old_out.len() {
                        assert(out@[t] == old_out[t]);
                    }
                }
            }
        }
        i = i + 1;
    }
    assert(keys.take(init@.len() as int) =~= keys);
    out
}

/// Plaintext kind from the ident keys, the numeric-slot count and the init keys.
pub open spec fn plaintext_kind(ident: Seq<Seq<char>>, numeric_count: int, init: Seq<Seq<char>>) -> FoPlaintextKind {
    let copied = copied_keys(ident, init).len();
    let extra = extra_keys(ident, init).len();
    if numeric_count > 0 {
        FoPlaintextKind::FollowUp
    } else if copied >= 40 && extra == 0 {
        FoPlaintextKind::Init
    } else if copied >= 40 {
        FoPlaintextKind::FollowUp
    } else if ident.len() >= 40 && extra == 0 && init.len() == 0 {
        FoPlaintextKind::Init
    } else {
        FoPlaintextKind::Other
    }
}

pub fn classify_fo_plaintext(ident: &[String], numeric_count: usize, init: &[&str]) -> (k: FoPlaintextKind)
    ensures
        k == plaintext_kind(owned_keys(ident@), numeric_count as int, borrowed_keys(init@)),
{
    let copied = copied_init_keys(ident, init).len();
    let extra = extra_ident_keys(ident, init).len();
    if numeric_count > 0 {
        FoPlaintextKind::FollowUp
    } else if copied >= 40 && extra == 0 {
        FoPlaintextKind::Init
    } else if copied >= 40 {
        FoPlaintextKind::FollowUp
    } else if ident.len() >= 40 && extra == 0 && init.len() == 0 {
        FoPlaintextKind::Init
    } else {
        FoPlaintextKind::Other
    }
}

proof fn lemma_filter_split<A>(s: Seq<A>, p: spec_fn(A) -> bool, q: spec_fn(A) -> bool)
    requires
        forall|a: A| #[trigger] p(a) == !q(a),
    ensures
        s.filter(p).len() + s.filter(q).len() == s.len(),
    decreases s.len(),
{
    reveal(Seq::filter);
    if s.len() > 0 {
        lemma_filter_split(s.drop_last(), p, q);
    }
}

/// The copied and the extra keys split the ident keys: every ident key is in
/// exactly one of them, so their counts add up to the ident count.
pub proof fn lemma_copied_and_extra_partition(ident: Seq<Seq<char>>, init: Seq<Seq<char>>)
    ensures
        copied_keys(ident, init).len() + extra_keys(ident, init).len() == ident.len(),
        forall|k: Seq<char>| ident.contains(k) ==> (#[trigger] copied_keys(ident, init).contains(k) <==> !extra_keys(ident, init).contains(k)),
        forall|k: Seq<char>| #[trigger] copied_keys(ident, init).contains(k) ==> init.contains(k),
        forall|k: Seq<char>| #[trigger] extra_keys(ident, init).contains(k) ==> !init.contains(k),
{
    broadcast use vstd::seq_lib::group_filter_ensures;
    lemma_filter_split(ident, membership(init, true), membership(init, false));
    assert forall|k: Seq<char>| ident.contains(k) implies (#[trigger] copied_keys(ident, init).contains(k) <==> !extra_keys(ident, init).contains(k)) by {
        let i = choose|i: int| 0 <= i < ident.len() && ident[i] == k;
        if init.contains(k) {
            ident.lemma_filter_contains(membership(init, true), i);
            if extra_keys(ident, init).contains(k) {
                let j = choose|j: int| 0 <= j < extra_keys(ident, init).len() && extra_keys(ident, init)[j] == k;
                ident.lemma_filter_pred(membership(init, false), j);
            }
        } else {
            ident.lemma_filter_contains(membership(init, false), i);
            if copied_keys(ident, init).contains(k) {
                let j = choose|j: int| 0 <= j < copied_keys(ident, init).len() && copied_keys(ident, init)[j] == k;
                ident.lemma_filter_pred(membership(init, true), j);
            }
        }
    }
    assert forall|k: Seq<char>| #[trigger] copied_keys(ident, init).contains(k) implies init.contains(k) by {
        let j = choose|j: int| 0 <= j < copied_keys(ident, init).len() && copied_keys(ident, init)[j] == k;
        ident.lemma_filter_pred(membership(init, true), j);
    }
    assert forall|k: Seq<char>| #[trigger] extra_keys(ident, init).contains(k) implies !init.contains(k) by {
        let j = choose|j: int| 0 <= j < extra_keys(ident, init).len() && extra_keys(ident, init)[j] == k;
        ident.lemma_filter_pred(membership(init, false), j);
    }
}

} // verus!

//! Checks of an oracle fixture's later-same-day section: its fetches, stable widths,
//! operand extras and the recovered case tables of the late-`b` iframe.
use vstd::prelude::*;
use crate::fmt::{decimal, push_decimal, push_str};
use crate::json::{as_array, as_i64, as_str, as_u64, get_in, jarr, jget, ji64, jstr, jstr_is, ju64, member, str_is, JsonValue};
use crate::oracle::{add_msg, add_text, add_text_if, error_if, indexed_errors, msgs, unwrap_u64};
use crate::run_program_ops::{
    classify_pc_delta_late, lemma_observes_width_unique, observes, spec_call_imm_roles_b_late,
    spec_handler_layout_b_late, spec_jump_imm_roles_b_late, spec_leb_object_roles_b_late,
    spec_property_imm_roles_b_late, spec_s1_cases_b_late, spec_s2_cases_b_late, spec_xf_tag_cases,
    spec_xi_type_cases, spec_xp_tag_cases, WidthObservation, CALL_IMM_ROLES_B_LATE_ARITY,
    CALL_IMM_ROLES_B_LATE_CALLEE, CALL_IMM_ROLES_B_LATE_HANDLER, HANDLER_LAYOUT_B_LATE_EXTRA_XORS,
    HANDLER_LAYOUT_B_LATE_EXTRA_XORS_LEN, HANDLER_LAYOUT_B_LATE_FAMILY, HANDLER_LAYOUT_B_LATE_HANDLER,
    JUMP_IMM_ROLES_B_LATE_CONDITION, JUMP_IMM_ROLES_B_LATE_HANDLER, JUMP_IMM_ROLES_B_LATE_PATHS,
    LATE_DIRECT_HANDLER_COUNT, LEB_OBJECT_ROLES_B_LATE_ASSIGN, LEB_OBJECT_ROLES_B_LATE_HANDLER,
    LEB_OBJECT_ROLES_B_LATE_ROLE, PROPERTY_IMM_ROLES_B_LATE_ASSIGN, PROPERTY_IMM_ROLES_B_LATE_HANDLER,
    S1_CASES_B_LATE_IMM, S1_CASES_B_LATE_KIND, S1_CASES_B_LATE_OPCODE, S1_HTML_HANDLER, S2_CASES_B_LATE_IMM,
    S2_CASES_B_LATE_KIND, S2_CASES_B_LATE_OPCODE, S2_HTML_HANDLER, XD_MIX_SEED, XD_SLOT_XOR, XF_TAG_CASES_KIND,
    XF_TAG_CASES_TAG, XF_TAG_STRING, XI_TYPE_CASES_KIND, XP_TAG_CASES_KIND, XP_TAG_CASES_TAG,
};
use crate::run_program_vm::spec_opcode_table_b_late;
use crate::text::bytes_eq;

verus! {

/// Chrome-measured widths that the late layouts must reproduce: fixture key, opcode, width.
pub const CHROME_STABLE_WIDTH_KEYS: [&'static str; 8] = [
    "gq_246",
    "gG_227",
    "X3_104",
    "gY_72",
    "X4_12",
    "Xz_52",
    "Xg_130",
    "ge_169",
];
pub const CHROME_STABLE_WIDTH_OPS: [u8; 8] = [246, 227, 104, 72, 12, 52, 130, 169];
pub const CHROME_STABLE_WIDTHS: [i32; 8] = [3, 4, 2, 5, 2, 3, 3, 5];

pub open spec fn min_nat(a: nat, b: nat) -> nat {
    if a < b {
        a
    } else {
        b
    }
}

/// The recorded late fetches (`fetches`, else none).
pub open spec fn late_rows(late: JsonValue) -> Seq<JsonValue> {
    match jarr(member(late, "fetches"@)) {
        Some(a) => a,
        None => seq![],
    }
}

pub open spec fn first_xf_errors(late: JsonValue) -> Seq<Seq<char>> {
    error_if(ju64(member(late, "firstXfTag"@)) != Some(XF_TAG_STRING as u64), "laterSameDay firstXfTag should be 199 (string)"@)
}

/// The late layouts reproduce `width` for `op`.
pub open spec fn late_width_ok(op: u8, width: i32) -> bool {
    exists|w: WidthObservation|
        observes(w, op, width, spec_opcode_table_b_late(), spec_handler_layout_b_late()) && w.matches_fixed == Some(true)
}

/// The messages of the first `n` stable-width checks.
pub open spec fn stable_width_errors(w: JsonValue, n: nat) -> Seq<Seq<char>>
    decreases n,
{
    if n == 0 {
        seq![]
    } else {
        let k = n - 1;
        let key = CHROME_STABLE_WIDTH_KEYS@[k]@;
        let op = CHROME_STABLE_WIDTH_OPS@[k];
        let width = CHROME_STABLE_WIDTHS@[k];
        stable_width_errors(w, (n - 1) as nat) + error_if(
            ji64(member(w, key)) != Some(width as i64),
            "laterSameDay.chromeStableWidths."@ + key + " should be "@ + decimal(width as nat),
        ) + error_if(
            !late_width_ok(op, width),
            "late opcode "@ + decimal(op as nat) + " width "@ + decimal(width as nat) + " does not match layout"@,
        )
    }
}

pub open spec fn stable_section_errors(late: JsonValue) -> Seq<Seq<char>> {
    match member(late, "chromeStableWidths"@) {
        Some(w) => stable_width_errors(w, 8),
        None => seq![],
    }
}

fn check_stable_widths(w: &JsonValue, errors: &mut Vec<String>)
    ensures
        msgs(final(errors)@) == msgs(old(errors)@) + stable_width_errors(*w, 8),
{
    proof {
        assert(CHROME_STABLE_WIDTHS@ =~= seq![3i32, 4, 2, 5, 2, 3, 3, 5]);
    }
    let mut i: usize = 0;
    while i < 8
        invariant
            i <= 8,
            CHROME_STABLE_WIDTHS@ =~= seq![3i32, 4, 2, 5, 2, 3, 3, 5],
            msgs(errors@) == msgs(old(errors)@) + stable_width_errors(*w, i as nat),
        decreases 8 - i,
    {
        let key = CHROME_STABLE_WIDTH_KEYS[i];
        let op = CHROME_STABLE_WIDTH_OPS[i];
        let width = CHROME_STABLE_WIDTHS[i];
        if as_i64(w.get(key)) != Some(width as i64) {
            let mut m = String::new();
            push_str(&mut m, "laterSameDay.chromeStableWidths.");
            push_str(&mut m, key);
            push_str(&mut m, " should be ");
            push_decimal(&mut m, width as u64);
            add_msg(errors, m);
        }
        let row = classify_pc_delta_late(op, width);
        if row.matches_fixed != Some(true) {
            proof {
                if late_width_ok(op, width) {
                    let w2 = choose|w2: WidthObservation|
                        observes(w2, op, width, spec_opcode_table_b_late(), spec_handler_layout_b_late())
                            && w2.matches_fixed == Some(true);
                    lemma_observes_width_unique(row, w2, op, width, spec_opcode_table_b_late(), spec_handler_layout_b_late());
                }
            }
            let mut m = String::new();
            push_str(&mut m, "late opcode ");
            push_decimal(&mut m, op as u64);
            push_str(&mut m, " width ");
            push_decimal(&mut m, width as u64);
            push_str(&mut m, " does not match layout");
            add_msg(errors, m);
        } else {
            proof {
                assert(late_width_ok(op, width));
            }
        }
        i = i + 1;
        proof {
            reveal(error_if);
            assert(msgs(errors@) =~= msgs(old(errors)@) + stable_width_errors(*w, i as nat));
        }
    }
}

/// The number entries of an array, each as a byte (others skipped).
pub open spec fn u8s_of(a: Seq<JsonValue>) -> Seq<u8>
    decreases a.len(),
{
    if a.len() == 0 {
        seq![]
    } else {
        let prev = u8s_of(a.drop_last());
        match ju64(Some(a.last())) {
            Some(n) => prev.push(n as u8),
            None => prev,
        }
    }
}

fn bytes_in(a: &Vec<JsonValue>) -> (r: Vec<u8>)
    ensures
        r@ == u8s_of(a@),
{
    let mut r: Vec<u8> = Vec::new();
    let mut i: usize = 0;
    while i < a.len()
        invariant
            i <= a@.len(),
            r@ == u8s_of(a@.subrange(0, i as int)),
        decreases a@.len() - i,
    {
        proof {
            let q = a@.subrange(0, i as int + 1);
            assert(q.drop_last() =~= a@.subrange(0, i as int));
            assert(q.last() == a@[i as int]);
        }
        match as_u64(Some(&a[i])) {
            Some(n) => r.push(n as u8),
            None => {},
        }
        i = i + 1;
    }
    proof {
        assert(a@.subrange(0, a@.len() as int) =~= a@);
    }
    r
}

/// The operand extras the late layout of case `k` reads.
pub open spec fn want_extras(k: int) -> Seq<u8> {
    let h = spec_handler_layout_b_late()[k];
    h.xors@.subrange(0, h.xor_count as int)
}

/// The fixture's row for the handler of case `k`.
pub open spec fn extras_row(ex: JsonValue, k: int) -> Option<JsonValue> {
    member(ex, spec_handler_layout_b_late()[k].handler@)
}

pub open spec fn got_extras(ex: JsonValue, k: int) -> Option<Seq<u8>> {
    match jarr(jget(extras_row(ex, k), "extras"@)) {
        Some(a) => Some(u8s_of(a)),
        None => None,
    }
}

/// The messages of the operand-extras checks of the first `n` late handlers.
pub open spec fn extras_errors(ex: JsonValue, n: nat) -> Seq<Seq<char>>
    decreases n,
{
    if n == 0 {
        seq![]
    } else {
        let k = n - 1;
        let name = spec_handler_layout_b_late()[k].handler@;
        extras_errors(ex, (n - 1) as nat) + error_if(
            got_extras(ex, k) != Some(want_extras(k)),
            "laterSameDay.operandExtras."@ + name + " extras mismatch"@,
        ) + match jstr(jget(extras_row(ex, k), "family"@)) {
            Some(f) => error_if(f != spec_handler_layout_b_late()[k].family@, "laterSameDay.operandExtras."@ + name + " family mismatch"@),
            None => seq![],
        }
    }
}

pub open spec fn extras_section_errors(late: JsonValue) -> Seq<Seq<char>> {
    match member(late, "operandExtras"@) {
        Some(ex) => extras_errors(ex, 46) + error_if(
            ju64(member(late, "directHandlerCount"@)) != Some(LATE_DIRECT_HANDLER_COUNT as u64),
            "laterSameDay.directHandlerCount should be 46"@,
        ),
        None => seq![],
    }
}

fn check_extras(ex: &JsonValue, errors: &mut Vec<String>)
    ensures
        msgs(final(errors)@) == msgs(old(errors)@) + extras_errors(*ex, 46),
{
    proof {
        assert(HANDLER_LAYOUT_B_LATE_EXTRA_XORS_LEN@ =~= seq![1u8, 2, 3, 3, 4, 4, 1, 1, 1, 1, 2, 2, 2, 0, 1, 3, 1, 2, 6, 4, 5, 4, 1, 2, 2, 2, 2, 2, 4, 5, 4, 4, 4, 3, 2, 2, 5, 4, 3, 4, 4, 3, 3, 4, 5, 3]);
    }
    let mut i: usize = 0;
    while i < 46
        invariant
            i <= 46,
            forall|k: int| 0 <= k < 46 ==> #[trigger] HANDLER_LAYOUT_B_LATE_EXTRA_XORS_LEN@[k] <= 6,
            msgs(errors@) == msgs(old(errors)@) + extras_errors(*ex, i as nat),
        decreases 46 - i,
    {
        let name = HANDLER_LAYOUT_B_LATE_HANDLER[i];
        let row = ex.get(name);
        let count = HANDLER_LAYOUT_B_LATE_EXTRA_XORS_LEN[i];
        let xors = HANDLER_LAYOUT_B_LATE_EXTRA_XORS[i];
        let want = vstd::slice::slice_subrange(xors.as_slice(), 0, count as usize);
        proof {
            assert(HANDLER_LAYOUT_B_LATE_EXTRA_XORS_LEN@[i as int] <= 6);
            assert(want@ == want_extras(i as int));
        }
        let same = match as_array(get_in(row, "extras")) {
            Some(a) => {
                let got = bytes_in(a);
                bytes_eq(got.as_slice(), want)
            },
            None => false,
        };
        if !same {
            let mut m = String::new();
            push_str(&mut m, "laterSameDay.operandExtras.");
            push_str(&mut m, name);
            push_str(&mut m, " extras mismatch");
            add_msg(errors, m);
        }
        match as_str(get_in(row, "family")) {
            Some(fam) => {
                if !crate::text::str_eq(fam, HANDLER_LAYOUT_B_LATE_FAMILY[i]) {
                    let mut m = String::new();
                    push_str(&mut m, "laterSameDay.operandExtras.");
                    push_str(&mut m, name);
                    push_str(&mut m, " family mismatch");
                    add_msg(errors, m);
                }
            },
            None => {},
        }
        i = i + 1;
        proof {
            reveal(error_if);
            assert(msgs(errors@) =~= msgs(old(errors)@) + extras_errors(*ex, i as nat));
        }
    }
}

// ---- case tables, zipped with the fixture's rows ----

pub open spec fn xf_bad(c: Seq<JsonValue>) -> spec_fn(int) -> bool {
    |k: int|
        ju64(member(c[k], "tag"@)) != Some(spec_xf_tag_cases()[k].tag as u64) || !jstr_is(
            member(c[k], "kind"@),
            spec_xf_tag_cases()[k].kind@,
        )
}

pub open spec fn xf_msg() -> spec_fn(int) -> Seq<char> {
    |k: int| "xfTagCases mismatch at "@ + spec_xf_tag_cases()[k].kind@
}

pub open spec fn xf_section_errors(late: JsonValue) -> Seq<Seq<char>> {
    match member(late, "xfTagCases"@) {
        Some(xf) => (match jarr(member(xf, "cases"@)) {
            Some(c) => if c.len() == 12 {
                indexed_errors(12, xf_bad(c), xf_msg())
            } else {
                seq!["laterSameDay.xfTagCases.cases length mismatch"@]
            },
            None => seq!["laterSameDay.xfTagCases.cases length mismatch"@],
        }) + error_if(!jstr_is(member(xf, "defaultKind"@), "true"@), "xfTagCases.defaultKind should be true"@),
        None => seq![],
    }
}

fn check_xf_cases(c: &Vec<JsonValue>, errors: &mut Vec<String>)
    requires
        c@.len() == 12,
    ensures
        msgs(final(errors)@) == msgs(old(errors)@) + indexed_errors(12, xf_bad(c@), xf_msg()),
{
    let mut k: usize = 0;
    while k < 12
        invariant
            k <= 12,
            c@.len() == 12,
            msgs(errors@) == msgs(old(errors)@) + indexed_errors(k as nat, xf_bad(c@), xf_msg()),
        decreases 12 - k,
    {
        let row = Some(&c[k]);
        let bad = as_u64(get_in(row, "tag")) != Some(XF_TAG_CASES_TAG[k] as u64) || !str_is(get_in(row, "kind"), XF_TAG_CASES_KIND[k]);
        proof {
            assert(bad == xf_bad(c@)(k as int));
        }
        if bad {
            let mut m = String::new();
            push_str(&mut m, "xfTagCases mismatch at ");
            push_str(&mut m, XF_TAG_CASES_KIND[k]);
            proof {
                assert(m@ == xf_msg()(k as int));
            }
            add_msg(errors, m);
        }
        k = k + 1;
        proof {
            assert(msgs(errors@) =~= msgs(old(errors)@) + indexed_errors(k as nat, xf_bad(c@), xf_msg()));
        }
    }
}

pub open spec fn xp_bad(c: Seq<JsonValue>) -> spec_fn(int) -> bool {
    |k: int|
        ju64(member(c[k], "tag"@)) != Some(spec_xp_tag_cases()[k].tag as u64) || !jstr_is(
            member(c[k], "kind"@),
            spec_xp_tag_cases()[k].kind@,
        )
}

pub open spec fn xp_msg() -> spec_fn(int) -> Seq<char> {
    |k: int| "xpTagCases mismatch at "@ + spec_xp_tag_cases()[k].kind@
}

pub open spec fn xp_section_errors(late: JsonValue) -> Seq<Seq<char>> {
    match member(late, "xpTagCases"@) {
        Some(xp) => match jarr(member(xp, "cases"@)) {
            Some(c) => if c.len() == 3 {
                indexed_errors(3, xp_bad(c), xp_msg())
            } else {
                seq!["laterSameDay.xpTagCases.cases length mismatch"@]
            },
            None => seq!["laterSameDay.xpTagCases.cases length mismatch"@],
        },
        None => seq![],
    }
}

fn check_xp_cases(c: &Vec<JsonValue>, errors: &mut Vec<String>)
    requires
        c@.len() == 3,
    ensures
        msgs(final(errors)@) == msgs(old(errors)@) + indexed_errors(3, xp_bad(c@), xp_msg()),
{
    let mut k: usize = 0;
    while k < 3
        invariant
            k <= 3,
            c@.len() == 3,
            msgs(errors@) == msgs(old(errors)@) + indexed_errors(k as nat, xp_bad(c@), xp_msg()),
        decreases 3 - k,
    {
        let row = Some(&c[k]);
        let bad = as_u64(get_in(row, "tag")) != Some(XP_TAG_CASES_TAG[k] as u64) || !str_is(get_in(row, "kind"), XP_TAG_CASES_KIND[k]);
        proof {
            assert(bad == xp_bad(c@)(k as int));
        }
        if bad {
            let mut m = String::new();
            push_str(&mut m, "xpTagCases mismatch at ");
            push_str(&mut m, XP_TAG_CASES_KIND[k]);
            proof {
                assert(m@ == xp_msg()(k as int));
            }
            add_msg(errors, m);
        }
        k = k + 1;
        proof {
            assert(msgs(errors@) =~= msgs(old(errors)@) + indexed_errors(k as nat, xp_bad(c@), xp_msg()));
        }
    }
}

pub open spec fn xi_bad(c: Seq<JsonValue>) -> spec_fn(int) -> bool {
    |k: int| !jstr_is(member(c[k], "kind"@), spec_xi_type_cases()[k].kind@)
}

pub open spec fn xi_msg() -> spec_fn(int) -> Seq<char> {
    |k: int| "xiTypeCases mismatch at "@ + spec_xi_type_cases()[k].kind@
}

pub open spec fn xi_section_errors(late: JsonValue) -> Seq<Seq<char>> {
    match member(late, "xiTypeCases"@) {
        Some(xi) => match jarr(member(xi, "cases"@)) {
            Some(c) => if c.len() == 9 {
                indexed_errors(9, xi_bad(c), xi_msg())
            } else {
                seq!["laterSameDay.xiTypeCases.cases length mismatch"@]
            },
            None => seq!["laterSameDay.xiTypeCases.cases length mismatch"@],
        },
        None => seq![],
    }
}

fn check_xi_cases(c: &Vec<JsonValue>, errors: &mut Vec<String>)
    requires
        c@.len() == 9,
    ensures
        msgs(final(errors)@) == msgs(old(errors)@) + indexed_errors(9, xi_bad(c@), xi_msg()),
{
    let mut k: usize = 0;
    while k < 9
        invariant
            k <= 9,
            c@.len() == 9,
            msgs(errors@) == msgs(old(errors)@) + indexed_errors(k as nat, xi_bad(c@), xi_msg()),
        decreases 9 - k,
    {
        let bad = !str_is(get_in(Some(&c[k]), "kind"), XI_TYPE_CASES_KIND[k]);
        proof {
            assert(bad == xi_bad(c@)(k as int));
        }
        if bad {
            let mut m = String::new();
            push_str(&mut m, "xiTypeCases mismatch at ");
            push_str(&mut m, XI_TYPE_CASES_KIND[k]);
            proof {
                assert(m@ == xi_msg()(k as int));
            }
            add_msg(errors, m);
        }
        k = k + 1;
        proof {
            assert(msgs(errors@) =~= msgs(old(errors)@) + indexed_errors(k as nat, xi_bad(c@), xi_msg()));
        }
    }
}

pub open spec fn prop_bad(p: Seq<JsonValue>) -> spec_fn(int) -> bool {
    |k: int| !jstr_is(member(p[k], "assign"@), spec_property_imm_roles_b_late()[k].assign@)
}

pub open spec fn prop_msg() -> spec_fn(int) -> Seq<char> {
    |k: int| "propertyImmRoles."@ + spec_property_imm_roles_b_late()[k].handler@ + " assign mismatch"@
}

pub open spec fn prop_section_errors(late: JsonValue) -> Seq<Seq<char>> {
    match jarr(member(late, "propertyImmRoles"@)) {
        Some(p) => error_if(p.len() != 8, "laterSameDay.propertyImmRoles length mismatch"@)
            + indexed_errors(min_nat(8, p.len()), prop_bad(p), prop_msg()),
        None => seq![],
    }
}

fn check_props(p: &Vec<JsonValue>, errors: &mut Vec<String>)
    ensures
        msgs(final(errors)@) == msgs(old(errors)@) + error_if(p@.len() != 8, "laterSameDay.propertyImmRoles length mismatch"@)
            + indexed_errors(min_nat(8, p@.len()), prop_bad(p@), prop_msg()),
{
    add_text_if(errors, p.len() != 8, "laterSameDay.propertyImmRoles length mismatch");
    let ghost e1 = msgs(errors@);
    let n: usize = if p.len() < 8 { p.len() } else { 8 };
    let mut k: usize = 0;
    while k < n
        invariant
            k <= n,
            n == min_nat(8, p@.len()),
            msgs(errors@) == e1 + indexed_errors(k as nat, prop_bad(p@), prop_msg()),
        decreases n - k,
    {
        let bad = !str_is(get_in(Some(&p[k]), "assign"), PROPERTY_IMM_ROLES_B_LATE_ASSIGN[k]);
        proof {
            assert(bad == prop_bad(p@)(k as int));
        }
        if bad {
            let mut m = String::new();
            push_str(&mut m, "propertyImmRoles.");
            push_str(&mut m, PROPERTY_IMM_ROLES_B_LATE_HANDLER[k]);
            push_str(&mut m, " assign mismatch");
            proof {
                assert(m@ == prop_msg()(k as int));
            }
            add_msg(errors, m);
        }
        k = k + 1;
        proof {
            assert(msgs(errors@) =~= e1 + indexed_errors(k as nat, prop_bad(p@), prop_msg()));
        }
    }
}

pub open spec fn leb_bad(p: Seq<JsonValue>) -> spec_fn(int) -> bool {
    |k: int|
        !jstr_is(member(p[k], "role"@), spec_leb_object_roles_b_late()[k].role@) || !jstr_is(
            member(p[k], "assign"@),
            spec_leb_object_roles_b_late()[k].assign@,
        )
}

pub open spec fn leb_msg() -> spec_fn(int) -> Seq<char> {
    |k: int| "lebObjectRoles."@ + spec_leb_object_roles_b_late()[k].handler@ + " mismatch"@
}

pub open spec fn leb_section_errors(late: JsonValue) -> Seq<Seq<char>> {
    match jarr(member(late, "lebObjectRoles"@)) {
        Some(p) => error_if(p.len() != 8, "laterSameDay.lebObjectRoles length mismatch"@)
            + indexed_errors(min_nat(8, p.len()), leb_bad(p), leb_msg()),
        None => seq![],
    }
}

fn check_lebs(p: &Vec<JsonValue>, errors: &mut Vec<String>)
    ensures
        msgs(final(errors)@) == msgs(old(errors)@) + error_if(p@.len() != 8, "laterSameDay.lebObjectRoles length mismatch"@)
            + indexed_errors(min_nat(8, p@.len()), leb_bad(p@), leb_msg()),
{
    add_text_if(errors, p.len() != 8, "laterSameDay.lebObjectRoles length mismatch");
    let ghost e1 = msgs(errors@);
    let n: usize = if p.len() < 8 { p.len() } else { 8 };
    let mut k: usize = 0;
    while k < n
        invariant
            k <= n,
            n == min_nat(8, p@.len()),
            msgs(errors@) == e1 + indexed_errors(k as nat, leb_bad(p@), leb_msg()),
        decreases n - k,
    {
        let row = Some(&p[k]);
        let bad = !str_is(get_in(row, "role"), LEB_OBJECT_ROLES_B_LATE_ROLE[k]) || !str_is(get_in(row, "assign"), LEB_OBJECT_ROLES_B_LATE_ASSIGN[k]);
        proof {
            assert(bad == leb_bad(p@)(k as int));
        }
        if bad {
            let mut m = String::new();
            push_str(&mut m, "lebObjectRoles.");
            push_str(&mut m, LEB_OBJECT_ROLES_B_LATE_HANDLER[k]);
            push_str(&mut m, " mismatch");
            proof {
                assert(m@ == leb_msg()(k as int));
            }
            add_msg(errors, m);
        }
        k = k + 1;
        proof {
            assert(msgs(errors@) =~= e1 + indexed_errors(k as nat, leb_bad(p@), leb_msg()));
        }
    }
}

pub open spec fn call_bad(p: Seq<JsonValue>) -> spec_fn(int) -> bool {
    |k: int|
        !jstr_is(member(p[k], "callee"@), spec_call_imm_roles_b_late()[k].callee@) || !jstr_is(
            member(p[k], "arity"@),
            spec_call_imm_roles_b_late()[k].arity@,
        )
}

pub open spec fn call_msg() -> spec_fn(int) -> Seq<char> {
    |k: int| "callImmRoles."@ + spec_call_imm_roles_b_late()[k].handler@ + " mismatch"@
}

pub open spec fn call_section_errors(late: JsonValue) -> Seq<Seq<char>> {
    match jarr(member(late, "callImmRoles"@)) {
        Some(p) => error_if(p.len() != 14, "laterSameDay.callImmRoles length mismatch"@)
            + indexed_errors(min_nat(14, p.len()), call_bad(p), call_msg()),
        None => seq![],
    }
}

fn check_calls(p: &Vec<JsonValue>, errors: &mut Vec<String>)
    ensures
        msgs(final(errors)@) == msgs(old(errors)@) + error_if(p@.len() != 14, "laterSameDay.callImmRoles length mismatch"@)
            + indexed_errors(min_nat(14, p@.len()), call_bad(p@), call_msg()),
{
    add_text_if(errors, p.len() != 14, "laterSameDay.callImmRoles length mismatch");
    let ghost e1 = msgs(errors@);
    let n: usize = if p.len() < 14 { p.len() } else { 14 };
    let mut k: usize = 0;
    while k < n
        invariant
            k <= n,
            n == min_nat(14, p@.len()),
            msgs(errors@) == e1 + indexed_errors(k as nat, call_bad(p@), call_msg()),
        decreases n - k,
    {
        let row = Some(&p[k]);
        let bad = !str_is(get_in(row, "callee"), CALL_IMM_ROLES_B_LATE_CALLEE[k]) || !str_is(get_in(row, "arity"), CALL_IMM_ROLES_B_LATE_ARITY[k]);
        proof {
            assert(bad == call_bad(p@)(k as int));
        }
        if bad {
            let mut m = String::new();
            push_str(&mut m, "callImmRoles.");
            push_str(&mut m, CALL_IMM_ROLES_B_LATE_HANDLER[k]);
            push_str(&mut m, " mismatch");
            proof {
                assert(m@ == call_msg()(k as int));
            }
            add_msg(errors, m);
        }
        k = k + 1;
        proof {
            assert(msgs(errors@) =~= e1 + indexed_errors(k as nat, call_bad(p@), call_msg()));
        }
    }
}

pub open spec fn jump_bad(p: Seq<JsonValue>) -> spec_fn(int) -> bool {
    |k: int|
        !jstr_is(member(p[k], "condition"@), spec_jump_imm_roles_b_late()[k].condition@) || !jstr_is(
            member(p[k], "paths"@),
            spec_jump_imm_roles_b_late()[k].paths@,
        )
}

pub open spec fn jump_msg() -> spec_fn(int) -> Seq<char> {
    |k: int| "jumpImmRoles."@ + spec_jump_imm_roles_b_late()[k].handler@ + " mismatch"@
}

pub open spec fn jump_section_errors(late: JsonValue) -> Seq<Seq<char>> {
    match jarr(member(late, "jumpImmRoles"@)) {
        Some(p) => error_if(p.len() != 7, "laterSameDay.jumpImmRoles length mismatch"@)
            + indexed_errors(min_nat(7, p.len()), jump_bad(p), jump_msg()),
        None => seq![],
    }
}

fn check_jumps(p: &Vec<JsonValue>, errors: &mut Vec<String>)
    ensures
        msgs(final(errors)@) == msgs(old(errors)@) + error_if(p@.len() != 7, "laterSameDay.jumpImmRoles length mismatch"@)
            + indexed_errors(min_nat(7, p@.len()), jump_bad(p@), jump_msg()),
{
    add_text_if(errors, p.len() != 7, "laterSameDay.jumpImmRoles length mismatch");
    let ghost e1 = msgs(errors@);
    let n: usize = if p.len() < 7 { p.len() } else { 7 };
    let mut k: usize = 0;
    while k < n
        invariant
            k <= n,
            n == min_nat(7, p@.len()),
            msgs(errors@) == e1 + indexed_errors(k as nat, jump_bad(p@), jump_msg()),
        decreases n - k,
    {
        let row = Some(&p[k]);
        let bad = !str_is(get_in(row, "condition"), JUMP_IMM_ROLES_B_LATE_CONDITION[k]) || !str_is(get_in(row, "paths"), JUMP_IMM_ROLES_B_LATE_PATHS[k]);
        proof {
            assert(bad == jump_bad(p@)(k as int));
        }
        if bad {
            let mut m = String::new();
            push_str(&mut m, "jumpImmRoles.");
            push_str(&mut m, JUMP_IMM_ROLES_B_LATE_HANDLER[k]);
            push_str(&mut m, " mismatch");
            proof {
                assert(m@ == jump_msg()(k as int));
            }
            add_msg(errors, m);
        }
        k = k + 1;
        proof {
            assert(msgs(errors@) =~= e1 + indexed_errors(k as nat, jump_bad(p@), jump_msg()));
        }
    }
}

pub open spec fn s1_bad(p: Seq<JsonValue>) -> spec_fn(int) -> bool {
    |k: int|
        ju64(member(p[k], "imm"@)) != Some(spec_s1_cases_b_late()[k].imm as u64) || !jstr_is(
            member(p[k], "kind"@),
            spec_s1_cases_b_late()[k].kind@,
        )
}

pub open spec fn s1_msg() -> spec_fn(int) -> Seq<char> {
    |k: int| "s1Cases opcode "@ + decimal(spec_s1_cases_b_late()[k].opcode as nat) + " mismatch"@
}

pub open spec fn s1_section_errors(late: JsonValue) -> Seq<Seq<char>> {
    match jarr(member(late, "s1Cases"@)) {
        Some(p) => error_if(p.len() != 18, "laterSameDay.s1Cases length mismatch"@)
            + indexed_errors(min_nat(18, p.len()), s1_bad(p), s1_msg()),
        None => seq![],
    }
}

fn check_s1(p: &Vec<JsonValue>, errors: &mut Vec<String>)
    ensures
        msgs(final(errors)@) == msgs(old(errors)@) + error_if(p@.len() != 18, "laterSameDay.s1Cases length mismatch"@)
            + indexed_errors(min_nat(18, p@.len()), s1_bad(p@), s1_msg()),
{
    add_text_if(errors, p.len() != 18, "laterSameDay.s1Cases length mismatch");
    let ghost e1 = msgs(errors@);
    let n: usize = if p.len() < 18 { p.len() } else { 18 };
    let mut k: usize = 0;
    while k < n
        invariant
            k <= n,
            n == min_nat(18, p@.len()),
            msgs(errors@) == e1 + indexed_errors(k as nat, s1_bad(p@), s1_msg()),
        decreases n - k,
    {
        let row = Some(&p[k]);
        let bad = as_u64(get_in(row, "imm")) != Some(S1_CASES_B_LATE_IMM[k] as u64) || !str_is(get_in(row, "kind"), S1_CASES_B_LATE_KIND[k]);
        proof {
            assert(bad == s1_bad(p@)(k as int));
        }
        if bad {
            let mut m = String::new();
            push_str(&mut m, "s1Cases opcode ");
            push_decimal(&mut m, S1_CASES_B_LATE_OPCODE[k] as u64);
            push_str(&mut m, " mismatch");
            proof {
                assert(m@ == s1_msg()(k as int));
            }
            add_msg(errors, m);
        }
        k = k + 1;
        proof {
            assert(msgs(errors@) =~= e1 + indexed_errors(k as nat, s1_bad(p@), s1_msg()));
        }
    }
}

pub open spec fn s2_bad(p: Seq<JsonValue>) -> spec_fn(int) -> bool {
    |k: int|
        ju64(member(p[k], "imm"@)) != Some(spec_s2_cases_b_late()[k].imm as u64) || !jstr_is(
            member(p[k], "kind"@),
            spec_s2_cases_b_late()[k].kind@,
        )
}

pub open spec fn s2_msg() -> spec_fn(int) -> Seq<char> {
    |k: int| "s2Cases opcode "@ + decimal(spec_s2_cases_b_late()[k].opcode as nat) + " mismatch"@
}

pub open spec fn s2_section_errors(late: JsonValue) -> Seq<Seq<char>> {
    match jarr(member(late, "s2Cases"@)) {
        Some(p) => error_if(p.len() != 5, "laterSameDay.s2Cases length mismatch"@)
            + indexed_errors(min_nat(5, p.len()), s2_bad(p), s2_msg()),
        None => seq![],
    }
}

fn check_s2(p: &Vec<JsonValue>, errors: &mut Vec<String>)
    ensures
        msgs(final(errors)@) == msgs(old(errors)@) + error_if(p@.len() != 5, "laterSameDay.s2Cases length mismatch"@)
            + indexed_errors(min_nat(5, p@.len()), s2_bad(p@), s2_msg()),
{
    add_text_if(errors, p.len() != 5, "laterSameDay.s2Cases length mismatch");
    let ghost e1 = msgs(errors@);
    let n: usize = if p.len() < 5 { p.len() } else { 5 };
    let mut k: usize = 0;
    while k < n
        invariant
            k <= n,
            n == min_nat(5, p@.len()),
            msgs(errors@) == e1 + indexed_errors(k as nat, s2_bad(p@), s2_msg()),
        decreases n - k,
    {
        let row = Some(&p[k]);
        let bad = as_u64(get_in(row, "imm")) != Some(S2_CASES_B_LATE_IMM[k] as u64) || !str_is(get_in(row, "kind"), S2_CASES_B_LATE_KIND[k]);
        proof {
            assert(bad == s2_bad(p@)(k as int));
        }
        if bad {
            let mut m = String::new();
            push_str(&mut m, "s2Cases opcode ");
            push_decimal(&mut m, S2_CASES_B_LATE_OPCODE[k] as u64);
            push_str(&mut m, " mismatch");
            proof {
                assert(m@ == s2_msg()(k as int));
            }
            add_msg(errors, m);
        }
        k = k + 1;
        proof {
            assert(msgs(errors@) =~= e1 + indexed_errors(k as nat, s2_bad(p@), s2_msg()));
        }
    }
}

pub open spec fn xd_section_errors(late: JsonValue) -> Seq<Seq<char>> {
    match member(late, "xdMix"@) {
        Some(xd) => error_if(
            ju64(member(xd, "seed"@)) != Some(XD_MIX_SEED as u64) || ju64(member(xd, "slotXor"@)) != Some(XD_SLOT_XOR as u64),
            "laterSameDay.xdMix mismatch"@,
        ),
        None => seq![],
    }
}

pub open spec fn html_handler_errors(late: JsonValue) -> Seq<Seq<char>> {
    error_if(!jstr_is(member(late, "s1HtmlHandler"@), S1_HTML_HANDLER@), "laterSameDay.s1HtmlHandler should be gS"@)
        + error_if(!jstr_is(member(late, "s2HtmlHandler"@), S2_HTML_HANDLER@), "laterSameDay.s2HtmlHandler should be gK"@)
}

fn check_first_xf(late: &JsonValue, errors: &mut Vec<String>)
    ensures
        msgs(final(errors)@) == msgs(old(errors)@) + first_xf_errors(*late),
{
    add_text_if(errors, as_u64(late.get("firstXfTag")) != Some(XF_TAG_STRING as u64), "laterSameDay firstXfTag should be 199 (string)");
}

fn check_stable_section(late: &JsonValue, errors: &mut Vec<String>)
    ensures
        msgs(final(errors)@) == msgs(old(errors)@) + stable_section_errors(*late),
{
    match late.get("chromeStableWidths") {
        Some(w) => check_stable_widths(w, errors),
        None => {},
    }
    proof {
        assert(msgs(errors@) =~= msgs(old(errors)@) + stable_section_errors(*late));
    }
}

fn check_extras_section(late: &JsonValue, errors: &mut Vec<String>)
    ensures
        msgs(final(errors)@) == msgs(old(errors)@) + extras_section_errors(*late),
{
    match late.get("operandExtras") {
        Some(ex) => {
            check_extras(ex, errors);
            add_text_if(
                errors,
                as_u64(late.get("directHandlerCount")) != Some(LATE_DIRECT_HANDLER_COUNT as u64),
                "laterSameDay.directHandlerCount should be 46",
            );
        },
        None => {},
    }
    proof {
        assert(msgs(errors@) =~= msgs(old(errors)@) + extras_section_errors(*late));
    }
}

fn check_xf_section(late: &JsonValue, errors: &mut Vec<String>)
    ensures
        msgs(final(errors)@) == msgs(old(errors)@) + xf_section_errors(*late),
{
    match late.get("xfTagCases") {
        Some(xf) => {
            match as_array(xf.get("cases")) {
                Some(c) => {
                    if c.len() == 12 {
                        check_xf_cases(c, errors);
                    } else {
                        add_text(errors, "laterSameDay.xfTagCases.cases length mismatch");
                    }
                },
                None => add_text(errors, "laterSameDay.xfTagCases.cases length mismatch"),
            }
            add_text_if(errors, !str_is(xf.get("defaultKind"), "true"), "xfTagCases.defaultKind should be true");
        },
        None => {},
    }
    proof {
        assert(msgs(errors@) =~= msgs(old(errors)@) + xf_section_errors(*late));
    }
}

fn check_xp_section(late: &JsonValue, errors: &mut Vec<String>)
    ensures
        msgs(final(errors)@) == msgs(old(errors)@) + xp_section_errors(*late),
{
    match late.get("xpTagCases") {
        Some(xp) => {
            match as_array(xp.get("cases")) {
                Some(c) => {
                    if c.len() == 3 {
                        check_xp_cases(c, errors);
                    } else {
                        add_text(errors, "laterSameDay.xpTagCases.cases length mismatch");
                    }
                },
                None => add_text(errors, "laterSameDay.xpTagCases.cases length mismatch"),
            }
        },
        None => {},
    }
    proof {
        assert(msgs(errors@) =~= msgs(old(errors)@) + xp_section_errors(*late));
    }
}

fn check_xi_section(late: &JsonValue, errors: &mut Vec<String>)
    ensures
        msgs(final(errors)@) == msgs(old(errors)@) + xi_section_errors(*late),
{
    match late.get("xiTypeCases") {
        Some(xi) => {
            match as_array(xi.get("cases")) {
                Some(c) => {
                    if c.len() == 9 {
                        check_xi_cases(c, errors);
                    } else {
                        add_text(errors, "laterSameDay.xiTypeCases.cases length mismatch");
                    }
                },
                None => add_text(errors, "laterSameDay.xiTypeCases.cases length mismatch"),
            }
        },
        None => {},
    }
    proof {
        assert(msgs(errors@) =~= msgs(old(errors)@) + xi_section_errors(*late));
    }
}

fn check_role_sections(late: &JsonValue, errors: &mut Vec<String>)
    ensures
        msgs(final(errors)@) == msgs(old(errors)@) + prop_section_errors(*late) + leb_section_errors(*late),
{
    match as_array(late.get("propertyImmRoles")) {
        Some(p) => check_props(p, errors),
        None => {},
    }
    let ghost e1 = msgs(errors@);
    match as_array(late.get("lebObjectRoles")) {
        Some(p) => check_lebs(p, errors),
        None => {},
    }
    proof {
        assert(e1 =~= msgs(old(errors)@) + prop_section_errors(*late));
        assert(msgs(errors@) =~= e1 + leb_section_errors(*late));
        assert(msgs(errors@) =~= msgs(old(errors)@) + prop_section_errors(*late) + leb_section_errors(*late));
    }
}

fn check_call_sections(late: &JsonValue, errors: &mut Vec<String>)
    ensures
        msgs(final(errors)@) == msgs(old(errors)@) + call_section_errors(*late) + jump_section_errors(*late),
{
    match as_array(late.get("callImmRoles")) {
        Some(p) => check_calls(p, errors),
        None => {},
    }
    let ghost e1 = msgs(errors@);
    match as_array(late.get("jumpImmRoles")) {
        Some(p) => check_jumps(p, errors),
        None => {},
    }
    proof {
        assert(e1 =~= msgs(old(errors)@) + call_section_errors(*late));
        assert(msgs(errors@) =~= e1 + jump_section_errors(*late));
        assert(msgs(errors@) =~= msgs(old(errors)@) + call_section_errors(*late) + jump_section_errors(*late));
    }
}

fn check_xd_section(late: &JsonValue, errors: &mut Vec<String>)
    ensures
        msgs(final(errors)@) == msgs(old(errors)@) + xd_section_errors(*late),
{
    match late.get("xdMix") {
        Some(xd) => add_text_if(
            errors,
            as_u64(xd.get("seed")) != Some(XD_MIX_SEED as u64) || as_u64(xd.get("slotXor")) != Some(XD_SLOT_XOR as u64),
            "laterSameDay.xdMix mismatch",
        ),
        None => {},
    }
    proof {
        assert(msgs(errors@) =~= msgs(old(errors)@) + xd_section_errors(*late));
    }
}

fn check_s_sections(late: &JsonValue, errors: &mut Vec<String>)
    ensures
        msgs(final(errors)@) == msgs(old(errors)@) + s1_section_errors(*late) + s2_section_errors(*late),
{
    match as_array(late.get("s1Cases")) {
        Some(p) => check_s1(p, errors),
        None => {},
    }
    let ghost e1 = msgs(errors@);
    match as_array(late.get("s2Cases")) {
        Some(p) => check_s2(p, errors),
        None => {},
    }
    proof {
        assert(e1 =~= msgs(old(errors)@) + s1_section_errors(*late));
        assert(msgs(errors@) =~= e1 + s2_section_errors(*late));
        assert(msgs(errors@) =~= msgs(old(errors)@) + s1_section_errors(*late) + s2_section_errors(*late));
    }
}

fn check_html_handlers(late: &JsonValue, errors: &mut Vec<String>)
    ensures
        msgs(final(errors)@) == msgs(old(errors)@) + html_handler_errors(*late),
{
    add_text_if(errors, !str_is(late.get("s1HtmlHandler"), S1_HTML_HANDLER), "laterSameDay.s1HtmlHandler should be gS");
    add_text_if(errors, !str_is(late.get("s2HtmlHandler"), S2_HTML_HANDLER), "laterSameDay.s2HtmlHandler should be gK");
    proof {
        assert(msgs(errors@) =~= msgs(old(errors)@) + html_handler_errors(*late));
    }
}

/// The first half of the late table checks: first tag, widths, extras, `Xf` cases, roles.
pub open spec fn late_tables_errors_a(late: JsonValue) -> Seq<Seq<char>> {
    first_xf_errors(late) + stable_section_errors(late) + extras_section_errors(late) + xf_section_errors(late)
        + prop_section_errors(late) + leb_section_errors(late)
}

/// The second half: `Xp` cases, call and jump roles, `Xi` cases, `Xd` mix, s1/s2 cases, HTML handlers.
pub open spec fn late_tables_errors_b(late: JsonValue) -> Seq<Seq<char>> {
    xp_section_errors(late) + call_section_errors(late) + jump_section_errors(late) + xi_section_errors(late)
        + xd_section_errors(late) + s1_section_errors(late) + s2_section_errors(late) + html_handler_errors(late)
}

/// The messages for the late case tables.
pub open spec fn late_tables_errors(late: JsonValue) -> Seq<Seq<char>> {
    late_tables_errors_a(late) + late_tables_errors_b(late)
}

fn check_late_tables_a(late: &JsonValue, errors: &mut Vec<String>)
    ensures
        msgs(final(errors)@) == msgs(old(errors)@) + late_tables_errors_a(*late),
{
    check_first_xf(late, errors);
    check_stable_section(late, errors);
    check_extras_section(late, errors);
    check_xf_section(late, errors);
    check_role_sections(late, errors);
    proof {
        assert(msgs(errors@) =~= msgs(old(errors)@) + late_tables_errors_a(*late));
    }
}

fn check_late_tables_b(late: &JsonValue, errors: &mut Vec<String>)
    ensures
        msgs(final(errors)@) == msgs(old(errors)@) + late_tables_errors_b(*late),
{
    check_xp_section(late, errors);
    check_call_sections(late, errors);
    check_xi_section(late, errors);
    check_xd_section(late, errors);
    check_s_sections(late, errors);
    check_html_handlers(late, errors);
    proof {
        assert(msgs(errors@) =~= msgs(old(errors)@) + late_tables_errors_b(*late));
    }
}

/// Checks the late case tables of a later-same-day section.
pub(crate) fn check_late_tables(late: &JsonValue, errors: &mut Vec<String>)
    ensures
        msgs(final(errors)@) == msgs(old(errors)@) + late_tables_errors(*late),
{
    check_late_tables_a(late, errors);
    check_late_tables_b(late, errors);
    proof {
        assert(msgs(errors@) =~= msgs(old(errors)@) + late_tables_errors(*late));
    }
}

} // verus!

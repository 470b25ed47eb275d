//! Operand encodings for mapped `runProgram` handlers.
//!
//! After the fetch loop consumes the opcode byte and updates `key`, handlers
//! read immediates with the post-fetch key and without the key schedule:
//!
//! ```text
//! imm = next_key ^ wrapping_sub(byte, bias) ^ extra_xor
//! ```
//!
//! `extra_xor` is JS `ToInt32` of an obfuscated float (`62.48` -> `62`).
//! Handler layouts are catalogued by opcode number. Nothing here executes
//! handlers or produces a token.
use vstd::prelude::*;
use crate::run_program_vm::{
    fetch_branch_b, fetch_branch_b_late, fetch_branch_b_late_spec, fetch_branch_b_spec,
    opcode_def_in, opcode_table_b, opcode_table_b_late, spec_decode_opcode, spec_next_key,
    spec_opcode_table_b, spec_opcode_table_b_late, step_fetch, FetchParams, OpcodeDef, OpcodeKind,
    DIRECT_HANDLERS_B_LATE, DIRECT_OPCODES_B_LATE,
};

verus! {

/// Remaining live gap: handler semantics (do not run handlers as a solver).
pub const NEXT_GAP: &'static str = "handler_semantics";

/// Operand byte using the post-fetch key.
pub open spec fn spec_operand(params: FetchParams, next_key: u8, byte: u8, extra_xor: u8) -> u8 {
    spec_decode_opcode(params, next_key, byte) ^ extra_xor
}

/// Operand byte using the post-fetch key.
pub fn operand_from_byte(params: FetchParams, next_key: u8, byte: u8, extra_xor: u8) -> (r: u8)
    ensures
        r == spec_operand(params, next_key, byte, extra_xor),
{
    crate::run_program_vm::decode_opcode(params, next_key, byte) ^ extra_xor
}

/// Instruction width of a handler.
#[derive(Debug, Clone, Copy, PartialEq, Eq)]
pub enum InstrWidth {
    /// Total bytes including the opcode. Stable across Chrome PC deltas.
    Fixed(u8),
    /// Tagged load / unary family / control flow: width depends on the operands.
    Variable,
}

/// `0` encodes a variable width; any other value is a fixed width.
pub open spec fn instr_width(w: u8) -> InstrWidth {
    if w == 0 {
        InstrWidth::Variable
    } else {
        InstrWidth::Fixed(w)
    }
}

fn make_width(w: u8) -> (r: InstrWidth)
    ensures
        r == instr_width(w),
{
    if w == 0 {
        InstrWidth::Variable
    } else {
        InstrWidth::Fixed(w)
    }
}

/// Operand layout of one switch case.
#[derive(Debug, Clone, Copy, PartialEq, Eq)]
pub struct HandlerLayout {
    pub opcode: u8,
    pub handler: &'static str,
    pub width: InstrWidth,
    /// Operand extra-xors, the first `xor_count` entries are used.
    pub xors: [u8; 6],
    pub xor_count: u8,
    /// Shape tag from HTML (not a solver). Opcode-keyed; names rotate.
    pub family: &'static str,
    pub note: &'static str,
}

impl HandlerLayout {
    /// The operand extra-xors in read order.
    pub fn extra_xors(&self) -> (r: &[u8])
        requires
            self.xor_count <= 6,
        ensures
            r@ == self.xors@.subrange(0, self.xor_count as int),
    {
        vstd::slice::slice_subrange(self.xors.as_slice(), 0, self.xor_count as usize)
    }
}

pub const DN_OPCODE: u8 = 8;
pub const DN_TAG_XOR: u8 = 154;
pub const DN_DST_XOR: u8 = 48;
pub const DN_INT_XOR: u8 = 59;
pub const DN_TAG_INT: u8 = 49;
pub const DN_TAG_UNDEF: u8 = 230;
pub const DN_TAG_STRING: u8 = 179;
pub const DN_TAG_NULL: u8 = 42;
pub const DN_TAG_FALSE: u8 = 66;
pub const DN_TAG_FLOAT: u8 = 191;
pub const DN_TAG_BYTES: u8 = 206;
pub const XF_OPCODE: u8 = 222;
pub const XF_TAG_XOR: u8 = 86;
pub const XF_DST_XOR: u8 = 112;
pub const XF_INT_XOR: u8 = 19;
pub const XF_TAG_INT: u8 = 162;
pub const XF_TAG_UNDEF: u8 = 86;
pub const XF_TAG_STRING: u8 = 199;
pub const XF_TAG_LEB: u8 = 36;
pub const XF_TAG_FLOAT: u8 = 58;
pub const XF_TAG_NULL: u8 = 80;
pub const XF_TAG_FALSE: u8 = 202;
pub const XF_TAG_BYTES: u8 = 161;
pub const XF_STRING_CHARSET_XOR: u8 = 136;
pub const XF_TAG_NUMBER_A: u8 = 165;
pub const XF_TAG_NUMBER_B: u8 = 174;
pub const XF_TAG_PACKED: u8 = 98;
pub const XF_TAG_REGEXP: u8 = 117;
pub const XF_TAG_GATE: u8 = 109;
pub const XP_TAG_XOR: u8 = 52;
pub const XP_TAG_BIND: u8 = 227;
pub const XP_TAG_LOAD: u8 = 78;
pub const XP_TAG_ALLOC: u8 = 1;
pub const JUMP_KEY_XOR: u8 = 207;
pub const XI_OPCODE: u8 = 135;
pub const XI_TYPE_XOR: u8 = 164;
pub const XI_BUFFER_SLOT_XOR: u8 = 198;
pub const XD_OPCODE: u8 = 219;
pub const XD_SLOT_XOR: u8 = 77;
pub const GQ_OPCODE: u8 = 246;
pub const GG_OPCODE: u8 = 227;
pub const X3_OPCODE: u8 = 104;
pub const GY_OPCODE: u8 = 72;
pub const X4_OPCODE: u8 = 12;
pub const XZ_OPCODE: u8 = 52;
pub const XG_OPCODE: u8 = 130;
pub const GE_OPCODE: u8 = 169;
pub const XD_MIX_SEED: u32 = 854423113;
pub const XD_MIX_A: u32 = 11095;
pub const XD_MIX_B: u32 = 49971;
/// One entry per Direct switch case on the 56907 iframe (not s1/s2).
pub const LATE_DIRECT_HANDLER_COUNT: usize = 46;
/// Late-`b` s1 HTML handler (`gS`).
pub const S1_HTML_HANDLER: &'static str = "gS";
/// Late-`b` s2 HTML handler (`gK`).
pub const S2_HTML_HANDLER: &'static str = "gK";

#[derive(Debug, Clone, Copy, PartialEq, Eq)]
pub struct XfTagCase {
    pub tag: u8,
    pub kind: &'static str,
    pub note: &'static str,
}

#[derive(Debug, Clone, Copy, PartialEq, Eq)]
pub struct PropertyImmRoles {
    pub opcode: u8,
    pub handler: &'static str,
    pub family: &'static str,
    /// Operand roles in read order, the first `role_count` entries are used.
    pub role_names: [&'static str; 5],
    pub role_count: u8,
    pub assign: &'static str,
    pub note: &'static str,
}

impl PropertyImmRoles {
    /// Operand roles in read order.
    pub fn roles(&self) -> (r: &[&'static str])
        requires
            self.role_count <= 5,
        ensures
            r@ == self.role_names@.subrange(0, self.role_count as int),
    {
        vstd::slice::slice_subrange(self.role_names.as_slice(), 0, self.role_count as usize)
    }
}

#[derive(Debug, Clone, Copy, PartialEq, Eq)]
pub struct LebObjectRole {
    pub opcode: u8,
    pub handler: &'static str,
    pub role: &'static str,
    pub assign: &'static str,
    pub note: &'static str,
}

#[derive(Debug, Clone, Copy, PartialEq, Eq)]
pub struct XpTagCase {
    pub tag: u8,
    pub kind: &'static str,
    pub note: &'static str,
}

#[derive(Debug, Clone, Copy, PartialEq, Eq)]
pub struct CallImmRoles {
    pub opcode: u8,
    pub handler: &'static str,
    pub callee: &'static str,
    pub arity: &'static str,
    pub assign: &'static str,
    pub note: &'static str,
}

#[derive(Debug, Clone, Copy, PartialEq, Eq)]
pub struct JumpImmRoles {
    pub opcode: u8,
    pub handler: &'static str,
    pub condition: &'static str,
    pub paths: &'static str,
    pub key_extra: u8,
    pub note: &'static str,
}

#[derive(Debug, Clone, Copy, PartialEq, Eq)]
pub struct XiTypeCase {
    pub tag: u8,
    pub kind: &'static str,
    pub note: &'static str,
}

#[derive(Debug, Clone, Copy, PartialEq, Eq)]
pub struct S1Case {
    pub opcode: u8,
    pub imm: u8,
    pub kind: &'static str,
    pub note: &'static str,
}

#[derive(Debug, Clone, Copy, PartialEq, Eq)]
pub struct S2Case {
    pub opcode: u8,
    pub imm: u8,
    pub kind: &'static str,
    pub note: &'static str,
}

pub const XF_TAG_CASES_TAG: [u8; 12] = [162, 86, 199, 36, 58, 80, 165, 174, 202, 98, 161, 117];
pub const XF_TAG_CASES_KIND: [&'static str; 12] = [
    "int",
    "undefined",
    "string",
    "leb_int",
    "float",
    "null",
    "number_host",
    "number_host",
    "false",
    "packed_tuple",
    "bytes",
    "regexp",
];
pub const XF_TAG_CASES_NOTE: [&'static str; 12] = [
    "value ^= 19 then store to regs[dst]",
    "store void 0",
    "LEB length; charset extra 136",
    "LEB integer payload",
    "IEEE-like Math.pow(2, exp) bit walk",
    "store null",
    "Number[obfuscated prop]; not a JSON key",
    "Number[other obfuscated prop]",
    "store !1; inside 109!== gate",
    "u24-ish tuple plus extra 207.58 and this.m",
    "LEB length; charset extra 136",
    "two LEB strings (charset 195, 229) then RegExp",
];

pub open spec fn spec_xf_tag_cases() -> Seq<XfTagCase> {
    Seq::new(12, |i: int| XfTagCase { tag: XF_TAG_CASES_TAG@[i], kind: XF_TAG_CASES_KIND@[i], note: XF_TAG_CASES_NOTE@[i] })
}

/// `Xf`/222 tag `switch` from the 56907 iframe (tag extra 86, dst extra 112).
pub fn xf_tag_cases() -> (t: Vec<XfTagCase>)
    ensures
        t@ == spec_xf_tag_cases(),
{
    let mut t: Vec<XfTagCase> = Vec::new();
    let mut i: usize = 0;
    while i < 12
        invariant
            i <= 12,
            t@ == spec_xf_tag_cases().subrange(0, i as int),
        decreases 12 - i,
    {
        t.push(XfTagCase { tag: XF_TAG_CASES_TAG[i], kind: XF_TAG_CASES_KIND[i], note: XF_TAG_CASES_NOTE[i] });
        i = i + 1;
        assert(t@ =~= spec_xf_tag_cases().subrange(0, i as int));
    }
    assert(t@ =~= spec_xf_tag_cases());
    t
}

/// Kind of an `Xf` tag, if the tag has a case.
pub fn xf_tag_kind(tag: u8) -> (r: Option<&'static str>)
    ensures
        ({
            let rows = spec_xf_tag_cases();
            match r {
                Some(x) => exists|k: int| 0 <= k < rows.len() && rows[k].tag == tag && x == rows[k].kind && (forall|j: int| 0 <= j < k ==> rows[j].tag != tag),
                None => forall|k: int| 0 <= k < rows.len() ==> rows[k].tag != tag,
            }
        }),
{
    let mut i: usize = 0;
    while i < 12
        invariant
            i <= 12,
            forall|j: int| 0 <= j < i ==> spec_xf_tag_cases()[j].tag != tag,
        decreases 12 - i,
    {
        if XF_TAG_CASES_TAG[i] == tag {
            proof { assert(spec_xf_tag_cases()[i as int].tag == tag); }
            return Some(XF_TAG_CASES_KIND[i]);
        }
        i = i + 1;
    }
    None
}


pub const PROPERTY_IMM_ROLES_B_LATE_OPCODE: [u8; 8] = [132, 227, 169, 138, 72, 183, 226, 140];
pub const PROPERTY_IMM_ROLES_B_LATE_HANDLER: [&'static str; 8] = [
    "gy",
    "gG",
    "ge",
    "gN",
    "gY",
    "gZ",
    "gC",
    "gl",
];
pub const PROPERTY_IMM_ROLES_B_LATE_FAMILY: [&'static str; 8] = [
    "property_get",
    "property_set",
    "property_set",
    "property_set",
    "nested_property_get",
    "dual_property_get",
    "string_key_set",
    "string_key_get",
];
pub const PROPERTY_IMM_ROLES_B_LATE_ROLES: [[&'static str; 5]; 8] = [
    ["obj", "dst", "key", "", ""],
    ["key", "obj", "src", "", ""],
    ["obj", "key_slot", "src", "key_imm", ""],
    ["obj", "key", "dst", "src_imm", ""],
    ["k1", "k2", "dst", "obj", ""],
    ["k_a", "dst_b", "obj", "k_b", "dst_a"],
    ["obj", "src", "", "", ""],
    ["obj", "dst", "", "", ""],
];
pub const PROPERTY_IMM_ROLES_B_LATE_ROLES_LEN: [u8; 8] = [3, 3, 4, 4, 4, 5, 2, 2];
pub const PROPERTY_IMM_ROLES_B_LATE_ASSIGN: [&'static str; 8] = [
    "dst = obj[key]",
    "obj[key] = src",
    "regs[key_slot]=key_imm; obj[key_imm]=src",
    "regs[dst]=src_imm; obj[regs[key]]=src_imm",
    "dst = obj[k1][k2]",
    "dst_a = obj[k_b]; dst_b = obj[k_a]",
    "obj[leb_string] = src",
    "dst = obj[leb_string]",
];
pub const PROPERTY_IMM_ROLES_B_LATE_NOTE: [&'static str; 8] = [
    "Xt[Xo]=Xt[XQ][Xt[XM]]; extras 99, 216, 38",
    "Xt[Xo][Xt[XQ]]=Xt[XM]; extras 221, 41, 180",
    "4th imm is the property name itself (decoded this.i), not a register; sibling of gN",
    "4th imm is the value; key is a register. Sibling of ge (same extras 41,221,180,19)",
    "Xt[XR]=Xt[XM][Xt[XQ]][Xt[Xo]]; extras 117, 221, 231, 177",
    "two gets from the same object; extras 208, 108, 168, 12, 192",
    "LEB string key charset extra 1; string is in packed bytecode, not this HTML",
    "LEB string key charset extra 43 then extras 69, 118; string is in packed bytecode",
];

pub open spec fn spec_property_imm_roles_b_late() -> Seq<PropertyImmRoles> {
    Seq::new(8, |i: int| PropertyImmRoles { opcode: PROPERTY_IMM_ROLES_B_LATE_OPCODE@[i], handler: PROPERTY_IMM_ROLES_B_LATE_HANDLER@[i], family: PROPERTY_IMM_ROLES_B_LATE_FAMILY@[i], role_names: PROPERTY_IMM_ROLES_B_LATE_ROLES@[i], role_count: PROPERTY_IMM_ROLES_B_LATE_ROLES_LEN@[i], assign: PROPERTY_IMM_ROLES_B_LATE_ASSIGN@[i], note: PROPERTY_IMM_ROLES_B_LATE_NOTE@[i] })
}

/// Property get/set handlers on the 56907 iframe; immediates select register slots or a LEB string.
pub fn property_imm_roles_b_late() -> (t: Vec<PropertyImmRoles>)
    ensures
        t@ == spec_property_imm_roles_b_late(),
{
    let mut t: Vec<PropertyImmRoles> = Vec::new();
    let mut i: usize = 0;
    while i < 8
        invariant
            i <= 8,
            t@ == spec_property_imm_roles_b_late().subrange(0, i as int),
        decreases 8 - i,
    {
        t.push(PropertyImmRoles { opcode: PROPERTY_IMM_ROLES_B_LATE_OPCODE[i], handler: PROPERTY_IMM_ROLES_B_LATE_HANDLER[i], family: PROPERTY_IMM_ROLES_B_LATE_FAMILY[i], role_names: PROPERTY_IMM_ROLES_B_LATE_ROLES[i], role_count: PROPERTY_IMM_ROLES_B_LATE_ROLES_LEN[i], assign: PROPERTY_IMM_ROLES_B_LATE_ASSIGN[i], note: PROPERTY_IMM_ROLES_B_LATE_NOTE[i] });
        i = i + 1;
        assert(t@ =~= spec_property_imm_roles_b_late().subrange(0, i as int));
    }
    assert(t@ =~= spec_property_imm_roles_b_late());
    t
}

/// Property get/set roles of a late-`b` opcode.
pub fn property_roles_for_late(opcode: u8) -> (r: Option<PropertyImmRoles>)
    ensures
        ({
            let rows = spec_property_imm_roles_b_late();
            match r {
                Some(x) => exists|k: int| 0 <= k < rows.len() && rows[k].opcode == opcode && x == rows[k] && (forall|j: int| 0 <= j < k ==> rows[j].opcode != opcode),
                None => forall|k: int| 0 <= k < rows.len() ==> rows[k].opcode != opcode,
            }
        }),
{
    let mut i: usize = 0;
    while i < 8
        invariant
            i <= 8,
            forall|j: int| 0 <= j < i ==> spec_property_imm_roles_b_late()[j].opcode != opcode,
        decreases 8 - i,
    {
        if PROPERTY_IMM_ROLES_B_LATE_OPCODE[i] == opcode {
            proof { assert(spec_property_imm_roles_b_late()[i as int].opcode == opcode); }
            return Some(PropertyImmRoles { opcode: PROPERTY_IMM_ROLES_B_LATE_OPCODE[i], handler: PROPERTY_IMM_ROLES_B_LATE_HANDLER[i], family: PROPERTY_IMM_ROLES_B_LATE_FAMILY[i], role_names: PROPERTY_IMM_ROLES_B_LATE_ROLES[i], role_count: PROPERTY_IMM_ROLES_B_LATE_ROLES_LEN[i], assign: PROPERTY_IMM_ROLES_B_LATE_ASSIGN[i], note: PROPERTY_IMM_ROLES_B_LATE_NOTE[i] });
        }
        i = i + 1;
    }
    None
}


pub const LEB_OBJECT_ROLES_B_LATE_OPCODE: [u8; 8] = [201, 52, 230, 94, 73, 113, 27, 55];
pub const LEB_OBJECT_ROLES_B_LATE_HANDLER: [&'static str; 8] = [
    "Xj",
    "Xz",
    "Xv",
    "XH",
    "Xk",
    "XP",
    "XB",
    "XT",
];
pub const LEB_OBJECT_ROLES_B_LATE_ROLE: [&'static str; 8] = [
    "alloc",
    "bind",
    "bind_then_noarg",
    "load",
    "bind_add",
    "tagged_leb",
    "state_machine",
    "load_then_cond_jump",
];
pub const LEB_OBJECT_ROLES_B_LATE_ASSIGN: [&'static str; 8] = [
    "for n in leb_count { this.m[leb] = {o: undefined} }",
    "this.m[leb].o = regs[slot^132]",
    "this.m[leb].o = src; dst = other[obf]()",
    "regs[slot^132] = this.m[leb].o",
    "this.m[leb].o += imm^223; dst^15 = this.m[leb].o",
    "tag^52 then LEB; bind / load / alloc",
    "mixed bind/load/add/call on this.m[n].o",
    "dst = this.m[leb].o; if loaded===imm { pc=u24 key^=207 } else alt-or-fall",
];
pub const LEB_OBJECT_ROLES_B_LATE_NOTE: [&'static str; 8] = [
    "LEB count has no extra xor; per-slot LEB index. XY[`o`]=void 0",
    "Chrome-stable width 3 (1-byte LEB). Xm[XQ][`o`]=A[Xt^W]",
    "extras 132, 209, 199; 0-arg call is a register method, not .o",
    "same extra as Xz; variable LEB width",
    "add helper shares string-table id 417 with byte-253+256 wrapping add",
    "tag 227 bind, 78 load, 1 alloc; see XP_TAG_CASES",
    "20 CFF cases; bind `2`, load `14`, add `9`, apply `4`. Do not execute",
    "also in JUMP_IMM_ROLES_B_LATE; extras 132, 112, 19, 207",
];

pub open spec fn spec_leb_object_roles_b_late() -> Seq<LebObjectRole> {
    Seq::new(8, |i: int| LebObjectRole { opcode: LEB_OBJECT_ROLES_B_LATE_OPCODE@[i], handler: LEB_OBJECT_ROLES_B_LATE_HANDLER@[i], role: LEB_OBJECT_ROLES_B_LATE_ROLE@[i], assign: LEB_OBJECT_ROLES_B_LATE_ASSIGN@[i], note: LEB_OBJECT_ROLES_B_LATE_NOTE@[i] })
}

/// `this.m[].o` table handlers on the 56907 iframe.
pub fn leb_object_roles_b_late() -> (t: Vec<LebObjectRole>)
    ensures
        t@ == spec_leb_object_roles_b_late(),
{
    let mut t: Vec<LebObjectRole> = Vec::new();
    let mut i: usize = 0;
    while i < 8
        invariant
            i <= 8,
            t@ == spec_leb_object_roles_b_late().subrange(0, i as int),
        decreases 8 - i,
    {
        t.push(LebObjectRole { opcode: LEB_OBJECT_ROLES_B_LATE_OPCODE[i], handler: LEB_OBJECT_ROLES_B_LATE_HANDLER[i], role: LEB_OBJECT_ROLES_B_LATE_ROLE[i], assign: LEB_OBJECT_ROLES_B_LATE_ASSIGN[i], note: LEB_OBJECT_ROLES_B_LATE_NOTE[i] });
        i = i + 1;
        assert(t@ =~= spec_leb_object_roles_b_late().subrange(0, i as int));
    }
    assert(t@ =~= spec_leb_object_roles_b_late());
    t
}

/// `this.m[].o` table role of a late-`b` opcode.
pub fn leb_role_for_late(opcode: u8) -> (r: Option<LebObjectRole>)
    ensures
        ({
            let rows = spec_leb_object_roles_b_late();
            match r {
                Some(x) => exists|k: int| 0 <= k < rows.len() && rows[k].opcode == opcode && x == rows[k] && (forall|j: int| 0 <= j < k ==> rows[j].opcode != opcode),
                None => forall|k: int| 0 <= k < rows.len() ==> rows[k].opcode != opcode,
            }
        }),
{
    let mut i: usize = 0;
    while i < 8
        invariant
            i <= 8,
            forall|j: int| 0 <= j < i ==> spec_leb_object_roles_b_late()[j].opcode != opcode,
        decreases 8 - i,
    {
        if LEB_OBJECT_ROLES_B_LATE_OPCODE[i] == opcode {
            proof { assert(spec_leb_object_roles_b_late()[i as int].opcode == opcode); }
            return Some(LebObjectRole { opcode: LEB_OBJECT_ROLES_B_LATE_OPCODE[i], handler: LEB_OBJECT_ROLES_B_LATE_HANDLER[i], role: LEB_OBJECT_ROLES_B_LATE_ROLE[i], assign: LEB_OBJECT_ROLES_B_LATE_ASSIGN[i], note: LEB_OBJECT_ROLES_B_LATE_NOTE[i] });
        }
        i = i + 1;
    }
    None
}


pub const XP_TAG_CASES_TAG: [u8; 3] = [227, 78, 1];
pub const XP_TAG_CASES_KIND: [&'static str; 3] = [
    "bind",
    "load",
    "alloc",
];
pub const XP_TAG_CASES_NOTE: [&'static str; 3] = [
    "XR===227: table[n].o = regs[slot^132]",
    "XR===78: regs[slot^132] = table[n].o",
    "1===XR: loop {o:undefined} like Xj",
];

pub open spec fn spec_xp_tag_cases() -> Seq<XpTagCase> {
    Seq::new(3, |i: int| XpTagCase { tag: XP_TAG_CASES_TAG@[i], kind: XP_TAG_CASES_KIND@[i], note: XP_TAG_CASES_NOTE@[i] })
}

/// `XP`/113 first-immediate tags (after extra 52).
pub fn xp_tag_cases() -> (t: Vec<XpTagCase>)
    ensures
        t@ == spec_xp_tag_cases(),
{
    let mut t: Vec<XpTagCase> = Vec::new();
    let mut i: usize = 0;
    while i < 3
        invariant
            i <= 3,
            t@ == spec_xp_tag_cases().subrange(0, i as int),
        decreases 3 - i,
    {
        t.push(XpTagCase { tag: XP_TAG_CASES_TAG[i], kind: XP_TAG_CASES_KIND[i], note: XP_TAG_CASES_NOTE[i] });
        i = i + 1;
        assert(t@ =~= spec_xp_tag_cases().subrange(0, i as int));
    }
    assert(t@ =~= spec_xp_tag_cases());
    t
}

/// Kind of an `XP` tag.
pub fn xp_tag_kind(tag: u8) -> (r: Option<&'static str>)
    ensures
        ({
            let rows = spec_xp_tag_cases();
            match r {
                Some(x) => exists|k: int| 0 <= k < rows.len() && rows[k].tag == tag && x == rows[k].kind && (forall|j: int| 0 <= j < k ==> rows[j].tag != tag),
                None => forall|k: int| 0 <= k < rows.len() ==> rows[k].tag != tag,
            }
        }),
{
    let mut i: usize = 0;
    while i < 3
        invariant
            i <= 3,
            forall|j: int| 0 <= j < i ==> spec_xp_tag_cases()[j].tag != tag,
        decreases 3 - i,
    {
        if XP_TAG_CASES_TAG[i] == tag {
            proof { assert(spec_xp_tag_cases()[i as int].tag == tag); }
            return Some(XP_TAG_CASES_KIND[i]);
        }
        i = i + 1;
    }
    None
}


pub const CALL_IMM_ROLES_B_LATE_OPCODE: [u8; 14] = [165, 126, 181, 119, 208, 168, 161, 103, 134, 127, 177, 11, 176, 98];
pub const CALL_IMM_ROLES_B_LATE_HANDLER: [&'static str; 14] = [
    "XA",
    "XW",
    "Xh",
    "Xd",
    "Xn",
    "Xb",
    "Xr",
    "X0",
    "gO",
    "gc",
    "XU",
    "XJ",
    "XE",
    "XV",
];
pub const CALL_IMM_ROLES_B_LATE_CALLEE: [&'static str; 14] = [
    "table_o",
    "table_o",
    "table_o",
    "register",
    "register_method",
    "register_method",
    "register_method",
    "register",
    "register",
    "register_frame",
    "host_xi",
    "register_ctor",
    "named_string",
    "table_o_named",
];
pub const CALL_IMM_ROLES_B_LATE_ARITY: [&'static str; 14] = [
    "n_switch",
    "1",
    "2",
    "n_switch",
    "n_switch",
    "1",
    "2",
    "0",
    "1",
    "4tuple",
    "n_plus_flags",
    "n_switch",
    "n_switch",
    "n_switch",
];
pub const CALL_IMM_ROLES_B_LATE_ASSIGN: [&'static str; 14] = [
    "dst^90 = this.m[leb].o(...args^36)",
    "dst^176.88 = this.m[leb].o(arg^104.03)",
    "dst^19 = this.m[leb].o(a^30, b^30)",
    "dst^47.63 = callee^191(...args^194)",
    "dst^77.5 = thisArg===undefined ? fn(...args) : fn.apply(thisArg, args)",
    "dst^77.07 = thisArg===undefined ? fn(arg) : fn.call(thisArg, arg)",
    "dst^77 = thisArg===undefined ? fn(a,b) : fn.call(thisArg, a, b)",
    "dst^199 = callee^209.39()",
    "callee^125(arg^131)",
    "callee^131([u24, key^207, this.m[obf](), regs[154^h][obf]])",
    "dst = XI.apply(null, this, [u24, key^207, this.m, args^37, flags])",
    "dst^16.51 = new ctor^206(...args^87.86)",
    "dst^44 = (obj^10===undefined ? name : obj[name])(...args^37)",
    "dst^51 = this.m[leb].o[leb_string](...args^56)",
];
pub const CALL_IMM_ROLES_B_LATE_NOTE: [&'static str; 14] = [
    "arity^154.7; 0/1/2-arg specials then switch 3..7 else apply",
    "CFF; load .o then one register arg then call",
    "CFF 7 cases; XK(Xy,Xu)",
    "arity^129; same 0/1/2 + switch 3..7 pattern as XA",
    "obj^27 key^246 arity^22 args^217; void 0 thisArg uses call",
    "CFF; extras 27, 246.12, 217.37",
    "CFF; extras 27, 246.93, 217.37",
    "store 0-arg result",
    "no result store; obfuscated property call",
    "Chrome deltas are jumps; frame includes the object table",
    "flags from imm^68: 15&x, bit7, bit6. Host apply — do not execute",
    "arity^108; switch 0..7 else Function.prototype.bind.apply",
    "LEB string charset extra 206.24; arity^25.01",
    "string charset extra 17.26; arity^141; sibling of XE via .o",
];

pub open spec fn spec_call_imm_roles_b_late() -> Seq<CallImmRoles> {
    Seq::new(14, |i: int| CallImmRoles { opcode: CALL_IMM_ROLES_B_LATE_OPCODE@[i], handler: CALL_IMM_ROLES_B_LATE_HANDLER@[i], callee: CALL_IMM_ROLES_B_LATE_CALLEE@[i], arity: CALL_IMM_ROLES_B_LATE_ARITY@[i], assign: CALL_IMM_ROLES_B_LATE_ASSIGN@[i], note: CALL_IMM_ROLES_B_LATE_NOTE@[i] })
}

/// Call / `apply` / `new` / named-call handlers on the 56907 iframe.
pub fn call_imm_roles_b_late() -> (t: Vec<CallImmRoles>)
    ensures
        t@ == spec_call_imm_roles_b_late(),
{
    let mut t: Vec<CallImmRoles> = Vec::new();
    let mut i: usize = 0;
    while i < 14
        invariant
            i <= 14,
            t@ == spec_call_imm_roles_b_late().subrange(0, i as int),
        decreases 14 - i,
    {
        t.push(CallImmRoles { opcode: CALL_IMM_ROLES_B_LATE_OPCODE[i], handler: CALL_IMM_ROLES_B_LATE_HANDLER[i], callee: CALL_IMM_ROLES_B_LATE_CALLEE[i], arity: CALL_IMM_ROLES_B_LATE_ARITY[i], assign: CALL_IMM_ROLES_B_LATE_ASSIGN[i], note: CALL_IMM_ROLES_B_LATE_NOTE[i] });
        i = i + 1;
        assert(t@ =~= spec_call_imm_roles_b_late().subrange(0, i as int));
    }
    assert(t@ =~= spec_call_imm_roles_b_late());
    t
}

/// Call / `new` roles of a late-`b` opcode.
pub fn call_roles_for_late(opcode: u8) -> (r: Option<CallImmRoles>)
    ensures
        ({
            let rows = spec_call_imm_roles_b_late();
            match r {
                Some(x) => exists|k: int| 0 <= k < rows.len() && rows[k].opcode == opcode && x == rows[k] && (forall|j: int| 0 <= j < k ==> rows[j].opcode != opcode),
                None => forall|k: int| 0 <= k < rows.len() ==> rows[k].opcode != opcode,
            }
        }),
{
    let mut i: usize = 0;
    while i < 14
        invariant
            i <= 14,
            forall|j: int| 0 <= j < i ==> spec_call_imm_roles_b_late()[j].opcode != opcode,
        decreases 14 - i,
    {
        if CALL_IMM_ROLES_B_LATE_OPCODE[i] == opcode {
            proof { assert(spec_call_imm_roles_b_late()[i as int].opcode == opcode); }
            return Some(CallImmRoles { opcode: CALL_IMM_ROLES_B_LATE_OPCODE[i], handler: CALL_IMM_ROLES_B_LATE_HANDLER[i], callee: CALL_IMM_ROLES_B_LATE_CALLEE[i], arity: CALL_IMM_ROLES_B_LATE_ARITY[i], assign: CALL_IMM_ROLES_B_LATE_ASSIGN[i], note: CALL_IMM_ROLES_B_LATE_NOTE[i] });
        }
        i = i + 1;
    }
    None
}


pub const JUMP_IMM_ROLES_B_LATE_OPCODE: [u8; 7] = [187, 153, 38, 34, 26, 122, 55];
pub const JUMP_IMM_ROLES_B_LATE_HANDLER: [&'static str; 7] = [
    "XX",
    "X5",
    "X6",
    "X8",
    "X7",
    "X9",
    "XT",
];
pub const JUMP_IMM_ROLES_B_LATE_CONDITION: [&'static str; 7] = [
    "always",
    "reg_truthy",
    "regs_eq",
    "regs_eq",
    "stored_eq_reg",
    "regs_ge",
    "loaded_eq_imm",
];
pub const JUMP_IMM_ROLES_B_LATE_PATHS: [&'static str; 7] = [
    "jump",
    "taken_or_fall",
    "taken_alt_or_fall",
    "taken_or_else",
    "taken_alt_or_fall",
    "taken_alt_or_fall",
    "taken_alt_or_fall",
];
pub const JUMP_IMM_ROLES_B_LATE_KEY_EXTRA: [u8; 7] = [207, 207, 207, 207, 207, 207, 207];
pub const JUMP_IMM_ROLES_B_LATE_NOTE: [&'static str; 7] = [
    "unconditional pc=u24; key byte at destination ^207 (no ++ on that read)",
    "slot^96; taken pc=u24 key^207.34, else pc=fall-through (key unchanged)",
    "two-reg === (extras 21, 200); taken u24, else if flag alt u24, else fall",
    "two-reg === (extras 21, 200.95); both paths pc=u24 key^207 — no fall-through",
    "store imm^19 to slot^112.88, then stored===regs[^21.07]; 3-way like X6",
    "store (a>=b) to slot^120; a^252 b^54; jump if true; 3-way",
    "load this.m[leb].o then compare to imm^19; also in LEB_OBJECT_ROLES_B_LATE",
];

pub open spec fn spec_jump_imm_roles_b_late() -> Seq<JumpImmRoles> {
    Seq::new(7, |i: int| JumpImmRoles { opcode: JUMP_IMM_ROLES_B_LATE_OPCODE@[i], handler: JUMP_IMM_ROLES_B_LATE_HANDLER@[i], condition: JUMP_IMM_ROLES_B_LATE_CONDITION@[i], paths: JUMP_IMM_ROLES_B_LATE_PATHS@[i], key_extra: JUMP_IMM_ROLES_B_LATE_KEY_EXTRA@[i], note: JUMP_IMM_ROLES_B_LATE_NOTE@[i] })
}

/// Control-flow handlers on the 56907 iframe.
pub fn jump_imm_roles_b_late() -> (t: Vec<JumpImmRoles>)
    ensures
        t@ == spec_jump_imm_roles_b_late(),
{
    let mut t: Vec<JumpImmRoles> = Vec::new();
    let mut i: usize = 0;
    while i < 7
        invariant
            i <= 7,
            t@ == spec_jump_imm_roles_b_late().subrange(0, i as int),
        decreases 7 - i,
    {
        t.push(JumpImmRoles { opcode: JUMP_IMM_ROLES_B_LATE_OPCODE[i], handler: JUMP_IMM_ROLES_B_LATE_HANDLER[i], condition: JUMP_IMM_ROLES_B_LATE_CONDITION[i], paths: JUMP_IMM_ROLES_B_LATE_PATHS[i], key_extra: JUMP_IMM_ROLES_B_LATE_KEY_EXTRA[i], note: JUMP_IMM_ROLES_B_LATE_NOTE[i] });
        i = i + 1;
        assert(t@ =~= spec_jump_imm_roles_b_late().subrange(0, i as int));
    }
    assert(t@ =~= spec_jump_imm_roles_b_late());
    t
}

/// Control-flow roles of a late-`b` opcode.
pub fn jump_roles_for_late(opcode: u8) -> (r: Option<JumpImmRoles>)
    ensures
        ({
            let rows = spec_jump_imm_roles_b_late();
            match r {
                Some(x) => exists|k: int| 0 <= k < rows.len() && rows[k].opcode == opcode && x == rows[k] && (forall|j: int| 0 <= j < k ==> rows[j].opcode != opcode),
                None => forall|k: int| 0 <= k < rows.len() ==> rows[k].opcode != opcode,
            }
        }),
{
    let mut i: usize = 0;
    while i < 7
        invariant
            i <= 7,
            forall|j: int| 0 <= j < i ==> spec_jump_imm_roles_b_late()[j].opcode != opcode,
        decreases 7 - i,
    {
        if JUMP_IMM_ROLES_B_LATE_OPCODE[i] == opcode {
            proof { assert(spec_jump_imm_roles_b_late()[i as int].opcode == opcode); }
            return Some(JumpImmRoles { opcode: JUMP_IMM_ROLES_B_LATE_OPCODE[i], handler: JUMP_IMM_ROLES_B_LATE_HANDLER[i], condition: JUMP_IMM_ROLES_B_LATE_CONDITION[i], paths: JUMP_IMM_ROLES_B_LATE_PATHS[i], key_extra: JUMP_IMM_ROLES_B_LATE_KEY_EXTRA[i], note: JUMP_IMM_ROLES_B_LATE_NOTE[i] });
        }
        i = i + 1;
    }
    None
}


pub const XI_TYPE_CASES_TAG: [u8; 9] = [0, 1, 2, 3, 4, 5, 6, 7, 8];
pub const XI_TYPE_CASES_KIND: [&'static str; 9] = [
    "u8",
    "u16",
    "i32",
    "i64",
    "i32_or",
    "f64",
    "bool",
    "len_prefixed",
    "leb_prefixed",
];
pub const XI_TYPE_CASES_NOTE: [&'static str; 9] = [
    "push Number(val)&255",
    "low then (Number>>8)&255",
    "Xp(buf, Number(val)|0)",
    "8-byte BigInt walk or two 32-bit Xp",
    "Xp(buf, Number(val)|0) again",
    "DataView setFloat64 little-endian, 8 bytes",
    "push 1 or 0",
    "u16 length then bytes",
    "LEB length then bytes",
];

pub open spec fn spec_xi_type_cases() -> Seq<XiTypeCase> {
    Seq::new(9, |i: int| XiTypeCase { tag: XI_TYPE_CASES_TAG@[i], kind: XI_TYPE_CASES_KIND@[i], note: XI_TYPE_CASES_NOTE@[i] })
}

/// `Xi`/135 type-tag cases (after extra 164).
pub fn xi_type_cases() -> (t: Vec<XiTypeCase>)
    ensures
        t@ == spec_xi_type_cases(),
{
    let mut t: Vec<XiTypeCase> = Vec::new();
    let mut i: usize = 0;
    while i < 9
        invariant
            i <= 9,
            t@ == spec_xi_type_cases().subrange(0, i as int),
        decreases 9 - i,
    {
        t.push(XiTypeCase { tag: XI_TYPE_CASES_TAG[i], kind: XI_TYPE_CASES_KIND[i], note: XI_TYPE_CASES_NOTE[i] });
        i = i + 1;
        assert(t@ =~= spec_xi_type_cases().subrange(0, i as int));
    }
    assert(t@ =~= spec_xi_type_cases());
    t
}

/// Kind of an `Xi` type tag.
pub fn xi_type_kind(tag: u8) -> (r: Option<&'static str>)
    ensures
        ({
            let rows = spec_xi_type_cases();
            match r {
                Some(x) => exists|k: int| 0 <= k < rows.len() && rows[k].tag == tag && x == rows[k].kind && (forall|j: int| 0 <= j < k ==> rows[j].tag != tag),
                None => forall|k: int| 0 <= k < rows.len() ==> rows[k].tag != tag,
            }
        }),
{
    let mut i: usize = 0;
    while i < 9
        invariant
            i <= 9,
            forall|j: int| 0 <= j < i ==> spec_xi_type_cases()[j].tag != tag,
        decreases 9 - i,
    {
        if XI_TYPE_CASES_TAG[i] == tag {
            proof { assert(spec_xi_type_cases()[i as int].tag == tag); }
            return Some(XI_TYPE_CASES_KIND[i]);
        }
        i = i + 1;
    }
    None
}


pub const S1_CASES_B_LATE_OPCODE: [u8; 18] = [194, 221, 66, 157, 203, 10, 43, 15, 137, 214, 108, 0, 19, 90, 93, 234, 4, 31];
pub const S1_CASES_B_LATE_IMM: [u8; 18] = [66, 18, 241, 65, 3, 22, 214, 88, 149, 131, 150, 55, 62, 249, 27, 21, 198, 220];
pub const S1_CASES_B_LATE_KIND: [&'static str; 18] = [
    "add",
    "sub",
    "mul",
    "div",
    "mod",
    "and",
    "or",
    "bitand",
    "bitor",
    "xor",
    "shl",
    "shr",
    "ushr",
    "eq",
    "seq",
    "gt",
    "ge",
    "instanceof",
];
pub const S1_CASES_B_LATE_NOTE: [&'static str; 18] = [
    "Xm+A",
    "A-Xm (CFF)",
    "XS*A",
    "Xm/XS (helper XK/Xy)",
    "Xm%A",
    "XS&&A",
    "XS||Xm",
    "XS&Xm",
    "Xm|A (helper Xy|XK)",
    "XS^Xm (helper Xy^XK)",
    "A<<XS",
    "XS>>A",
    "XS>>>A",
    "A==Xm",
    "Xm===XS",
    "Xm>XS",
    "Xm>=A",
    "XS instanceof A",
];

pub open spec fn spec_s1_cases_b_late() -> Seq<S1Case> {
    Seq::new(18, |i: int| S1Case { opcode: S1_CASES_B_LATE_OPCODE@[i], imm: S1_CASES_B_LATE_IMM@[i], kind: S1_CASES_B_LATE_KIND@[i], note: S1_CASES_B_LATE_NOTE@[i] })
}

/// `gS` switch immediates with the HTML operator.
pub fn s1_cases_b_late() -> (t: Vec<S1Case>)
    ensures
        t@ == spec_s1_cases_b_late(),
{
    let mut t: Vec<S1Case> = Vec::new();
    let mut i: usize = 0;
    while i < 18
        invariant
            i <= 18,
            t@ == spec_s1_cases_b_late().subrange(0, i as int),
        decreases 18 - i,
    {
        t.push(S1Case { opcode: S1_CASES_B_LATE_OPCODE[i], imm: S1_CASES_B_LATE_IMM[i], kind: S1_CASES_B_LATE_KIND[i], note: S1_CASES_B_LATE_NOTE[i] });
        i = i + 1;
        assert(t@ =~= spec_s1_cases_b_late().subrange(0, i as int));
    }
    assert(t@ =~= spec_s1_cases_b_late());
    t
}

/// Operator of an `s1` case immediate.
pub fn s1_kind_for_imm(imm: u8) -> (r: Option<&'static str>)
    ensures
        ({
            let rows = spec_s1_cases_b_late();
            match r {
                Some(x) => exists|k: int| 0 <= k < rows.len() && rows[k].imm == imm && x == rows[k].kind && (forall|j: int| 0 <= j < k ==> rows[j].imm != imm),
                None => forall|k: int| 0 <= k < rows.len() ==> rows[k].imm != imm,
            }
        }),
{
    let mut i: usize = 0;
    while i < 18
        invariant
            i <= 18,
            forall|j: int| 0 <= j < i ==> spec_s1_cases_b_late()[j].imm != imm,
        decreases 18 - i,
    {
        if S1_CASES_B_LATE_IMM[i] == imm {
            proof { assert(spec_s1_cases_b_late()[i as int].imm == imm); }
            return Some(S1_CASES_B_LATE_KIND[i]);
        }
        i = i + 1;
    }
    None
}


pub const S2_CASES_B_LATE_OPCODE: [u8; 5] = [97, 22, 87, 148, 241];
pub const S2_CASES_B_LATE_IMM: [u8; 5] = [139, 234, 133, 119, 144];
pub const S2_CASES_B_LATE_KIND: [&'static str; 5] = [
    "typeof",
    "neg",
    "plus",
    "not",
    "bitnot",
];
pub const S2_CASES_B_LATE_NOTE: [&'static str; 5] = [
    "typeof A",
    "-Xs",
    "+Xs",
    "!A",
    "~Xs",
];

pub open spec fn spec_s2_cases_b_late() -> Seq<S2Case> {
    Seq::new(5, |i: int| S2Case { opcode: S2_CASES_B_LATE_OPCODE@[i], imm: S2_CASES_B_LATE_IMM@[i], kind: S2_CASES_B_LATE_KIND@[i], note: S2_CASES_B_LATE_NOTE@[i] })
}

/// `gK` unary switch immediates.
pub fn s2_cases_b_late() -> (t: Vec<S2Case>)
    ensures
        t@ == spec_s2_cases_b_late(),
{
    let mut t: Vec<S2Case> = Vec::new();
    let mut i: usize = 0;
    while i < 5
        invariant
            i <= 5,
            t@ == spec_s2_cases_b_late().subrange(0, i as int),
        decreases 5 - i,
    {
        t.push(S2Case { opcode: S2_CASES_B_LATE_OPCODE[i], imm: S2_CASES_B_LATE_IMM[i], kind: S2_CASES_B_LATE_KIND[i], note: S2_CASES_B_LATE_NOTE[i] });
        i = i + 1;
        assert(t@ =~= spec_s2_cases_b_late().subrange(0, i as int));
    }
    assert(t@ =~= spec_s2_cases_b_late());
    t
}

/// Operator of an `s2` case immediate.
pub fn s2_kind_for_imm(imm: u8) -> (r: Option<&'static str>)
    ensures
        ({
            let rows = spec_s2_cases_b_late();
            match r {
                Some(x) => exists|k: int| 0 <= k < rows.len() && rows[k].imm == imm && x == rows[k].kind && (forall|j: int| 0 <= j < k ==> rows[j].imm != imm),
                None => forall|k: int| 0 <= k < rows.len() ==> rows[k].imm != imm,
            }
        }),
{
    let mut i: usize = 0;
    while i < 5
        invariant
            i <= 5,
            forall|j: int| 0 <= j < i ==> spec_s2_cases_b_late()[j].imm != imm,
        decreases 5 - i,
    {
        if S2_CASES_B_LATE_IMM[i] == imm {
            proof { assert(spec_s2_cases_b_late()[i as int].imm == imm); }
            return Some(S2_CASES_B_LATE_KIND[i]);
        }
        i = i + 1;
    }
    None
}


pub const HANDLER_LAYOUT_B_OPCODE: [u8; 13] = [8, 14, 176, 50, 215, 49, 0, 31, 9, 112, 185, 69, 222];
pub const HANDLER_LAYOUT_B_HANDLER: [&'static str; 13] = [
    "dN",
    "d6",
    "d7",
    "d4",
    "d5",
    "dQ",
    "d1",
    "d3",
    "p",
    "F",
    "x",
    "g",
    "Xf",
];
pub const HANDLER_LAYOUT_B_WIDTH: [u8; 13] = [0, 2, 2, 2, 2, 3, 3, 3, 4, 4, 0, 0, 0];
pub const HANDLER_LAYOUT_B_EXTRA_XORS: [[u8; 6]; 13] = [
    [154, 48, 0, 0, 0, 0],
    [62, 0, 0, 0, 0, 0],
    [8, 0, 0, 0, 0, 0],
    [29, 0, 0, 0, 0, 0],
    [154, 0, 0, 0, 0, 0],
    [48, 59, 0, 0, 0, 0],
    [123, 5, 0, 0, 0, 0],
    [205, 31, 0, 0, 0, 0],
    [80, 243, 107, 0, 0, 0],
    [84, 250, 33, 0, 0, 0],
    [0, 0, 0, 0, 0, 0],
    [0, 0, 0, 0, 0, 0],
    [86, 112, 0, 0, 0, 0],
];
pub const HANDLER_LAYOUT_B_EXTRA_XORS_LEN: [u8; 13] = [2, 1, 1, 1, 1, 2, 2, 2, 3, 3, 0, 0, 2];
pub const HANDLER_LAYOUT_B_FAMILY: [&'static str; 13] = [
    "tagged_load",
    "store_empty_object",
    "store_empty_array",
    "throw_register",
    "helper_1imm",
    "store_decoded_byte",
    "array_push",
    "call_result_store",
    "property_get",
    "property_set",
    "s1",
    "s2",
    "tagged_load",
];
pub const HANDLER_LAYOUT_B_NOTE: [&'static str; 13] = [
    "tagged load: 49 int (+xor 59), 230 undef, 179 string, 191 float, 42 null, 66 false, 206 bytes",
    "store {} at (imm^h)",
    "store [] at (imm^h)",
    "throw register",
    "1-imm helper (stack/slot xor 36 and 53 are not bytecode)",
    "2-imm store of a decoded byte",
    "array push",
    "2-imm call/result store",
    "property get: dst = obj[key]",
    "property set: obj[key] = src",
    "s1 family: switch immediate from the case (245,17,105,…) plus bytecode",
    "s2 family: unary typeof/- /+ /! /~ selected by switch immediate",
    "later-day tagged load (dN renamed): 162 int (+xor 19), 86 undef, 199 string, 36 LEB, 58 float, 80 null, 202 false, 161 bytes",
];

pub open spec fn spec_handler_layout_b() -> Seq<HandlerLayout> {
    Seq::new(13, |i: int| HandlerLayout { opcode: HANDLER_LAYOUT_B_OPCODE@[i], handler: HANDLER_LAYOUT_B_HANDLER@[i], width: instr_width(HANDLER_LAYOUT_B_WIDTH@[i]), xors: HANDLER_LAYOUT_B_EXTRA_XORS@[i], xor_count: HANDLER_LAYOUT_B_EXTRA_XORS_LEN@[i], family: HANDLER_LAYOUT_B_FAMILY@[i], note: HANDLER_LAYOUT_B_NOTE@[i] })
}

/// Handlers recovered from the headed-Chrome iframe (branch `b`).
pub fn handler_layout_b() -> (t: Vec<HandlerLayout>)
    ensures
        t@ == spec_handler_layout_b(),
{
    let mut t: Vec<HandlerLayout> = Vec::new();
    let mut i: usize = 0;
    while i < 13
        invariant
            i <= 13,
            t@ == spec_handler_layout_b().subrange(0, i as int),
        decreases 13 - i,
    {
        t.push(HandlerLayout { opcode: HANDLER_LAYOUT_B_OPCODE[i], handler: HANDLER_LAYOUT_B_HANDLER[i], width: make_width(HANDLER_LAYOUT_B_WIDTH[i]), xors: HANDLER_LAYOUT_B_EXTRA_XORS[i], xor_count: HANDLER_LAYOUT_B_EXTRA_XORS_LEN[i], family: HANDLER_LAYOUT_B_FAMILY[i], note: HANDLER_LAYOUT_B_NOTE[i] });
        i = i + 1;
        assert(t@ =~= spec_handler_layout_b().subrange(0, i as int));
    }
    assert(t@ =~= spec_handler_layout_b());
    t
}

/// Operand layout of an early-`b` opcode.
pub fn layout_for(opcode: u8) -> (r: Option<HandlerLayout>)
    ensures
        ({
            let rows = spec_handler_layout_b();
            match r {
                Some(x) => exists|k: int| 0 <= k < rows.len() && rows[k].opcode == opcode && x == rows[k] && (forall|j: int| 0 <= j < k ==> rows[j].opcode != opcode),
                None => forall|k: int| 0 <= k < rows.len() ==> rows[k].opcode != opcode,
            }
        }),
{
    let mut i: usize = 0;
    while i < 13
        invariant
            i <= 13,
            forall|j: int| 0 <= j < i ==> spec_handler_layout_b()[j].opcode != opcode,
        decreases 13 - i,
    {
        if HANDLER_LAYOUT_B_OPCODE[i] == opcode {
            proof { assert(spec_handler_layout_b()[i as int].opcode == opcode); }
            return Some(HandlerLayout { opcode: HANDLER_LAYOUT_B_OPCODE[i], handler: HANDLER_LAYOUT_B_HANDLER[i], width: make_width(HANDLER_LAYOUT_B_WIDTH[i]), xors: HANDLER_LAYOUT_B_EXTRA_XORS[i], xor_count: HANDLER_LAYOUT_B_EXTRA_XORS_LEN[i], family: HANDLER_LAYOUT_B_FAMILY[i], note: HANDLER_LAYOUT_B_NOTE[i] });
        }
        i = i + 1;
    }
    None
}


pub const HANDLER_LAYOUT_B_LATE_OPCODE: [u8; 46] = [187, 153, 38, 34, 26, 122, 196, 45, 104, 12, 222, 130, 113, 201, 52, 230, 94, 73, 27, 55, 177, 135, 219, 134, 127, 103, 30, 246, 11, 208, 168, 161, 119, 165, 126, 181, 176, 98, 227, 169, 138, 226, 132, 72, 183, 140];
pub const HANDLER_LAYOUT_B_LATE_HANDLER: [&'static str; 46] = [
    "XX",
    "X5",
    "X6",
    "X8",
    "X7",
    "X9",
    "X2",
    "X1",
    "X3",
    "X4",
    "Xf",
    "Xg",
    "XP",
    "Xj",
    "Xz",
    "Xv",
    "XH",
    "Xk",
    "XB",
    "XT",
    "XU",
    "Xi",
    "XD",
    "gO",
    "gc",
    "X0",
    "gx",
    "gq",
    "XJ",
    "Xn",
    "Xb",
    "Xr",
    "Xd",
    "XA",
    "XW",
    "Xh",
    "XE",
    "XV",
    "gG",
    "ge",
    "gN",
    "gC",
    "gy",
    "gY",
    "gZ",
    "gl",
];
pub const HANDLER_LAYOUT_B_LATE_WIDTH: [u8; 46] = [0, 0, 0, 0, 0, 0, 2, 2, 2, 2, 0, 3, 0, 0, 3, 0, 0, 0, 0, 0, 0, 0, 0, 3, 0, 3, 3, 3, 0, 0, 0, 0, 0, 0, 0, 0, 0, 0, 4, 5, 5, 0, 4, 5, 6, 0];
pub const HANDLER_LAYOUT_B_LATE_EXTRA_XORS: [[u8; 6]; 46] = [
    [207, 0, 0, 0, 0, 0],
    [96, 207, 0, 0, 0, 0],
    [21, 200, 207, 0, 0, 0],
    [21, 200, 207, 0, 0, 0],
    [112, 19, 21, 207, 0, 0],
    [120, 252, 54, 207, 0, 0],
    [131, 0, 0, 0, 0, 0],
    [144, 0, 0, 0, 0, 0],
    [1, 0, 0, 0, 0, 0],
    [58, 0, 0, 0, 0, 0],
    [86, 112, 0, 0, 0, 0],
    [112, 19, 0, 0, 0, 0],
    [52, 132, 0, 0, 0, 0],
    [0, 0, 0, 0, 0, 0],
    [132, 0, 0, 0, 0, 0],
    [132, 209, 199, 0, 0, 0],
    [132, 0, 0, 0, 0, 0],
    [15, 223, 0, 0, 0, 0],
    [27, 223, 246, 77, 132, 213],
    [132, 112, 19, 207, 0, 0],
    [96, 207, 68, 83, 37, 0],
    [85, 63, 207, 164, 0, 0],
    [77, 0, 0, 0, 0, 0],
    [125, 131, 0, 0, 0, 0],
    [131, 207, 0, 0, 0, 0],
    [209, 199, 0, 0, 0, 0],
    [20, 36, 0, 0, 0, 0],
    [123, 148, 0, 0, 0, 0],
    [16, 108, 206, 87, 0, 0],
    [77, 27, 246, 22, 217, 0],
    [77, 27, 246, 217, 0, 0],
    [77, 27, 246, 217, 0, 0],
    [47, 191, 129, 194, 0, 0],
    [90, 154, 36, 0, 0, 0],
    [176, 104, 0, 0, 0, 0],
    [19, 30, 0, 0, 0, 0],
    [44, 10, 206, 25, 37, 0],
    [51, 17, 141, 56, 0, 0],
    [221, 41, 180, 0, 0, 0],
    [41, 221, 180, 19, 0, 0],
    [41, 221, 180, 19, 0, 0],
    [42, 182, 1, 0, 0, 0],
    [99, 216, 38, 0, 0, 0],
    [117, 221, 231, 177, 0, 0],
    [208, 108, 168, 12, 192, 0],
    [43, 69, 118, 0, 0, 0],
];
pub const HANDLER_LAYOUT_B_LATE_EXTRA_XORS_LEN: [u8; 46] = [1, 2, 3, 3, 4, 4, 1, 1, 1, 1, 2, 2, 2, 0, 1, 3, 1, 2, 6, 4, 5, 4, 1, 2, 2, 2, 2, 2, 4, 5, 4, 4, 4, 3, 2, 2, 5, 4, 3, 4, 4, 3, 3, 4, 5, 3];
pub const HANDLER_LAYOUT_B_LATE_FAMILY: [&'static str; 46] = [
    "jump_u24",
    "cond_jump",
    "cond_jump",
    "cond_jump",
    "cond_jump",
    "cond_jump",
    "number_helper",
    "throw_register",
    "store_empty_object",
    "store_empty_array",
    "tagged_load",
    "register_store",
    "leb_object_slot",
    "leb_alloc_objects",
    "leb_object_slot",
    "leb_object_slot",
    "leb_object_slot",
    "leb_object_slot",
    "leb_object_state",
    "leb_cond_jump",
    "apply_construct",
    "typed_store",
    "binary_arith",
    "call_1arg",
    "push_frame",
    "call_noarg",
    "register_swap",
    "register_load",
    "new_construct",
    "call_apply",
    "call_apply",
    "call_apply",
    "call_apply",
    "call_apply",
    "call_apply",
    "call_apply",
    "named_call",
    "named_call",
    "property_set",
    "property_set",
    "property_set",
    "string_key_set",
    "property_get",
    "nested_property_get",
    "dual_property_get",
    "string_key_get",
];
pub const HANDLER_LAYOUT_B_LATE_NOTE: [&'static str; 46] = [
    "unconditional pc=u24; extra 207 on the key byte at destination. Chrome deltas are jumps.",
    "if regs[slot^96] then pc=u24 key^207.34 else fall (key unchanged)",
    "two-reg === (extras 21, 200); taken u24 key^207, else if flag alt u24, else fall",
    "two-reg === (extras 21, 200.95); both paths pc=u24 key^207 (no fall-through)",
    "store imm^19 to slot^112.88 then stored===regs[^21]; 3-way jump like X6",
    "store (a>=b) to slot^120 (a^252 b^54); jump if true; 3-way",
    "1-imm (js 131.21); Number host helper, not bytecode arithmetic",
    "1-imm throw register (js ^144); early-b d4 analogue",
    "1-imm store {} at (imm^h); early-b d6 analogue. Later HTML: X4.",
    "1-imm store [] at (imm^h); early-b d7 analogue (js ^58). Later HTML: X5.",
    "tagged load: tag^86 dst^112; 162 int^19, 86 undef, 199 string, 36 LEB, 58 float, 80 null, 165/174 Number host, 202 false, 98 packed, 161 bytes, 117 regexp, else true. Later HTML: Xg.",
    "2-imm store (js 112.87, 19). Later HTML: XX.",
    "tag^52 then LEB: 227 bind, 78 load, 1 alloc. Later HTML name rotates.",
    "LEB count then per-slot LEB; allocates {o: undefined} into this.m. No extra xor on the count.",
    "LEB then slot^132.63; Xm[XQ]['o']=reg. Chrome histogram was all width 3 (1-byte LEB). Later HTML: Xv.",
    "LEB then extras 132, 209, 199; o-slot family like Xz with more immediates",
    "LEB then slot^132; store table[n].o. Same extra as Xz, variable LEB width.",
    "LEB then ^15 ^223; bind Xm[n]['o'] and store the object",
    "state machine over this.m[].o (js 27.67, 223.27, 246.32, 77.01, 132, 213). Do not execute.",
    "LEB slot^132 then 2-imm (112.89, 19) then u24 key^207",
    "u24 + flags (js 96, 207, 68, 83, 37) then XI.apply-like call. Arity from bytecode.",
    "switch on type tag (js 85.58, 63, 207, 164.29); Number/bytes store. Do not execute.",
    "1-imm (js 77.98) then packed u32 constants; host/binary arithmetic. Do not execute.",
    "2-imm (js 125, 131); callee(arg) with no result store",
    "slot^131 then u24 key^207; method call with a 4-tuple frame. Chrome deltas are jumps.",
    "2-imm (js 209.39, 199); store callee() result",
    "2-imm (js 20.58, 36.26); swap two registers",
    "2-imm (js 123.64/123.07, 148); dst slot then register load. Later HTML: gx.",
    "dst^16.51 arity^108 ctor^206 then N args ^87.86; switch(N) new Ctor(...)",
    "call/apply (js 77.5, 27, 246, 22, 217); arity from bytecode",
    "call/apply state machine (js 77.07, 27, 246.12, 217.37)",
    "call/apply state machine (js 77, 27, 246.93, 217.37); 2-arg apply path",
    "N-arg call (js 47.63, 191, 129, 194/194.71/194.33); switch on arity",
    "LEB index into this.m[].o then N-arg call (js 90, 154.7, 36.98/36.17)",
    "LEB then this.m[].o call (js 176.88, 104.03)",
    "2-arg call (js 19, 30) via state machine",
    "dst^44 name-idx^10 then LEB string (charset ^206.24) then arity ^25.01 args ^37",
    "like XE via this.m[].o (js 51, 17.26, 141, 56.48/56.04)",
    "3-imm obj[key]=src (roles key, obj, src; js 221, 41, 180.99). Later HTML: ge.",
    "4-imm: key is decoded imm; obj[key_imm]=src (roles obj, key_slot, src, key_imm). Later HTML: gN.",
    "4-imm: src is decoded imm; obj[regs[key]]=src_imm (roles obj, key, dst, src_imm); sibling of ge",
    "2-imm (42, 182) then LEB string (charset ^1); obj[str]=src. String is in packed bytecode.",
    "3-imm dst=obj[key] (roles obj, dst, key; js 99.04, 216.44, 38); early-b p analogue",
    "4-imm dst=obj[k1][k2] (roles k1, k2, dst, obj; js 177.81). Later HTML: gZ.",
    "5-imm two gets from the same object (roles k_a, dst_b, obj, k_b, dst_a)",
    "LEB string (charset ^43) then extras 69, 118; dst=obj[str]. String is in packed bytecode.",
];

pub open spec fn spec_handler_layout_b_late() -> Seq<HandlerLayout> {
    Seq::new(46, |i: int| HandlerLayout { opcode: HANDLER_LAYOUT_B_LATE_OPCODE@[i], handler: HANDLER_LAYOUT_B_LATE_HANDLER@[i], width: instr_width(HANDLER_LAYOUT_B_LATE_WIDTH@[i]), xors: HANDLER_LAYOUT_B_LATE_EXTRA_XORS@[i], xor_count: HANDLER_LAYOUT_B_LATE_EXTRA_XORS_LEN@[i], family: HANDLER_LAYOUT_B_LATE_FAMILY@[i], note: HANDLER_LAYOUT_B_LATE_NOTE@[i] })
}

/// Late-`b` (`56907`) Direct handlers, one per switch case (not s1/s2).
pub fn handler_layout_b_late() -> (t: Vec<HandlerLayout>)
    ensures
        t@ == spec_handler_layout_b_late(),
{
    let mut t: Vec<HandlerLayout> = Vec::new();
    let mut i: usize = 0;
    while i < 46
        invariant
            i <= 46,
            t@ == spec_handler_layout_b_late().subrange(0, i as int),
        decreases 46 - i,
    {
        t.push(HandlerLayout { opcode: HANDLER_LAYOUT_B_LATE_OPCODE[i], handler: HANDLER_LAYOUT_B_LATE_HANDLER[i], width: make_width(HANDLER_LAYOUT_B_LATE_WIDTH[i]), xors: HANDLER_LAYOUT_B_LATE_EXTRA_XORS[i], xor_count: HANDLER_LAYOUT_B_LATE_EXTRA_XORS_LEN[i], family: HANDLER_LAYOUT_B_LATE_FAMILY[i], note: HANDLER_LAYOUT_B_LATE_NOTE[i] });
        i = i + 1;
        assert(t@ =~= spec_handler_layout_b_late().subrange(0, i as int));
    }
    assert(t@ =~= spec_handler_layout_b_late());
    t
}

/// Operand layout of a late-`b` (`56907`) opcode.
pub fn layout_for_late(opcode: u8) -> (r: Option<HandlerLayout>)
    ensures
        ({
            let rows = spec_handler_layout_b_late();
            match r {
                Some(x) => exists|k: int| 0 <= k < rows.len() && rows[k].opcode == opcode && x == rows[k] && (forall|j: int| 0 <= j < k ==> rows[j].opcode != opcode),
                None => forall|k: int| 0 <= k < rows.len() ==> rows[k].opcode != opcode,
            }
        }),
{
    let mut i: usize = 0;
    while i < 46
        invariant
            i <= 46,
            forall|j: int| 0 <= j < i ==> spec_handler_layout_b_late()[j].opcode != opcode,
        decreases 46 - i,
    {
        if HANDLER_LAYOUT_B_LATE_OPCODE[i] == opcode {
            proof { assert(spec_handler_layout_b_late()[i as int].opcode == opcode); }
            return Some(HandlerLayout { opcode: HANDLER_LAYOUT_B_LATE_OPCODE[i], handler: HANDLER_LAYOUT_B_LATE_HANDLER[i], width: make_width(HANDLER_LAYOUT_B_LATE_WIDTH[i]), xors: HANDLER_LAYOUT_B_LATE_EXTRA_XORS[i], xor_count: HANDLER_LAYOUT_B_LATE_EXTRA_XORS_LEN[i], family: HANDLER_LAYOUT_B_LATE_FAMILY[i], note: HANDLER_LAYOUT_B_LATE_NOTE[i] });
        }
        i = i + 1;
    }
    None
}


/// First tag operand of a tagged load at pc 0, when the first opcode is `expect`.
pub open spec fn spec_first_tag(params: FetchParams, bytecode: Seq<u8>, expect: u8, tag_xor: u8) -> Option<u8> {
    if bytecode.len() < 2 {
        None
    } else {
        let op = spec_decode_opcode(params, params.init_key, bytecode[0]);
        if op != expect {
            None
        } else {
            Some(spec_operand(params, spec_next_key(params, params.init_key, op), bytecode[1], tag_xor))
        }
    }
}

/// First `dN` tag in a branch-`b` packed program (opcode 8 at pc 0).
pub fn first_dn_tag(params: FetchParams, bytecode: &[u8]) -> (r: Option<u8>)
    ensures
        r == spec_first_tag(params, bytecode@, DN_OPCODE, DN_TAG_XOR),
{
    if bytecode.len() < 2 {
        return None;
    }
    let (op, next_key) = step_fetch(params, params.init_key, bytecode[0]);
    if op != DN_OPCODE {
        return None;
    }
    Some(operand_from_byte(params, next_key, bytecode[1], DN_TAG_XOR))
}

pub fn first_dn_tag_b(bytecode: &[u8]) -> (r: Option<u8>)
    ensures
        r == spec_first_tag(fetch_branch_b_spec(), bytecode@, DN_OPCODE, DN_TAG_XOR),
{
    first_dn_tag(fetch_branch_b(), bytecode)
}

/// First `Xf` tag on the later same-day `b` rotation (opcode 222 at pc 0).
pub fn first_xf_tag(params: FetchParams, bytecode: &[u8]) -> (r: Option<u8>)
    ensures
        r == spec_first_tag(params, bytecode@, XF_OPCODE, XF_TAG_XOR),
{
    if bytecode.len() < 2 {
        return None;
    }
    let (op, next_key) = step_fetch(params, params.init_key, bytecode[0]);
    if op != XF_OPCODE {
        return None;
    }
    Some(operand_from_byte(params, next_key, bytecode[1], XF_TAG_XOR))
}

pub fn first_xf_tag_late(bytecode: &[u8]) -> (r: Option<u8>)
    ensures
        r == spec_first_tag(fetch_branch_b_late_spec(), bytecode@, XF_OPCODE, XF_TAG_XOR),
{
    first_xf_tag(fetch_branch_b_late(), bytecode)
}

/// A Chrome PC delta compared with the statically recovered width.
#[derive(Debug, Clone, Copy, PartialEq, Eq)]
pub struct WidthObservation {
    pub opcode: u8,
    pub handler: Option<&'static str>,
    pub width: i32,
    pub matches_fixed: Option<bool>,
}

/// `Some(width == n)` for a fixed width `n`, `None` for a variable width.
pub open spec fn width_match(w: InstrWidth, width: i32) -> Option<bool> {
    match w {
        InstrWidth::Fixed(n) => Some(width == n as i32),
        InstrWidth::Variable => None,
    }
}

/// `w` reports `opcode` and `width`: the handler of the first case of `table` with that opcode,
/// and the width check against the first layout with that opcode (`None` where no case or
/// layout has it).
pub open spec fn observes(w: WidthObservation, opcode: u8, width: i32, table: Seq<OpcodeDef>, layouts: Seq<HandlerLayout>) -> bool {
    &&& w.opcode == opcode
    &&& w.width == width
    &&& match w.handler {
        Some(h) => exists|k: int|
            0 <= k < table.len() && table[k].opcode == opcode && table[k].handler == h && (forall|j: int|
                0 <= j < k ==> table[j].opcode != opcode),
        None => forall|k: int| 0 <= k < table.len() ==> table[k].opcode != opcode,
    }
    &&& (exists|k: int|
        0 <= k < layouts.len() && layouts[k].opcode == opcode && w.matches_fixed == width_match(
            layouts[k].width,
            width,
        ) && (forall|j: int| 0 <= j < k ==> layouts[j].opcode != opcode)) || ((forall|k: int|
        0 <= k < layouts.len() ==> layouts[k].opcode != opcode) && w.matches_fixed is None)
}

/// Two observations of one opcode and width against the same layouts agree on the width check.
pub proof fn lemma_observes_width_unique(
    w1: WidthObservation,
    w2: WidthObservation,
    opcode: u8,
    width: i32,
    table: Seq<OpcodeDef>,
    layouts: Seq<HandlerLayout>,
)
    requires
        observes(w1, opcode, width, table, layouts),
        observes(w2, opcode, width, table, layouts),
    ensures
        w1.matches_fixed == w2.matches_fixed,
{
    if exists|k: int|
        0 <= k < layouts.len() && layouts[k].opcode == opcode && w1.matches_fixed == width_match(layouts[k].width, width)
            && (forall|j: int| 0 <= j < k ==> layouts[j].opcode != opcode) {
        let k1 = choose|k: int|
            0 <= k < layouts.len() && layouts[k].opcode == opcode && w1.matches_fixed == width_match(layouts[k].width, width)
                && (forall|j: int| 0 <= j < k ==> layouts[j].opcode != opcode);
        if exists|k: int|
            0 <= k < layouts.len() && layouts[k].opcode == opcode && w2.matches_fixed == width_match(layouts[k].width, width)
                && (forall|j: int| 0 <= j < k ==> layouts[j].opcode != opcode) {
            let k2 = choose|k: int|
                0 <= k < layouts.len() && layouts[k].opcode == opcode && w2.matches_fixed == width_match(layouts[k].width, width)
                    && (forall|j: int| 0 <= j < k ==> layouts[j].opcode != opcode);
            if k1 < k2 {
                assert(layouts[k1].opcode != opcode);
            } else if k2 < k1 {
                assert(layouts[k2].opcode != opcode);
            }
        } else {
            assert(layouts[k1].opcode != opcode);
        }
    } else if exists|k: int|
        0 <= k < layouts.len() && layouts[k].opcode == opcode && w2.matches_fixed == width_match(layouts[k].width, width)
            && (forall|j: int| 0 <= j < k ==> layouts[j].opcode != opcode) {
        let k2 = choose|k: int|
            0 <= k < layouts.len() && layouts[k].opcode == opcode && w2.matches_fixed == width_match(layouts[k].width, width)
                && (forall|j: int| 0 <= j < k ==> layouts[j].opcode != opcode);
        assert(layouts[k2].opcode != opcode);
    }
}

/// Compare a Chrome PC delta with the fixed width of `opcode` in `layouts`.
/// Negative or huge deltas are jumps, not encoding widths.
pub fn classify_pc_delta_in(opcode: u8, width: i32, table: &[OpcodeDef], layouts: &[HandlerLayout]) -> (w: WidthObservation)
    ensures
        observes(w, opcode, width, table@, layouts@),
{
    let handler = match opcode_def_in(table, opcode) {
        Some(d) => Some(d.handler),
        None => None,
    };
    let mut i: usize = 0;
    while i < layouts.len()
        invariant
            i <= layouts@.len(),
            forall|j: int| 0 <= j < i ==> layouts@[j].opcode != opcode,
            match handler {
                Some(h) => exists|k: int|
                    0 <= k < table@.len() && table@[k].opcode == opcode && table@[k].handler == h && (forall|j: int|
                        0 <= j < k ==> table@[j].opcode != opcode),
                None => forall|k: int| 0 <= k < table@.len() ==> table@[k].opcode != opcode,
            },
        decreases layouts@.len() - i,
    {
        if layouts[i].opcode == opcode {
            let matches_fixed = match layouts[i].width {
                InstrWidth::Fixed(n) => Some(width == n as i32),
                InstrWidth::Variable => None,
            };
            return WidthObservation { opcode, handler, width, matches_fixed };
        }
        i = i + 1;
    }
    WidthObservation { opcode, handler, width, matches_fixed: None }
}

/// [`classify_pc_delta_in`] against the early-`b` table and layouts.
pub fn classify_pc_delta(opcode: u8, width: i32) -> (w: WidthObservation)
    ensures
        observes(w, opcode, width, spec_opcode_table_b(), spec_handler_layout_b()),
{
    let t = opcode_table_b();
    let l = handler_layout_b();
    classify_pc_delta_in(opcode, width, t.as_slice(), l.as_slice())
}

/// [`classify_pc_delta_in`] against the late-`b` table and layouts.
pub fn classify_pc_delta_late(opcode: u8, width: i32) -> (w: WidthObservation)
    ensures
        observes(w, opcode, width, spec_opcode_table_b_late(), spec_handler_layout_b_late()),
{
    let t = opcode_table_b_late();
    let l = handler_layout_b_late();
    classify_pc_delta_in(opcode, width, t.as_slice(), l.as_slice())
}

/// The late layouts catalogue the late table's Direct cases, one each and in table
/// order: layout `k` carries the opcode and handler of case `k`, the first
/// [`LATE_DIRECT_HANDLER_COUNT`] cases are Direct, and every later case is s1 or s2.
pub proof fn lemma_late_layouts_catalogue_direct_cases()
    ensures
        spec_handler_layout_b_late().len() == LATE_DIRECT_HANDLER_COUNT,
        spec_opcode_table_b_late().len() == 69,
        forall|k: int|
            0 <= k < 46 ==> (#[trigger] spec_handler_layout_b_late()[k]).opcode == spec_opcode_table_b_late()[k].opcode
                && spec_handler_layout_b_late()[k].handler == spec_opcode_table_b_late()[k].handler
                && spec_opcode_table_b_late()[k].kind == OpcodeKind::Direct,
        forall|k: int| 46 <= k < 69 ==> (#[trigger] spec_opcode_table_b_late()[k]).kind != OpcodeKind::Direct,
{
    assert(HANDLER_LAYOUT_B_LATE_OPCODE@ =~= seq![187u8, 153, 38, 34, 26, 122, 196, 45, 104, 12, 222, 130, 113, 201, 52, 230, 94, 73, 27, 55, 177, 135, 219, 134, 127, 103, 30, 246, 11, 208, 168, 161, 119, 165, 126, 181, 176, 98, 227, 169, 138, 226, 132, 72, 183, 140]);
    assert(DIRECT_OPCODES_B_LATE@ =~= seq![187u8, 153, 38, 34, 26, 122, 196, 45, 104, 12, 222, 130, 113, 201, 52, 230, 94, 73, 27, 55, 177, 135, 219, 134, 127, 103, 30, 246, 11, 208, 168, 161, 119, 165, 126, 181, 176, 98, 227, 169, 138, 226, 132, 72, 183, 140]);
    assert(HANDLER_LAYOUT_B_LATE_HANDLER@ =~= seq!["XX", "X5", "X6", "X8", "X7", "X9", "X2", "X1", "X3", "X4", "Xf", "Xg", "XP", "Xj", "Xz", "Xv", "XH", "Xk", "XB", "XT", "XU", "Xi", "XD", "gO", "gc", "X0", "gx", "gq", "XJ", "Xn", "Xb", "Xr", "Xd", "XA", "XW", "Xh", "XE", "XV", "gG", "ge", "gN", "gC", "gy", "gY", "gZ", "gl"]);
    assert(DIRECT_HANDLERS_B_LATE@ =~= seq!["XX", "X5", "X6", "X8", "X7", "X9", "X2", "X1", "X3", "X4", "Xf", "Xg", "XP", "Xj", "Xz", "Xv", "XH", "Xk", "XB", "XT", "XU", "Xi", "XD", "gO", "gc", "X0", "gx", "gq", "XJ", "Xn", "Xb", "Xr", "Xd", "XA", "XW", "Xh", "XE", "XV", "gG", "ge", "gN", "gC", "gy", "gY", "gZ", "gl"]);
    assert(HANDLER_LAYOUT_B_LATE_OPCODE@ == DIRECT_OPCODES_B_LATE@);
    assert(HANDLER_LAYOUT_B_LATE_HANDLER@ == DIRECT_HANDLERS_B_LATE@);
}

/// The opcodes that have a late layout, in layout order.
pub open spec fn late_layout_opcodes() -> Seq<u8> {
    Seq::new(46, |k: int| spec_handler_layout_b_late()[k].opcode)
}

/// Exactly [`LATE_DIRECT_HANDLER_COUNT`] opcodes have a late layout: the layouts' opcodes
/// are pairwise distinct, so each Direct case of the late table is found at its own
/// layout, whose handler is the case's handler.
pub proof fn lemma_exactly_46_late_layouts()
    ensures
        late_layout_opcodes().no_duplicates(),
        late_layout_opcodes().to_set().len() == LATE_DIRECT_HANDLER_COUNT,
        forall|op: u8|
            #[trigger] late_layout_opcodes().to_set().contains(op) <==> exists|k: int|
                0 <= k < 46 && spec_handler_layout_b_late()[k].opcode == op,
        forall|k: int, j: int|
            0 <= j < k < 46 ==> (#[trigger] spec_handler_layout_b_late()[j]).opcode
                != (#[trigger] spec_handler_layout_b_late()[k]).opcode,
        forall|k: int|
            0 <= k < 69 && (#[trigger] spec_opcode_table_b_late()[k]).kind == OpcodeKind::Direct ==> k < 46
                && spec_handler_layout_b_late()[k].opcode == spec_opcode_table_b_late()[k].opcode
                && spec_handler_layout_b_late()[k].handler == spec_opcode_table_b_late()[k].handler,
{
    lemma_late_layouts_catalogue_direct_cases();
    crate::run_program_vm::lemma_tables_are_unique_69();
    let t = crate::run_program_vm::table_opcodes(spec_opcode_table_b_late());
    assert forall|k: int, j: int|
        0 <= j < k < 46 implies (#[trigger] spec_handler_layout_b_late()[j]).opcode
            != (#[trigger] spec_handler_layout_b_late()[k]).opcode by {
        assert(t[j] == spec_opcode_table_b_late()[j].opcode);
        assert(t[k] == spec_opcode_table_b_late()[k].opcode);
    }
    let s = late_layout_opcodes();
    assert(s.no_duplicates()) by {
        assert forall|i: int, j: int| 0 <= i < s.len() && 0 <= j < s.len() && i != j implies s[i] != s[j] by {
            if i < j {
                assert(spec_handler_layout_b_late()[i].opcode != spec_handler_layout_b_late()[j].opcode);
            } else {
                assert(spec_handler_layout_b_late()[j].opcode != spec_handler_layout_b_late()[i].opcode);
            }
        }
    }
    s.unique_seq_to_set();
    assert forall|op: u8| #[trigger] s.to_set().contains(op) <==> exists|k: int|
        0 <= k < 46 && spec_handler_layout_b_late()[k].opcode == op by {
        if s.to_set().contains(op) {
            assert(s.contains(op));
            let k = choose|k: int| 0 <= k < s.len() && s[k] == op;
            assert(spec_handler_layout_b_late()[k].opcode == op);
        }
        if exists|k: int| 0 <= k < 46 && spec_handler_layout_b_late()[k].opcode == op {
            let k = choose|k: int| 0 <= k < 46 && spec_handler_layout_b_late()[k].opcode == op;
            assert(s[k] == op);
            assert(s.contains(op));
        }
    }
}

} // verus!

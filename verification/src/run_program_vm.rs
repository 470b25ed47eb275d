//! Static map of the iframe `runProgram` interpreter's opcode fetch.
//!
//! Linear builds:
//! ```text
//! opcode = key ^ ((byte wrapping_sub bias) & 0xff)
//! key    = ((key + opcode) * mul + add) & 0xff
//! ```
//! Quadratic builds (`key_quad_b != 0`):
//! ```text
//! mix    = key + opcode
//! key    = (mix*mix*mul + quad_b*mix + add) & 0xff
//! ```
//! Nothing here executes handlers.
use vstd::prelude::*;
use crate::fmt::{decimal, hex2, push_decimal, push_hex2, push_str};
use crate::run_program::{RUN_PROGRAM_MAGIC_BYTES, RUN_PROGRAM_MAGIC_BYTES_B, RUN_PROGRAM_MAGIC_BYTES_B_LATE};
use crate::text::{matches_at, starts_with_seq};

verus! {

/// Fetch schedule constants of one iframe build.
#[derive(Debug, Clone, Copy, PartialEq, Eq)]
pub struct FetchParams {
    pub label: &'static str,
    pub init_pc: u32,
    pub init_key: u8,
    pub byte_bias: u8,
    /// Linear: `mix * key_mul + key_add`. Quadratic: `mix² * key_mul`.
    pub key_mul: u32,
    /// Linear add, or quadratic constant term.
    pub key_add: u32,
    /// `0` = linear schedule. Nonzero = quadratic `mix²*mul + key_quad_b*mix + add`.
    pub key_quad_b: u32,
}

impl FetchParams {
    pub open spec fn quadratic(self) -> bool {
        self.key_quad_b != 0
    }

    pub fn is_quadratic(self) -> (r: bool)
        ensures
            r == self.quadratic(),
    {
        self.key_quad_b != 0
    }
}

pub open spec fn fetch_branch_g_spec() -> FetchParams {
    FetchParams {
        label: "iframe-g",
        init_pc: 0,
        init_key: 100,
        byte_bias: 62,
        key_mul: 19663,
        key_add: 36376,
        key_quad_b: 0,
    }
}

pub open spec fn fetch_branch_b_spec() -> FetchParams {
    FetchParams {
        label: "chrome-oracle-2026-08-21-b",
        init_pc: 0,
        init_key: 32,
        byte_bias: 37,
        key_mul: 36163,
        key_add: 38392,
        key_quad_b: 0,
    }
}

pub open spec fn fetch_branch_b_late_spec() -> FetchParams {
    FetchParams {
        label: "chrome-oracle-2026-08-21-b-late",
        init_pc: 0,
        init_key: 44,
        byte_bias: 253,
        key_mul: 56907,
        key_add: 22357,
        key_quad_b: 7914,
    }
}

/// Captured branch-`g` iframe.
pub fn fetch_branch_g() -> (p: FetchParams)
    ensures
        p == fetch_branch_g_spec(),
{
    FetchParams {
        label: "iframe-g",
        init_pc: 0,
        init_key: 100,
        byte_bias: 62,
        key_mul: 19_663,
        key_add: 36_376,
        key_quad_b: 0,
    }
}

/// Headed Chrome oracle, 2026-08-21 morning, platform branch `b`.
pub fn fetch_branch_b() -> (p: FetchParams)
    ensures
        p == fetch_branch_b_spec(),
{
    FetchParams {
        label: "chrome-oracle-2026-08-21-b",
        init_pc: 0,
        init_key: 32,
        byte_bias: 37,
        key_mul: 36_163,
        key_add: 38_392,
        key_quad_b: 0,
    }
}

/// Same day, later iframe (`mix²*56907 + 7914*mix + 22357`).
pub fn fetch_branch_b_late() -> (p: FetchParams)
    ensures
        p == fetch_branch_b_late_spec(),
{
    FetchParams {
        label: "chrome-oracle-2026-08-21-b-late",
        init_pc: 0,
        init_key: 44,
        byte_bias: 253,
        key_mul: 56_907,
        key_add: 22_357,
        key_quad_b: 7_914,
    }
}

/// Latest headed-Chrome snapshot (the late `b` schedule).
pub fn fetch_live() -> (p: FetchParams)
    ensures
        p == fetch_branch_b_late_spec(),
{
    fetch_branch_b_late()
}

pub const INIT_PC: u32 = 0;
pub const INIT_KEY: u8 = 44;
pub const BYTE_BIAS: u8 = 253;
pub const KEY_MUL: u32 = 56907;
pub const KEY_ADD: u32 = 22357;

/// The opcode a fetched byte decodes to under `key`.
pub open spec fn spec_decode_opcode(params: FetchParams, key: u8, byte: u8) -> u8 {
    key ^ byte.wrapping_sub(params.byte_bias)
}

/// The byte that decodes to `opcode` under `key`.
pub open spec fn spec_encode_byte(params: FetchParams, key: u8, opcode: u8) -> u8 {
    (key ^ opcode).wrapping_add(params.byte_bias)
}

/// The schedule polynomial before the final `& 0xff`.
pub open spec fn mixed_value(params: FetchParams, key: u8, opcode: u8) -> int {
    let mix = key as int + opcode as int;
    if params.key_quad_b == 0 {
        mix * params.key_mul + params.key_add
    } else {
        mix * mix * params.key_mul + params.key_quad_b * mix + params.key_add
    }
}

/// The fetch key after `opcode` was fetched under `key`.
pub open spec fn spec_next_key(params: FetchParams, key: u8, opcode: u8) -> u8 {
    (mixed_value(params, key, opcode) % 256) as u8
}

pub fn decode_opcode(params: FetchParams, key: u8, byte: u8) -> (r: u8)
    ensures
        r == spec_decode_opcode(params, key, byte),
{
    key ^ byte.wrapping_sub(params.byte_bias)
}

pub fn encode_byte(params: FetchParams, key: u8, opcode: u8) -> (r: u8)
    ensures
        r == spec_encode_byte(params, key, opcode),
{
    (key ^ opcode).wrapping_add(params.byte_bias)
}

pub fn next_key(params: FetchParams, key: u8, opcode: u8) -> (r: u8)
    ensures
        r == spec_next_key(params, key, opcode),
{
    let mix: u64 = key as u64 + opcode as u64;
    let mul: u64 = params.key_mul as u64;
    let add: u64 = params.key_add as u64;
    let quad: u64 = params.key_quad_b as u64;
    proof {
        assert(mix * mix <= 510 * 510) by (nonlinear_arith)
            requires mix <= 510;
        assert(mix * mix * mul <= 260100 * 4294967295) by (nonlinear_arith)
            requires mix * mix <= 260100, mul <= 4294967295;
        assert(quad * mix <= 4294967295 * 510) by (nonlinear_arith)
            requires mix <= 510, quad <= 4294967295;
        assert(mix * mul <= 510 * 4294967295) by (nonlinear_arith)
            requires mix <= 510, mul <= 4294967295;
    }
    let mixed: u64 = if params.key_quad_b == 0 {
        mix * mul + add
    } else {
        mix * mix * mul + quad * mix + add
    };
    assert(mixed as int == mixed_value(params, key, opcode));
    assert(mixed & 0xff == mixed % 256) by (bit_vector);
    (mixed & 0xff) as u8
}

/// Decoding the byte produced by `encode_byte` gives back the opcode.
pub proof fn lemma_decode_encode(params: FetchParams, key: u8, opcode: u8)
    ensures
        spec_decode_opcode(params, key, spec_encode_byte(params, key, opcode)) == opcode,
{
    let x: u8 = key ^ opcode;
    assert(x.wrapping_add(params.byte_bias).wrapping_sub(params.byte_bias) == x);
    assert(key ^ (key ^ opcode) == opcode) by (bit_vector);
}

/// Encoding the opcode that a byte decodes to gives back the byte.
pub proof fn lemma_encode_decode(params: FetchParams, key: u8, byte: u8)
    ensures
        spec_encode_byte(params, key, spec_decode_opcode(params, key, byte)) == byte,
{
    let y: u8 = byte.wrapping_sub(params.byte_bias);
    assert(key ^ (key ^ y) == y) by (bit_vector);
    assert(y.wrapping_add(params.byte_bias) == byte);
}

/// Subtracting the bias wraps the same as adding its complement mod 256.
pub proof fn lemma_wrapping_sub_is_add_complement(byte: u8, bias: u8)
    ensures
        byte.wrapping_sub(bias) == byte.wrapping_add(((256 - bias as int) % 256) as u8),
{
}

/// The schedule only depends on its constants modulo 256: reducing `key_mul`,
/// `key_quad_b` and `key_add` mod 256 gives the same next key.
pub proof fn lemma_next_key_reduced_mod_256(params: FetchParams, key: u8, opcode: u8)
    ensures
        spec_next_key(params, key, opcode) == ({
            let mix = key as int + opcode as int;
            let m = params.key_mul as int % 256;
            let b = params.key_quad_b as int % 256;
            let a = params.key_add as int % 256;
            if params.key_quad_b == 0 {
                ((mix * m + a) % 256) as u8
            } else {
                ((mix * mix * m + b * mix + a) % 256) as u8
            }
        }),
{
    let mix = key as int + opcode as int;
    let mul = params.key_mul as int;
    let quad = params.key_quad_b as int;
    let add = params.key_add as int;
    let m = mul % 256;
    let b = quad % 256;
    let a = add % 256;
    let qm = mul / 256;
    let qb = quad / 256;
    let qa = add / 256;
    vstd::arithmetic::div_mod::lemma_fundamental_div_mod(mul, 256);
    vstd::arithmetic::div_mod::lemma_fundamental_div_mod(quad, 256);
    vstd::arithmetic::div_mod::lemma_fundamental_div_mod(add, 256);
    if params.key_quad_b == 0 {
        let k = mix * qm + qa;
        assert(mix * mul + add == 256 * k + (mix * m + a)) by (nonlinear_arith)
            requires
                mul == 256 * qm + m,
                add == 256 * qa + a,
                k == mix * qm + qa;
        vstd::arithmetic::div_mod::lemma_mod_multiples_vanish(k, mix * m + a, 256);
    } else {
        let k = mix * mix * qm + qb * mix + qa;
        assert(mix * mix * mul + quad * mix + add == 256 * k + (mix * mix * m + b * mix + a))
            by (nonlinear_arith)
            requires
                mul == 256 * qm + m,
                quad == 256 * qb + b,
                add == 256 * qa + a,
                k == mix * mix * qm + qb * mix + qa;
        vstd::arithmetic::div_mod::lemma_mod_multiples_vanish(k, mix * mix * m + b * mix + a, 256);
    }
}

#[derive(Debug, Clone, Copy, PartialEq, Eq)]
pub enum OpcodeKind {
    Direct,
    S1,
    S2,
}

/// One switch case of the interpreter.
#[derive(Debug, Clone, Copy, PartialEq, Eq)]
pub struct OpcodeDef {
    pub opcode: u8,
    pub handler: &'static str,
    pub kind: OpcodeKind,
    pub imm: Option<u8>,
}

pub const DIRECT_OPCODES_G: [u8; 46] = [213, 246, 239, 189, 77, 40, 38, 30, 17, 25, 21, 13, 136, 116, 111, 9, 229, 209, 231, 137, 29, 68, 253, 86, 47, 192, 108, 202, 188, 151, 207, 43, 250, 177, 206, 182, 71, 129, 224, 219, 61, 157, 212, 121, 20, 67];
pub const DIRECT_HANDLERS_G: [&'static str; 46] = ["sh", "sZ", "sz", "si", "sU", "sa", "sc", "sJ", "st", "sO", "sF", "sk", "sQ", "sf", "sd", "sL", "se", "sA", "sq", "sT", "sS", "su", "sm", "sX", "sI", "sW", "sx", "sw", "sE", "sP", "sM", "sr", "sK", "sy", "sp", "sg", "sj", "sN", "s7", "s8", "s9", "ss", "s3", "s4", "s5", "s6"];
pub const S1_OPCODES_G: [u8; 18] = [147, 238, 185, 123, 3, 146, 218, 161, 148, 2, 243, 221, 240, 251, 235, 51, 194, 125];
pub const S1_IMMS_G: [u8; 18] = [164, 147, 177, 183, 222, 14, 65, 230, 154, 159, 122, 127, 76, 100, 75, 175, 249, 129];
pub const S2_OPCODES_G: [u8; 5] = [215, 153, 165, 79, 126];
pub const S2_IMMS_G: [u8; 5] = [84, 215, 220, 28, 203];

pub const DIRECT_OPCODES_B: [u8; 46] = [247, 184, 230, 191, 2, 103, 215, 50, 14, 176, 8, 49, 165, 111, 63, 156, 188, 207, 225, 91, 41, 183, 51, 0, 71, 31, 133, 252, 113, 87, 197, 38, 52, 211, 177, 56, 77, 160, 112, 144, 48, 81, 9, 85, 16, 243];
pub const DIRECT_HANDLERS_B: [&'static str; 46] = ["dA", "d8", "d9", "dJ", "dd", "dh", "d5", "d4", "d6", "d7", "dN", "dQ", "dO", "dI", "dc", "dK", "dn", "dR", "dU", "dq", "dl", "dv", "di", "d1", "d2", "d3", "d0", "P", "df", "dV", "dL", "da", "dG", "dZ", "dS", "dk", "dD", "db", "F", "m", "o", "M", "p", "T", "B", "X"];
pub const S1_OPCODES_B: [u8; 18] = [185, 66, 202, 209, 5, 83, 122, 1, 218, 117, 17, 204, 145, 162, 171, 65, 124, 147];
pub const S1_IMMS_B: [u8; 18] = [245, 17, 105, 198, 154, 33, 236, 214, 204, 192, 243, 115, 200, 146, 162, 10, 153, 158];
pub const S2_OPCODES_B: [u8; 5] = [69, 244, 70, 199, 25];
pub const S2_IMMS_B: [u8; 5] = [42, 100, 7, 128, 81];

pub const DIRECT_OPCODES_B_LATE: [u8; 46] = [187, 153, 38, 34, 26, 122, 196, 45, 104, 12, 222, 130, 113, 201, 52, 230, 94, 73, 27, 55, 177, 135, 219, 134, 127, 103, 30, 246, 11, 208, 168, 161, 119, 165, 126, 181, 176, 98, 227, 169, 138, 226, 132, 72, 183, 140];
pub const DIRECT_HANDLERS_B_LATE: [&'static str; 46] = ["XX", "X5", "X6", "X8", "X7", "X9", "X2", "X1", "X3", "X4", "Xf", "Xg", "XP", "Xj", "Xz", "Xv", "XH", "Xk", "XB", "XT", "XU", "Xi", "XD", "gO", "gc", "X0", "gx", "gq", "XJ", "Xn", "Xb", "Xr", "Xd", "XA", "XW", "Xh", "XE", "XV", "gG", "ge", "gN", "gC", "gy", "gY", "gZ", "gl"];
pub const S1_OPCODES_B_LATE: [u8; 18] = [194, 221, 66, 157, 203, 10, 43, 15, 137, 214, 108, 0, 19, 90, 93, 234, 4, 31];
pub const S1_IMMS_B_LATE: [u8; 18] = [66, 18, 241, 65, 3, 22, 214, 88, 149, 131, 150, 55, 62, 249, 27, 21, 198, 220];
pub const S2_OPCODES_B_LATE: [u8; 5] = [97, 22, 87, 148, 241];
pub const S2_IMMS_B_LATE: [u8; 5] = [139, 234, 133, 119, 144];


pub open spec fn direct_def(opcode: u8, handler: &'static str) -> OpcodeDef {
    OpcodeDef { opcode, handler, kind: OpcodeKind::Direct, imm: None }
}

pub open spec fn s1_def(opcode: u8, imm: u8) -> OpcodeDef {
    OpcodeDef { opcode, handler: "s1", kind: OpcodeKind::S1, imm: Some(imm) }
}

pub open spec fn s2_def(opcode: u8, imm: u8) -> OpcodeDef {
    OpcodeDef { opcode, handler: "s2", kind: OpcodeKind::S2, imm: Some(imm) }
}

/// A switch table: direct cases, then the `s1` family, then the `s2` family.
pub open spec fn table_from_parts(
    direct: Seq<u8>,
    handlers: Seq<&'static str>,
    s1_ops: Seq<u8>,
    s1_imms: Seq<u8>,
    s2_ops: Seq<u8>,
    s2_imms: Seq<u8>,
) -> Seq<OpcodeDef> {
    Seq::new(direct.len(), |i: int| direct_def(direct[i], handlers[i]))
        + Seq::new(s1_ops.len(), |i: int| s1_def(s1_ops[i], s1_imms[i]))
        + Seq::new(s2_ops.len(), |i: int| s2_def(s2_ops[i], s2_imms[i]))
}

fn build_table(
    direct: &[u8],
    handlers: &[&'static str],
    s1_ops: &[u8],
    s1_imms: &[u8],
    s2_ops: &[u8],
    s2_imms: &[u8],
) -> (t: Vec<OpcodeDef>)
    requires
        direct@.len() == handlers@.len(),
        s1_ops@.len() == s1_imms@.len(),
        s2_ops@.len() == s2_imms@.len(),
    ensures
        t@ == table_from_parts(direct@, handlers@, s1_ops@, s1_imms@, s2_ops@, s2_imms@),
{
    let mut t: Vec<OpcodeDef> = Vec::new();
    let mut i: usize = 0;
    while i < direct.len()
        invariant
            i <= direct@.len(),
            direct@.len() == handlers@.len(),
            t@ == Seq::new(i as nat, |k: int| direct_def(direct@[k], handlers@[k])),
        decreases direct@.len() - i,
    {
        t.push(OpcodeDef { opcode: direct[i], handler: handlers[i], kind: OpcodeKind::Direct, imm: None });
        i = i + 1;
        assert(t@ =~= Seq::new(i as nat, |k: int| direct_def(direct@[k], handlers@[k])));
    }
    let ghost d = t@;
    i = 0;
    while i < s1_ops.len()
        invariant
            i <= s1_ops@.len(),
            s1_ops@.len() == s1_imms@.len(),
            t@ == d + Seq::new(i as nat, |k: int| s1_def(s1_ops@[k], s1_imms@[k])),
        decreases s1_ops@.len() - i,
    {
        t.push(OpcodeDef { opcode: s1_ops[i], handler: "s1", kind: OpcodeKind::S1, imm: Some(s1_imms[i]) });
        i = i + 1;
        assert(t@ =~= d + Seq::new(i as nat, |k: int| s1_def(s1_ops@[k], s1_imms@[k])));
    }
    let ghost d1 = t@;
    i = 0;
    while i < s2_ops.len()
        invariant
            i <= s2_ops@.len(),
            s2_ops@.len() == s2_imms@.len(),
            t@ == d1 + Seq::new(i as nat, |k: int| s2_def(s2_ops@[k], s2_imms@[k])),
        decreases s2_ops@.len() - i,
    {
        t.push(OpcodeDef { opcode: s2_ops[i], handler: "s2", kind: OpcodeKind::S2, imm: Some(s2_imms[i]) });
        i = i + 1;
        assert(t@ =~= d1 + Seq::new(i as nat, |k: int| s2_def(s2_ops@[k], s2_imms@[k])));
    }
    t
}

pub open spec fn spec_opcode_table_g() -> Seq<OpcodeDef> {
    table_from_parts(DIRECT_OPCODES_G@, DIRECT_HANDLERS_G@, S1_OPCODES_G@, S1_IMMS_G@, S2_OPCODES_G@, S2_IMMS_G@)
}

pub open spec fn spec_opcode_table_b() -> Seq<OpcodeDef> {
    table_from_parts(DIRECT_OPCODES_B@, DIRECT_HANDLERS_B@, S1_OPCODES_B@, S1_IMMS_B@, S2_OPCODES_B@, S2_IMMS_B@)
}

pub open spec fn spec_opcode_table_b_late() -> Seq<OpcodeDef> {
    table_from_parts(
        DIRECT_OPCODES_B_LATE@,
        DIRECT_HANDLERS_B_LATE@,
        S1_OPCODES_B_LATE@,
        S1_IMMS_B_LATE@,
        S2_OPCODES_B_LATE@,
        S2_IMMS_B_LATE@,
    )
}

/// Switch from the branch-`g` capture.
pub fn opcode_table_g() -> (t: Vec<OpcodeDef>)
    ensures
        t@ == spec_opcode_table_g(),
{
    build_table(&DIRECT_OPCODES_G, &DIRECT_HANDLERS_G, &S1_OPCODES_G, &S1_IMMS_G, &S2_OPCODES_G, &S2_IMMS_G)
}

/// Switch from the headed Chrome iframe (branch `b`).
pub fn opcode_table_b() -> (t: Vec<OpcodeDef>)
    ensures
        t@ == spec_opcode_table_b(),
{
    build_table(&DIRECT_OPCODES_B, &DIRECT_HANDLERS_B, &S1_OPCODES_B, &S1_IMMS_B, &S2_OPCODES_B, &S2_IMMS_B)
}

/// Same-day rotation (`56907`).
pub fn opcode_table_b_late() -> (t: Vec<OpcodeDef>)
    ensures
        t@ == spec_opcode_table_b_late(),
{
    build_table(
        &DIRECT_OPCODES_B_LATE,
        &DIRECT_HANDLERS_B_LATE,
        &S1_OPCODES_B_LATE,
        &S1_IMMS_B_LATE,
        &S2_OPCODES_B_LATE,
        &S2_IMMS_B_LATE,
    )
}

/// The table the early-`b` operand layouts are keyed to.
pub fn opcode_table() -> (t: Vec<OpcodeDef>)
    ensures
        t@ == spec_opcode_table_b(),
{
    opcode_table_b()
}

/// `table` has a case for `opcode`.
pub open spec fn spec_is_mapped(table: Seq<OpcodeDef>, opcode: u8) -> bool {
    exists|i: int| 0 <= i < table.len() && table[i].opcode == opcode
}

/// The first case of `table` for `opcode`, if any.
pub fn opcode_def_in(table: &[OpcodeDef], opcode: u8) -> (r: Option<&OpcodeDef>)
    ensures
        match r {
            Some(d) => exists|i: int|
                0 <= i < table@.len() && table@[i] == *d && d.opcode == opcode && (forall|j: int|
                    0 <= j < i ==> table@[j].opcode != opcode),
            None => !spec_is_mapped(table@, opcode),
        },
{
    let mut i: usize = 0;
    while i < table.len()
        invariant
            i <= table@.len(),
            forall|j: int| 0 <= j < i ==> table@[j].opcode != opcode,
        decreases table@.len() - i,
    {
        if table[i].opcode == opcode {
            return Some(&table[i]);
        }
        i = i + 1;
    }
    None
}

/// The case for `opcode` in the early-`b` table.
pub fn opcode_def(opcode: u8) -> (r: Option<OpcodeDef>)
    ensures
        match r {
            Some(d) => exists|i: int|
                0 <= i < spec_opcode_table_b().len() && spec_opcode_table_b()[i] == d && d.opcode
                    == opcode && (forall|j: int| 0 <= j < i ==> spec_opcode_table_b()[j].opcode != opcode),
            None => !spec_is_mapped(spec_opcode_table_b(), opcode),
        },
{
    let t = opcode_table();
    match opcode_def_in(t.as_slice(), opcode) {
        Some(d) => Some(*d),
        None => None,
    }
}

pub fn is_mapped_in(table: &[OpcodeDef], opcode: u8) -> (r: bool)
    ensures
        r == spec_is_mapped(table@, opcode),
{
    opcode_def_in(table, opcode).is_some()
}

/// Decode one byte and advance the key: `(opcode, next_key)`.
pub fn step_fetch(params: FetchParams, key: u8, byte: u8) -> (r: (u8, u8))
    ensures
        r.0 == spec_decode_opcode(params, key, byte),
        r.1 == spec_next_key(params, key, r.0),
{
    let opcode = decode_opcode(params, key, byte);
    (opcode, next_key(params, key, opcode))
}

/// Fetch key before the `i`-th byte of `bytes` when the walk starts with `key0`.
pub open spec fn key_at(params: FetchParams, key0: u8, bytes: Seq<u8>, i: nat) -> u8
    decreases i,
{
    if i == 0 {
        key0
    } else {
        let k = key_at(params, key0, bytes, (i - 1) as nat);
        spec_next_key(params, k, spec_decode_opcode(params, k, bytes[i - 1]))
    }
}

/// Opcode the `i`-th byte of `bytes` decodes to on a one-byte walk from `key0`.
pub open spec fn opcode_at(params: FetchParams, key0: u8, bytes: Seq<u8>, i: nat) -> u8 {
    spec_decode_opcode(params, key_at(params, key0, bytes, i), bytes[i as int])
}

/// Key before the `i`-th opcode when `ops` is encoded from `key0`.
pub open spec fn encode_key_at(params: FetchParams, key0: u8, ops: Seq<u8>, i: nat) -> u8
    decreases i,
{
    if i == 0 {
        key0
    } else {
        let k = encode_key_at(params, key0, ops, (i - 1) as nat);
        spec_next_key(params, k, ops[i - 1])
    }
}

/// The bytes that encode the opcode sequence `ops` on a one-byte walk from `key0`.
pub open spec fn encode_stream(params: FetchParams, key0: u8, ops: Seq<u8>) -> Seq<u8> {
    Seq::new(ops.len(), |i: int| spec_encode_byte(params, encode_key_at(params, key0, ops, i as nat), ops[i]))
}

/// A one-byte walk over an encoded opcode stream decodes every opcode back.
pub proof fn lemma_walk_decodes_encoded_stream(params: FetchParams, key0: u8, ops: Seq<u8>, i: nat)
    requires
        i < ops.len(),
    ensures
        key_at(params, key0, encode_stream(params, key0, ops), i) == encode_key_at(params, key0, ops, i),
        opcode_at(params, key0, encode_stream(params, key0, ops), i) == ops[i as int],
    decreases i,
{
    let bytes = encode_stream(params, key0, ops);
    if i > 0 {
        lemma_walk_decodes_encoded_stream(params, key0, ops, (i - 1) as nat);
        let k = encode_key_at(params, key0, ops, (i - 1) as nat);
        lemma_decode_encode(params, k, ops[i - 1]);
    }
    lemma_decode_encode(params, encode_key_at(params, key0, ops, i), ops[i as int]);
}

/// One fetched opcode of a naive one-byte walk.
#[derive(Debug, Clone, Copy, PartialEq, Eq)]
pub struct OpcodeFetch {
    pub pc: u32,
    pub key: u8,
    pub byte: u8,
    pub opcode: u8,
    pub next_key: u8,
    pub mapped: bool,
}

/// Result of a naive one-byte walk.
#[derive(Debug, Clone)]
pub struct OpcodeStream {
    pub params_label: &'static str,
    pub init_pc: u32,
    pub init_key: u8,
    pub fetches: Vec<OpcodeFetch>,
    pub stopped: &'static str,
    pub first_mapped: Option<u8>,
    pub pc_deltas: Vec<u32>,
}

/// Number of bytes a walk from `pc` can fetch before the end of `bytes`.
pub open spec fn bytes_after(bytes: Seq<u8>, pc: int) -> int {
    if pc <= bytes.len() { bytes.len() - pc } else { 0 }
}

/// The `i`-th fetch of a naive walk over `bytes` with `params` and `table`.
pub open spec fn walk_fetch(params: FetchParams, table: Seq<OpcodeDef>, bytes: Seq<u8>, i: nat) -> OpcodeFetch {
    let rest = bytes.subrange(params.init_pc as int, bytes.len() as int);
    let op = opcode_at(params, params.init_key, rest, i);
    OpcodeFetch {
        pc: (params.init_pc + i) as u32,
        key: key_at(params, params.init_key, rest, i),
        byte: rest[i as int],
        opcode: op,
        next_key: key_at(params, params.init_key, rest, i + 1),
        mapped: spec_is_mapped(table, op),
    }
}

/// What a naive walk of `limit` fetches over `bytecode` returns.
pub open spec fn walk_result(s: OpcodeStream, bytecode: Seq<u8>, params: FetchParams, table: Seq<OpcodeDef>, limit: usize) -> bool {
    &&& ({
        let n = if limit <= bytes_after(bytecode, params.init_pc as int) {
            limit as int
        } else {
            bytes_after(bytecode, params.init_pc as int)
        };
        &&& s.fetches@.len() == n
        &&& forall|i: int| 0 <= i < n ==> s.fetches@[i] == walk_fetch(params, table, bytecode, i as nat)
        &&& s.stopped == (if limit <= bytes_after(bytecode, params.init_pc as int) { "limit" } else { "end_of_bytecode" })
        &&& match s.first_mapped {
            Some(op) => exists|i: int|
                0 <= i < n && s.fetches@[i].mapped && s.fetches@[i].opcode == op && (forall|j: int|
                    0 <= j < i ==> !s.fetches@[j].mapped),
            None => forall|i: int| 0 <= i < n ==> !s.fetches@[i].mapped,
        }
        &&& s.pc_deltas@.len() == (if n > 0 { n - 1 } else { 0 })
        &&& forall|i: int| 0 <= i < s.pc_deltas@.len() ==> s.pc_deltas@[i] == 1
    })
    &&& s.params_label == params.label
    &&& s.init_pc == params.init_pc
    &&& s.init_key == params.init_key
}

/// 1-byte walk from `params.init_pc` / `init_key`, at most `limit` fetches.
/// It diverges from the interpreter at the first handler that reads immediates.
pub fn naive_one_byte_fetches(
    bytecode: &[u8],
    params: FetchParams,
    table: &[OpcodeDef],
    limit: usize,
) -> (s: OpcodeStream)
    requires
        bytecode@.len() < u32::MAX,
    ensures
        walk_result(s, bytecode@, params, table@, limit),
{
    let ghost rest = bytecode@.subrange(params.init_pc as int, bytecode@.len() as int);
    let mut pc = params.init_pc;
    let mut key = params.init_key;
    let mut fetches: Vec<OpcodeFetch> = Vec::new();
    let mut first_mapped: Option<u8> = None;
    while fetches.len() < limit && (pc as usize) < bytecode.len()
        invariant
            bytecode@.len() < u32::MAX,
            pc == params.init_pc + fetches@.len(),
            params.init_pc <= bytecode@.len() ==> pc <= bytecode@.len(),
            params.init_pc > bytecode@.len() ==> fetches@.len() == 0,
            fetches@.len() <= limit,
            rest == bytecode@.subrange(params.init_pc as int, bytecode@.len() as int),
            key == key_at(params, params.init_key, rest, fetches@.len() as nat),
            forall|i: int| 0 <= i < fetches@.len() ==> fetches@[i] == walk_fetch(params, table@, bytecode@, i as nat),
            match first_mapped {
                Some(op) => exists|i: int|
                    0 <= i < fetches@.len() && fetches@[i].mapped && fetches@[i].opcode == op && (forall|j: int|
                        0 <= j < i ==> !fetches@[j].mapped),
                None => forall|i: int| 0 <= i < fetches@.len() ==> !fetches@[i].mapped,
            },
        decreases limit - fetches@.len(),
    {
        let idx = pc as usize;
        let byte = bytecode[idx];
        let (opcode, nk) = step_fetch(params, key, byte);
        let mapped = is_mapped_in(table, opcode);
        let ghost n = fetches@.len();
        let ghost old_fetches = fetches@;
        let ghost old_first = first_mapped;
        proof {
            assert(rest[n as int] == byte);
        }
        if mapped && first_mapped.is_none() {
            first_mapped = Some(opcode);
        }
        fetches.push(OpcodeFetch { pc, key, byte, opcode, next_key: nk, mapped });
        proof {
            assert(fetches@[n as int] == walk_fetch(params, table@, bytecode@, n as nat));
            match first_mapped {
                Some(op) => {
                    match old_first {
                        Some(op0) => {
                            let i0 = choose|i: int|
                                0 <= i < old_fetches.len() && old_fetches[i].mapped && old_fetches[i].opcode == op0 && (forall|j: int|
                                    0 <= j < i ==> !old_fetches[j].mapped);
                            assert(fetches@[i0] == old_fetches[i0]);
                            assert(forall|j: int| 0 <= j < i0 ==> fetches@[j] == old_fetches[j]);
                        },
                        None => {
                            assert(fetches@[n as int].mapped && fetches@[n as int].opcode == op);
                            assert(forall|j: int| 0 <= j < n ==> fetches@[j] == old_fetches[j]);
                        },
                    }
                },
                None => {
                    assert(forall|j: int| 0 <= j < n ==> fetches@[j] == old_fetches[j]);
                },
            }
        }
        pc = pc + 1;
        key = nk;
    }
    let stopped = if fetches.len() < limit { "end_of_bytecode" } else { "limit" };
    let mut pc_deltas: Vec<u32> = Vec::new();
    let mut w: usize = 1;
    while w < fetches.len()
        invariant
            1 <= w <= fetches@.len() || (fetches@.len() == 0 && w == 1),
            pc_deltas@.len() == w - 1,
            forall|i: int| 0 <= i < pc_deltas@.len() ==> pc_deltas@[i] == 1,
            forall|i: int| 0 <= i < fetches@.len() ==> fetches@[i].pc == params.init_pc + i,
        decreases fetches@.len() - w,
    {
        pc_deltas.push(fetches[w].pc - fetches[w - 1].pc);
        w = w + 1;
    }
    let s = OpcodeStream {
        params_label: params.label,
        init_pc: params.init_pc,
        init_key: params.init_key,
        fetches,
        stopped,
        first_mapped,
        pc_deltas,
    };
    proof {
        let n = if limit <= bytes_after(bytecode@, params.init_pc as int) {
            limit as int
        } else {
            bytes_after(bytecode@, params.init_pc as int)
        };
        assert(s.fetches@.len() == n);
        assert(s.pc_deltas@.len() == (if n > 0 { n - 1 } else { 0 }));
    }
    s
}

/// Naive walk over exactly the magic header.
pub fn magic_header_naive_fetches(magic: &[u8], params: FetchParams, table: &[OpcodeDef]) -> (s: OpcodeStream)
    requires
        magic@.len() < u32::MAX,
    ensures
        walk_result(s, magic@, params, table@, magic@.len() as usize),
{
    naive_one_byte_fetches(magic, params, table, magic.len())
}

/// Pick fetch schedule and switch table from a packed-program magic header.
pub fn params_for_magic(magic: &[u8]) -> (r: Option<(FetchParams, Vec<OpcodeDef>)>)
    ensures
        match r {
            Some((p, t)) => {
                if starts_with_seq(magic@, RUN_PROGRAM_MAGIC_BYTES_B_LATE@) {
                    p == fetch_branch_b_late_spec() && t@ == spec_opcode_table_b_late()
                } else if starts_with_seq(magic@, RUN_PROGRAM_MAGIC_BYTES_B@) {
                    p == fetch_branch_b_spec() && t@ == spec_opcode_table_b()
                } else {
                    starts_with_seq(magic@, RUN_PROGRAM_MAGIC_BYTES@) && p == fetch_branch_g_spec()
                        && t@ == spec_opcode_table_g()
                }
            },
            None => !starts_with_seq(magic@, RUN_PROGRAM_MAGIC_BYTES_B_LATE@) && !starts_with_seq(
                magic@,
                RUN_PROGRAM_MAGIC_BYTES_B@,
            ) && !starts_with_seq(magic@, RUN_PROGRAM_MAGIC_BYTES@),
        },
{
    if matches_at(magic, &RUN_PROGRAM_MAGIC_BYTES_B_LATE, 0) {
        Some((fetch_branch_b_late(), opcode_table_b_late()))
    } else if matches_at(magic, &RUN_PROGRAM_MAGIC_BYTES_B, 0) {
        Some((fetch_branch_b(), opcode_table_b()))
    } else if matches_at(magic, &RUN_PROGRAM_MAGIC_BYTES, 0) {
        Some((fetch_branch_g(), opcode_table_g()))
    } else {
        None
    }
}

/// Whether a known snapshot has these `init_key`, `byte_bias` and `key_mul`.
pub open spec fn snapshot_matches(p: FetchParams, init_key: u8, byte_bias: u8, key_mul: u32) -> bool {
    p.init_key == init_key && p.byte_bias == byte_bias && p.key_mul == key_mul
}

/// The first known snapshot (late `b`, early `b`, `g`, in that order) with these fetch constants.
pub open spec fn oracle_snapshot(init_key: u8, byte_bias: u8, key_mul: u32) -> Option<FetchParams> {
    if snapshot_matches(fetch_branch_b_late_spec(), init_key, byte_bias, key_mul) {
        Some(fetch_branch_b_late_spec())
    } else if snapshot_matches(fetch_branch_b_spec(), init_key, byte_bias, key_mul) {
        Some(fetch_branch_b_spec())
    } else if snapshot_matches(fetch_branch_g_spec(), init_key, byte_bias, key_mul) {
        Some(fetch_branch_g_spec())
    } else {
        None
    }
}

/// Match an oracle fixture's fetch constants to a known snapshot (late `b`, early `b`, `g`, in that order).
pub fn params_from_oracle_fetch(init_key: u8, byte_bias: u8, key_mul: u32) -> (r: Option<FetchParams>)
    ensures
        r == oracle_snapshot(init_key, byte_bias, key_mul),
{
    let late = fetch_branch_b_late();
    let b = fetch_branch_b();
    let g = fetch_branch_g();
    if late.init_key == init_key && late.byte_bias == byte_bias && late.key_mul == key_mul {
        Some(late)
    } else if b.init_key == init_key && b.byte_bias == byte_bias && b.key_mul == key_mul {
        Some(b)
    } else if g.init_key == init_key && g.byte_bias == byte_bias && g.key_mul == key_mul {
        Some(g)
    } else {
        None
    }
}

/// The mismatch report of [`verify_oracle_tuple`].
pub open spec fn oracle_mismatch_message(params: FetchParams, pc: u32, key: u8, byte: u8, got: u8, opcode: u8) -> Seq<char> {
    "pc "@ + decimal(pc as nat) + ": decode("@ + params.label@ + " key="@ + decimal(key as nat)
        + " byte=0x"@ + hex2(byte) + ") = "@ + decimal(got as nat) + ", oracle "@ + decimal(opcode as nat)
}

/// Check one `(pc, key, byte, opcode)` tuple from a headed-Chrome oracle.
pub fn verify_oracle_tuple(params: FetchParams, pc: u32, key: u8, byte: u8, opcode: u8) -> (r: Result<(), String>)
    ensures
        match r {
            Ok(()) => spec_decode_opcode(params, key, byte) == opcode,
            Err(msg) => spec_decode_opcode(params, key, byte) != opcode && msg@ == oracle_mismatch_message(
                params,
                pc,
                key,
                byte,
                spec_decode_opcode(params, key, byte),
                opcode,
            ),
        },
{
    let got = decode_opcode(params, key, byte);
    if got != opcode {
        let mut msg = String::new();
        push_str(&mut msg, "pc ");
        push_decimal(&mut msg, pc as u64);
        push_str(&mut msg, ": decode(");
        push_str(&mut msg, params.label);
        push_str(&mut msg, " key=");
        push_decimal(&mut msg, key as u64);
        push_str(&mut msg, " byte=0x");
        push_hex2(&mut msg, byte);
        push_str(&mut msg, ") = ");
        push_decimal(&mut msg, got as u64);
        push_str(&mut msg, ", oracle ");
        push_decimal(&mut msg, opcode as u64);
        proof {
            assert(msg@ =~= oracle_mismatch_message(params, pc, key, byte, got, opcode));
        }
        return Err(msg);
    }
    Ok(())
}

} // verus!

verus! {

/// Opcodes of a table, in order.
pub open spec fn table_opcodes(t: Seq<OpcodeDef>) -> Seq<u8> {
    Seq::new(t.len(), |i: int| t[i].opcode)
}

/// No opcode occurs twice.
pub open spec fn all_distinct(s: Seq<u8>) -> bool {
    forall|i: int, j: int| 0 <= i < j < s.len() ==> s[i] != s[j]
}

#[verifier::rlimit(100)]
proof fn lemma_table_g_distinct()
    ensures
        spec_opcode_table_g().len() == 69,
        all_distinct(table_opcodes(spec_opcode_table_g())),
{
    let t = spec_opcode_table_g();
    let ops = table_opcodes(t);
    assert(ops =~= DIRECT_OPCODES_G@ + S1_OPCODES_G@ + S2_OPCODES_G@);
    assert(ops =~= seq![213u8, 246, 239, 189, 77, 40, 38, 30, 17, 25, 21, 13, 136, 116, 111, 9, 229, 209, 231, 137, 29, 68, 253, 86, 47, 192, 108, 202, 188, 151, 207, 43, 250, 177, 206, 182, 71, 129, 224, 219, 61, 157, 212, 121, 20, 67, 147, 238, 185, 123, 3, 146, 218, 161, 148, 2, 243, 221, 240, 251, 235, 51, 194, 125, 215, 153, 165, 79, 126]);
}

#[verifier::rlimit(100)]
proof fn lemma_table_b_distinct()
    ensures
        spec_opcode_table_b().len() == 69,
        all_distinct(table_opcodes(spec_opcode_table_b())),
{
    let t = spec_opcode_table_b();
    let ops = table_opcodes(t);
    assert(ops =~= DIRECT_OPCODES_B@ + S1_OPCODES_B@ + S2_OPCODES_B@);
    assert(ops =~= seq![247u8, 184, 230, 191, 2, 103, 215, 50, 14, 176, 8, 49, 165, 111, 63, 156, 188, 207, 225, 91, 41, 183, 51, 0, 71, 31, 133, 252, 113, 87, 197, 38, 52, 211, 177, 56, 77, 160, 112, 144, 48, 81, 9, 85, 16, 243, 185, 66, 202, 209, 5, 83, 122, 1, 218, 117, 17, 204, 145, 162, 171, 65, 124, 147, 69, 244, 70, 199, 25]);
}

#[verifier::rlimit(100)]
proof fn lemma_table_b_late_distinct()
    ensures
        spec_opcode_table_b_late().len() == 69,
        all_distinct(table_opcodes(spec_opcode_table_b_late())),
{
    let t = spec_opcode_table_b_late();
    let ops = table_opcodes(t);
    assert(ops =~= DIRECT_OPCODES_B_LATE@ + S1_OPCODES_B_LATE@ + S2_OPCODES_B_LATE@);
    assert(ops =~= seq![187u8, 153, 38, 34, 26, 122, 196, 45, 104, 12, 222, 130, 113, 201, 52, 230, 94, 73, 27, 55, 177, 135, 219, 134, 127, 103, 30, 246, 11, 208, 168, 161, 119, 165, 126, 181, 176, 98, 227, 169, 138, 226, 132, 72, 183, 140, 194, 221, 66, 157, 203, 10, 43, 15, 137, 214, 108, 0, 19, 90, 93, 234, 4, 31, 97, 22, 87, 148, 241]);
}

/// Every switch table has 69 cases with pairwise distinct opcodes.
pub proof fn lemma_tables_are_unique_69()
    ensures
        spec_opcode_table_g().len() == 69,
        spec_opcode_table_b().len() == 69,
        spec_opcode_table_b_late().len() == 69,
        all_distinct(table_opcodes(spec_opcode_table_g())),
        all_distinct(table_opcodes(spec_opcode_table_b())),
        all_distinct(table_opcodes(spec_opcode_table_b_late())),
{
    lemma_table_g_distinct();
    lemma_table_b_distinct();
    lemma_table_b_late_distinct();
}

} // verus!

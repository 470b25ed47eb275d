//! Width-aware skip of mapped `runProgram` immediates (late-`b` `56907`).
//!
//! Harvests string immediates (`Xf` tag 199/161/117, `gC`/`gl` LEB strings,
//! the `ge` 4th immediate) without executing handlers, calling host JS, or
//! taking jumps. The linear walk skips `XU`/177 immediates and stops at the
//! first jump or other variable-width family it does not skip.
//!
//! Immediates of one instruction all decode with the post-fetch key, so an
//! immediate at byte `q` is `key ^ (bytecode[q] wrapping_sub bias) ^ extra`.
use vstd::prelude::*;
use crate::fmt::push_char;
use crate::text::{ascii_bytes, contains_bytes, contains_seq, find_from, first_occurrence_from, lemma_boundary_after_ascii, lemma_boundary_at_ascii, lemma_bytes_eq_chars_eq, lemma_str_valid, matches_at, str_slice, to_string};
use vstd::string::StringSliceAdditionalSpecFns;
use vstd::utf8::encode_utf8;
use crate::run_program_ops::{
    instr_width, jump_roles_for_late, layout_for_late, operand_from_byte, spec_handler_layout_b_late,
    spec_jump_imm_roles_b_late, spec_operand, InstrWidth, GE_OPCODE, HANDLER_LAYOUT_B_LATE_OPCODE,
    HANDLER_LAYOUT_B_LATE_WIDTH, XF_DST_XOR, XF_INT_XOR, XF_OPCODE, XF_STRING_CHARSET_XOR, XF_TAG_BYTES,
    XF_TAG_FALSE, XF_TAG_INT, XF_TAG_LEB, XF_TAG_NULL, XF_TAG_NUMBER_A, XF_TAG_NUMBER_B, XF_TAG_REGEXP,
    XF_TAG_STRING, XF_TAG_UNDEF, XF_TAG_XOR,
};
use crate::run_program_vm::{fetch_branch_b_late_spec, fetch_live, spec_decode_opcode, spec_next_key, step_fetch, FetchParams};

verus! {

broadcast use vstd::slice::group_slice_axioms;

pub const GC_OPCODE: u8 = 226;
pub const GL_OPCODE: u8 = 140;
pub const XU_OPCODE: u8 = 177;
pub const GC_STRING_CHARSET_XOR: u8 = 1;
pub const GL_STRING_CHARSET_XOR: u8 = 43;
pub const GE_KEY_IMM_XOR: u8 = 19;
pub const XU_DST_XOR: u8 = 96;
pub const XU_KEY_XOR: u8 = 207;
pub const XU_FLAGS_XOR: u8 = 68;
pub const XU_ARITY_XOR: u8 = 83;
pub const XU_ARG_XOR: u8 = 37;
/// Linear skip cap. Live `/fo/` packed bodies are ~600k+ bytecode bytes.
pub const SKIP_HARVEST_INSTR_LIMIT: usize = 1048576;
pub const XF_REGEXP_CHARSET_A: u8 = 195;
pub const XF_REGEXP_CHARSET_B: u8 = 229;
/// Longest LEB-prefixed string the walk accepts.
pub const SKIP_STRING_MAX_LEN: usize = 32768;

/// A string immediate found by the walk.
#[derive(Debug, Clone, PartialEq, Eq)]
pub struct HarvestedString {
    pub opcode: u8,
    pub handler: &'static str,
    pub pc: u32,
    pub text: String,
}

/// Result of a linear skip-harvest.
#[derive(Debug, Clone, PartialEq, Eq)]
pub struct SkipHarvest {
    pub params_label: &'static str,
    pub instructions: usize,
    pub last_pc: u32,
    pub last_opcode: Option<u8>,
    pub stopped: &'static str,
    pub strings: Vec<HarvestedString>,
    pub ge_key_imms: Vec<u8>,
}

/// Spec view of a harvested string.
pub struct HarvestedText {
    pub opcode: u8,
    pub handler: &'static str,
    pub pc: u32,
    pub text: Seq<char>,
}

pub open spec fn harvested_view(h: HarvestedString) -> HarvestedText {
    HarvestedText { opcode: h.opcode, handler: h.handler, pc: h.pc, text: h.text@ }
}

/* ---------- model of one instruction's immediates ---------- */

/// One immediate at `pc` with the post-fetch `key`.
pub open spec fn spec_imm(params: FetchParams, bc: Seq<u8>, key: u8, pc: int, extra: u8) -> Result<(u8, int), &'static str> {
    if pc < 0 || pc >= bc.len() {
        Err("eof_imm")
    } else {
        Ok((spec_operand(params, key, bc[pc], extra), pc + 1))
    }
}

/// LEB128 of at most three bytes (decoded with extra 0).
pub open spec fn spec_leb(params: FetchParams, bc: Seq<u8>, key: u8, pc: int) -> Result<(u32, int), &'static str> {
    match spec_imm(params, bc, key, pc, 0) {
        Err(e) => Err(e),
        Ok((x0, pc1)) => if x0 < 128 {
            Ok((x0 as u32, pc1))
        } else {
            match spec_imm(params, bc, key, pc1, 0) {
                Err(e) => Err(e),
                Ok((x1, pc2)) => if x1 < 128 {
                    Ok(((x0 % 128 + 128 * x1) as u32, pc2))
                } else {
                    match spec_imm(params, bc, key, pc2, 0) {
                        Err(e) => Err(e),
                        Ok((x2, pc3)) => if x2 < 128 {
                            Ok(((x0 % 128 + 128 * (x1 % 128) + 16384 * x2) as u32, pc3))
                        } else {
                            Err("leb_too_long")
                        },
                    }
                },
            }
        },
    }
}

/// LEB length then that many latin1 characters with charset extra `extra`.
pub open spec fn spec_charset_string(params: FetchParams, bc: Seq<u8>, key: u8, pc: int, extra: u8) -> Result<(Seq<char>, int), &'static str> {
    match spec_leb(params, bc, key, pc) {
        Err(e) => Err(e),
        Ok((len, pc1)) => if len > SKIP_STRING_MAX_LEN {
            Err("string_too_long")
        } else if pc1 + len > bc.len() {
            Err("eof_imm")
        } else {
            Ok((Seq::new(len as nat, |i: int| spec_operand(params, key, bc[pc1 + i], extra) as char), pc1 + len))
        },
    }
}

/// `count` immediates with the same extra, skipped.
pub open spec fn spec_skip_imms(bc: Seq<u8>, pc: int, count: int) -> Result<int, &'static str> {
    if pc + count > bc.len() {
        Err("eof_imm")
    } else {
        Ok(pc + count)
    }
}

/// Outcome of skipping one instruction's immediates: next pc, strings and `ge` key immediates found.
pub type SkipOutcome = Result<(int, Seq<HarvestedText>, Seq<u8>), &'static str>;

pub open spec fn text_at(opcode: u8, handler: &'static str, pc: u32, text: Seq<char>) -> HarvestedText {
    HarvestedText { opcode, handler, pc, text }
}

/// `Xf` tagged load: tag, dst, then a tag-dependent payload.
pub open spec fn spec_skip_xf(params: FetchParams, bc: Seq<u8>, key: u8, pc: int, start: u32) -> SkipOutcome {
    match spec_imm(params, bc, key, pc, XF_TAG_XOR) {
        Err(e) => Err(e),
        Ok((tag, pc1)) => match spec_imm(params, bc, key, pc1, XF_DST_XOR) {
            Err(e) => Err(e),
            Ok((_dst, pc2)) => if tag == XF_TAG_STRING || tag == XF_TAG_BYTES {
                match spec_charset_string(params, bc, key, pc2, XF_STRING_CHARSET_XOR) {
                    Err(e) => Err(e),
                    Ok((t, pc3)) => Ok((pc3, seq![text_at(XF_OPCODE, "Xf", start, t)], Seq::empty())),
                }
            } else if tag == XF_TAG_INT {
                match spec_imm(params, bc, key, pc2, XF_INT_XOR) {
                    Err(e) => Err(e),
                    Ok((_v, pc3)) => Ok((pc3, Seq::empty(), Seq::empty())),
                }
            } else if tag == XF_TAG_UNDEF || tag == XF_TAG_NULL || tag == XF_TAG_FALSE || tag == XF_TAG_NUMBER_A
                || tag == XF_TAG_NUMBER_B {
                Ok((pc2, Seq::empty(), Seq::empty()))
            } else if tag == XF_TAG_LEB {
                match spec_leb(params, bc, key, pc2) {
                    Err(e) => Err(e),
                    Ok((_v, pc3)) => Ok((pc3, Seq::empty(), Seq::empty())),
                }
            } else if tag == XF_TAG_REGEXP {
                match spec_charset_string(params, bc, key, pc2, XF_REGEXP_CHARSET_A) {
                    Err(e) => Err(e),
                    Ok((a, pc3)) => match spec_charset_string(params, bc, key, pc3, XF_REGEXP_CHARSET_B) {
                        Err(e) => Err(e),
                        Ok((b, pc4)) => Ok((pc4, seq![text_at(XF_OPCODE, "Xf", start, a), text_at(XF_OPCODE, "Xf", start, b)], Seq::empty())),
                    },
                }
            } else {
                Err("xf_unskipped_tag")
            },
        },
    }
}

/// `gC`: two register immediates, then a LEB string key (charset extra 1).
pub open spec fn spec_skip_gc(params: FetchParams, bc: Seq<u8>, key: u8, pc: int, start: u32) -> SkipOutcome {
    match spec_skip_imms(bc, pc, 2) {
        Err(e) => Err(e),
        Ok(pc1) => match spec_charset_string(params, bc, key, pc1, GC_STRING_CHARSET_XOR) {
            Err(e) => Err(e),
            Ok((t, pc2)) => Ok((pc2, seq![text_at(GC_OPCODE, "gC", start, t)], Seq::empty())),
        },
    }
}

/// `gl`: a LEB string key (charset extra 43), then two register immediates.
pub open spec fn spec_skip_gl(params: FetchParams, bc: Seq<u8>, key: u8, pc: int, start: u32) -> SkipOutcome {
    match spec_charset_string(params, bc, key, pc, GL_STRING_CHARSET_XOR) {
        Err(e) => Err(e),
        Ok((t, pc1)) => match spec_skip_imms(bc, pc1, 2) {
            Err(e) => Err(e),
            Ok(pc2) => Ok((pc2, seq![text_at(GL_OPCODE, "gl", start, t)], Seq::empty())),
        },
    }
}

/// `ge`: three register immediates, then the integer key immediate (extra 19).
pub open spec fn spec_skip_ge(params: FetchParams, bc: Seq<u8>, key: u8, pc: int) -> SkipOutcome {
    match spec_skip_imms(bc, pc, 3) {
        Err(e) => Err(e),
        Ok(pc1) => match spec_imm(params, bc, key, pc1, GE_KEY_IMM_XOR) {
            Err(e) => Err(e),
            Ok((k, pc2)) => Ok((pc2, Seq::empty(), seq![k])),
        },
    }
}

/// `XU`: dst, u24, key, flags, arity, then `arity` argument immediates.
pub open spec fn spec_skip_xu(params: FetchParams, bc: Seq<u8>, key: u8, pc: int) -> SkipOutcome {
    match spec_skip_imms(bc, pc, 6) {
        Err(e) => Err(e),
        Ok(pc1) => match spec_imm(params, bc, key, pc1, XU_ARITY_XOR) {
            Err(e) => Err(e),
            Ok((arity, pc2)) => match spec_skip_imms(bc, pc2, arity as int) {
                Err(e) => Err(e),
                Ok(pc3) => Ok((pc3, Seq::empty(), Seq::empty())),
            },
        },
    }
}

/// `op` is a late-`b` control-flow opcode.
pub open spec fn is_late_jump(op: u8) -> bool {
    exists|k: int| 0 <= k < spec_jump_imm_roles_b_late().len() && spec_jump_imm_roles_b_late()[k].opcode == op
}

/// Width of the late-`b` layout for `op`, if it has one.
pub open spec fn late_width(op: u8) -> Option<InstrWidth> {
    if exists|k: int| 0 <= k < 46 && HANDLER_LAYOUT_B_LATE_OPCODE@[k] == op {
        let k = choose|k: int| 0 <= k < 46 && HANDLER_LAYOUT_B_LATE_OPCODE@[k] == op;
        Some(instr_width(HANDLER_LAYOUT_B_LATE_WIDTH@[k]))
    } else {
        None
    }
}

/// Skip the immediates of `op` (fetched at `start`; immediates begin at `pc`).
pub open spec fn spec_skip_instr(params: FetchParams, bc: Seq<u8>, key: u8, pc: int, start: u32, op: u8) -> SkipOutcome {
    if op == XF_OPCODE {
        spec_skip_xf(params, bc, key, pc, start)
    } else if op == GC_OPCODE {
        spec_skip_gc(params, bc, key, pc, start)
    } else if op == GL_OPCODE {
        spec_skip_gl(params, bc, key, pc, start)
    } else if op == GE_OPCODE {
        spec_skip_ge(params, bc, key, pc)
    } else if op == XU_OPCODE {
        spec_skip_xu(params, bc, key, pc)
    } else if is_late_jump(op) {
        Err("unparsed_jump")
    } else {
        match late_width(op) {
            Some(InstrWidth::Fixed(w)) => if pc + (w - 1) > bc.len() {
                Err("eof_fixed")
            } else {
                Ok((pc + (w - 1), Seq::empty(), Seq::empty()))
            },
            Some(InstrWidth::Variable) => Err("unparsed_variable"),
            None => Err("unmapped_opcode"),
        }
    }
}

/* ---------- model of the whole walk ---------- */

/// State of the linear walk between instructions.
pub struct WalkState {
    pub pc: int,
    pub key: u8,
    pub instructions: nat,
    pub last_pc: u32,
    pub last_opcode: Option<u8>,
    pub stopped: Option<&'static str>,
    pub strings: Seq<HarvestedText>,
    pub ge_key_imms: Seq<u8>,
}

pub open spec fn walk_start(params: FetchParams) -> WalkState {
    WalkState {
        pc: params.init_pc as int,
        key: params.init_key,
        instructions: 0,
        last_pc: params.init_pc,
        last_opcode: None,
        stopped: None,
        strings: Seq::empty(),
        ge_key_imms: Seq::empty(),
    }
}

/// One instruction of the walk.
#[verifier::opaque]
pub open spec fn walk_step(params: FetchParams, bc: Seq<u8>, st: WalkState) -> WalkState {
    if st.pc >= bc.len() {
        WalkState { stopped: Some("end_of_bytecode"), ..st }
    } else {
        let op = spec_decode_opcode(params, st.key, bc[st.pc]);
        let k = spec_next_key(params, st.key, op);
        let fetched = WalkState {
            pc: st.pc + 1,
            key: k,
            instructions: st.instructions + 1,
            last_pc: st.pc as u32,
            last_opcode: Some(op),
            ..st
        };
        match spec_skip_instr(params, bc, k, st.pc + 1, st.pc as u32, op) {
            Ok((pc2, strs, imms)) => WalkState {
                pc: pc2,
                strings: st.strings + strs,
                ge_key_imms: st.ge_key_imms + imms,
                ..fetched
            },
            Err(e) => WalkState { stopped: Some(e), ..fetched },
        }
    }
}

/// `n` steps of the walk, or fewer if it stops.
pub open spec fn walk(params: FetchParams, bc: Seq<u8>, st: WalkState, n: nat) -> WalkState
    decreases n,
{
    if n == 0 || st.stopped is Some {
        st
    } else {
        walk(params, bc, walk_step(params, bc, st), (n - 1) as nat)
    }
}

/// Instruction budget of a walk over `len` bytes.
pub open spec fn walk_limit(len: int) -> int {
    let l = if len < 4096 { 4096 } else { len };
    if l < SKIP_HARVEST_INSTR_LIMIT { l } else { SKIP_HARVEST_INSTR_LIMIT as int }
}

/* ---------- the walk ---------- */

struct Cursor<'a> {
    bytecode: &'a [u8],
    params: FetchParams,
    pc: usize,
    key: u8,
}

impl<'a> Cursor<'a> {
    fn at_end(&self) -> (r: bool)
        ensures
            r == (self.pc >= self.bytecode@.len()),
    {
        self.pc >= self.bytecode.len()
    }

    fn fetch_opcode(&mut self) -> (r: u8)
        requires
            old(self).pc < old(self).bytecode@.len(),
        ensures
            r == spec_decode_opcode(old(self).params, old(self).key, old(self).bytecode@[old(self).pc as int]),
            final(self).key == spec_next_key(old(self).params, old(self).key, r),
            final(self).pc == old(self).pc + 1,
            final(self).bytecode == old(self).bytecode,
            final(self).params == old(self).params,
    {
        let byte = self.bytecode[self.pc];
        let (op, next) = step_fetch(self.params, self.key, byte);
        self.pc = self.pc + 1;
        self.key = next;
        op
    }

    fn imm(&mut self, extra: u8) -> (r: Result<u8, &'static str>)
        requires
            old(self).pc <= old(self).bytecode@.len(),
        ensures
            final(self).bytecode == old(self).bytecode,
            final(self).params == old(self).params,
            final(self).key == old(self).key,
            final(self).pc <= final(self).bytecode@.len(),
            match spec_imm(old(self).params, old(self).bytecode@, old(self).key, old(self).pc as int, extra) {
                Ok((v, pc2)) => r == Ok::<u8, &'static str>(v) && final(self).pc == pc2,
                Err(e) => r == Err::<u8, &'static str>(e),
            },
    {
        if self.at_end() {
            return Err("eof_imm");
        }
        let v = operand_from_byte(self.params, self.key, self.bytecode[self.pc], extra);
        self.pc = self.pc + 1;
        Ok(v)
    }

    fn leb(&mut self) -> (r: Result<u32, &'static str>)
        requires
            old(self).pc <= old(self).bytecode@.len(),
        ensures
            final(self).bytecode == old(self).bytecode,
            final(self).params == old(self).params,
            final(self).key == old(self).key,
            final(self).pc <= final(self).bytecode@.len(),
            match spec_leb(old(self).params, old(self).bytecode@, old(self).key, old(self).pc as int) {
                Ok((v, pc2)) => r == Ok::<u32, &'static str>(v) && final(self).pc == pc2,
                Err(e) => r == Err::<u32, &'static str>(e),
            },
    {
        let x0 = self.imm(0)?;
        if x0 & 128 == 0 {
            assert(x0 & 128 == 0 ==> x0 < 128) by (bit_vector);
            return Ok(x0 as u32);
        }
        assert(x0 & 128 != 0 ==> x0 >= 128) by (bit_vector);
        let x1 = self.imm(0)?;
        assert(x0 & 127 == x0 % 128) by (bit_vector);
        assert(x1 & 127 == x1 % 128) by (bit_vector);
        let n = (x0 & 127) as u32 + ((x1 & 127) as u32) * 128;
        if x1 & 128 == 0 {
            assert(x1 & 128 == 0 ==> x1 < 128) by (bit_vector);
            return Ok(n);
        }
        assert(x1 & 128 != 0 ==> x1 >= 128) by (bit_vector);
        let x2 = self.imm(0)?;
        if x2 & 128 != 0 {
            assert(x2 & 128 != 0 ==> x2 >= 128) by (bit_vector);
            return Err("leb_too_long");
        }
        assert(x2 & 128 == 0 ==> x2 < 128) by (bit_vector);
        Ok(n + (x2 as u32) * 16384)
    }

    fn charset_string(&mut self, extra: u8) -> (r: Result<String, &'static str>)
        requires
            old(self).pc <= old(self).bytecode@.len(),
        ensures
            final(self).bytecode == old(self).bytecode,
            final(self).params == old(self).params,
            final(self).key == old(self).key,
            final(self).pc <= final(self).bytecode@.len(),
            match spec_charset_string(old(self).params, old(self).bytecode@, old(self).key, old(self).pc as int, extra) {
                Ok((t, pc2)) => r matches Ok(s) && s@ == t && final(self).pc == pc2,
                Err(e) => r == Err::<String, &'static str>(e),
            },
    {
        let len = self.leb()? as usize;
        if len > SKIP_STRING_MAX_LEN {
            return Err("string_too_long");
        }
        let ghost pc1 = self.pc;
        if len > self.bytecode.len() - self.pc {
            return Err("eof_imm");
        }
        let mut out = String::new();
        let mut i: usize = 0;
        while i < len
            invariant
                i <= len,
                self.pc == pc1 + i,
                pc1 + len <= self.bytecode@.len(),
                self.bytecode == old(self).bytecode,
                self.params == old(self).params,
                self.key == old(self).key,
                out@ == Seq::new(i as nat, |k: int| spec_operand(self.params, self.key, self.bytecode@[pc1 + k], extra) as char),
            decreases len - i,
        {
            let ghost before = out@;
            let b = self.imm(extra);
            match b {
                Ok(c) => {
                    push_char(&mut out, c as char);
                }
                Err(_) => {
                    return Err("eof_imm");
                }
            }
            i = i + 1;
            assert(out@ =~= Seq::new(i as nat, |k: int| spec_operand(self.params, self.key, self.bytecode@[pc1 + k], extra) as char));
        }
        Ok(out)
    }

    fn skip_imms(&mut self, count: usize) -> (r: Result<(), &'static str>)
        requires
            old(self).pc <= old(self).bytecode@.len(),
        ensures
            final(self).bytecode == old(self).bytecode,
            final(self).params == old(self).params,
            final(self).key == old(self).key,
            final(self).pc <= final(self).bytecode@.len(),
            match spec_skip_imms(old(self).bytecode@, old(self).pc as int, count as int) {
                Ok(pc2) => r == Ok::<(), &'static str>(()) && final(self).pc == pc2,
                Err(e) => r == Err::<(), &'static str>(e),
            },
    {
        if count > self.bytecode.len() - self.pc {
            return Err("eof_imm");
        }
        self.pc = self.pc + count;
        Ok(())
    }

    fn skip_fixed(&mut self, width: u8) -> (r: Result<(), &'static str>)
        requires
            old(self).pc <= old(self).bytecode@.len(),
            width >= 1,
        ensures
            final(self).bytecode == old(self).bytecode,
            final(self).params == old(self).params,
            final(self).key == old(self).key,
            final(self).pc <= final(self).bytecode@.len(),
            if old(self).pc + (width - 1) > old(self).bytecode@.len() {
                r == Err::<(), &'static str>("eof_fixed")
            } else {
                r == Ok::<(), &'static str>(()) && final(self).pc == old(self).pc + (width - 1)
            },
    {
        let rest = (width - 1) as usize;
        if rest > self.bytecode.len() - self.pc {
            return Err("eof_fixed");
        }
        self.pc = self.pc + rest;
        Ok(())
    }
}

pub open spec fn views(s: Seq<HarvestedString>) -> Seq<HarvestedText> {
    s.map_values(|h: HarvestedString| harvested_view(h))
}

proof fn lemma_views_push(s: Seq<HarvestedString>, h: HarvestedString)
    ensures
        views(s.push(h)) == views(s).push(harvested_view(h)),
{
    assert(views(s.push(h)) =~= views(s).push(harvested_view(h)));
}

/// Effect of a skip on the cursor and the harvest vectors, as described by `outcome`.
pub open spec fn skip_effect(
    outcome: SkipOutcome,
    r: Result<(), &'static str>,
    pc_after: int,
    strings_before: Seq<HarvestedString>,
    strings_after: Seq<HarvestedString>,
    imms_before: Seq<u8>,
    imms_after: Seq<u8>,
) -> bool {
    match outcome {
        Ok((pc2, strs, imms)) => {
            &&& r == Ok::<(), &'static str>(())
            &&& pc_after == pc2
            &&& views(strings_after) == views(strings_before) + strs
            &&& imms_after == imms_before + imms
        },
        Err(e) => {
            &&& r == Err::<(), &'static str>(e)
            &&& strings_after == strings_before
            &&& imms_after == imms_before
        },
    }
}

fn push_str_row(strings: &mut Vec<HarvestedString>, opcode: u8, handler: &'static str, pc: u32, text: String)
    ensures
        views(final(strings)@) == views(old(strings)@).push(text_at(opcode, handler, pc, text@)),
{
    let ghost before = strings@;
    strings.push(HarvestedString { opcode, handler, pc, text });
    proof {
        lemma_views_push(before, HarvestedString { opcode, handler, pc, text });
    }
}

fn skip_xf(cur: &mut Cursor<'_>, start_pc: u32, strings: &mut Vec<HarvestedString>) -> (r: Result<(), &'static str>)
    requires
        old(cur).pc <= old(cur).bytecode@.len(),
    ensures
        final(cur).bytecode == old(cur).bytecode,
        final(cur).params == old(cur).params,
        final(cur).key == old(cur).key,
        final(cur).pc <= final(cur).bytecode@.len(),
        skip_effect(
            spec_skip_xf(old(cur).params, old(cur).bytecode@, old(cur).key, old(cur).pc as int, start_pc),
            r,
            final(cur).pc as int,
            old(strings)@,
            final(strings)@,
            Seq::empty(),
            Seq::empty(),
        ),
        r is Err ==> final(strings)@ == old(strings)@,
{
    let tag = cur.imm(XF_TAG_XOR)?;
    let _dst = cur.imm(XF_DST_XOR)?;
    if tag == XF_TAG_STRING || tag == XF_TAG_BYTES {
        let text = cur.charset_string(XF_STRING_CHARSET_XOR)?;
        push_str_row(strings, XF_OPCODE, "Xf", start_pc, text);
        assert(views(strings@) =~= views(old(strings)@) + seq![text_at(XF_OPCODE, "Xf", start_pc, text@)]);
        Ok(())
    } else if tag == XF_TAG_INT {
        let _ = cur.imm(XF_INT_XOR)?;
        assert(views(strings@) =~= views(old(strings)@) + Seq::<HarvestedText>::empty());
        Ok(())
    } else if tag == XF_TAG_UNDEF || tag == XF_TAG_NULL || tag == XF_TAG_FALSE || tag == XF_TAG_NUMBER_A
        || tag == XF_TAG_NUMBER_B {
        assert(views(strings@) =~= views(old(strings)@) + Seq::<HarvestedText>::empty());
        Ok(())
    } else if tag == XF_TAG_LEB {
        let _ = cur.leb()?;
        assert(views(strings@) =~= views(old(strings)@) + Seq::<HarvestedText>::empty());
        Ok(())
    } else if tag == XF_TAG_REGEXP {
        let a = cur.charset_string(XF_REGEXP_CHARSET_A)?;
        let b = cur.charset_string(XF_REGEXP_CHARSET_B)?;
        let ghost ta = a@;
        let ghost tb = b@;
        push_str_row(strings, XF_OPCODE, "Xf", start_pc, a);
        push_str_row(strings, XF_OPCODE, "Xf", start_pc, b);
        assert(views(strings@) =~= views(old(strings)@) + seq![text_at(XF_OPCODE, "Xf", start_pc, ta), text_at(XF_OPCODE, "Xf", start_pc, tb)]);
        Ok(())
    } else {
        Err("xf_unskipped_tag")
    }
}

fn skip_gc(cur: &mut Cursor<'_>, start_pc: u32, strings: &mut Vec<HarvestedString>) -> (r: Result<(), &'static str>)
    requires
        old(cur).pc <= old(cur).bytecode@.len(),
    ensures
        final(cur).bytecode == old(cur).bytecode,
        final(cur).params == old(cur).params,
        final(cur).key == old(cur).key,
        final(cur).pc <= final(cur).bytecode@.len(),
        skip_effect(
            spec_skip_gc(old(cur).params, old(cur).bytecode@, old(cur).key, old(cur).pc as int, start_pc),
            r,
            final(cur).pc as int,
            old(strings)@,
            final(strings)@,
            Seq::empty(),
            Seq::empty(),
        ),
        r is Err ==> final(strings)@ == old(strings)@,
{
    cur.skip_imms(2)?;
    let text = cur.charset_string(GC_STRING_CHARSET_XOR)?;
    push_str_row(strings, GC_OPCODE, "gC", start_pc, text);
    assert(views(strings@) =~= views(old(strings)@) + seq![text_at(GC_OPCODE, "gC", start_pc, text@)]);
    Ok(())
}

fn skip_gl(cur: &mut Cursor<'_>, start_pc: u32, strings: &mut Vec<HarvestedString>) -> (r: Result<(), &'static str>)
    requires
        old(cur).pc <= old(cur).bytecode@.len(),
    ensures
        final(cur).bytecode == old(cur).bytecode,
        final(cur).params == old(cur).params,
        final(cur).key == old(cur).key,
        final(cur).pc <= final(cur).bytecode@.len(),
        skip_effect(
            spec_skip_gl(old(cur).params, old(cur).bytecode@, old(cur).key, old(cur).pc as int, start_pc),
            r,
            final(cur).pc as int,
            old(strings)@,
            final(strings)@,
            Seq::empty(),
            Seq::empty(),
        ),
        r is Err ==> final(strings)@ == old(strings)@,
{
    let text = cur.charset_string(GL_STRING_CHARSET_XOR)?;
    cur.skip_imms(2)?;
    push_str_row(strings, GL_OPCODE, "gl", start_pc, text);
    assert(views(strings@) =~= views(old(strings)@) + seq![text_at(GL_OPCODE, "gl", start_pc, text@)]);
    Ok(())
}

fn skip_ge(cur: &mut Cursor<'_>, imms: &mut Vec<u8>) -> (r: Result<(), &'static str>)
    requires
        old(cur).pc <= old(cur).bytecode@.len(),
    ensures
        final(cur).bytecode == old(cur).bytecode,
        final(cur).params == old(cur).params,
        final(cur).key == old(cur).key,
        final(cur).pc <= final(cur).bytecode@.len(),
        match spec_skip_ge(old(cur).params, old(cur).bytecode@, old(cur).key, old(cur).pc as int) {
            Ok((pc2, _strs, added)) => r == Ok::<(), &'static str>(()) && final(cur).pc == pc2 && final(imms)@ == old(imms)@ + added,
            Err(e) => r == Err::<(), &'static str>(e) && final(imms)@ == old(imms)@,
        },
{
    cur.skip_imms(3)?;
    let k = cur.imm(GE_KEY_IMM_XOR)?;
    imms.push(k);
    assert(imms@ =~= old(imms)@ + seq![k]);
    Ok(())
}

/// Skip `XU`/177 immediates (dst, u24, key, flags, arity, args) without applying anything.
fn skip_xu(cur: &mut Cursor<'_>) -> (r: Result<(), &'static str>)
    requires
        old(cur).pc <= old(cur).bytecode@.len(),
    ensures
        final(cur).bytecode == old(cur).bytecode,
        final(cur).params == old(cur).params,
        final(cur).key == old(cur).key,
        final(cur).pc <= final(cur).bytecode@.len(),
        match spec_skip_xu(old(cur).params, old(cur).bytecode@, old(cur).key, old(cur).pc as int) {
            Ok((pc2, _strs, _imms)) => r == Ok::<(), &'static str>(()) && final(cur).pc == pc2,
            Err(e) => r == Err::<(), &'static str>(e),
        },
{
    cur.skip_imms(6)?;
    let arity = cur.imm(XU_ARITY_XOR)?;
    cur.skip_imms(arity as usize)?;
    Ok(())
}

#[verifier::rlimit(50)]
proof fn lemma_late_layout_opcodes_distinct()
    ensures
        forall|i: int, j: int| 0 <= i < j < 46 ==> HANDLER_LAYOUT_B_LATE_OPCODE@[i] != HANDLER_LAYOUT_B_LATE_OPCODE@[j],
{
    assert(HANDLER_LAYOUT_B_LATE_OPCODE@ =~= seq![187u8, 153, 38, 34, 26, 122, 196, 45, 104, 12, 222, 130, 113, 201, 52, 230, 94, 73, 27, 55, 177, 135, 219, 134, 127, 103, 30, 246, 11, 208, 168, 161, 119, 165, 126, 181, 176, 98, 227, 169, 138, 226, 132, 72, 183, 140]);
}

/// What the main loop does with `op` after fetching it, matching `spec_skip_instr`.
fn skip_instr(cur: &mut Cursor<'_>, start_pc: u32, op: u8, strings: &mut Vec<HarvestedString>, imms: &mut Vec<u8>) -> (r: Result<(), &'static str>)
    requires
        old(cur).pc <= old(cur).bytecode@.len(),
    ensures
        final(cur).bytecode == old(cur).bytecode,
        final(cur).params == old(cur).params,
        final(cur).key == old(cur).key,
        final(cur).pc <= final(cur).bytecode@.len(),
        skip_effect(
            spec_skip_instr(old(cur).params, old(cur).bytecode@, old(cur).key, old(cur).pc as int, start_pc, op),
            r,
            final(cur).pc as int,
            old(strings)@,
            final(strings)@,
            old(imms)@,
            final(imms)@,
        ),
{
    if op == XF_OPCODE {
        let r = skip_xf(cur, start_pc, strings);
        assert(imms@ =~= old(imms)@ + Seq::<u8>::empty());
        r
    } else if op == GC_OPCODE {
        let r = skip_gc(cur, start_pc, strings);
        assert(imms@ =~= old(imms)@ + Seq::<u8>::empty());
        r
    } else if op == GL_OPCODE {
        let r = skip_gl(cur, start_pc, strings);
        assert(imms@ =~= old(imms)@ + Seq::<u8>::empty());
        r
    } else if op == GE_OPCODE {
        let r = skip_ge(cur, imms);
        assert(views(strings@) =~= views(old(strings)@) + Seq::<HarvestedText>::empty());
        r
    } else if op == XU_OPCODE {
        let r = skip_xu(cur);
        assert(views(strings@) =~= views(old(strings)@) + Seq::<HarvestedText>::empty());
        assert(imms@ =~= old(imms)@ + Seq::<u8>::empty());
        r
    } else if jump_roles_for_late(op).is_some() {
        Err("unparsed_jump")
    } else {
        let lay = layout_for_late(op);
        proof {
            lemma_late_layout_opcodes_distinct();
            match lay {
                Some(l) => {
                    let k = choose|k: int| 0 <= k < spec_handler_layout_b_late().len() && spec_handler_layout_b_late()[k].opcode == op && l == spec_handler_layout_b_late()[k] && (forall|j: int| 0 <= j < k ==> spec_handler_layout_b_late()[j].opcode != op);
                    assert(HANDLER_LAYOUT_B_LATE_OPCODE@[k] == op);
                    let c = choose|c: int| 0 <= c < 46 && HANDLER_LAYOUT_B_LATE_OPCODE@[c] == op;
                    assert(c == k);
                    assert(late_width(op) == Some(l.width));
                },
                None => {
                    assert forall|k: int| 0 <= k < 46 implies HANDLER_LAYOUT_B_LATE_OPCODE@[k] != op by {
                        assert(spec_handler_layout_b_late()[k].opcode == HANDLER_LAYOUT_B_LATE_OPCODE@[k]);
                    }
                    assert(late_width(op) is None);
                },
            }
            assert(views(strings@) =~= views(old(strings)@) + Seq::<HarvestedText>::empty());
            assert(imms@ =~= old(imms)@ + Seq::<u8>::empty());
        }
        match lay {
            Some(l) => match l.width {
                InstrWidth::Fixed(w) => {
                    proof {
                        assert(w >= 1);
                    }
                    cur.skip_fixed(w)
                },
                InstrWidth::Variable => Err("unparsed_variable"),
            },
            None => Err("unmapped_opcode"),
        }
    }
}

/// The harvest a walk of `n` instructions reports.
pub open spec fn harvest_matches(h: SkipHarvest, params: FetchParams, st: WalkState) -> bool {
    &&& h.params_label == params.label
    &&& h.instructions == st.instructions
    &&& h.last_pc == st.last_pc
    &&& h.last_opcode == st.last_opcode
    &&& h.stopped == (match st.stopped { Some(e) => e, None => "limit" })
    &&& views(h.strings@) == st.strings
    &&& h.ge_key_imms@ == st.ge_key_imms
}

/// Linear skip-harvest from `params.init_pc` / `init_key`. Skips `XU`/177
/// immediates without apply; does not take jumps or invoke callees. Stops at
/// the first unskipped jump or variable-width handler, at the end of the
/// bytecode, or after `walk_limit(len)` instructions.
#[verifier::rlimit(50)]
pub fn skip_harvest_strings(bytecode: &[u8], params: FetchParams) -> (h: SkipHarvest)
    requires
        bytecode@.len() < u32::MAX,
    ensures
        harvest_matches(h, params, walk(params, bytecode@, walk_start(params), walk_limit(bytecode@.len() as int) as nat)),
{
    let mut cur = Cursor { bytecode, params, pc: params.init_pc as usize, key: params.init_key };
    let mut strings: Vec<HarvestedString> = Vec::new();
    let mut ge_key_imms: Vec<u8> = Vec::new();
    let mut instructions: usize = 0;
    let mut last_pc = params.init_pc;
    let mut last_opcode: Option<u8> = None;
    let mut stopped = "limit";
    let mut limit = bytecode.len();
    if limit < 4096 {
        limit = 4096;
    }
    if limit > SKIP_HARVEST_INSTR_LIMIT {
        limit = SKIP_HARVEST_INSTR_LIMIT;
    }
    let ghost bc = bytecode@;
    let ghost start = walk_start(params);
    let mut n: usize = 0;
    proof {
        assert(views(strings@) =~= Seq::<HarvestedText>::empty());
    }
    while n < limit
        invariant_except_break
            n <= limit,
            limit == walk_limit(bc.len() as int),
            bc.len() < u32::MAX,
            cur.bytecode@ == bc,
            cur.params == params,
            ({
                let st = walk(params, bc, start, n as nat);
                &&& st.stopped is None
                &&& st.pc == cur.pc as int
                &&& cur.pc <= bc.len() || n == 0
                &&& st.key == cur.key
                &&& st.instructions == instructions
                &&& st.last_pc == last_pc
                &&& st.last_opcode == last_opcode
                &&& st.strings == views(strings@)
                &&& st.ge_key_imms == ge_key_imms@
            }),
            stopped == "limit",
            instructions <= n,
        ensures
            ({
                let st = walk(params, bc, start, limit as nat);
                &&& st.instructions == instructions
                &&& st.last_pc == last_pc
                &&& st.last_opcode == last_opcode
                &&& st.strings == views(strings@)
                &&& st.ge_key_imms == ge_key_imms@
                &&& stopped == (match st.stopped { Some(e) => e, None => "limit" })
            }),
        decreases limit - n,
    {
        proof {
            lemma_walk_split(params, bc, start, n as nat);
            reveal(walk_step);
        }
        if cur.at_end() {
            stopped = "end_of_bytecode";
            proof {
                lemma_walk_stopped_stays(params, bc, start, (n + 1) as nat, limit as nat);
            }
            break;
        }
        last_pc = cur.pc as u32;
        let op = cur.fetch_opcode();
        last_opcode = Some(op);
        instructions = instructions + 1;
        let result = skip_instr(&mut cur, last_pc, op, &mut strings, &mut ge_key_imms);
        match result {
            Err(reason) => {
                stopped = reason;
                proof {
                    lemma_walk_stopped_stays(params, bc, start, (n + 1) as nat, limit as nat);
                }
                break;
            }
            Ok(()) => {}
        }
        n = n + 1;
    }
    SkipHarvest {
        params_label: params.label,
        instructions,
        last_pc,
        last_opcode,
        stopped,
        strings,
        ge_key_imms,
    }
}

/// Taking one more step extends the walk by `walk_step`, while it has not stopped.
proof fn lemma_walk_split(params: FetchParams, bc: Seq<u8>, st: WalkState, n: nat)
    requires
        walk(params, bc, st, n).stopped is None,
    ensures
        walk(params, bc, st, n + 1) == walk_step(params, bc, walk(params, bc, st, n)),
    decreases n,
{
    if n == 0 {
        assert(walk(params, bc, st, 1) == walk(params, bc, walk_step(params, bc, st), 0));
    } else {
        assert(st.stopped is None);
        lemma_walk_split(params, bc, walk_step(params, bc, st), (n - 1) as nat);
        assert(walk(params, bc, st, n + 1) == walk(params, bc, walk_step(params, bc, st), n));
        assert(walk(params, bc, st, n) == walk(params, bc, walk_step(params, bc, st), (n - 1) as nat));
    }
}

/// Once stopped, more steps change nothing.
proof fn lemma_walk_stopped_stays(params: FetchParams, bc: Seq<u8>, st: WalkState, n: nat, m: nat)
    requires
        n <= m,
        walk(params, bc, st, n).stopped is Some,
    ensures
        walk(params, bc, st, m) == walk(params, bc, st, n),
    decreases n,
{
    if n > 0 && st.stopped is None {
        lemma_walk_stopped_stays(params, bc, walk_step(params, bc, st), (n - 1) as nat, (m - 1) as nat);
    }
}

/// [`skip_harvest_strings`] with the live fetch schedule.
pub fn skip_harvest_live(bytecode: &[u8]) -> (h: SkipHarvest)
    requires
        bytecode@.len() < u32::MAX,
    ensures
        harvest_matches(
            h,
            fetch_branch_b_late_spec(),
            walk(
                fetch_branch_b_late_spec(),
                bytecode@,
                walk_start(fetch_branch_b_late_spec()),
                walk_limit(bytecode@.len() as int) as nat,
            ),
        ),
{
    skip_harvest_strings(bytecode, fetch_live())
}

impl SkipHarvest {
    /// Some harvested string equals `name` or contains it.
    pub fn contains_ident(&self, name: &str) -> (r: bool)
        ensures
            r == exists|i: int|
                0 <= i < self.strings@.len() && (self.strings@[i].text@ == name@ || contains_seq(
                    encode_utf8(self.strings@[i].text@),
                    name.spec_bytes(),
                )),
    {
        let nb = name.as_bytes();
        let mut i: usize = 0;
        while i < self.strings.len()
            invariant
                i <= self.strings@.len(),
                nb@ == name.spec_bytes(),
                forall|j: int|
                    0 <= j < i ==> !(self.strings@[j].text@ == name@ || contains_seq(
                        encode_utf8(self.strings@[j].text@),
                        name.spec_bytes(),
                    )),
            decreases self.strings@.len() - i,
        {
            let tb = self.strings[i].text.as_str().as_bytes();
            if contains_bytes(tb, nb) {
                return true;
            }
            proof {
                if self.strings@[i as int].text@ == name@ {
                    assert(crate::text::occurs_at(tb@, nb@, 0)) by {
                        assert(tb@.subrange(0, nb@.len() as int) =~= nb@);
                    }
                }
            }
            i = i + 1;
        }
        false
    }
}

pub open spec fn run_program_call_open() -> Seq<u8> {
    "runProgram(`".spec_bytes()
}

/// The argument of the first inline ``runProgram(`...`)`` call in iframe HTML.
pub fn extract_inline_run_program_packed(html: &str) -> (r: Option<String>)
    ensures
        ({
            let b = html.spec_bytes();
            let open = run_program_call_open();
            match first_occurrence_from(b, open, 0) {
                None => r is None,
                Some(i) => match first_occurrence_from(b, seq![0x60u8], i + open.len()) {
                    None => r is None,
                    Some(j) => r matches Some(s) && encode_utf8(s@) == b.subrange(i + open.len(), j),
                },
            }
        }),
{
    proof {
        reveal_strlit("runProgram(`");
    }
    let hb = html.as_bytes();
    let open = ascii_bytes("runProgram(`");
    proof {
        reveal_strlit("`");
    }
    let tick = ascii_bytes("`");
    assert(tick@ =~= seq![0x60u8]);
    let found = find_from(hb, open, 0);
    let i = match found {
        Some(i) => i,
        None => return None,
    };
    assert(crate::text::occurs_at(hb@, open@, i as int));
    assert(i + open@.len() <= hb@.len());
    assert(open@.len() == open.len());
    assert(hb@.len() == hb.len());
    let start = i + open.len();
    let end = match find_from(hb, tick, start) {
        Some(j) => j,
        None => return None,
    };
    proof {
        lemma_str_valid(html);
        assert(hb@[start - 1] == open@[11]);
        lemma_boundary_after_ascii(hb@, start - 1);
        assert(hb@.subrange(end as int, end + 1)[0] == hb@[end as int]);
        lemma_boundary_at_ascii(hb@, end as int);
    }
    let piece = str_slice(html, start, end);
    let s = to_string(piece);
    Some(s)
}

} // verus!

//! What the skip-harvest walk gives back on an instruction stream built by the
//! fetch schedule's own encoder: every string, every `ge` key immediate and
//! the instruction count, in stream order.
use vstd::prelude::*;
use crate::run_program_ops::{
    spec_operand, GE_OPCODE, XF_DST_XOR, XF_INT_XOR, XF_OPCODE, XF_STRING_CHARSET_XOR, XF_TAG_BYTES, XF_TAG_FALSE, XF_TAG_INT,
    XF_TAG_LEB, XF_TAG_NULL, XF_TAG_NUMBER_A, XF_TAG_NUMBER_B, XF_TAG_REGEXP, XF_TAG_STRING, XF_TAG_UNDEF, XF_TAG_XOR,
};
use crate::run_program_skip::{
    spec_charset_string, text_at, XF_REGEXP_CHARSET_A, XF_REGEXP_CHARSET_B, GC_OPCODE, GC_STRING_CHARSET_XOR, GL_OPCODE, GL_STRING_CHARSET_XOR, walk, walk_limit, walk_start, walk_step, HarvestedText, WalkState, GE_KEY_IMM_XOR, SKIP_HARVEST_INSTR_LIMIT,
    XU_ARG_XOR, XU_ARITY_XOR, XU_DST_XOR, XU_FLAGS_XOR, XU_KEY_XOR, XU_OPCODE,
};
use crate::run_program_vm::{lemma_decode_encode, spec_decode_opcode, spec_encode_byte, spec_next_key, FetchParams};

verus! {

/// Extra xors of the three `ge` register immediates.
pub const GE_REG_XOR_A: u8 = 41;
pub const GE_REG_XOR_B: u8 = 221;
pub const GE_REG_XOR_C: u8 = 180;
/// Extra xors of the two `gC` register immediates.
pub const GC_REG_XOR_A: u8 = 42;
pub const GC_REG_XOR_B: u8 = 182;
/// Extra xors of the two `gl` register immediates.
pub const GL_REG_XOR_A: u8 = 69;
pub const GL_REG_XOR_B: u8 = 118;

/// One instruction of a synthetic stream, by the values its immediates carry.
pub enum StreamInstr {
    /// `ge`/169: three register immediates, then the integer key immediate.
    Ge { regs: (u8, u8, u8), key_imm: u8 },
    /// `XU`/177: dst, three `u24` bytes, key and flags, then one immediate per argument.
    Xu { head: (u8, u8, u8, u8, u8, u8), args: Seq<u8> },
    /// `Xf`/222 with the string tag: dst, then the string's latin1 bytes.
    XfString { dst: u8, text: Seq<u8> },
    /// `Xf` with the bytes tag: dst, then the bytes as latin1 characters.
    XfBytes { dst: u8, text: Seq<u8> },
    /// `Xf` with the regexp tag: dst, the pattern, then the flags.
    XfRegexp { dst: u8, pattern: Seq<u8>, flags: Seq<u8> },
    /// `Xf` with the small-integer tag: dst, then the integer immediate.
    XfInt { dst: u8, value: u8 },
    /// `Xf` with the LEB tag: dst, then a one-byte LEB value.
    XfLeb { dst: u8, value: u8 },
    /// `Xf` with a tag that carries no payload (`undefined`, `null`, `false`, the two number tags): dst only.
    XfBare { tag: u8, dst: u8 },
    /// `gC`/226: two register immediates, then the string key (LEB length, charset extra 1).
    GcString { regs: (u8, u8), text: Seq<u8> },
    /// `gl`/140: the string key (LEB length, charset extra 43), then two register immediates.
    GlString { text: Seq<u8>, regs: (u8, u8) },
}

pub open spec fn stream_opcode(ins: StreamInstr) -> u8 {
    match ins {
        StreamInstr::Ge { .. } => GE_OPCODE,
        StreamInstr::Xu { .. } => XU_OPCODE,
        StreamInstr::XfString { .. } => XF_OPCODE,
        StreamInstr::XfBytes { .. } => XF_OPCODE,
        StreamInstr::XfRegexp { .. } => XF_OPCODE,
        StreamInstr::XfInt { .. } => XF_OPCODE,
        StreamInstr::XfLeb { .. } => XF_OPCODE,
        StreamInstr::XfBare { .. } => XF_OPCODE,
        StreamInstr::GcString { .. } => GC_OPCODE,
        StreamInstr::GlString { .. } => GL_OPCODE,
    }
}

/// The encoder writes it: an `XU` arity and a string length fit one byte.
pub open spec fn stream_instr_ok(ins: StreamInstr) -> bool {
    match ins {
        StreamInstr::Ge { .. } => true,
        StreamInstr::Xu { args, .. } => args.len() < 256,
        StreamInstr::XfString { text, .. } => text.len() < 128,
        StreamInstr::XfBytes { text, .. } => text.len() < 128,
        StreamInstr::XfRegexp { pattern, flags, .. } => pattern.len() < 128 && flags.len() < 128,
        StreamInstr::XfInt { .. } => true,
        StreamInstr::XfLeb { value, .. } => value < 128,
        StreamInstr::XfBare { tag, .. } => tag == XF_TAG_UNDEF || tag == XF_TAG_NULL || tag == XF_TAG_FALSE
            || tag == XF_TAG_NUMBER_A || tag == XF_TAG_NUMBER_B,
        StreamInstr::GcString { text, .. } => text.len() < 128,
        StreamInstr::GlString { text, .. } => text.len() < 128,
    }
}

/// Immediate byte carrying `value` with extra xor `extra` under the post-fetch key `key`.
pub open spec fn imm_byte(params: FetchParams, key: u8, extra: u8, value: u8) -> u8 {
    spec_encode_byte(params, key, value ^ extra)
}

/// The immediate bytes of `ins`, written with the post-fetch key `key`.
pub open spec fn imm_bytes(params: FetchParams, key: u8, ins: StreamInstr) -> Seq<u8> {
    match ins {
        StreamInstr::Ge { regs, key_imm } => seq![
            imm_byte(params, key, GE_REG_XOR_A, regs.0),
            imm_byte(params, key, GE_REG_XOR_B, regs.1),
            imm_byte(params, key, GE_REG_XOR_C, regs.2),
            imm_byte(params, key, GE_KEY_IMM_XOR, key_imm),
        ],
        StreamInstr::Xu { head, args } => seq![
            imm_byte(params, key, XU_DST_XOR, head.0),
            imm_byte(params, key, 0, head.1),
            imm_byte(params, key, 0, head.2),
            imm_byte(params, key, 0, head.3),
            imm_byte(params, key, XU_KEY_XOR, head.4),
            imm_byte(params, key, XU_FLAGS_XOR, head.5),
            imm_byte(params, key, XU_ARITY_XOR, args.len() as u8),
        ] + args.map_values(|a: u8| imm_byte(params, key, XU_ARG_XOR, a)),
        StreamInstr::XfString { dst, text } => seq![
            imm_byte(params, key, XF_TAG_XOR, XF_TAG_STRING),
            imm_byte(params, key, XF_DST_XOR, dst),
            imm_byte(params, key, 0, text.len() as u8),
        ] + text.map_values(|c: u8| imm_byte(params, key, XF_STRING_CHARSET_XOR, c)),
        StreamInstr::XfBytes { dst, text } => seq![
            imm_byte(params, key, XF_TAG_XOR, XF_TAG_BYTES),
            imm_byte(params, key, XF_DST_XOR, dst),
            imm_byte(params, key, 0, text.len() as u8),
        ] + text.map_values(|c: u8| imm_byte(params, key, XF_STRING_CHARSET_XOR, c)),
        StreamInstr::XfRegexp { dst, pattern, flags } => seq![
            imm_byte(params, key, XF_TAG_XOR, XF_TAG_REGEXP),
            imm_byte(params, key, XF_DST_XOR, dst),
            imm_byte(params, key, 0, pattern.len() as u8),
        ] + pattern.map_values(|c: u8| imm_byte(params, key, XF_REGEXP_CHARSET_A, c))
            + seq![imm_byte(params, key, 0, flags.len() as u8)]
            + flags.map_values(|c: u8| imm_byte(params, key, XF_REGEXP_CHARSET_B, c)),
        StreamInstr::XfInt { dst, value } => seq![
            imm_byte(params, key, XF_TAG_XOR, XF_TAG_INT),
            imm_byte(params, key, XF_DST_XOR, dst),
            imm_byte(params, key, XF_INT_XOR, value),
        ],
        StreamInstr::XfLeb { dst, value } => seq![
            imm_byte(params, key, XF_TAG_XOR, XF_TAG_LEB),
            imm_byte(params, key, XF_DST_XOR, dst),
            imm_byte(params, key, 0, value),
        ],
        StreamInstr::XfBare { tag, dst } => seq![
            imm_byte(params, key, XF_TAG_XOR, tag),
            imm_byte(params, key, XF_DST_XOR, dst),
        ],
        StreamInstr::GcString { regs, text } => seq![
            imm_byte(params, key, GC_REG_XOR_A, regs.0),
            imm_byte(params, key, GC_REG_XOR_B, regs.1),
            imm_byte(params, key, 0, text.len() as u8),
        ] + text.map_values(|c: u8| imm_byte(params, key, GC_STRING_CHARSET_XOR, c)),
        StreamInstr::GlString { text, regs } => seq![imm_byte(params, key, 0, text.len() as u8)]
            + text.map_values(|c: u8| imm_byte(params, key, GL_STRING_CHARSET_XOR, c)) + seq![
            imm_byte(params, key, GL_REG_XOR_A, regs.0),
            imm_byte(params, key, GL_REG_XOR_B, regs.1),
        ],
    }
}

/// The bytes of `ins` fetched under `key`: its opcode byte, then its immediates.
pub open spec fn instr_bytes(params: FetchParams, key: u8, ins: StreamInstr) -> Seq<u8> {
    seq![spec_encode_byte(params, key, stream_opcode(ins))]
        + imm_bytes(params, spec_next_key(params, key, stream_opcode(ins)), ins)
}

/// Number of bytes `ins` takes.
pub open spec fn instr_len(ins: StreamInstr) -> int {
    match ins {
        StreamInstr::Ge { .. } => 5,
        StreamInstr::Xu { args, .. } => 8 + args.len() as int,
        StreamInstr::XfString { text, .. } => 4 + text.len() as int,
        StreamInstr::XfBytes { text, .. } => 4 + text.len() as int,
        StreamInstr::XfRegexp { pattern, flags, .. } => 5 + pattern.len() as int + flags.len() as int,
        StreamInstr::XfInt { .. } => 4,
        StreamInstr::XfLeb { .. } => 4,
        StreamInstr::XfBare { .. } => 3,
        StreamInstr::GcString { text, .. } => 4 + text.len() as int,
        StreamInstr::GlString { text, .. } => 4 + text.len() as int,
    }
}

/// The bytes of a whole stream whose first opcode is fetched under `key`.
pub open spec fn stream_bytes(params: FetchParams, key: u8, instrs: Seq<StreamInstr>) -> Seq<u8>
    decreases instrs.len(),
{
    if instrs.len() == 0 {
        Seq::empty()
    } else {
        let op = stream_opcode(instrs[0]);
        instr_bytes(params, key, instrs[0]) + stream_bytes(params, spec_next_key(params, key, op), instrs.drop_first())
    }
}

/// The strings the stream holds, each at the offset of its opcode byte (the stream starting at `pos`).
pub open spec fn stream_strings(instrs: Seq<StreamInstr>, pos: int) -> Seq<HarvestedText>
    decreases instrs.len(),
{
    if instrs.len() == 0 {
        Seq::empty()
    } else {
        let here = match instrs[0] {
            StreamInstr::XfString { text, .. } => seq![text_at(XF_OPCODE, "Xf", pos as u32, latin1(text))],
            StreamInstr::XfBytes { text, .. } => seq![text_at(XF_OPCODE, "Xf", pos as u32, latin1(text))],
            StreamInstr::XfRegexp { pattern, flags, .. } => seq![
                text_at(XF_OPCODE, "Xf", pos as u32, latin1(pattern)),
                text_at(XF_OPCODE, "Xf", pos as u32, latin1(flags)),
            ],
            StreamInstr::GcString { text, .. } => seq![text_at(GC_OPCODE, "gC", pos as u32, latin1(text))],
            StreamInstr::GlString { text, .. } => seq![text_at(GL_OPCODE, "gl", pos as u32, latin1(text))],
            _ => Seq::empty(),
        };
        here + stream_strings(instrs.drop_first(), pos + instr_len(instrs[0]))
    }
}

/// The `ge` key immediates the stream holds, in order.
pub open spec fn stream_ge_keys(instrs: Seq<StreamInstr>) -> Seq<u8>
    decreases instrs.len(),
{
    if instrs.len() == 0 {
        Seq::empty()
    } else {
        let here = match instrs[0] {
            StreamInstr::Ge { key_imm, .. } => seq![key_imm],
            _ => Seq::empty(),
        };
        here + stream_ge_keys(instrs.drop_first())
    }
}

/// Bytes read as latin1 characters.
pub open spec fn latin1(text: Seq<u8>) -> Seq<char> {
    text.map_values(|c: u8| c as char)
}

/// An immediate written by `imm_byte` reads back as its value.
proof fn lemma_imm_reads_back(params: FetchParams, key: u8, extra: u8, value: u8)
    ensures
        spec_operand(params, key, imm_byte(params, key, extra, value), extra) == value,
{
    lemma_decode_encode(params, key, value ^ extra);
    assert((value ^ extra) ^ extra == value) by (bit_vector);
}

/// A LEB length byte and the characters written after it read back as the text.
proof fn lemma_string_reads_back(params: FetchParams, bc: Seq<u8>, key: u8, at: int, text: Seq<u8>, extra: u8)
    requires
        0 <= at,
        at + 1 + text.len() <= bc.len(),
        text.len() < 128,
        bc[at] == imm_byte(params, key, 0, text.len() as u8),
        forall|i: int| 0 <= i < text.len() ==> #[trigger] bc[at + 1 + i] == imm_byte(params, key, extra, text[i]),
    ensures
        spec_charset_string(params, bc, key, at, extra) == Ok::<(Seq<char>, int), &'static str>((latin1(text), at + 1 + text.len())),
{
    lemma_imm_reads_back(params, key, 0, text.len() as u8);
    let got = Seq::new(text.len(), |i: int| spec_operand(params, key, bc[at + 1 + i], extra) as char);
    assert forall|i: int| 0 <= i < text.len() implies got[i] == latin1(text)[i] by {
        assert(bc[at + 1 + i] == imm_byte(params, key, extra, text[i]));
        lemma_imm_reads_back(params, key, extra, text[i]);
    }
    assert(got =~= latin1(text));
}

proof fn lemma_instr_len(params: FetchParams, key: u8, ins: StreamInstr)
    ensures
        instr_bytes(params, key, ins).len() == instr_len(ins),
{
}

/// The state after the walk has fetched and skipped `ins` at `st.pc`.
pub open spec fn after_instr(params: FetchParams, st: WalkState, ins: StreamInstr) -> WalkState {
    let op = stream_opcode(ins);
    WalkState {
        pc: st.pc + instr_len(ins),
        key: spec_next_key(params, st.key, op),
        instructions: st.instructions + 1,
        last_pc: st.pc as u32,
        last_opcode: Some(op),
        stopped: None,
        strings: st.strings + stream_strings(seq![ins], st.pc),
        ge_key_imms: st.ge_key_imms + stream_ge_keys(seq![ins]),
    }
}

/// One step of the walk over an encoded instruction.
#[verifier::rlimit(40)]
proof fn lemma_step_ge(params: FetchParams, bc: Seq<u8>, st: WalkState, ins: StreamInstr)
    requires
        st.stopped is None,
        0 <= st.pc,
        st.pc + instr_len(ins) <= bc.len(),
        stream_instr_ok(ins),
        forall|j: int| 0 <= j < instr_len(ins) ==> bc[st.pc + j] == #[trigger] instr_bytes(params, st.key, ins)[j],
        ins is Ge,
    ensures
        walk_step(params, bc, st) == after_instr(params, st, ins),
{
    reveal(walk_step);
    let pc = st.pc;
    let op = stream_opcode(ins);
    let k = spec_next_key(params, st.key, op);
    let bytes = instr_bytes(params, st.key, ins);
    assert(bc[pc] == bytes[0]);
    lemma_decode_encode(params, st.key, op);
    assert(spec_decode_opcode(params, st.key, bc[pc]) == op);
    let imms = imm_bytes(params, k, ins);
    assert forall|j: int| 0 <= j < imms.len() implies bc[pc + 1 + j] == #[trigger] imms[j] by {
        assert(bytes[1 + j] == imms[j]);
    }
    if let StreamInstr::Ge { regs, key_imm } = ins {
        assert(bc[pc + 4] == imms[3]);
        lemma_imm_reads_back(params, k, GE_KEY_IMM_XOR, key_imm);
        assert(stream_strings(seq![ins], pc) =~= Seq::<HarvestedText>::empty() + stream_strings(seq![ins].drop_first(), pc + 5));
        assert(stream_strings(seq![ins].drop_first(), pc + 5) =~= Seq::<HarvestedText>::empty());
        assert(stream_ge_keys(seq![ins]) =~= seq![key_imm] + stream_ge_keys(seq![ins].drop_first()));
        assert(stream_ge_keys(seq![ins].drop_first()) =~= Seq::<u8>::empty());
        assert(walk_step(params, bc, st).strings =~= after_instr(params, st, ins).strings);
        assert(walk_step(params, bc, st).ge_key_imms =~= after_instr(params, st, ins).ge_key_imms);
    }
}

#[verifier::rlimit(40)]
proof fn lemma_step_xu(params: FetchParams, bc: Seq<u8>, st: WalkState, ins: StreamInstr)
    requires
        st.stopped is None,
        0 <= st.pc,
        st.pc + instr_len(ins) <= bc.len(),
        stream_instr_ok(ins),
        forall|j: int| 0 <= j < instr_len(ins) ==> bc[st.pc + j] == #[trigger] instr_bytes(params, st.key, ins)[j],
        ins is Xu,
    ensures
        walk_step(params, bc, st) == after_instr(params, st, ins),
{
    reveal(walk_step);
    let pc = st.pc;
    let op = stream_opcode(ins);
    let k = spec_next_key(params, st.key, op);
    let bytes = instr_bytes(params, st.key, ins);
    assert(bc[pc] == bytes[0]);
    lemma_decode_encode(params, st.key, op);
    assert(spec_decode_opcode(params, st.key, bc[pc]) == op);
    let imms = imm_bytes(params, k, ins);
    assert forall|j: int| 0 <= j < imms.len() implies bc[pc + 1 + j] == #[trigger] imms[j] by {
        assert(bytes[1 + j] == imms[j]);
    }
    if let StreamInstr::Xu { head, args } = ins {
        assert(bc[pc + 7] == imms[6]);
        lemma_imm_reads_back(params, k, XU_ARITY_XOR, args.len() as u8);
        assert(stream_strings(seq![ins].drop_first(), pc + instr_len(ins)) =~= Seq::<HarvestedText>::empty());
        assert(stream_strings(seq![ins], pc) =~= Seq::<HarvestedText>::empty());
        assert(stream_ge_keys(seq![ins].drop_first()) =~= Seq::<u8>::empty());
        assert(stream_ge_keys(seq![ins]) =~= Seq::<u8>::empty());
        assert(walk_step(params, bc, st).strings =~= after_instr(params, st, ins).strings);
        assert(walk_step(params, bc, st).ge_key_imms =~= after_instr(params, st, ins).ge_key_imms);
    }
}

#[verifier::rlimit(40)]
proof fn lemma_step_xf_bytes(params: FetchParams, bc: Seq<u8>, st: WalkState, ins: StreamInstr)
    requires
        st.stopped is None,
        0 <= st.pc,
        st.pc + instr_len(ins) <= bc.len(),
        stream_instr_ok(ins),
        forall|j: int| 0 <= j < instr_len(ins) ==> bc[st.pc + j] == #[trigger] instr_bytes(params, st.key, ins)[j],
        ins is XfBytes,
    ensures
        walk_step(params, bc, st) == after_instr(params, st, ins),
{
    reveal(walk_step);
    let pc = st.pc;
    let op = stream_opcode(ins);
    let k = spec_next_key(params, st.key, op);
    let bytes = instr_bytes(params, st.key, ins);
    assert(bc[pc] == bytes[0]);
    lemma_decode_encode(params, st.key, op);
    assert(spec_decode_opcode(params, st.key, bc[pc]) == op);
    let imms = imm_bytes(params, k, ins);
    assert forall|j: int| 0 <= j < imms.len() implies bc[pc + 1 + j] == #[trigger] imms[j] by {
        assert(bytes[1 + j] == imms[j]);
    }
    if let StreamInstr::XfBytes { dst, text } = ins {
        assert(bc[pc + 1] == imms[0]);
        lemma_imm_reads_back(params, k, XF_TAG_XOR, XF_TAG_BYTES);
        assert(bc[pc + 3] == imms[2]);
        assert forall|i: int| 0 <= i < text.len() implies #[trigger] bc[pc + 3 + 1 + i] == imm_byte(params, k, XF_STRING_CHARSET_XOR, text[i]) by {
            assert(bc[pc + 1 + (3 + i)] == imms[3 + i]);
        }
        lemma_string_reads_back(params, bc, k, pc + 3, text, XF_STRING_CHARSET_XOR);
        assert(stream_strings(seq![ins].drop_first(), pc + instr_len(ins)) =~= Seq::<HarvestedText>::empty());
        assert(stream_strings(seq![ins], pc) =~= seq![text_at(XF_OPCODE, "Xf", pc as u32, latin1(text))]);
        assert(stream_ge_keys(seq![ins].drop_first()) =~= Seq::<u8>::empty());
        assert(stream_ge_keys(seq![ins]) =~= Seq::<u8>::empty());
        assert(walk_step(params, bc, st).strings =~= after_instr(params, st, ins).strings);
        assert(walk_step(params, bc, st).ge_key_imms =~= after_instr(params, st, ins).ge_key_imms);
    }
}

#[verifier::rlimit(40)]
proof fn lemma_step_xf_regexp(params: FetchParams, bc: Seq<u8>, st: WalkState, ins: StreamInstr)
    requires
        st.stopped is None,
        0 <= st.pc,
        st.pc + instr_len(ins) <= bc.len(),
        stream_instr_ok(ins),
        forall|j: int| 0 <= j < instr_len(ins) ==> bc[st.pc + j] == #[trigger] instr_bytes(params, st.key, ins)[j],
        ins is XfRegexp,
    ensures
        walk_step(params, bc, st) == after_instr(params, st, ins),
{
    reveal(walk_step);
    let pc = st.pc;
    let op = stream_opcode(ins);
    let k = spec_next_key(params, st.key, op);
    let bytes = instr_bytes(params, st.key, ins);
    assert(bc[pc] == bytes[0]);
    lemma_decode_encode(params, st.key, op);
    assert(spec_decode_opcode(params, st.key, bc[pc]) == op);
    let imms = imm_bytes(params, k, ins);
    assert forall|j: int| 0 <= j < imms.len() implies bc[pc + 1 + j] == #[trigger] imms[j] by {
        assert(bytes[1 + j] == imms[j]);
    }
    if let StreamInstr::XfRegexp { dst, pattern, flags } = ins {
        let pl = pattern.len() as int;
        assert(bc[pc + 1] == imms[0]);
        lemma_imm_reads_back(params, k, XF_TAG_XOR, XF_TAG_REGEXP);
        assert(bc[pc + 3] == imms[2]);
        assert forall|i: int| 0 <= i < pl implies #[trigger] bc[pc + 3 + 1 + i] == imm_byte(params, k, XF_REGEXP_CHARSET_A, pattern[i]) by {
            assert(bc[pc + 1 + (3 + i)] == imms[3 + i]);
        }
        lemma_string_reads_back(params, bc, k, pc + 3, pattern, XF_REGEXP_CHARSET_A);
        assert(bc[pc + 4 + pl] == imms[3 + pl]) by {
            assert(bc[pc + 1 + (3 + pl)] == imms[3 + pl]);
        }
        assert forall|i: int| 0 <= i < flags.len() implies #[trigger] bc[pc + 4 + pl + 1 + i] == imm_byte(params, k, XF_REGEXP_CHARSET_B, flags[i]) by {
            assert(bc[pc + 1 + (4 + pl + i)] == imms[4 + pl + i]);
        }
        lemma_string_reads_back(params, bc, k, pc + 4 + pl, flags, XF_REGEXP_CHARSET_B);
        assert(stream_strings(seq![ins].drop_first(), pc + instr_len(ins)) =~= Seq::<HarvestedText>::empty());
        assert(stream_strings(seq![ins], pc) =~= seq![
            text_at(XF_OPCODE, "Xf", pc as u32, latin1(pattern)),
            text_at(XF_OPCODE, "Xf", pc as u32, latin1(flags)),
        ]);
        assert(stream_ge_keys(seq![ins].drop_first()) =~= Seq::<u8>::empty());
        assert(stream_ge_keys(seq![ins]) =~= Seq::<u8>::empty());
        assert(walk_step(params, bc, st).strings =~= after_instr(params, st, ins).strings);
        assert(walk_step(params, bc, st).ge_key_imms =~= after_instr(params, st, ins).ge_key_imms);
    }
}

#[verifier::rlimit(40)]
proof fn lemma_step_xf_int(params: FetchParams, bc: Seq<u8>, st: WalkState, ins: StreamInstr)
    requires
        st.stopped is None,
        0 <= st.pc,
        st.pc + instr_len(ins) <= bc.len(),
        stream_instr_ok(ins),
        forall|j: int| 0 <= j < instr_len(ins) ==> bc[st.pc + j] == #[trigger] instr_bytes(params, st.key, ins)[j],
        ins is XfInt,
    ensures
        walk_step(params, bc, st) == after_instr(params, st, ins),
{
    reveal(walk_step);
    let pc = st.pc;
    let op = stream_opcode(ins);
    let k = spec_next_key(params, st.key, op);
    let bytes = instr_bytes(params, st.key, ins);
    assert(bc[pc] == bytes[0]);
    lemma_decode_encode(params, st.key, op);
    assert(spec_decode_opcode(params, st.key, bc[pc]) == op);
    let imms = imm_bytes(params, k, ins);
    assert forall|j: int| 0 <= j < imms.len() implies bc[pc + 1 + j] == #[trigger] imms[j] by {
        assert(bytes[1 + j] == imms[j]);
    }
    if let StreamInstr::XfInt { dst, value } = ins {
        assert(bc[pc + 1] == imms[0]);
        lemma_imm_reads_back(params, k, XF_TAG_XOR, XF_TAG_INT);
        assert(stream_strings(seq![ins].drop_first(), pc + instr_len(ins)) =~= Seq::<HarvestedText>::empty());
        assert(stream_strings(seq![ins], pc) =~= Seq::<HarvestedText>::empty());
        assert(stream_ge_keys(seq![ins].drop_first()) =~= Seq::<u8>::empty());
        assert(stream_ge_keys(seq![ins]) =~= Seq::<u8>::empty());
        assert(walk_step(params, bc, st).strings =~= after_instr(params, st, ins).strings);
        assert(walk_step(params, bc, st).ge_key_imms =~= after_instr(params, st, ins).ge_key_imms);
    }
}

#[verifier::rlimit(40)]
proof fn lemma_step_xf_leb(params: FetchParams, bc: Seq<u8>, st: WalkState, ins: StreamInstr)
    requires
        st.stopped is None,
        0 <= st.pc,
        st.pc + instr_len(ins) <= bc.len(),
        stream_instr_ok(ins),
        forall|j: int| 0 <= j < instr_len(ins) ==> bc[st.pc + j] == #[trigger] instr_bytes(params, st.key, ins)[j],
        ins is XfLeb,
    ensures
        walk_step(params, bc, st) == after_instr(params, st, ins),
{
    reveal(walk_step);
    let pc = st.pc;
    let op = stream_opcode(ins);
    let k = spec_next_key(params, st.key, op);
    let bytes = instr_bytes(params, st.key, ins);
    assert(bc[pc] == bytes[0]);
    lemma_decode_encode(params, st.key, op);
    assert(spec_decode_opcode(params, st.key, bc[pc]) == op);
    let imms = imm_bytes(params, k, ins);
    assert forall|j: int| 0 <= j < imms.len() implies bc[pc + 1 + j] == #[trigger] imms[j] by {
        assert(bytes[1 + j] == imms[j]);
    }
    if let StreamInstr::XfLeb { dst, value } = ins {
        assert(bc[pc + 1] == imms[0]);
        assert(bc[pc + 3] == imms[2]);
        lemma_imm_reads_back(params, k, XF_TAG_XOR, XF_TAG_LEB);
        lemma_imm_reads_back(params, k, 0, value);
        assert(stream_strings(seq![ins].drop_first(), pc + instr_len(ins)) =~= Seq::<HarvestedText>::empty());
        assert(stream_strings(seq![ins], pc) =~= Seq::<HarvestedText>::empty());
        assert(stream_ge_keys(seq![ins].drop_first()) =~= Seq::<u8>::empty());
        assert(stream_ge_keys(seq![ins]) =~= Seq::<u8>::empty());
        assert(walk_step(params, bc, st).strings =~= after_instr(params, st, ins).strings);
        assert(walk_step(params, bc, st).ge_key_imms =~= after_instr(params, st, ins).ge_key_imms);
    }
}

#[verifier::rlimit(40)]
proof fn lemma_step_xf_bare(params: FetchParams, bc: Seq<u8>, st: WalkState, ins: StreamInstr)
    requires
        st.stopped is None,
        0 <= st.pc,
        st.pc + instr_len(ins) <= bc.len(),
        stream_instr_ok(ins),
        forall|j: int| 0 <= j < instr_len(ins) ==> bc[st.pc + j] == #[trigger] instr_bytes(params, st.key, ins)[j],
        ins is XfBare,
    ensures
        walk_step(params, bc, st) == after_instr(params, st, ins),
{
    reveal(walk_step);
    let pc = st.pc;
    let op = stream_opcode(ins);
    let k = spec_next_key(params, st.key, op);
    let bytes = instr_bytes(params, st.key, ins);
    assert(bc[pc] == bytes[0]);
    lemma_decode_encode(params, st.key, op);
    assert(spec_decode_opcode(params, st.key, bc[pc]) == op);
    let imms = imm_bytes(params, k, ins);
    assert forall|j: int| 0 <= j < imms.len() implies bc[pc + 1 + j] == #[trigger] imms[j] by {
        assert(bytes[1 + j] == imms[j]);
    }
    if let StreamInstr::XfBare { tag, dst } = ins {
        assert(bc[pc + 1] == imms[0]);
        lemma_imm_reads_back(params, k, XF_TAG_XOR, tag);
        assert(stream_strings(seq![ins].drop_first(), pc + instr_len(ins)) =~= Seq::<HarvestedText>::empty());
        assert(stream_strings(seq![ins], pc) =~= Seq::<HarvestedText>::empty());
        assert(stream_ge_keys(seq![ins].drop_first()) =~= Seq::<u8>::empty());
        assert(stream_ge_keys(seq![ins]) =~= Seq::<u8>::empty());
        assert(walk_step(params, bc, st).strings =~= after_instr(params, st, ins).strings);
        assert(walk_step(params, bc, st).ge_key_imms =~= after_instr(params, st, ins).ge_key_imms);
    }
}

#[verifier::rlimit(40)]
proof fn lemma_step_gc_string(params: FetchParams, bc: Seq<u8>, st: WalkState, ins: StreamInstr)
    requires
        st.stopped is None,
        0 <= st.pc,
        st.pc + instr_len(ins) <= bc.len(),
        stream_instr_ok(ins),
        forall|j: int| 0 <= j < instr_len(ins) ==> bc[st.pc + j] == #[trigger] instr_bytes(params, st.key, ins)[j],
        ins is GcString,
    ensures
        walk_step(params, bc, st) == after_instr(params, st, ins),
{
    reveal(walk_step);
    let pc = st.pc;
    let op = stream_opcode(ins);
    let k = spec_next_key(params, st.key, op);
    let bytes = instr_bytes(params, st.key, ins);
    assert(bc[pc] == bytes[0]);
    lemma_decode_encode(params, st.key, op);
    assert(spec_decode_opcode(params, st.key, bc[pc]) == op);
    let imms = imm_bytes(params, k, ins);
    assert forall|j: int| 0 <= j < imms.len() implies bc[pc + 1 + j] == #[trigger] imms[j] by {
        assert(bytes[1 + j] == imms[j]);
    }
    if let StreamInstr::GcString { regs, text } = ins {
        assert(bc[pc + 3] == imms[2]);
        lemma_imm_reads_back(params, k, 0, text.len() as u8);
        let got = Seq::new(text.len(), |i: int| spec_operand(params, k, bc[pc + 4 + i], GC_STRING_CHARSET_XOR) as char);
        assert forall|i: int| 0 <= i < text.len() implies got[i] == latin1(text)[i] by {
            assert(bc[pc + 1 + (3 + i)] == imms[3 + i]);
            lemma_imm_reads_back(params, k, GC_STRING_CHARSET_XOR, text[i]);
        }
        assert(got =~= latin1(text));
        assert(stream_strings(seq![ins].drop_first(), pc + instr_len(ins)) =~= Seq::<HarvestedText>::empty());
        assert(stream_strings(seq![ins], pc) =~= seq![text_at(GC_OPCODE, "gC", pc as u32, latin1(text))]);
        assert(stream_ge_keys(seq![ins].drop_first()) =~= Seq::<u8>::empty());
        assert(stream_ge_keys(seq![ins]) =~= Seq::<u8>::empty());
        assert(walk_step(params, bc, st).strings =~= after_instr(params, st, ins).strings);
        assert(walk_step(params, bc, st).ge_key_imms =~= after_instr(params, st, ins).ge_key_imms);
    }
}

#[verifier::rlimit(40)]
proof fn lemma_step_gl_string(params: FetchParams, bc: Seq<u8>, st: WalkState, ins: StreamInstr)
    requires
        st.stopped is None,
        0 <= st.pc,
        st.pc + instr_len(ins) <= bc.len(),
        stream_instr_ok(ins),
        forall|j: int| 0 <= j < instr_len(ins) ==> bc[st.pc + j] == #[trigger] instr_bytes(params, st.key, ins)[j],
        ins is GlString,
    ensures
        walk_step(params, bc, st) == after_instr(params, st, ins),
{
    reveal(walk_step);
    let pc = st.pc;
    let op = stream_opcode(ins);
    let k = spec_next_key(params, st.key, op);
    let bytes = instr_bytes(params, st.key, ins);
    assert(bc[pc] == bytes[0]);
    lemma_decode_encode(params, st.key, op);
    assert(spec_decode_opcode(params, st.key, bc[pc]) == op);
    let imms = imm_bytes(params, k, ins);
    assert forall|j: int| 0 <= j < imms.len() implies bc[pc + 1 + j] == #[trigger] imms[j] by {
        assert(bytes[1 + j] == imms[j]);
    }
    if let StreamInstr::GlString { text, regs } = ins {
        assert(bc[pc + 1] == imms[0]);
        lemma_imm_reads_back(params, k, 0, text.len() as u8);
        let got = Seq::new(text.len(), |i: int| spec_operand(params, k, bc[pc + 2 + i], GL_STRING_CHARSET_XOR) as char);
        assert forall|i: int| 0 <= i < text.len() implies got[i] == latin1(text)[i] by {
            assert(bc[pc + 1 + (1 + i)] == imms[1 + i]);
            lemma_imm_reads_back(params, k, GL_STRING_CHARSET_XOR, text[i]);
        }
        assert(got =~= latin1(text));
        assert(stream_strings(seq![ins].drop_first(), pc + instr_len(ins)) =~= Seq::<HarvestedText>::empty());
        assert(stream_strings(seq![ins], pc) =~= seq![text_at(GL_OPCODE, "gl", pc as u32, latin1(text))]);
        assert(stream_ge_keys(seq![ins].drop_first()) =~= Seq::<u8>::empty());
        assert(stream_ge_keys(seq![ins]) =~= Seq::<u8>::empty());
        assert(walk_step(params, bc, st).strings =~= after_instr(params, st, ins).strings);
        assert(walk_step(params, bc, st).ge_key_imms =~= after_instr(params, st, ins).ge_key_imms);
    }
}

#[verifier::rlimit(40)]
proof fn lemma_step_xf_string(params: FetchParams, bc: Seq<u8>, st: WalkState, ins: StreamInstr)
    requires
        st.stopped is None,
        0 <= st.pc,
        st.pc + instr_len(ins) <= bc.len(),
        stream_instr_ok(ins),
        forall|j: int| 0 <= j < instr_len(ins) ==> bc[st.pc + j] == #[trigger] instr_bytes(params, st.key, ins)[j],
        ins is XfString,
    ensures
        walk_step(params, bc, st) == after_instr(params, st, ins),
{
    reveal(walk_step);
    let pc = st.pc;
    let op = stream_opcode(ins);
    let k = spec_next_key(params, st.key, op);
    let bytes = instr_bytes(params, st.key, ins);
    assert(bc[pc] == bytes[0]);
    lemma_decode_encode(params, st.key, op);
    assert(spec_decode_opcode(params, st.key, bc[pc]) == op);
    let imms = imm_bytes(params, k, ins);
    assert forall|j: int| 0 <= j < imms.len() implies bc[pc + 1 + j] == #[trigger] imms[j] by {
        assert(bytes[1 + j] == imms[j]);
    }
    if let StreamInstr::XfString { dst, text } = ins {
        assert(bc[pc + 1] == imms[0]);
        assert(bc[pc + 2] == imms[1]);
        assert(bc[pc + 3] == imms[2]);
        lemma_imm_reads_back(params, k, XF_TAG_XOR, XF_TAG_STRING);
        lemma_imm_reads_back(params, k, 0, text.len() as u8);
        let got = Seq::new(text.len(), |i: int| spec_operand(params, k, bc[pc + 4 + i], XF_STRING_CHARSET_XOR) as char);
        assert forall|i: int| 0 <= i < text.len() implies got[i] == latin1(text)[i] by {
            assert(bc[pc + 1 + (3 + i)] == imms[3 + i]);
            lemma_imm_reads_back(params, k, XF_STRING_CHARSET_XOR, text[i]);
        }
        assert(got =~= latin1(text));
        assert(stream_strings(seq![ins].drop_first(), pc + instr_len(ins)) =~= Seq::<HarvestedText>::empty());
        assert(stream_strings(seq![ins], pc) =~= seq![text_at(XF_OPCODE, "Xf", pc as u32, latin1(text))]);
        assert(stream_ge_keys(seq![ins].drop_first()) =~= Seq::<u8>::empty());
        assert(stream_ge_keys(seq![ins]) =~= Seq::<u8>::empty());
        assert(walk_step(params, bc, st).strings =~= after_instr(params, st, ins).strings);
        assert(walk_step(params, bc, st).ge_key_imms =~= after_instr(params, st, ins).ge_key_imms);
    }
}

/// One step of the walk over an encoded instruction.
proof fn lemma_step_over_instr(params: FetchParams, bc: Seq<u8>, st: WalkState, ins: StreamInstr)
    requires
        st.stopped is None,
        0 <= st.pc,
        st.pc + instr_len(ins) <= bc.len(),
        stream_instr_ok(ins),
        forall|j: int| 0 <= j < instr_len(ins) ==> bc[st.pc + j] == #[trigger] instr_bytes(params, st.key, ins)[j],
    ensures
        walk_step(params, bc, st) == after_instr(params, st, ins),
{
    match ins {
        StreamInstr::Ge { .. } => lemma_step_ge(params, bc, st, ins),
        StreamInstr::Xu { .. } => lemma_step_xu(params, bc, st, ins),
        StreamInstr::XfBytes { .. } => lemma_step_xf_bytes(params, bc, st, ins),
        StreamInstr::XfRegexp { .. } => lemma_step_xf_regexp(params, bc, st, ins),
        StreamInstr::XfInt { .. } => lemma_step_xf_int(params, bc, st, ins),
        StreamInstr::XfLeb { .. } => lemma_step_xf_leb(params, bc, st, ins),
        StreamInstr::XfBare { .. } => lemma_step_xf_bare(params, bc, st, ins),
        StreamInstr::GcString { .. } => lemma_step_gc_string(params, bc, st, ins),
        StreamInstr::GlString { .. } => lemma_step_gl_string(params, bc, st, ins),
        StreamInstr::XfString { .. } => lemma_step_xf_string(params, bc, st, ins),
    }
}

/// The walk over the rest of the bytecode, when that rest is an encoded stream.
proof fn lemma_walk_over_stream(params: FetchParams, bc: Seq<u8>, st: WalkState, instrs: Seq<StreamInstr>, m: nat)
    requires
        st.stopped is None,
        0 <= st.pc <= bc.len(),
        bc.subrange(st.pc, bc.len() as int) == stream_bytes(params, st.key, instrs),
        forall|i: int| 0 <= i < instrs.len() ==> stream_instr_ok(#[trigger] instrs[i]),
        m > instrs.len(),
    ensures
        ({
            let r = walk(params, bc, st, m);
            &&& r.stopped == Some("end_of_bytecode")
            &&& r.instructions == st.instructions + instrs.len()
            &&& r.last_opcode == (if instrs.len() == 0 { st.last_opcode } else { Some(stream_opcode(instrs.last())) })
            &&& r.strings == st.strings + stream_strings(instrs, st.pc)
            &&& r.ge_key_imms == st.ge_key_imms + stream_ge_keys(instrs)
        }),
    decreases instrs.len(),
{
    let rest = bc.subrange(st.pc, bc.len() as int);
    if instrs.len() == 0 {
        assert(rest.len() == 0);
        assert(st.pc == bc.len());
        let s1 = walk_step(params, bc, st);
        assert(s1 == WalkState { stopped: Some("end_of_bytecode"), ..st }) by {
            reveal(walk_step);
        }
        assert(walk(params, bc, st, m) == walk(params, bc, s1, (m - 1) as nat));
        assert(walk(params, bc, s1, (m - 1) as nat) == s1);
        assert(st.strings + stream_strings(instrs, st.pc) =~= st.strings);
        assert(st.ge_key_imms + stream_ge_keys(instrs) =~= st.ge_key_imms);
        let r = walk(params, bc, st, m);
        assert(r.stopped == Some("end_of_bytecode"));
        assert(r.strings == st.strings + stream_strings(instrs, st.pc));
    } else {
        let ins = instrs[0];
        let tail = instrs.drop_first();
        let op = stream_opcode(ins);
        let k = spec_next_key(params, st.key, op);
        let head = instr_bytes(params, st.key, ins);
        lemma_instr_len(params, st.key, ins);
        assert(rest == head + stream_bytes(params, k, tail));
        assert(stream_instr_ok(instrs[0]));
        assert forall|j: int| 0 <= j < instr_len(ins) implies bc[st.pc + j] == #[trigger] instr_bytes(params, st.key, ins)[j] by {
            assert(rest[j] == head[j]);
        }
        lemma_step_over_instr(params, bc, st, ins);
        let s1 = after_instr(params, st, ins);
        assert(walk(params, bc, st, m) == walk(params, bc, s1, (m - 1) as nat));
        assert(bc.subrange(s1.pc, bc.len() as int) =~= stream_bytes(params, k, tail)) by {
            assert(bc.subrange(s1.pc, bc.len() as int) =~= rest.subrange(head.len() as int, rest.len() as int));
            assert((head + stream_bytes(params, k, tail)).subrange(head.len() as int, rest.len() as int) =~= stream_bytes(params, k, tail));
        }
        assert forall|i: int| 0 <= i < tail.len() implies stream_instr_ok(#[trigger] tail[i]) by {
            assert(tail[i] == instrs[i + 1]);
        }
        lemma_walk_over_stream(params, bc, s1, tail, (m - 1) as nat);
        assert(stream_strings(instrs, st.pc) =~= stream_strings(seq![ins], st.pc) + stream_strings(tail, st.pc + instr_len(ins))) by {
            assert(seq![ins].drop_first() =~= Seq::<StreamInstr>::empty());
            assert(stream_strings(seq![ins].drop_first(), st.pc + instr_len(ins)) =~= Seq::<HarvestedText>::empty());
        }
        assert(stream_ge_keys(instrs) =~= stream_ge_keys(seq![ins]) + stream_ge_keys(tail)) by {
            assert(seq![ins].drop_first() =~= Seq::<StreamInstr>::empty());
            assert(stream_ge_keys(seq![ins].drop_first()) =~= Seq::<u8>::empty());
        }
        assert(st.strings + stream_strings(instrs, st.pc) =~= s1.strings + stream_strings(tail, s1.pc));
        assert(st.ge_key_imms + stream_ge_keys(instrs) =~= s1.ge_key_imms + stream_ge_keys(tail));
        if tail.len() > 0 {
            assert(tail.last() == instrs.last());
        } else {
            assert(instrs.last() == ins);
        }
        let r = walk(params, bc, st, m);
        assert(r.stopped == Some("end_of_bytecode"));
        assert(r.instructions == st.instructions + instrs.len());
        assert(r.last_opcode == (if instrs.len() == 0 { st.last_opcode } else { Some(stream_opcode(instrs.last())) }));
        assert(r.strings == st.strings + stream_strings(instrs, st.pc));
        assert(r.ge_key_imms == st.ge_key_imms + stream_ge_keys(instrs));
    }
}

/// Each instruction takes at least three bytes.
proof fn lemma_stream_len(params: FetchParams, key: u8, instrs: Seq<StreamInstr>)
    ensures
        stream_bytes(params, key, instrs).len() >= 3 * instrs.len(),
    decreases instrs.len(),
{
    if instrs.len() > 0 {
        lemma_instr_len(params, key, instrs[0]);
        lemma_stream_len(params, spec_next_key(params, key, stream_opcode(instrs[0])), instrs.drop_first());
    }
}

/// The skip-harvest of an encoded stream gives back the stream: it walks every
/// instruction and stops at the end of the bytecode, with the last opcode
/// fetched, every `Xf` (string, bytes, regexp pattern then flags), `gC` and `gl`
/// string (at the offset of its opcode byte) and every `ge`
/// key immediate, in stream order. The walk starts at offset 0, and a stream
/// of `SKIP_HARVEST_INSTR_LIMIT` instructions or more is cut off by the cap.
pub proof fn lemma_harvest_of_encoded_stream(params: FetchParams, instrs: Seq<StreamInstr>)
    requires
        params.init_pc == 0,
        forall|i: int| 0 <= i < instrs.len() ==> stream_instr_ok(#[trigger] instrs[i]),
        instrs.len() < SKIP_HARVEST_INSTR_LIMIT,
    ensures
        ({
            let bc = stream_bytes(params, params.init_key, instrs);
            let r = walk(params, bc, walk_start(params), walk_limit(bc.len() as int) as nat);
            &&& r.stopped == Some("end_of_bytecode")
            &&& r.instructions == instrs.len()
            &&& r.last_opcode == (if instrs.len() == 0 { None } else { Some(stream_opcode(instrs.last())) })
            &&& r.strings == stream_strings(instrs, 0)
            &&& r.ge_key_imms == stream_ge_keys(instrs)
        }),
{
    let bc = stream_bytes(params, params.init_key, instrs);
    let st = walk_start(params);
    lemma_stream_len(params, params.init_key, instrs);
    assert(bc.subrange(0, bc.len() as int) =~= bc);
    assert(walk_limit(bc.len() as int) > instrs.len());
    lemma_walk_over_stream(params, bc, st, instrs, walk_limit(bc.len() as int) as nat);
    assert(st.strings + stream_strings(instrs, 0) =~= stream_strings(instrs, 0));
    assert(st.ge_key_imms + stream_ge_keys(instrs) =~= stream_ge_keys(instrs));
}

} // verus!

//! Second `/fo/` POST envelope after `runProgram`: same compressor wrapper and
//! `N` as the init POST, a large compressed plaintext, and response length bands.
use vstd::prelude::*;
use crate::fo_body::{COMPRESSOR_HISTORICAL_NAME, COMPRESSOR_LIVE_NAME, RSA_BLOB_LEN};

verus! {

/// Remaining live gap after the follow-up envelope: handler semantics.
pub const NEXT_AFTER_FOLLOWUP_SHAPE: &'static str = "handler_semantics";

/// XHR send + response handler on the branch-`b` iframe (`setTimeout(fj, 100, …)`).
pub const SEND_HELPER_LIVE_NAME: &'static str = "fj";

/// Tiny debug logger on the same iframe. Not the send helper.
pub const DEBUG_LOGGER_LIVE_NAME: &'static str = "fz";

/// Visible custom-b64 body encoder called after the timing overwrite (`f3(obj)`).
pub const BODY_ENCODER_LIVE_NAME: &'static str = "f3";

/// First 24 chars of paired POSTs are the RSA blob (same `N`).
pub const SHARED_PREFIX_CHARS: usize = 24;

/// RSA blob plus the 1-byte LZ pad length that precedes XTEA.
pub const RSA_AND_PAD_OVERHEAD: usize = 129;

/// Observed follow-up response lengths (headed Chrome xhr `responseText`).
pub const CHROME_FO_FOLLOW_UP_RESP_LENS: [usize; 1] = [2400];

/// Observed init response lengths (packed `runProgram`, standard base64).
pub const CHROME_FO_INIT_RESP_LENS: [usize; 4] = [822840, 822956, 845928, 846392];

#[derive(Debug, Clone, Copy, PartialEq, Eq, Structural)]
pub enum FoFollowUpPlaintextKind {
    /// Large LZ/XTEA blob after `runProgram`; not a packed program.
    CompressedBlobAfterRunProgram,
}

#[derive(Debug, Clone, Copy, PartialEq, Eq, Structural)]
pub enum FoResponseLenBand {
    /// ~822–846k standard base64 of a packed `runProgram`.
    PackedRunProgram,
    /// ~2.4k follow-up ack; not another VM blob.
    FollowUpAck,
    Other,
}

#[derive(Debug, Clone, Copy)]
pub struct FoFollowUpShape {
    pub compressor_live_name: &'static str,
    pub compressor_historical_name: &'static str,
    pub send_helper: &'static str,
    pub same_n_wrapper: bool,
    pub same_url: bool,
    pub shared_prefix_chars: usize,
    pub cf_chl_ra: &'static str,
    pub sent_after_run_program: bool,
    pub plaintext_kind: FoFollowUpPlaintextKind,
    pub not_packed_program: bool,
    pub note: &'static str,
}

/// The live follow-up envelope facts.
pub fn live_fo_followup() -> (s: FoFollowUpShape)
    ensures
        s.compressor_live_name == COMPRESSOR_LIVE_NAME,
        s.compressor_historical_name == COMPRESSOR_HISTORICAL_NAME,
        s.send_helper == SEND_HELPER_LIVE_NAME,
        s.same_n_wrapper && s.same_url,
        s.shared_prefix_chars == SHARED_PREFIX_CHARS,
        s.cf_chl_ra@ == "0"@,
        s.sent_after_run_program && s.not_packed_program,
        s.plaintext_kind == FoFollowUpPlaintextKind::CompressedBlobAfterRunProgram,
{
    FoFollowUpShape {
        compressor_live_name: COMPRESSOR_LIVE_NAME,
        compressor_historical_name: COMPRESSOR_HISTORICAL_NAME,
        send_helper: SEND_HELPER_LIVE_NAME,
        same_n_wrapper: true,
        same_url: true,
        shared_prefix_chars: SHARED_PREFIX_CHARS,
        cf_chl_ra: "0",
        sent_after_run_program: true,
        plaintext_kind: FoFollowUpPlaintextKind::CompressedBlobAfterRunProgram,
        not_packed_program: true,
        note: "same f4/N wrapper as init (shared 24-char prefix); plaintext is a large compressed blob after runProgram, not a packed program. Do not reconstruct or POST.",
    }
}

#[derive(Debug, Clone, Copy)]
pub struct RunProgramReturnBridge {
    pub send_helper: &'static str,
    pub debug_logger: &'static str,
    pub body_encoder: &'static str,
    pub compressor_wrap: &'static str,
    pub init_schedule: &'static str,
    pub packed_call: &'static str,
    pub invoke_if_fn: &'static str,
    pub js_alt: &'static str,
    pub note: &'static str,
}

/// How the branch-`b` iframe turns a packed init response into the follow-up POST.
pub fn live_run_program_return() -> (b: RunProgramReturnBridge)
    ensures
        b.send_helper == SEND_HELPER_LIVE_NAME,
        b.debug_logger == DEBUG_LOGGER_LIVE_NAME,
        b.body_encoder == BODY_ENCODER_LIVE_NAME,
        b.compressor_wrap == COMPRESSOR_LIVE_NAME,
        b.invoke_if_fn@ == "fn(initObj, fj)"@,
{
    RunProgramReturnBridge {
        send_helper: SEND_HELPER_LIVE_NAME,
        debug_logger: DEBUG_LOGGER_LIVE_NAME,
        body_encoder: BODY_ENCODER_LIVE_NAME,
        compressor_wrap: COMPRESSOR_LIVE_NAME,
        init_schedule: "setTimeout(fj, 100, url, obj)",
        packed_call: "runProgram(packed, E)",
        invoke_if_fn: "fn(initObj, fj)",
        js_alt: "new Function(f5(decoded))(initObj, fj)",
        note: "typeof-function gate then the same fj helper; JS eval is an alt response shape, not a second protocol. Do not execute or POST.",
    }
}

/// `chars * 6 / 8`, with the product saturating at `usize::MAX`.
pub open spec fn decoded_len(chars: int) -> int {
    let m = if chars * 6 > usize::MAX { usize::MAX as int } else { chars * 6 };
    m / 8
}

/// Custom-b64 (6 bits/char) length → decoded byte count.
pub fn custom_b64_decoded_len(chars: usize) -> (n: usize)
    ensures
        n == decoded_len(chars as int),
{
    match chars.checked_mul(6) {
        Some(m) => m / 8,
        None => usize::MAX / 8,
    }
}

/// Bytes after the RSA blob and pad byte that XTEA/LZ occupy (approx).
pub fn approx_lz_xtea_len(custom_b64_chars: usize) -> (n: usize)
    ensures
        n == (if decoded_len(custom_b64_chars as int) >= RSA_BLOB_LEN + 1 {
            decoded_len(custom_b64_chars as int) - (RSA_BLOB_LEN + 1)
        } else {
            0
        }),
{
    custom_b64_decoded_len(custom_b64_chars).saturating_sub(RSA_AND_PAD_OVERHEAD)
}

/// Length band of a `/fo/` response.
pub open spec fn fo_response_len_band(len: int) -> FoResponseLenBand {
    if 700000 <= len <= 950000 {
        FoResponseLenBand::PackedRunProgram
    } else if 1500 <= len <= 4000 {
        FoResponseLenBand::FollowUpAck
    } else {
        FoResponseLenBand::Other
    }
}

pub fn classify_fo_response_len(len: usize) -> (b: FoResponseLenBand)
    ensures
        b == fo_response_len_band(len as int),
{
    if 700000 <= len && len <= 950000 {
        FoResponseLenBand::PackedRunProgram
    } else if 1500 <= len && len <= 4000 {
        FoResponseLenBand::FollowUpAck
    } else {
        FoResponseLenBand::Other
    }
}

} // verus!

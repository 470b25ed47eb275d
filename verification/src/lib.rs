//! Static analysis helpers for the Cloudflare Turnstile challenge protocol:
//! `_cf_chl_opt` parsing, `/fo/` body shape checks, the `runProgram`
//! bytecode fetch schedule and operand layouts, and the payload encryptor.
pub mod text;
pub mod run_program_vm;
pub mod fmt;
pub mod run_program;
pub mod run_program_ops;
pub mod run_program_skip;
pub mod run_program_skip_stream;
pub mod challenge;
pub mod challenge_shapes;
pub mod rsa_encryption;
pub mod xtea_inverse;
pub mod fo_body;
pub mod regex_support;
pub mod protocol;
pub mod fo_followup;
pub mod fo_init_json;
pub mod fo_init_json_page;
pub mod fo_followup_json;
pub mod fo_headers;
pub mod fo_blob;
pub mod run_program_profile;
pub mod json;
pub mod json_canonical;
pub mod oracle;
pub mod oracle_late;
pub mod oracle_followup;
pub mod probe;
pub mod case_tuples;

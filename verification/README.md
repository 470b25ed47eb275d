# cf

Static analysis of the Cloudflare Turnstile challenge protocol, verified with Verus.

`src/` is the verified library:

- `challenge`: reading `window._cf_chl_opt` out of an iframe page (legacy named keys and
  randomized keys).
- `protocol`: endpoint URLs, the public `api.js` version, the `/fo/` session, response shapes.
- `probe`: the decisions of a live iframe probe, one answer at a time.
- `run_program`, `run_program_vm`, `run_program_ops`, `run_program_skip`,
  `run_program_profile`: unpacking a packed `runProgram` blob, its opcode fetch schedule,
  operand layouts and case tables, a width-aware string harvest, and skip profiles bound to a
  source hash. `run_program_skip_stream` states what the harvest gives back on an encoded
  instruction stream.
- `fo_body`, `fo_blob`, `fo_followup`, `fo_init_json`, `fo_followup_json`, `fo_headers`: the
  shapes of `/fo/` bodies, init and follow-up JSON, and request headers. `fo_init_json_page`
  states what the init-key search finds on a page built as the iframe builds it.
- `rsa_encryption`: the payload encryptor (LZ-String, XTEA, custom base64, RSA of the key).
- `json_canonical`: canonical JSON text (keys sorted at every level).
- `json`, `oracle`, `oracle_late`, `oracle_followup`: checks of a headed-Chrome oracle fixture
  against the findings above.
- `text`, `fmt`, `regex_support`: byte and string helpers, message rendering, regex calls.

`app/` is the command line around it: reading files, the network probe, JSON output, and the
floating-point entropy figures and float immediates.

`tests/` runs the library on concrete inputs.

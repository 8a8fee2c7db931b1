# chain_dkim

A verified library in three parts:

- `state_machine`: two small light-switch state machines.
- `chain`: a minimal blockchain runtime. The system pallet counts blocks and
  per-account nonces, the balances pallet moves funds between accounts, and the
  proof-of-existence pallet records who claimed a piece of content. The
  runtime executes blocks of extrinsics.
- `dkim`: DKIM header and body canonicalization, DKIM-Signature parsing, body
  hashes, signing and verification with RSA (PKCS#1 v1.5, SHA-256), and the
  two computations around a DNS key lookup (the name to query and the `p=` key
  in the TXT records).

Every function in `src/` is checked by Verus against its `requires` /
`ensures` contract. Calls into `sha2`, `base64`, `rsa` and `mailparse`, and
into three functions of std (`str::to_lowercase`, `String::from_utf8_lossy`
and `String::push`), go through small trusted wrappers or specifications
whose contracts name what those functions compute. `app/` holds the program that runs two blocks through the runtime,
the DNS lookup of a DKIM key, and copies of the error types with `thiserror`
derives.

# galileo

The decision-making core of the Galileo Solana arbitrage scheduler, written in
Verus and proved against its contracts.

- `src/` — the verified library: configuration rules, quote and swap request
  building, HTTP answer handling, trade-pair and trade-size planning, the
  wallet envelope (Argon2id + AES-256-GCM), wallet prompts as state machines,
  caches and the multi-leg endpoint setup. Calls into outside crates (base64,
  bs58, url, time, sha2, argon2, aes-gcm, solana-sdk, serde_json, serde_yaml,
  rand) stand behind small trusted wrappers whose contracts are documented
  where they are declared.
- `tests/` — tests on concrete values, run against the compiled library.
- `app/` — the command-line program: argument parsing (clap), reading the
  YAML configuration (serde_yaml), terminal prompts (console), writing the
  wallet section back, and the floating-point parts of trade-size generation.

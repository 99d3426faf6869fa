# llmfit_core

Verified core of llmfit's benchmark helpers, written in Verus.

- `src/bench_prompt.rs`: `--prompt-tokens` validation, sized prompt text,
  run nonces, prompt-file checks and prompt resolution.
- `src/benchmark_model_id.rs`: normalisation of provider-reported model ids.
- `src/version.rs`: the long `--version` text.
- `src/decimal.rs`, `src/whitespace.rs`, `src/utf8_len.rs`: decimal rendering,
  Unicode whitespace and trimming, and UTF-8 length facts they rest on.
- `app/lib.rs`: file reading and compile-time build metadata around the library.
- `tests/`: runtime tests of the public functions.

//! Benchmark prompt sizing, model id normalisation and version text for llmfit.

pub mod bench_prompt;
pub mod benchmark_model_id;
pub mod decimal;
pub mod utf8_len;
pub mod version;
pub mod whitespace;

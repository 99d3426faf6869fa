use llmfit_core::bench_prompt::{
    check_prompt_file_metadata, prompt_text_for_target_tokens, prompt_with_run_nonce,
    resolve_bench_prompt, validate_prompt_tokens, PromptFile, MAX_PROMPT_FILE_BYTES,
    MAX_PROMPT_TOKENS, MIN_PROMPT_TOKENS, SIZING_BLOCK,
};

fn file(display: &str, read: Result<&str, &str>) -> PromptFile {
    PromptFile {
        display: display.to_string(),
        read: read.map(|s| s.to_string()).map_err(|e| e.to_string()),
    }
}

#[test]
fn validate_prompt_tokens_rejects_zero_and_huge() {
    assert!(validate_prompt_tokens(0).is_err());
    assert!(validate_prompt_tokens(MAX_PROMPT_TOKENS + 1).is_err());
    assert!(validate_prompt_tokens(1500).is_ok());
}

#[test]
fn resolve_rejects_empty_file() {
    let err = resolve_bench_prompt(Some(file("/tmp/empty.txt", Ok("  \n"))), None).unwrap_err();
    assert!(err.contains("empty"));
}

#[test]
fn resolve_file_with_token_target() {
    let spec = resolve_bench_prompt(Some(file("/tmp/body.txt", Ok("hello"))), Some(100))
        .expect("resolve")
        .expect("some");
    assert_eq!(spec.text, "hello");
    assert_eq!(spec.requested_tokens, Some(100));
}

#[test]
fn sizing_block_grows_with_target() {
    let small = prompt_text_for_target_tokens(50);
    let large = prompt_text_for_target_tokens(500);
    assert!(large.len() > small.len());
    assert!(large.contains(SIZING_BLOCK.trim()));
}

#[test]
fn validate_prompt_tokens_bounds_and_messages() {
    assert_eq!(MIN_PROMPT_TOKENS, 1);
    assert_eq!(MAX_PROMPT_TOKENS, 131_072);
    assert!(validate_prompt_tokens(MIN_PROMPT_TOKENS).is_ok());
    assert!(validate_prompt_tokens(MAX_PROMPT_TOKENS).is_ok());
    assert_eq!(
        validate_prompt_tokens(0).unwrap_err(),
        "--prompt-tokens must be at least 1, got 0"
    );
    assert_eq!(
        validate_prompt_tokens(131_073).unwrap_err(),
        "--prompt-tokens must be at most 131072, got 131073"
    );
    assert_eq!(
        validate_prompt_tokens(u32::MAX).unwrap_err(),
        "--prompt-tokens must be at most 131072, got 4294967295"
    );
}

#[test]
fn prompt_text_zero_tokens_is_empty() {
    assert_eq!(prompt_text_for_target_tokens(0), "");
}

#[test]
fn prompt_text_one_token_is_one_trimmed_block() {
    assert_eq!(prompt_text_for_target_tokens(1), SIZING_BLOCK.trim());
}

#[test]
fn prompt_text_joins_blocks_with_newlines() {
    let block = SIZING_BLOCK.trim();
    let text = prompt_text_for_target_tokens(500);
    let copies: Vec<&str> = text.split('\n').collect();
    assert!(copies.iter().all(|c| *c == block));
    // 2000 bytes wanted: the least k with k*len + (k-1) >= 2000.
    let k = (2000 + block.len() + 1) / (block.len() + 1);
    assert_eq!(copies.len(), k);
    assert!(text.len() >= 2000);
    assert!(text.len() <= 2000 + block.len());
}

#[test]
fn prompt_text_reaches_target_bytes() {
    for tokens in [1u32, 2, 50, 133, 134, 135, 500, 4096] {
        let text = prompt_text_for_target_tokens(tokens);
        let target = tokens as usize * 4;
        assert!(text.len() >= target);
        assert!(text.len() <= target + SIZING_BLOCK.trim().len());
        assert!(text.starts_with(SIZING_BLOCK.trim()));
    }
}

#[test]
fn smaller_prompt_is_prefix_of_larger() {
    let small = prompt_text_for_target_tokens(200);
    let large = prompt_text_for_target_tokens(900);
    assert!(large.starts_with(&small));
}

#[test]
fn run_nonce_pads_run_number() {
    assert_eq!(prompt_with_run_nonce("base", 0), "Run-ID: 0001\nbase");
    assert_eq!(prompt_with_run_nonce("hello", 41), "Run-ID: 0042\nhello");
    assert_eq!(prompt_with_run_nonce("", 9998), "Run-ID: 9999\n");
    assert_eq!(prompt_with_run_nonce("x", 9999), "Run-ID: 10000\nx");
    assert_eq!(prompt_with_run_nonce("x", 123455), "Run-ID: 123456\nx");
}

#[test]
fn run_nonce_distinguishes_runs() {
    let a = prompt_with_run_nonce("same", 3);
    let b = prompt_with_run_nonce("same", 4);
    assert_ne!(a, b);
    assert!(a.ends_with("same"));
    assert!(b.ends_with("same"));
}

#[test]
fn prompt_file_metadata_checks() {
    assert_eq!(MAX_PROMPT_FILE_BYTES, 8 * 1024 * 1024);
    assert!(check_prompt_file_metadata("p.txt", true, 0).is_ok());
    assert!(check_prompt_file_metadata("p.txt", true, MAX_PROMPT_FILE_BYTES).is_ok());
    assert_eq!(
        check_prompt_file_metadata("/tmp/dir", false, 10).unwrap_err(),
        "prompt file /tmp/dir is not a regular file"
    );
    assert_eq!(
        check_prompt_file_metadata("big.txt", true, MAX_PROMPT_FILE_BYTES + 1).unwrap_err(),
        "prompt file big.txt is 8388609 bytes (limit 8388608 bytes)"
    );
    assert_eq!(
        check_prompt_file_metadata("dir", false, u64::MAX).unwrap_err(),
        "prompt file dir is not a regular file"
    );
}

#[test]
fn resolve_without_flags_gives_none() {
    assert!(resolve_bench_prompt(None, None).unwrap().is_none());
}

#[test]
fn resolve_tokens_only_builds_sized_prompt() {
    let spec = resolve_bench_prompt(None, Some(300)).unwrap().unwrap();
    assert_eq!(spec.requested_tokens, Some(300));
    assert_eq!(spec.text, prompt_text_for_target_tokens(300));
}

#[test]
fn resolve_rejects_bad_token_target() {
    assert_eq!(
        resolve_bench_prompt(None, Some(0)).unwrap_err(),
        "--prompt-tokens must be at least 1, got 0"
    );
    // The token target is checked before the file is looked at.
    assert_eq!(
        resolve_bench_prompt(Some(file("f.txt", Err("read f.txt: gone"))), Some(200_000))
            .unwrap_err(),
        "--prompt-tokens must be at most 131072, got 200000"
    );
}

#[test]
fn resolve_passes_read_errors_through() {
    assert_eq!(
        resolve_bench_prompt(Some(file("f.txt", Err("read f.txt: gone"))), Some(10)).unwrap_err(),
        "read f.txt: gone"
    );
}

#[test]
fn resolve_file_text_is_kept_verbatim() {
    let spec = resolve_bench_prompt(Some(file("f.txt", Ok("  body\n"))), None)
        .unwrap()
        .unwrap();
    assert_eq!(spec.text, "  body\n");
    assert_eq!(spec.requested_tokens, None);
}

#[test]
fn resolve_rejects_unicode_blank_file() {
    assert_eq!(
        resolve_bench_prompt(Some(file("w.txt", Ok("\u{3000}\t\u{2028}\r\n"))), None).unwrap_err(),
        "prompt file w.txt is empty"
    );
    assert_eq!(
        resolve_bench_prompt(Some(file("e.txt", Ok(""))), Some(5)).unwrap_err(),
        "prompt file e.txt is empty"
    );
}

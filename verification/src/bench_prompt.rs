//! Controlled prompt sizing for benchmark runs (no tokenizer; server counts win).

use vstd::prelude::*;
use vstd::string::StringExecFns;
use vstd::utf8::encode_utf8;

use crate::decimal::{
    decimal, decimal_value, lemma_decimal_value, lemma_decimal_value_zero_padded, push_decimal,
    push_zero_padded_decimal, zero_padded,
};
use crate::utf8_len::{
    lemma_utf8_len_bounds, lemma_utf8_len_concat, lemma_utf8_len_newline, utf8_len,
};
use crate::whitespace::{
    is_blank, is_white_space, lemma_trim_empty_iff_blank, trim, trim_end, trim_start, trim_str,
};

verus! {

/// Maximum `--prompt-tokens` (about 512 KiB of prompt text at 4 chars/token).
pub const MAX_PROMPT_TOKENS: u32 = 131_072;

/// Minimum `--prompt-tokens`.
pub const MIN_PROMPT_TOKENS: u32 = 1;

/// Maximum size for `--prompt-file` (8 MiB).
pub const MAX_PROMPT_FILE_BYTES: u64 = 8 * 1024 * 1024;

/// Conservative chars-per-token guess when sizing without a tokenizer.
const ESTIMATED_CHARS_PER_TOKEN: usize = 4;

/// Block of English text that sized prompts repeat.
pub const SIZING_BLOCK: &'static str = "A lighthouse keeper kept a daily log of the weather, the ships that passed, and the state of the lamp. Each morning he trimmed the wick, polished the lens, and wound the clockwork that turned the light. On clear nights the beam reached far across the water; in fog he sounded the horn at steady intervals and counted the seconds between echoes. Supply boats came every second week with oil, flour, and letters. He answered the letters by lamplight, describing storms, seabirds, and the slow change of the seasons along the rocky coast.\n";

/// Prompt body and optional token target for reporting (`requested` vs measured).
#[derive(Debug, Clone)]
pub struct BenchPromptSpec {
    pub text: String,
    pub requested_tokens: Option<u32>,
}

/// A `--prompt-file` as the caller found it: the path as shown in messages,
/// and the outcome of reading it (its text, or the read error's message).
#[derive(Debug)]
pub struct PromptFile {
    pub display: String,
    pub read: Result<String, String>,
}

/// The error for a `--prompt-tokens` value, or `None` when it lies in
/// `MIN_PROMPT_TOKENS..=MAX_PROMPT_TOKENS`.
pub open spec fn prompt_tokens_error(target: u32) -> Option<Seq<char>> {
    if target < MIN_PROMPT_TOKENS {
        Some(
            "--prompt-tokens must be at least "@ + decimal(MIN_PROMPT_TOKENS as nat) + ", got "@
                + decimal(target as nat),
        )
    } else if target > MAX_PROMPT_TOKENS {
        Some(
            "--prompt-tokens must be at most "@ + decimal(MAX_PROMPT_TOKENS as nat) + ", got "@
                + decimal(target as nat),
        )
    } else {
        None
    }
}

/// The sizing block as prompts use it: `SIZING_BLOCK` trimmed.
pub open spec fn sizing_block() -> Seq<char> {
    trim(SIZING_BLOCK@)
}

/// `k` copies of `block`, one newline between neighbours.
pub open spec fn joined_copies(block: Seq<char>, k: nat) -> Seq<char>
    decreases k,
{
    if k == 0 {
        Seq::empty()
    } else if k == 1 {
        block
    } else {
        joined_copies(block, (k - 1) as nat) + seq!['\n'] + block
    }
}

/// How many newline-joined copies of a block of `block_bytes` bytes it takes to
/// reach `target_bytes` bytes: the least `k` with `k * block_bytes + (k - 1) >= target_bytes`
/// (zero for a zero target).
pub open spec fn copies_needed(target_bytes: nat, block_bytes: nat) -> nat {
    if target_bytes == 0 {
        0
    } else {
        (target_bytes + block_bytes + 1) / (block_bytes + 1)
    }
}

/// The sized prompt for `target_tokens`: enough newline-joined copies of the
/// sizing block to reach four bytes per token (empty for zero tokens).
pub open spec fn sized_prompt_text(target_tokens: u32) -> Seq<char> {
    let block = sizing_block();
    if block.len() == 0 {
        Seq::empty()
    } else {
        joined_copies(block, copies_needed(target_tokens as nat * 4, utf8_len(block)))
    }
}

/// The prompt for `target_tokens`, together with one more block, fits in memory.
pub open spec fn sized_prompt_fits(target_tokens: u32) -> bool {
    target_tokens * 4 + utf8_len(sizing_block()) <= isize::MAX
}

/// The prompt for run `run_index` (counted from zero): a `Run-ID` line with the
/// one-based run number, zero-padded to four digits, then `base`.
pub open spec fn run_nonce_prompt(base: Seq<char>, run_index: nat) -> Seq<char> {
    "Run-ID: "@ + zero_padded(decimal(run_index + 1), 4) + "\n"@ + base
}

/// The error for a prompt file with the given metadata, or `None` when it is a
/// regular file of at most `MAX_PROMPT_FILE_BYTES` bytes.
pub open spec fn prompt_file_metadata_error(display: Seq<char>, is_file: bool, len: u64) -> Option<
    Seq<char>,
> {
    if !is_file {
        Some("prompt file "@ + display + " is not a regular file"@)
    } else if len > MAX_PROMPT_FILE_BYTES {
        Some(
            "prompt file "@ + display + " is "@ + decimal(len as nat) + " bytes (limit "@ + decimal(
                MAX_PROMPT_FILE_BYTES as nat,
            ) + " bytes)"@,
        )
    } else {
        None
    }
}

/// What resolving `--prompt-file` / `--prompt-tokens` gives: no spec, a spec
/// as (text, requested tokens), or an error message.
pub open spec fn resolved_prompt(file: Option<PromptFile>, tokens: Option<u32>) -> Result<
    Option<(Seq<char>, Option<u32>)>,
    Seq<char>,
> {
    match file {
        None => match tokens {
            None => Ok(None),
            Some(t) => match prompt_tokens_error(t) {
                Some(e) => Err(e),
                None => Ok(Some((sized_prompt_text(t), Some(t)))),
            },
        },
        Some(f) => {
            if tokens is Some && prompt_tokens_error(tokens->0) is Some {
                Err(prompt_tokens_error(tokens->0)->0)
            } else {
                match f.read {
                    Err(e) => Err(e@),
                    Ok(text) => if is_blank(text@) {
                        Err("prompt file "@ + f.display@ + " is empty"@)
                    } else {
                        Ok(Some((text@, tokens)))
                    },
                }
            }
        },
    }
}

/// `String::with_capacity`: claimed to return an empty string (the capacity
/// only reserves memory); `requires` leaves out capacities over `isize::MAX`
/// bytes, on which it panics.
#[verifier::external_body]
pub(crate) fn string_with_capacity(capacity: usize) -> (s: String)
    requires
        capacity <= isize::MAX,
    ensures
        s@ == Seq::<char>::empty(),
{
    String::with_capacity(capacity)
}

/// Checks a `--prompt-tokens` value against the accepted range.
pub fn validate_prompt_tokens(target: u32) -> (res: Result<(), String>)
    ensures
        match res {
            Ok(()) => prompt_tokens_error(target) is None,
            Err(e) => prompt_tokens_error(target) == Some(e@),
        },
{
    if target < MIN_PROMPT_TOKENS {
        let mut msg = String::from_str("--prompt-tokens must be at least ");
        push_decimal(&mut msg, MIN_PROMPT_TOKENS as u64);
        msg.append(", got ");
        push_decimal(&mut msg, target as u64);
        return Err(msg);
    }
    if target > MAX_PROMPT_TOKENS {
        let mut msg = String::from_str("--prompt-tokens must be at most ");
        push_decimal(&mut msg, MAX_PROMPT_TOKENS as u64);
        msg.append(", got ");
        push_decimal(&mut msg, target as u64);
        return Err(msg);
    }
    Ok(())
}

/// Prefix that makes each sized run unique so servers do not reuse prefix KV cache.
pub fn prompt_with_run_nonce(base: &str, run_index: usize) -> (res: String)
    requires
        run_index < usize::MAX,
    ensures
        res@ == run_nonce_prompt(base@, run_index as nat),
{
    let mut out = String::from_str("Run-ID: ");
    push_zero_padded_decimal(&mut out, (run_index + 1) as u64, 4);
    out.append("\n");
    out.append(base);
    out
}

proof fn lemma_ceil_div(k: int, t: int, d: int)
    requires
        d > 0,
        k > 0,
        t >= 0,
        k * d >= t,
        (k - 1) * d < t,
    ensures
        k == (t + d - 1) / d,
{
    let r = t + d - 1 - k * d;
    assert((k - 1) * d == k * d - d) by (nonlinear_arith);
    assert(0 <= r < d);
    vstd::arithmetic::div_mod::lemma_fundamental_div_mod_converse(t + d - 1, d, k, r);
}

/// Build prompt text approximating `target_tokens` by repeating the sizing block.
pub fn prompt_text_for_target_tokens(target_tokens: u32) -> (res: String)
    requires
        sized_prompt_fits(target_tokens),
    ensures
        res@ == sized_prompt_text(target_tokens),
{
    let target_chars: usize = target_tokens as usize * ESTIMATED_CHARS_PER_TOKEN;
    if target_chars == 0 {
        return String::new();
    }
    let block = trim_str(SIZING_BLOCK);
    if block.is_empty() {
        return String::new();
    }
    let mut out = string_with_capacity(target_chars + block.len());
    let ghost b: nat = utf8_len(block@);
    let ghost mut k: nat = 0;
    proof {
        reveal_strlit("\n");
        lemma_utf8_len_newline();
        lemma_utf8_len_bounds(block@);
    }
    while out.as_str().len() < target_chars
        invariant
            block@ == sizing_block(),
            block@.len() > 0,
            b == utf8_len(block@),
            b >= 1,
            target_chars == target_tokens * 4,
            target_chars + b <= isize::MAX,
            "\n"@ == seq!['\n'],
            utf8_len(seq!['\n']) == 1,
            out@ == joined_copies(block@, k),
            k == 0 ==> out@.len() == 0 && utf8_len(out@) == 0,
            k > 0 ==> utf8_len(out@) + 1 == k * (b + 1),
            k > 0 ==> (k - 1) * (b + 1) < target_chars + 1,
            utf8_len(out@) <= target_chars + b,
        decreases target_chars + b + 1 - utf8_len(out@),
    {
        let ghost before = out@;
        if !out.as_str().is_empty() {
            out.append("\n");
            proof {
                lemma_utf8_len_concat(before, seq!['\n']);
            }
        }
        let ghost mid = out@;
        out.append(block);
        proof {
            lemma_utf8_len_concat(mid, block@);
            if k > 0 {
                let ghost u = utf8_len(out@);
                let ghost v = utf8_len(before);
                assert(before.len() > 0) by {
                    assert(k * (b + 1) >= b + 1) by (nonlinear_arith)
                        requires
                            k >= 1,
                            b >= 1,
                    ;
                    lemma_utf8_len_bounds(before);
                }
                assert(mid == before + seq!['\n']);
                assert(u + 1 == (k + 1) * (b + 1)) by (nonlinear_arith)
                    requires
                        v + 1 == k * (b + 1),
                        u == v + 1 + b,
                ;
                assert(joined_copies(block@, k + 1) == joined_copies(block@, k) + seq!['\n']
                    + block@);
            } else {
                assert(before =~= Seq::<char>::empty());
                assert(out@ =~= block@);
                assert((k + 1) * (b + 1) == b + 1) by (nonlinear_arith)
                    requires
                        k == 0,
                ;
            }
            k = k + 1;
        }
    }
    proof {
        if k == 0 {
            assert(false);
        }
        lemma_ceil_div(k as int, target_chars + 1, b + 1 as int);
    }
    out
}

/// Checks a `--prompt-file`'s metadata before it is read: it must be a regular
/// file of at most `MAX_PROMPT_FILE_BYTES` bytes.
pub fn check_prompt_file_metadata(display: &str, is_file: bool, len: u64) -> (res: Result<
    (),
    String,
>)
    ensures
        match res {
            Ok(()) => prompt_file_metadata_error(display@, is_file, len) is None,
            Err(e) => prompt_file_metadata_error(display@, is_file, len) == Some(e@),
        },
{
    if !is_file {
        let mut msg = String::from_str("prompt file ");
        msg.append(display);
        msg.append(" is not a regular file");
        return Err(msg);
    }
    if len > MAX_PROMPT_FILE_BYTES {
        let mut msg = String::from_str("prompt file ");
        msg.append(display);
        msg.append(" is ");
        push_decimal(&mut msg, len);
        msg.append(" bytes (limit ");
        push_decimal(&mut msg, MAX_PROMPT_FILE_BYTES);
        msg.append(" bytes)");
        return Err(msg);
    }
    Ok(())
}

/// Resolve CLI `--prompt-file` / `--prompt-tokens` into a single spec.
pub fn resolve_bench_prompt(prompt_file: Option<PromptFile>, prompt_tokens: Option<u32>) -> (res:
    Result<Option<BenchPromptSpec>, String>)
    ensures
        match res {
            Ok(None) => resolved_prompt(prompt_file, prompt_tokens) == Ok::<
                Option<(Seq<char>, Option<u32>)>,
                Seq<char>,
            >(None),
            Ok(Some(spec)) => resolved_prompt(prompt_file, prompt_tokens) == Ok::<
                Option<(Seq<char>, Option<u32>)>,
                Seq<char>,
            >(Some((spec.text@, spec.requested_tokens))),
            Err(e) => resolved_prompt(prompt_file, prompt_tokens) == Err::<
                Option<(Seq<char>, Option<u32>)>,
                Seq<char>,
            >(e@),
        },
{
    match prompt_file {
        None => match prompt_tokens {
            None => Ok(None),
            Some(target) => {
                match validate_prompt_tokens(target) {
                    Ok(()) => {},
                    Err(e) => return Err(e),
                }
                proof {
                    lemma_sizing_block_bytes();
                }
                Ok(
                    Some(
                        BenchPromptSpec {
                            text: prompt_text_for_target_tokens(target),
                            requested_tokens: Some(target),
                        },
                    ),
                )
            },
        },
        Some(file) => {
            if let Some(target) = prompt_tokens {
                match validate_prompt_tokens(target) {
                    Ok(()) => {},
                    Err(e) => return Err(e),
                }
            }
            let text = match file.read {
                Ok(text) => text,
                Err(e) => return Err(e),
            };
            if trim_str(text.as_str()).is_empty() {
                proof {
                    lemma_trim_empty_iff_blank(text@);
                }
                let mut msg = String::from_str("prompt file ");
                msg.append(file.display.as_str());
                msg.append(" is empty");
                return Err(msg);
            }
            proof {
                lemma_trim_empty_iff_blank(text@);
            }
            Ok(Some(BenchPromptSpec { text, requested_tokens: prompt_tokens }))
        },
    }
}

/// The sizing block is `SIZING_BLOCK` without its final newline.
pub proof fn lemma_sizing_block_contents()
    ensures
        sizing_block() == SIZING_BLOCK@.drop_last(),
        sizing_block().len() == 535,
{
    reveal_strlit("A lighthouse keeper kept a daily log of the weather, the ships that passed, and the state of the lamp. Each morning he trimmed the wick, polished the lens, and wound the clockwork that turned the light. On clear nights the beam reached far across the water; in fog he sounded the horn at steady intervals and counted the seconds between echoes. Supply boats came every second week with oil, flour, and letters. He answered the letters by lamplight, describing storms, seabirds, and the slow change of the seasons along the rocky coast.\n");
    let s = SIZING_BLOCK@;
    assert(s.len() == 536);
    assert(s[0] == 'A');
    assert(!is_white_space(s[0]));
    assert(trim_start(s) == s);
    assert(s.last() == '\n');
    assert(s.drop_last().last() == '.');
    assert(trim_end(s.drop_last()) == s.drop_last());
    assert(trim_end(s) == s.drop_last());
}

/// The sizing block takes at most 2140 bytes.
pub proof fn lemma_sizing_block_bytes()
    ensures
        utf8_len(sizing_block()) <= 2140,
{
    lemma_sizing_block_contents();
    lemma_utf8_len_bounds(sizing_block());
}

proof fn lemma_joined_copies_len(block: Seq<char>, k: nat)
    requires
        k >= 1,
    ensures
        utf8_len(joined_copies(block, k)) + 1 == k * (utf8_len(block) + 1),
    decreases k,
{
    if k > 1 {
        lemma_joined_copies_len(block, (k - 1) as nat);
        let prev = joined_copies(block, (k - 1) as nat);
        lemma_utf8_len_concat(prev, seq!['\n']);
        lemma_utf8_len_concat(prev + seq!['\n'], block);
        lemma_utf8_len_newline();
        let b = utf8_len(block);
        let p = utf8_len(prev);
        assert(p + 1 + b + 1 == k * (b + 1)) by (nonlinear_arith)
            requires
                p + 1 == (k - 1) * (b + 1),
                k >= 1,
        ;
        assert(joined_copies(block, k) == prev + seq!['\n'] + block);
    } else {
        assert(k * (utf8_len(block) + 1) == utf8_len(block) + 1) by (nonlinear_arith)
            requires
                k == 1,
        ;
    }
}

proof fn lemma_joined_copies_prefix(block: Seq<char>, k1: nat, k2: nat)
    requires
        k1 <= k2,
    ensures
        joined_copies(block, k1).len() <= joined_copies(block, k2).len(),
        joined_copies(block, k1) == joined_copies(block, k2).subrange(
            0,
            joined_copies(block, k1).len() as int,
        ),
    decreases k2 - k1,
{
    let j1 = joined_copies(block, k1);
    if k1 == k2 {
        assert(j1.subrange(0, j1.len() as int) =~= j1);
    } else {
        lemma_joined_copies_prefix(block, k1, (k2 - 1) as nat);
        let j = joined_copies(block, (k2 - 1) as nat);
        let j2 = joined_copies(block, k2);
        if k2 == 1 {
            assert(j1 =~= Seq::<char>::empty());
            assert(j2.subrange(0, 0) =~= Seq::<char>::empty());
        } else {
            assert(j2 == j + seq!['\n'] + block);
            assert(j2.subrange(0, j1.len() as int) =~= j.subrange(0, j1.len() as int));
        }
    }
}

/// A sized prompt reaches its target of four bytes per token and overshoots it
/// by less than one more copy of the sizing block.
pub proof fn lemma_sized_prompt_length(target_tokens: u32)
    ensures
        target_tokens * 4 <= utf8_len(sized_prompt_text(target_tokens)),
        utf8_len(sized_prompt_text(target_tokens)) <= target_tokens * 4 + utf8_len(
            sizing_block(),
        ),
{
    lemma_sizing_block_contents();
    let block = sizing_block();
    let b = utf8_len(block);
    let t = target_tokens * 4;
    lemma_utf8_len_bounds(block);
    if t == 0 {
        assert(sized_prompt_text(target_tokens) == Seq::<char>::empty());
        assert(encode_utf8(Seq::<char>::empty()) =~= Seq::<u8>::empty());
    } else {
        let x: int = t + b + 1;
        let d: int = b + 1int;
        let k = copies_needed(t as nat, b);
        assert(k == x / d);
        vstd::arithmetic::div_mod::lemma_fundamental_div_mod(x, d);
        let r = x % d;
        assert(x == d * k + r);
        assert(k >= 1) by {
            if k == 0 {
                assert(d * k == 0) by (nonlinear_arith)
                    requires
                        k == 0,
                ;
            }
        }
        lemma_joined_copies_len(block, k);
        assert(k * (b + 1) == d * k) by (nonlinear_arith)
            requires
                d == b + 1,
        ;
    }
}

/// A larger token target extends the smaller target's prompt: the smaller
/// prompt is a prefix of the larger one.
pub proof fn lemma_sized_prompt_grows(t1: u32, t2: u32)
    requires
        t1 <= t2,
    ensures
        sized_prompt_text(t1).len() <= sized_prompt_text(t2).len(),
        sized_prompt_text(t1) == sized_prompt_text(t2).subrange(
            0,
            sized_prompt_text(t1).len() as int,
        ),
{
    lemma_sizing_block_contents();
    let b = utf8_len(sizing_block());
    let x1 = t1 * 4;
    let x2 = t2 * 4;
    let k1 = copies_needed(x1 as nat, b);
    let k2 = copies_needed(x2 as nat, b);
    assert(k1 <= k2) by {
        if x1 > 0 {
            vstd::arithmetic::div_mod::lemma_div_is_ordered(
                x1 + b + 1,
                x2 + b + 1,
                b + 1 as int,
            );
        }
    }
    lemma_joined_copies_prefix(sizing_block(), k1, k2);
}

/// A prompt for a positive token target starts with the whole sizing block.
pub proof fn lemma_sized_prompt_starts_with_block(target_tokens: u32)
    requires
        target_tokens > 0,
    ensures
        sized_prompt_text(target_tokens).len() >= sizing_block().len(),
        sized_prompt_text(target_tokens).subrange(0, sizing_block().len() as int)
            == sizing_block(),
{
    lemma_sizing_block_contents();
    let block = sizing_block();
    let b = utf8_len(block);
    let x = target_tokens * 4 + b + 1;
    let k = copies_needed((target_tokens * 4) as nat, b);
    assert(k >= 1) by {
        vstd::arithmetic::div_mod::lemma_div_is_ordered(b + 1 as int, x, b + 1 as int);
        vstd::arithmetic::div_mod::lemma_div_basics(b + 1 as int);
    }
    lemma_joined_copies_prefix(block, 1, k);
}

/// The run prompt ends with the base prompt, unchanged.
pub proof fn lemma_run_nonce_keeps_base(base: Seq<char>, run_index: nat)
    ensures
        run_nonce_prompt(base, run_index).len() >= base.len(),
        run_nonce_prompt(base, run_index).subrange(
            run_nonce_prompt(base, run_index).len() - base.len(),
            run_nonce_prompt(base, run_index).len() as int,
        ) == base,
{
    let p = run_nonce_prompt(base, run_index);
    let head = "Run-ID: "@ + zero_padded(decimal(run_index + 1), 4) + "\n"@;
    assert(p == head + base);
    assert(p.subrange(head.len() as int, p.len() as int) =~= base);
}

/// Different runs get different prompts, whatever the base prompt.
pub proof fn lemma_run_nonce_distinct(base: Seq<char>, i: nat, j: nat)
    requires
        i != j,
    ensures
        run_nonce_prompt(base, i) != run_nonce_prompt(base, j),
{
    let a = "Run-ID: "@;
    let nl = "\n"@;
    let pi = zero_padded(decimal(i + 1), 4);
    let pj = zero_padded(decimal(j + 1), 4);
    let x = run_nonce_prompt(base, i);
    let y = run_nonce_prompt(base, j);
    if x == y {
        assert(x == a + pi + nl + base);
        assert(y == a + pj + nl + base);
        assert(pi.len() == pj.len());
        assert(pi =~= x.subrange(a.len() as int, (a.len() + pi.len()) as int));
        assert(pj =~= y.subrange(a.len() as int, (a.len() + pj.len()) as int));
        lemma_decimal_value_zero_padded(decimal(i + 1), 4);
        lemma_decimal_value_zero_padded(decimal(j + 1), 4);
        lemma_decimal_value(i + 1);
        lemma_decimal_value(j + 1);
    }
}

/// A `--prompt-tokens` value is accepted exactly when it lies in `1..=131072`;
/// a rejected value is reported in the message's last digits.
pub proof fn lemma_prompt_tokens_accepted_range(target: u32)
    ensures
        prompt_tokens_error(target) is None <==> 1 <= target <= 131_072,
        prompt_tokens_error(target) matches Some(e) ==> e.len() >= decimal(target as nat).len()
            && e.subrange(e.len() - decimal(target as nat).len(), e.len() as int) == decimal(
            target as nat,
        ),
{
    if let Some(e) = prompt_tokens_error(target) {
        let d = decimal(target as nat);
        assert(e.subrange(e.len() - d.len(), e.len() as int) =~= d);
    }
}

/// A prompt file is accepted exactly when it is a regular file of at most
/// 8 MiB (8388608 bytes).
pub proof fn lemma_prompt_file_accepted_size(display: Seq<char>, is_file: bool, len: u64)
    ensures
        prompt_file_metadata_error(display, is_file, len) is None <==> (is_file && len
            <= 8_388_608),
{
}

/// With only a token target in `1..=131072`, resolution gives a spec that
/// requests that target and whose text reaches four bytes per token,
/// overshooting by less than one more sizing block.
pub proof fn lemma_resolved_tokens_only(target: u32)
    requires
        1 <= target <= 131_072,
    ensures
        resolved_prompt(None, Some(target)) matches Ok(Some((text, requested))) && requested
            == Some(target) && target * 4 <= utf8_len(text) && utf8_len(text) <= target * 4
            + utf8_len(sizing_block()),
{
    lemma_prompt_tokens_accepted_range(target);
    lemma_sized_prompt_length(target);
}

/// With a readable, non-blank prompt file (and any token target in range),
/// resolution gives a spec carrying the file's text unchanged and the target
/// as given.
pub proof fn lemma_resolved_file_text(display: String, body: String, tokens: Option<u32>)
    requires
        !is_blank(body@),
        tokens matches Some(t) ==> 1 <= t <= 131_072,
    ensures
        resolved_prompt(Some(PromptFile { display, read: Ok(body) }), tokens) == Ok::<
            Option<(Seq<char>, Option<u32>)>,
            Seq<char>,
        >(Some((body@, tokens))),
{
    if let Some(t) = tokens {
        lemma_prompt_tokens_accepted_range(t);
    }
}

/// No token target, or one in `1..=131072`.
pub open spec fn token_target_in_range(tokens: Option<u32>) -> bool {
    match tokens {
        None => true,
        Some(t) => 1 <= t <= 131_072,
    }
}

/// A blank prompt file, or one that could not be read, is refused with the
/// message of that failure; a token target out of `1..=131072` is refused
/// before the file is looked at.
pub proof fn lemma_resolved_refusals(display: String, read: Result<String, String>, tokens: Option<
    u32,
>)
    ensures
        !token_target_in_range(tokens) ==> resolved_prompt(
            Some(PromptFile { display, read }),
            tokens,
        ) is Err,
        token_target_in_range(tokens) ==> (read matches Err(e) ==> resolved_prompt(
            Some(PromptFile { display, read }),
            tokens,
        ) == Err::<Option<(Seq<char>, Option<u32>)>, Seq<char>>(e@)),
        token_target_in_range(tokens) ==> (read matches Ok(body) ==> (is_blank(body@)
            ==> resolved_prompt(Some(PromptFile { display, read }), tokens) is Err)),
{
    if let Some(t) = tokens {
        lemma_prompt_tokens_accepted_range(t);
    }
}

/// The run line carries the one-based run number: its digits read back as
/// `run_index + 1`, and up to run 9999 they are exactly four wide, so every
/// such prompt has the same length of 13 characters more than its base.
pub proof fn lemma_run_nonce_number(base: Seq<char>, run_index: nat)
    ensures
        exists|digits: Seq<char>|
            #![trigger decimal_value(digits)]
            run_nonce_prompt(base, run_index) == "Run-ID: "@ + digits + "\n"@ + base
                && decimal_value(digits) == run_index + 1,
        run_index < 9999 ==> run_nonce_prompt(base, run_index).len() == base.len() + 13,
{
    reveal_strlit("Run-ID: ");
    reveal_strlit("\n");
    let n = run_index + 1;
    let digits = zero_padded(decimal(n), 4);
    lemma_decimal_value_zero_padded(decimal(n), 4);
    lemma_decimal_value(n);
    assert(decimal_value(digits) == n);
    if run_index < 9999 {
        lemma_decimal_len_at_most_four(n);
        assert(digits.len() == 4);
    }
}

proof fn lemma_decimal_len_at_most_four(n: nat)
    requires
        1 <= n <= 9999,
    ensures
        decimal(n).len() <= 4,
{
    if n >= 10 {
        assert(decimal(n).len() == decimal(n / 10).len() + 1);
        if n / 10 >= 10 {
            assert(decimal(n / 10).len() == decimal(n / 100).len() + 1);
            if n / 100 >= 10 {
                assert(decimal(n / 100).len() == decimal(n / 1000).len() + 1);
                assert(n / 1000 < 10);
                assert(decimal(n / 1000).len() == 1);
            }
        }
    }
}

} // verus!

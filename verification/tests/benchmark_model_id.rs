use llmfit_core::benchmark_model_id::normalize_benchmark_model_id;

#[test]
fn strips_absolute_gguf_paths() {
    let n = normalize_benchmark_model_id("/home/user/gguf/SmolLM2-135M-Instruct-Q4_K_M.gguf");
    assert_eq!(n.id, "SmolLM2-135M-Instruct-Q4_K_M.gguf");
    assert!(!n.opaque);
    let n = normalize_benchmark_model_id(r"C:\models\phi-4-Q4_K_M.GGUF");
    assert_eq!(n.id, "phi-4-Q4_K_M.GGUF");
    assert!(!n.opaque);
}

#[test]
fn preserves_bare_gguf_filename() {
    let n = normalize_benchmark_model_id("model.gguf");
    assert_eq!(n.id, "model.gguf");
    assert!(!n.opaque);
}

#[test]
fn strips_ollama_blob_paths() {
    let path = "/usr/share/ollama/.ollama/models/blobs/sha256-dde5aa3fc5ffc17176b5e8bdc82f587b24b2678c6c66101bf7da77af9f7ccdff";
    let n = normalize_benchmark_model_id(path);
    assert_eq!(
        n.id,
        "sha256-dde5aa3fc5ffc17176b5e8bdc82f587b24b2678c6c66101bf7da77af9f7ccdff"
    );
    assert!(!n.opaque);
}

#[test]
fn preserves_logical_hub_ids() {
    assert_eq!(
        normalize_benchmark_model_id("meta-llama/Llama-3.1-8B-Instruct").id,
        "meta-llama/Llama-3.1-8B-Instruct"
    );
    assert_eq!(
        normalize_benchmark_model_id("unsloth/Qwen3-4B-GGUF").id,
        "unsloth/Qwen3-4B-GGUF"
    );
    assert_eq!(
        normalize_benchmark_model_id("llama3.1:8b").id,
        "llama3.1:8b"
    );
}

#[test]
fn preserves_relative_gguf_paths() {
    let n = normalize_benchmark_model_id("models/foo.gguf");
    assert_eq!(n.id, "models/foo.gguf");
    assert!(!n.opaque);
}

#[test]
fn preserves_hub_style_gguf_reference() {
    let id = "hf.co/bartowski/SmolLM2-135M-Instruct-GGUF/SmolLM2-135M-Instruct-Q4_K_M.gguf";
    let n = normalize_benchmark_model_id(id);
    assert_eq!(n.id, id);
    assert!(!n.opaque);
}

#[test]
fn opaque_absolute_non_gguf_paths() {
    let n = normalize_benchmark_model_id("/models/config.json");
    assert_eq!(n.id, "config.json");
    assert!(n.opaque);
}

const BLOB: &str = "sha256-dde5aa3fc5ffc17176b5e8bdc82f587b24b2678c6c66101bf7da77af9f7ccdff";

#[test]
fn strips_relative_blob_paths() {
    let n = normalize_benchmark_model_id(&format!("blobs/{BLOB}"));
    assert_eq!(n.id, BLOB);
    assert!(!n.opaque);
    let n = normalize_benchmark_model_id(&format!(r"D:\ollama\blobs\{BLOB}"));
    assert_eq!(n.id, BLOB);
    assert!(!n.opaque);
}

#[test]
fn bare_blob_name_is_kept() {
    let n = normalize_benchmark_model_id(BLOB);
    assert_eq!(n.id, BLOB);
    assert!(!n.opaque);
}

#[test]
fn malformed_blob_names_are_not_blobs() {
    // 63 hex digits: an ordinary absolute path, so opaque.
    let short = &BLOB[..BLOB.len() - 1];
    let n = normalize_benchmark_model_id(&format!("/blobs/{short}"));
    assert_eq!(n.id, short);
    assert!(n.opaque);
    // A non-hex digit.
    let bad = format!("{}g", &BLOB[..BLOB.len() - 1]);
    let n = normalize_benchmark_model_id(&format!("/blobs/{bad}"));
    assert_eq!(n.id, bad);
    assert!(n.opaque);
    // Upper-case prefix is not the blob prefix; relative so kept.
    let upper = format!("models/SHA256-{}", &BLOB[7..]);
    let n = normalize_benchmark_model_id(&upper);
    assert_eq!(n.id, upper);
    assert!(!n.opaque);
}

#[test]
fn windows_drive_and_unc_paths_are_absolute() {
    let n = normalize_benchmark_model_id("C:/models/weights.bin");
    assert_eq!(n.id, "weights.bin");
    assert!(n.opaque);
    let n = normalize_benchmark_model_id(r"\\server\share\m.gguf");
    assert_eq!(n.id, "m.gguf");
    assert!(!n.opaque);
    // A drive prefix needs a separator after the colon.
    let n = normalize_benchmark_model_id("C:model.gguf");
    assert_eq!(n.id, "C:model.gguf");
    assert!(!n.opaque);
    // The drive "letter" is one byte: a multi-byte first character never matches.
    let n = normalize_benchmark_model_id("é:/m.gguf");
    assert_eq!(n.id, "é:/m.gguf");
    assert!(!n.opaque);
}

#[test]
fn gguf_extension_is_case_insensitive_ascii() {
    let n = normalize_benchmark_model_id("/m/x.GgUf");
    assert_eq!(n.id, "x.GgUf");
    assert!(!n.opaque);
    let n = normalize_benchmark_model_id("/m/x.ggufx");
    assert_eq!(n.id, "x.ggufx");
    assert!(n.opaque);
}

#[test]
fn root_path_has_empty_opaque_basename() {
    let n = normalize_benchmark_model_id("/");
    assert_eq!(n.id, "");
    assert!(n.opaque);
    let n = normalize_benchmark_model_id("/models/");
    assert_eq!(n.id, "");
    assert!(n.opaque);
}

#[test]
fn empty_id_is_kept() {
    let n = normalize_benchmark_model_id("");
    assert_eq!(n.id, "");
    assert!(!n.opaque);
}

#[test]
fn normalizing_twice_changes_nothing() {
    for id in [
        "/home/user/gguf/SmolLM2-135M-Instruct-Q4_K_M.gguf",
        r"C:\models\phi-4-Q4_K_M.GGUF",
        "/models/config.json",
        "meta-llama/Llama-3.1-8B-Instruct",
        "llama3.1:8b",
        "/",
        "a:/b",
    ] {
        let once = normalize_benchmark_model_id(id);
        let twice = normalize_benchmark_model_id(&once.id);
        assert_eq!(twice.id, once.id);
        assert!(!twice.opaque);
        assert!(id.ends_with(once.id.as_str()));
    }
}

#[test]
fn non_ascii_ids_survive() {
    let n = normalize_benchmark_model_id("模型/名前");
    assert_eq!(n.id, "模型/名前");
    assert!(!n.opaque);
    let n = normalize_benchmark_model_id("/模型/名前.gguf");
    assert_eq!(n.id, "名前.gguf");
    assert!(!n.opaque);
}

use pdf_translator::config::Config;
use pdf_translator::pdf_text::{
    decode_hex_string, decode_pdf_string, extract_page_text, extract_text_from_content, extract_text_operator,
    is_text_valid,
};
use pdf_translator::state::AppState;

#[test]
fn literal_string_escapes() {
    assert_eq!(decode_pdf_string(r"a\nb\tc\\d\(e\)f\qg"), "a\nb\tc\\d(e)fqg");
    assert_eq!(decode_pdf_string(r"end\"), "end");
    assert_eq!(decode_pdf_string(""), "");
    assert_eq!(decode_pdf_string(r"\r"), "\r");
}

#[test]
fn hex_strings() {
    assert_eq!(decode_hex_string("4E2D 6587"), Some("中文".to_string()));
    assert_eq!(decode_hex_string("00480069"), Some("Hi".to_string()));
    // groups of four that are all surrogates fall back to UTF-8 bytes, which are invalid here
    assert_eq!(decode_hex_string("D800"), None);
    assert_eq!(decode_hex_string("48656c6c6f"), Some("Hello".to_string()));
    assert_eq!(decode_hex_string("e4b8ad"), Some("中".to_string()));
    assert_eq!(decode_hex_string("zz41"), Some("A".to_string()));
    assert_eq!(decode_hex_string("ff"), None);
    assert_eq!(decode_hex_string(""), Some(String::new()));
    assert_eq!(decode_hex_string("+041"), Some("A".to_string()));
}

#[test]
fn text_plausibility() {
    assert!(!is_text_valid("short text"));
    let good = "The quick brown fox jumps over the lazy dog, again and again and again.";
    assert!(is_text_valid(good));
    let no_structure = "abcdefghijklmnopqrstuvwxyzabcdefghijklmnopqrstuvwxyzabcdefgh";
    assert!(!is_text_valid(no_structure));
    let noisy: String = good.chars().take(60).collect::<String>() + "\u{1}\u{2}\u{3}\u{4}";
    assert!(!is_text_valid(&noisy));
    let cjk = "这是一个用于测试的中文句子，它应该被认为是有效的文本内容。";
    assert!(is_text_valid(cjk));
    let mostly_symbols = "The ¤¤¤¤¤¤¤¤¤¤¤¤¤¤¤¤¤¤¤¤¤¤¤¤¤¤¤¤¤¤¤¤¤¤¤¤¤¤¤¤¤¤¤¤¤¤¤¤¤¤ end";
    assert!(!is_text_valid(mostly_symbols));
}

fn config() -> Config {
    Config {
        base_url: String::new(),
        api_key: String::new(),
        ocr_model: String::new(),
        translate_model: String::new(),
        ocr_model_fallback: None,
        translate_model_fallback: None,
    }
}

#[test]
fn sweep_reclaims_old_terminal_tasks() {
    let mut state = AppState::with_task_limit(config(), 3);
    state.create_task("old-done", "a", 0);
    state.set_error("old-done", "x".to_string(), 10);
    state.create_task("old-running", "b", 0);
    state.create_task("new-done", "c", 3_000_000);
    state.set_error("new-done", "y".to_string(), 3_000_001);
    let removed = state.cleanup_old_tasks(3_600_000);
    assert_eq!(removed, vec!["old-done".to_string()]);
    assert!(state.get_progress("old-done").is_none());
    assert!(state.get_progress("old-running").is_some());
    assert!(state.get_progress("new-done").is_some());
    let ids: Vec<String> = state.get_all_tasks().into_iter().map(|t| t.task_id).collect();
    assert_eq!(ids, vec!["old-running".to_string(), "new-done".to_string()]);
}

#[test]
fn text_operators() {
    assert_eq!(extract_text_operator("  (Hello\\) world) Tj "), Some("Hello) world".to_string()));
    assert_eq!(extract_text_operator("<4E2D6587> Tj"), Some("中文".to_string()));
    assert_eq!(extract_text_operator("<D800>Tj"), None);
    assert_eq!(extract_text_operator("[(Hel) -20 (lo) <0021>] TJ"), Some("Hello!".to_string()));
    assert_eq!(extract_text_operator("[(a\\)b)]TJ"), Some("a)b".to_string()));
    assert_eq!(extract_text_operator("[ 12 ] TJ"), None);
    assert_eq!(extract_text_operator("0 0 Td"), None);
    assert_eq!(extract_text_operator(") ( Tj"), None);
}

#[test]
fn content_stream_text() {
    let doc = lopdf::Document::new();
    let content = b"q\nBT\n/F1 12 Tf\n(First) Tj\n( line) Tj\nET\n(outside) Tj\nBT\nET\nBT\r\n<0041> Tj\r\nET\n";
    assert_eq!(extract_text_from_content(content, &doc), "First line\nA");
    assert_eq!(extract_text_from_content(b"", &doc), "");
    assert_eq!(extract_page_text(&doc, 1), "");
}

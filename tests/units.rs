use pdf_translator::checkpoint::{
    get_completed_page_count, is_translated_checkpoint, load_all_translated_pages, load_page_detail, page_file_name,
    pages_dir, pending_pages, task_dir, temp_file_name, Stage,
};
use pdf_translator::config::Config;
use pdf_translator::lifecycle::{
    admit_retry, admit_upload, finish_assembly, publish, render_outcome, resume_message, validate_upload, RetryError,
    UploadError, MAX_FILE_SIZE,
};
use pdf_translator::pdf::{generate_pdf, write_document, SimplePdf, MAX_LINE_CHARS};
use pdf_translator::render::{check_page_count, document_pages, find_page_image, image_data_url, pages_from_images};
use pdf_translator::retry::{
    after_attempt, after_attempt_with, backoff_delay, backoff_delay_with, classify_http_status,
    classify_transport_error, ApiError, RetryStep, MAX_RETRIES,
};
use pdf_translator::state::{AppState, TaskStatus, MAX_LOGS};
use pdf_translator::text::{chars_of, decimal_string};
use pdf_translator::translate::{
    bearer_header, chat_completions_url, count_chinese_chars, first_choice, parse_failure, plan_translation, trim,
    TranslationPlan, TRANSLATE_PROMPT,
};

fn config() -> Config {
    Config {
        base_url: "http://x".to_string(),
        api_key: "k".to_string(),
        ocr_model: "o".to_string(),
        translate_model: "t".to_string(),
        ocr_model_fallback: None,
        translate_model_fallback: None,
    }
}

#[test]
fn decimal_rendering() {
    assert_eq!(decimal_string(0), "0");
    assert_eq!(decimal_string(907), "907");
    assert_eq!(decimal_string(u64::MAX), u64::MAX.to_string());
    assert_eq!(chars_of("a中"), vec!['a', '中']);
}

#[test]
fn admission_ceiling_rejects_and_readmits() {
    let mut state = AppState::with_task_limit(config(), 2);
    assert!(admit_upload(&mut state, "a", "a.pdf", b"%PDF", 0).is_ok());
    assert!(admit_upload(&mut state, "b", "b.pdf", b"%PDF", 0).is_ok());
    assert_eq!(admit_upload(&mut state, "c", "c.pdf", b"%PDF", 0), Err(UploadError::Busy));
    assert!(state.get_progress("c").is_none());
    assert!(state.cancel_task("a", 5));
    state.release_task_slot();
    assert!(admit_upload(&mut state, "c", "c.pdf", b"%PDF", 0).is_ok());
    assert_eq!(state.active_task_count(), 2);
    assert_eq!(UploadError::Busy.message(2), "服务繁忙，当前已有 2 个任务在处理，请稍后重试");
}

#[test]
fn default_ceiling_is_one() {
    let mut state = AppState::new(config());
    assert!(state.try_acquire_task_slot());
    assert!(!state.try_acquire_task_slot());
    state.release_task_slot();
    state.release_task_slot();
    assert_eq!(state.active_task_count(), 0);
}

#[test]
fn upload_validation() {
    assert_eq!(validate_upload(b"%PDF-1.4"), Ok(()));
    assert_eq!(validate_upload(b"%PD"), Err(UploadError::NotPdf));
    assert_eq!(validate_upload(b"GIF89a"), Err(UploadError::NotPdf));
    let mut big = vec![0u8; MAX_FILE_SIZE + 1];
    big[..4].copy_from_slice(b"%PDF");
    assert_eq!(validate_upload(&big), Err(UploadError::TooLarge));
    let mut state = AppState::new(config());
    assert_eq!(admit_upload(&mut state, "x", "x", b"nope", 0), Err(UploadError::NotPdf));
    assert_eq!(state.active_task_count(), 0);
    assert_eq!(UploadError::TooLarge.message(1), "文件过大，最大支持 50MB");
    assert_eq!(UploadError::NotPdf.message(1), "无效的 PDF 文件");
}

#[test]
fn retry_legality() {
    let mut state = AppState::with_task_limit(config(), 5);
    assert_eq!(state.try_start_retry("missing", 0), Err("任务不存在".to_string()));
    state.create_task("t", "f.pdf", 0);
    assert_eq!(state.try_start_retry("t", 1), Err("只能重试失败的任务".to_string()));
    state.set_error("t", "bad".to_string(), 2);
    assert_eq!(state.try_start_retry("t", 3), Ok(()));
    assert_eq!(state.get_progress("t").unwrap().status, TaskStatus::Processing);
    assert_eq!(state.get_progress("t").unwrap().message, "重试中...");
    state.set_error("t", "bad again".to_string(), 4);
    let logs_before = state.get_progress("t").unwrap().logs.len();
    assert_eq!(state.try_start_retry("t", 5), Err("任务正在重试中".to_string()));
    assert_eq!(state.get_progress("t").unwrap().logs.len(), logs_before);
    assert_eq!(state.get_progress("t").unwrap().status, TaskStatus::Error);
    state.finish_retry("t");
    assert_eq!(state.try_start_retry("t", 6), Ok(()));
    state.cancel_task("t", 7);
    state.finish_retry("t");
    assert_eq!(state.try_start_retry("t", 8), Err("已取消的任务不能重试".to_string()));
}

#[test]
fn registry_transitions_and_snapshots() {
    let mut state = AppState::new(config());
    state.create_task("t", "paper.pdf", 1000);
    let p = state.get_progress("t").unwrap();
    assert_eq!(p.status, TaskStatus::Rendering);
    assert_eq!(p.message, "正在处理 PDF...");
    assert_eq!(p.logs[0].msg, "任务开始");
    state.set_rendering("t", 4, 1001);
    let p = state.get_progress("t").unwrap();
    assert_eq!(p.message, "共 4 页，开始并行处理...");
    assert_eq!(p.overall_percent, 5);
    assert_eq!(p.page_summaries.len(), 4);
    assert_eq!(p.page_summaries[3].page_num, 4);
    assert_eq!(p.page_summaries[0].status, "pending");
    state.start_page_ocr("t", 1, 1010);
    state.finish_page_ocr("t", 1, 12, "preview".to_string(), 1030);
    let p = state.get_progress("t").unwrap();
    assert_eq!(p.ocr_done, 1);
    assert_eq!(p.overall_percent, 16);
    assert_eq!(p.message, "OCR: 1/4, 翻译: 0/4");
    assert_eq!(p.page_summaries[0].ocr_duration_ms, Some(20));
    assert_eq!(p.page_summaries[0].ocr_chars, Some(12));
    state.start_page_translate("t", 1, 1040);
    state.finish_page_translate("t", 1, 7, "译".to_string(), 1100);
    let p = state.get_progress("t").unwrap();
    assert_eq!(p.overall_percent, 27);
    assert_eq!(p.page_summaries[0].status, "done");
    assert_eq!(p.page_summaries[0].translate_duration_ms, Some(60));
    state.set_page_error("t", 9, "ignored".to_string());
    state.set_generating("t", 1200);
    assert_eq!(state.get_progress("t").unwrap().overall_percent, 95);
    state.set_complete("t", vec![1, 2], 4200);
    let p = state.get_progress("t").unwrap();
    assert_eq!(p.message, "完成！用时 3 秒");
    assert_eq!(state.get_pdf_data("t"), Some(vec![1, 2]));
    state.set_error("t", "late".to_string(), 5000);
    assert_eq!(state.get_progress("t").unwrap().status, TaskStatus::Complete);
    assert_eq!(state.get_total_pages("t"), 4);
    assert_eq!(state.get_total_pages("nope"), 0);
    assert!(!state.is_cancelled("nope"));
    let all = state.get_all_tasks();
    assert_eq!(all.len(), 1);
    assert_eq!(all[0].task_id, "t");
    assert_eq!(all[0].filename, "paper.pdf");
    assert!(state.get_progress("t").unwrap().is_done());
}

#[test]
fn unknown_task_setters_are_noops() {
    let mut state = AppState::new(config());
    state.set_rendering("ghost", 3, 0);
    state.add_log("ghost", "x".to_string(), 0);
    state.finish_page_ocr("ghost", 1, 1, String::new(), 0);
    assert!(!state.cancel_task("ghost", 0));
    assert!(state.get_all_tasks().is_empty());
}

#[test]
fn log_trail_is_capped() {
    let mut state = AppState::new(config());
    state.create_task("t", "f", 0);
    for i in 0..(MAX_LOGS as u64 + 10) {
        state.add_log("t", format!("line {}", i), i);
    }
    let logs = state.get_progress("t").unwrap().logs;
    assert_eq!(logs.len(), MAX_LOGS);
    assert_eq!(logs.last().unwrap().msg, format!("line {}", MAX_LOGS + 9));
    assert_eq!(logs[0].msg, "line 10");
}

#[test]
fn create_task_keeps_existing_record() {
    let mut state = AppState::new(config());
    state.create_task("t", "one", 0);
    assert!(state.cancel_task("t", 1));
    state.create_task("t", "two", 2);
    let all = state.get_all_tasks();
    assert_eq!(all.len(), 1);
    assert_eq!(all[0].filename, "one");
    assert_eq!(all[0].status, TaskStatus::Error);
    assert!(state.is_cancelled("t"));
}

#[test]
fn page_count_checks() {
    assert_eq!(check_page_count(Ok(3)), Ok(3));
    assert_eq!(check_page_count(Ok(0)), Err("PDF has no pages".to_string()));
    assert_eq!(check_page_count(Err("bad xref".to_string())), Err("Failed to parse PDF: bad xref".to_string()));
}

#[test]
fn resumed_progress_creates_missing_page_records() {
    let mut state = AppState::with_task_limit(config(), 2);
    state.create_task("t", "f", 0);
    state.set_error("t", "render failed".to_string(), 1);
    assert!(state.try_start_retry("t", 2).is_ok());
    state.init_retry_progress("t", 1, 3);
    let p = state.get_progress("t").unwrap();
    assert_eq!(p.total_pages, 3);
    assert_eq!(p.page_summaries.len(), 3);
    assert_eq!(p.page_summaries[2].page_num, 3);
    assert_eq!(p.page_summaries[2].status, "pending");
    assert_eq!((p.ocr_done, p.translate_done, p.overall_percent), (1, 1, 35));
    state.finish_page_translate("t", 3, 4, "done".to_string(), 3);
    assert_eq!(state.get_progress("t").unwrap().page_summaries[2].status, "done");
}

#[test]
fn backoff_bounds() {
    for (attempt, base) in [(0u32, 1000u64), (1, 2000), (2, 4000), (7, 4000)] {
        let j = base / 10;
        assert_eq!(backoff_delay_with(attempt, 0), base - j);
        assert_eq!(backoff_delay_with(attempt, j), base);
        assert_eq!(backoff_delay_with(attempt, 2 * j), base + j);
        for _ in 0..20 {
            let d = backoff_delay(attempt);
            assert!(d >= base - j && d <= base + j && d >= 100);
        }
    }
}

#[test]
fn retry_decisions() {
    let ok: Result<u8, ApiError> = Ok(7);
    assert!(matches!(after_attempt_with(0, 3, ok, 0), RetryStep::Done(Ok(7))));
    let perm: Result<u8, ApiError> = Err(ApiError::NonRetryable("bad request".to_string()));
    match after_attempt_with(0, 3, perm, 0) {
        RetryStep::Done(Err(e)) => assert_eq!(e, "bad request"),
        _ => panic!("permanent errors stop"),
    }
    let tr: Result<u8, ApiError> = Err(ApiError::Retryable("timeout".to_string()));
    assert!(matches!(after_attempt_with(1, 3, tr.clone(), 200), RetryStep::Wait(2000)));
    match after_attempt_with(MAX_RETRIES, MAX_RETRIES, tr.clone(), 0) {
        RetryStep::Done(Err(e)) => assert_eq!(e, "timeout (已重试 3 次)"),
        _ => panic!("exhausted retries stop without waiting"),
    }
    match after_attempt(0, 3, tr) {
        RetryStep::Wait(d) => assert!((900..=1100).contains(&d)),
        _ => panic!("retryable errors wait"),
    }
}

#[test]
fn error_classification() {
    let e = classify_http_status(503, "503 Service Unavailable", "later");
    assert!(matches!(e, ApiError::Retryable(_)));
    assert_eq!(e.message(), "API 错误 503 Service Unavailable: later");
    assert!(matches!(classify_http_status(404, "404 Not Found", ""), ApiError::NonRetryable(_)));
    assert!(matches!(classify_http_status(600, "600", ""), ApiError::NonRetryable(_)));
    let t = classify_transport_error(true, false, "timed out");
    assert!(matches!(t, ApiError::Retryable(_)));
    assert_eq!(t.message(), "网络错误: timed out");
    let o = classify_transport_error(false, false, "bad url");
    assert!(matches!(o, ApiError::NonRetryable(_)));
    assert_eq!(o.message(), "请求失败: bad url");
}

#[test]
fn translation_planning() {
    assert!(matches!(plan_translation("  \n\t "), TranslationPlan::Keep(k) if k.is_empty()));
    match plan_translation(" 这是中文文本 ") {
        TranslationPlan::Keep(k) => assert_eq!(k, " 这是中文文本 "),
        _ => panic!("mostly Chinese text is kept"),
    }
    match plan_translation("  Hello world \n") {
        TranslationPlan::Request(p) => assert_eq!(p, format!("{}Hello world", TRANSLATE_PROMPT)),
        _ => panic!("other text is translated"),
    }
    // 7 of 10 characters is not more than seven in ten
    match plan_translation("中文中文中文中abc") {
        TranslationPlan::Request(_) => {}
        _ => panic!("exactly 70% is translated"),
    }
    assert_eq!(count_chinese_chars("a中b文\u{3400}\u{20000}"), 4);
    assert_eq!(trim("\u{3000} x y \u{a0}"), "x y");
    assert_eq!(trim("   "), "");
}

#[test]
fn request_pieces() {
    assert_eq!(chat_completions_url("https://api.example.com//"), "https://api.example.com/v1/chat/completions");
    assert_eq!(chat_completions_url("http://h"), "http://h/v1/chat/completions");
    assert_eq!(bearer_header("SECRET-REDACTED"), "Bearer SECRET-REDACTED");
    assert_eq!(first_choice(vec!["a".to_string(), "b".to_string()]).unwrap(), "a");
    assert_eq!(first_choice(vec![]).unwrap_err().message(), "空响应");
    let long = "x".repeat(600);
    let e = parse_failure("eof", &long);
    assert!(matches!(e, ApiError::NonRetryable(_)));
    assert_eq!(e.message(), format!("解析失败: eof - 响应: {}", "x".repeat(500)));
    assert_eq!(image_data_url("QUJD"), "data:image/jpeg;base64,QUJD");
}

#[test]
fn checkpoint_names_and_counts() {
    assert_eq!(task_dir("abc"), "data/tasks/abc");
    assert_eq!(pages_dir("abc"), "data/tasks/abc/pages");
    assert_eq!(page_file_name(12, Stage::Recognized), "12.ocr.txt");
    assert_eq!(page_file_name(3, Stage::Translated), "3.translated.txt");
    assert_eq!(temp_file_name("3.translated.txt"), "3.translated.txt.tmp");
    assert!(is_translated_checkpoint("3.translated.txt"));
    assert!(!is_translated_checkpoint("3.translated.txt.tmp"));
    let names: Vec<String> = ["1.ocr.txt", "1.translated.txt", "2.translated.txt", "2.translated.txt.tmp", "x"]
        .iter()
        .map(|s| s.to_string())
        .collect();
    assert_eq!(get_completed_page_count(&names), 2);
    assert_eq!(get_completed_page_count(&vec![]), 0);
    assert_eq!(pending_pages(&vec![true, false, true, false]), vec![2, 4]);
    assert!(pending_pages(&vec![true, true]).is_empty());
}

#[test]
fn page_detail_and_stored_texts() {
    assert!(load_page_detail(1, None, Some(String::new())).is_none());
    let d = load_page_detail(2, Some("ocr".to_string()), None).unwrap();
    assert_eq!(d.page_num, 2);
    assert_eq!(d.ocr_text, "ocr");
    assert_eq!(d.translated_text, "");
    let texts = load_all_translated_pages(vec![Some("a".to_string()), None, Some("c".to_string())]);
    assert_eq!(texts, vec!["a".to_string(), String::new(), "c".to_string()]);
}

#[test]
fn lifecycle_messages() {
    assert_eq!(render_outcome(Ok(3)), Ok(3));
    assert_eq!(render_outcome(Ok(0)), Err("PDF 没有页面".to_string()));
    assert_eq!(render_outcome(Err("x".to_string())), Err("PDF 处理失败: x".to_string()));
    assert_eq!(resume_message(2, 5), "继续处理，已完成 2/5 页");
}

#[test]
fn text_layout() {
    let pdf = SimplePdf::new();
    assert_eq!(pdf.wrap_text("", 10), vec![String::new()]);
    assert_eq!(pdf.wrap_text("abcdef", 4), vec!["abcd".to_string(), "ef".to_string()]);
    assert_eq!(pdf.wrap_text("ab中文", 4), vec!["ab中".to_string(), "文".to_string()]);
    assert_eq!(pdf.wrap_text("中", 1), vec!["中".to_string()]);
    assert_eq!(pdf.to_utf16be_hex("A中"), "FEFF00414E2D");
    assert_eq!(pdf.to_utf16be_hex("😀"), "FEFFD83DDE00");
    assert_eq!(pdf.to_utf16be_hex(""), "FEFF");
    let stream = pdf.create_page_stream(&["".to_string(), "A".to_string()]);
    assert_eq!(stream, "BT\n/F1 11 Tf\n16 TL\n1 0 0 1 50 792 Tm\nT*\n<FEFF0041> Tj T*\nET\n");
    let mut p = SimplePdf::new();
    p.add_content("");
    p.add_content("x");
    p.add_content("y");
    assert_eq!(p.content, "x\n\ny");
}

#[test]
fn pagination() {
    let mut p = SimplePdf::new();
    assert_eq!(p.prepare_pages().len(), 1);
    let lines: Vec<String> = (0..47).map(|i| format!("l{}", i)).collect();
    p.add_content(&lines.join("\n"));
    let pages = p.prepare_pages();
    assert_eq!(pages.len(), 2);
    assert_eq!(pages[1], "BT\n/F1 11 Tf\n16 TL\n1 0 0 1 50 792 Tm\n<FEFF006C00340036> Tj T*\nET\n");
    let mut q = SimplePdf::new();
    q.add_content(&"a".repeat(MAX_LINE_CHARS + 1));
    q.add_content("b\r\nc\n");
    let s = &q.prepare_pages()[0];
    assert_eq!(s.matches("Tj T*").count(), 4);
    assert_eq!(s.matches("T*\n").count(), 5);
}

#[test]
fn document_layout() {
    let doc = write_document(&vec!["S".to_string()]);
    let mut expected: Vec<u8> = b"%PDF-1.4\n%\xE2\xE3\xCF\xD3\n".to_vec();
    let objs = [
        "1 0 obj\n<< /Type /Catalog /Pages 2 0 R >>\nendobj\n".to_string(),
        "2 0 obj\n<< /Type /Pages /Kids [ 4 0 R ] /Count 1 >>\nendobj\n".to_string(),
        "3 0 obj\n<< /Type /Font /Subtype /Type0 /BaseFont /STSong-Light /Encoding /UniGB-UTF16-H /DescendantFonts [ << /Type /Font /Subtype /CIDFontType0 /BaseFont /STSong-Light /CIDSystemInfo << /Registry (Adobe) /Ordering (GB1) /Supplement 5 >> >> ] >>\nendobj\n".to_string(),
        "4 0 obj\n<< /Type /Page /Parent 2 0 R /MediaBox [0 0 595 842] /Contents 5 0 R /Resources << /Font << /F1 3 0 R >> >> >>\nendobj\n".to_string(),
        "5 0 obj\n<< /Length 1 >>\nstream\nSendstream\nendobj\n".to_string(),
    ];
    let mut offsets = Vec::new();
    for o in &objs {
        offsets.push(expected.len());
        expected.extend_from_slice(o.as_bytes());
    }
    let xref = expected.len();
    expected.extend_from_slice(b"xref\n0 6\n0000000000 65535 f \n");
    for o in offsets {
        expected.extend_from_slice(format!("{:010} 00000 n \n", o).as_bytes());
    }
    expected.extend_from_slice(format!("trailer\n<< /Size 6 /Root 1 0 R >>\nstartxref\n{}\n%%EOF\n", xref).as_bytes());
    assert_eq!(doc, expected);

    let two = generate_pdf(&["a".to_string(), "b".to_string()]).unwrap();
    assert!(two.starts_with(b"%PDF-1.4\n"));
    assert!(two.ends_with(b"%%EOF\n"));
    assert!(String::from_utf8_lossy(&two).contains("<FEFF0061> Tj T*\nT*\n<FEFF0062> Tj T*\n"));
    let empty = generate_pdf(&[]).unwrap();
    assert!(String::from_utf8_lossy(&empty).contains("/Count 1"));
}

#[test]
fn renderer_side_helpers() {
    let pages = pages_from_images(&vec![b"hello".to_vec(), vec![]]);
    assert_eq!(pages.len(), 2);
    assert_eq!(pages[0].page_num, 1);
    assert_eq!(pages[0].image_base64.as_deref(), Some("aGVsbG8="));
    assert_eq!(pages[1].image_base64.as_deref(), Some(""));
    assert!(pages[0].extracted_text.is_none());
    assert!(document_pages(b"not a pdf").unwrap_err().starts_with("Failed to parse PDF: "));
    let names: Vec<String> = vec!["page-03.jpg".to_string(), "page-003.jpg".to_string(), "page-10.jpg".to_string()];
    assert_eq!(find_page_image(&names, 3), Ok("page-03.jpg".to_string()));
    assert_eq!(find_page_image(&names, 10), Ok("page-10.jpg".to_string()));
    assert_eq!(find_page_image(&vec!["page-7.jpg".to_string()], 7), Ok("page-7.jpg".to_string()));
    assert_eq!(find_page_image(&names, 4), Err("Image for page 4 not found".to_string()));
}

#[test]
fn page_records_update_on_finished_tasks() {
    let mut state = AppState::new(config());
    state.create_task("t", "f", 0);
    state.set_rendering("t", 2, 1);
    state.start_page_ocr("t", 1, 2);
    assert!(state.cancel_task("t", 3));
    state.finish_page_ocr("t", 1, 4, "abcd".to_string(), 10);
    state.start_page_translate("t", 1, 11);
    state.finish_page_translate("t", 1, 2, "译文".to_string(), 15);
    let p = state.get_progress("t").unwrap();
    assert_eq!(p.status, TaskStatus::Error);
    assert_eq!(p.message, "任务已取消");
    assert_eq!(p.ocr_done, 1);
    assert_eq!(p.translate_done, 1);
    assert_eq!(p.page_summaries[0].status, "done");
    assert_eq!(p.page_summaries[0].ocr_duration_ms, Some(8));
    assert!(state.is_cancelled("t"));
    assert!(state.get_pdf_data("t").is_none());
    state.init_retry_progress("t", 2, 2);
    let p = state.get_progress("t").unwrap();
    assert_eq!((p.ocr_done, p.translate_done, p.total_pages), (2, 2, 2));
    assert_eq!(p.overall_percent, 5);
    assert_eq!(p.message, "任务已取消");
    assert_eq!(p.status, TaskStatus::Error);
}

#[test]
fn retry_refusals_carry_their_reason() {
    let mut state = AppState::with_task_limit(config(), 2);
    state.create_task("t", "f", 0);
    match admit_retry(&mut state, "t", true, 1) {
        Err(RetryError::Rejected(m)) => assert_eq!(m, "只能重试失败的任务"),
        _ => panic!("a running task cannot be retried"),
    }
    match admit_retry(&mut state, "missing", true, 1) {
        Err(RetryError::Rejected(m)) => assert_eq!(m, "任务不存在"),
        _ => panic!("an unknown task cannot be retried"),
    }
    assert!(matches!(admit_retry(&mut state, "t", false, 1), Err(RetryError::Expired)));
    assert_eq!(state.active_task_count(), 0);
    assert_eq!(state.task_limit(), 2);
}

#[test]
fn assembly_leaves_ended_tasks_alone() {
    let mut state = AppState::new(config());
    state.create_task("t", "f", 0);
    state.set_rendering("t", 1, 1);
    state.cancel_task("t", 2);
    publish(&mut state, "t", &vec!["x".to_string()], 3);
    let p = state.get_progress("t").unwrap();
    assert_eq!(p.status, TaskStatus::Error);
    assert_eq!(p.message, "任务已取消");
    assert!(state.get_pdf_data("t").is_none());

    state.create_task("u", "g", 0);
    state.set_generating("u", 1);
    finish_assembly(&mut state, "u", Err("disk".to_string()), 2);
    let p = state.get_progress("u").unwrap();
    assert_eq!(p.status, TaskStatus::Error);
    assert_eq!(p.message, "生成 PDF 失败: disk");
}

use std::collections::HashMap;

use pdf_translator::checkpoint::{load_all_translated_pages, pending_pages};
use pdf_translator::config::Config;
use pdf_translator::lifecycle::{admit_retry, admit_upload, conclude_run, publish, render_outcome, RetryError};
use pdf_translator::pdf::generate_pdf;
use pdf_translator::retry::ApiError;
use pdf_translator::scheduler::{page_failure, unit_gate, BatchRun, Phase, Step, BATCH_SIZE};
use pdf_translator::state::{AppState, TaskStatus};

fn config() -> Config {
    Config {
        base_url: "http://localhost".to_string(),
        api_key: "k".to_string(),
        ocr_model: "ocr".to_string(),
        translate_model: "tr".to_string(),
        ocr_model_fallback: None,
        translate_model_fallback: None,
    }
}

/// In-memory stand-in for the checkpoint files: (page, is_translated) -> text.
type Store = HashMap<(usize, bool), String>;

struct Stubs {
    recognize: Box<dyn Fn(usize) -> Result<String, ApiError>>,
    translate: Box<dyn Fn(usize, &str) -> Result<String, ApiError>>,
}

/// Drives a run the way the service does, completing the units of each
/// phase in reverse order to show that completion order does not matter.
fn drive(
    state: &mut AppState,
    id: &str,
    pages: Vec<usize>,
    stubs: &Stubs,
    store: &mut Store,
    calls: &mut Vec<(Phase, usize)>,
    percents: &mut Vec<u8>,
    cancel_after_first_batch: bool,
) -> Result<Vec<(usize, String)>, String> {
    let mut run = BatchRun::new(pages, BATCH_SIZE);
    let mut now: u64 = 2000;
    let mut batches = 0;
    loop {
        if cancel_after_first_batch && batches == 1 {
            state.cancel_task(id, now);
        }
        match run.next_step(state.is_cancelled(id)) {
            Step::Finished(r) => return r,
            Step::Recognize(ps) => {
                let mut outcomes = Vec::new();
                for p in ps {
                    let r = match unit_gate(state.is_cancelled(id)) {
                        Err(e) => Err(e),
                        Ok(()) => {
                            state.start_page_ocr(id, p, now);
                            calls.push((Phase::Recognize, p));
                            match (stubs.recognize)(p) {
                                Ok(t) => {
                                    store.insert((p, false), t.clone());
                                    state.finish_page_ocr(id, p, t.chars().count(), t.clone(), now);
                                    percents.push(state.get_progress(id).unwrap().overall_percent);
                                    Ok((p, t))
                                }
                                Err(e) => {
                                    state.set_page_error(id, p, e.message());
                                    Err(page_failure(p, Phase::Recognize, &e.message()))
                                }
                            }
                        }
                    };
                    outcomes.push(r);
                }
                outcomes.reverse();
                for r in outcomes {
                    if !run.on_joined(state.is_cancelled(id), r) {
                        break;
                    }
                }
            }
            Step::Translate(items) => {
                let mut outcomes = Vec::new();
                for (p, text) in items {
                    let r = match unit_gate(state.is_cancelled(id)) {
                        Err(e) => Err(e),
                        Ok(()) => {
                            state.start_page_translate(id, p, now);
                            calls.push((Phase::Translate, p));
                            match (stubs.translate)(p, &text) {
                                Ok(t) => {
                                    store.insert((p, true), t.clone());
                                    state.finish_page_translate(id, p, t.chars().count(), t.clone(), now);
                                    percents.push(state.get_progress(id).unwrap().overall_percent);
                                    Ok((p, t))
                                }
                                Err(e) => {
                                    state.set_page_error(id, p, e.message());
                                    Err(page_failure(p, Phase::Translate, &e.message()))
                                }
                            }
                        }
                    };
                    outcomes.push(r);
                }
                outcomes.reverse();
                for r in outcomes {
                    if !run.on_joined(state.is_cancelled(id), r) {
                        break;
                    }
                }
                batches += 1;
            }
        }
        now += 10;
    }
}

fn stored_texts(store: &Store, total: usize) -> Vec<String> {
    let stored: Vec<Option<String>> = (1..=total).map(|p| store.get(&(p, true)).cloned()).collect();
    load_all_translated_pages(stored)
}

fn ok_stubs() -> Stubs {
    Stubs {
        recognize: Box::new(|p| Ok(format!("page {} source", p))),
        translate: Box::new(|p, _t| Ok(format!("第{}页译文", p))),
    }
}

fn find(hay: &[u8], needle: &[u8]) -> Option<usize> {
    hay.windows(needle.len()).position(|w| w == needle)
}

fn hex_of(text: &str) -> String {
    let mut s = String::new();
    for u in text.encode_utf16() {
        s.push_str(&format!("{:04X}", u));
    }
    s
}

#[test]
fn five_page_task_completes_in_order() {
    let mut state = AppState::new(config());
    let id = "task-1";
    assert!(admit_upload(&mut state, id, "doc.pdf", b"%PDF-1.7 body", 1000).is_ok());
    let mut statuses = vec![state.get_progress(id).unwrap().status];
    let mut percents = vec![state.get_progress(id).unwrap().overall_percent];
    let total = render_outcome(Ok(5)).unwrap();
    state.set_rendering(id, total, 1100);
    percents.push(state.get_progress(id).unwrap().overall_percent);
    state.set_processing(id, 1200);
    statuses.push(state.get_progress(id).unwrap().status);
    percents.push(state.get_progress(id).unwrap().overall_percent);

    let mut store = Store::new();
    let mut calls = Vec::new();
    let out = drive(&mut state, id, (1..=5).collect(), &ok_stubs(), &mut store, &mut calls, &mut percents, false);
    assert!(conclude_run(&mut state, id, &out, 3000));
    let pairs = out.unwrap();
    assert_eq!(pairs.iter().map(|p| p.0).collect::<Vec<_>>(), vec![1, 2, 3, 4, 5]);

    let texts = stored_texts(&store, 5);
    state.set_generating(id, 3100);
    statuses.push(state.get_progress(id).unwrap().status);
    percents.push(state.get_progress(id).unwrap().overall_percent);
    state.set_complete(id, generate_pdf(&texts).unwrap(), 3200);
    statuses.push(state.get_progress(id).unwrap().status);
    percents.push(state.get_progress(id).unwrap().overall_percent);

    assert_eq!(
        statuses,
        vec![TaskStatus::Rendering, TaskStatus::Processing, TaskStatus::Generating, TaskStatus::Complete]
    );
    assert!(percents.windows(2).all(|w| w[0] <= w[1]), "{:?}", percents);
    assert_eq!(*percents.last().unwrap(), 100);

    let pdf = state.get_pdf_data(id).unwrap();
    let mut at = 0;
    for p in 1..=5 {
        let needle = hex_of(&format!("第{}页译文", p));
        let pos = find(&pdf[at..], needle.as_bytes()).expect("page text present") + at;
        at = pos + needle.len();
    }
    // batches are phase-locked: 1-3 recognized, 1-3 translated, then 4-5
    let phases: Vec<Phase> = calls.iter().map(|c| c.0).collect();
    assert_eq!(
        phases,
        vec![
            Phase::Recognize, Phase::Recognize, Phase::Recognize,
            Phase::Translate, Phase::Translate, Phase::Translate,
            Phase::Recognize, Phase::Recognize,
            Phase::Translate, Phase::Translate,
        ]
    );
    state.release_task_slot();
    assert_eq!(state.active_task_count(), 0);
}

#[test]
fn publish_completes_with_assembled_document() {
    let mut state = AppState::new(config());
    admit_upload(&mut state, "t", "a.pdf", b"%PDF", 0).unwrap();
    state.set_rendering("t", 2, 1);
    state.set_processing("t", 2);
    let texts = vec!["one".to_string(), "two".to_string()];
    publish(&mut state, "t", &texts, 3);
    let p = state.get_progress("t").unwrap();
    assert_eq!(p.status, TaskStatus::Complete);
    assert_eq!(p.overall_percent, 100);
    assert_eq!(state.get_pdf_data("t").unwrap(), generate_pdf(&texts).unwrap());
}

#[test]
fn permanent_translation_failure_on_page_three() {
    let mut state = AppState::new(config());
    let id = "task-2";
    admit_upload(&mut state, id, "doc.pdf", b"%PDF", 1000).unwrap();
    state.set_rendering(id, 5, 1100);
    state.set_processing(id, 1200);
    let stubs = Stubs {
        recognize: Box::new(|p| Ok(format!("source {}", p))),
        translate: Box::new(|p, _t| {
            if p == 3 {
                Err(ApiError::NonRetryable("API 错误 400 Bad Request: no".to_string()))
            } else {
                Ok(format!("译文 {}", p))
            }
        }),
    };
    let mut store = Store::new();
    let mut calls = Vec::new();
    let mut percents = Vec::new();
    let out = drive(&mut state, id, (1..=5).collect(), &stubs, &mut store, &mut calls, &mut percents, false);
    let err = out.clone().unwrap_err();
    assert_eq!(err, "第 3 页翻译失败: API 错误 400 Bad Request: no");
    assert!(!conclude_run(&mut state, id, &out, 3000));
    let p = state.get_progress(id).unwrap();
    assert_eq!(p.status, TaskStatus::Error);
    assert_eq!(p.message, err);
    assert_eq!(p.page_summaries[2].status, "error");

    assert!(store.contains_key(&(1, true)));
    assert!(store.contains_key(&(2, true)));
    assert!(store.contains_key(&(3, false)));
    assert!(!store.contains_key(&(3, true)));
    for p in 4..=5 {
        assert!(!store.contains_key(&(p, false)));
        assert!(!calls.iter().any(|c| c.1 == p));
    }
}

#[test]
fn retry_resumes_only_pending_pages() {
    let mut state = AppState::new(config());
    let id = "task-3";
    admit_upload(&mut state, id, "doc.pdf", b"%PDF", 1000).unwrap();
    state.set_rendering(id, 5, 1100);
    state.set_processing(id, 1200);
    state.set_error(id, "boom".to_string(), 1300);
    state.release_task_slot();

    let mut store = Store::new();
    store.insert((1, true), "kept one".to_string());
    store.insert((4, true), "kept four".to_string());
    let before = store.clone();

    assert!(admit_retry(&mut state, id, true, 2000).is_ok());
    let done: Vec<bool> = (1..=5).map(|p| store.contains_key(&(p, true))).collect();
    let pending = pending_pages(&done);
    assert_eq!(pending, vec![2, 3, 5]);
    state.init_retry_progress(id, 2, 5);

    let mut calls = Vec::new();
    let mut percents = Vec::new();
    let out = drive(&mut state, id, pending, &ok_stubs(), &mut store, &mut calls, &mut percents, false);
    assert!(conclude_run(&mut state, id, &out, 3000));
    let touched: Vec<usize> = calls.iter().filter(|c| c.0 == Phase::Translate).map(|c| c.1).collect();
    assert_eq!(touched, vec![2, 3, 5]);
    assert_eq!(store.get(&(1, true)), before.get(&(1, true)));
    assert_eq!(store.get(&(4, true)), before.get(&(4, true)));

    let texts = stored_texts(&store, 5);
    assert_eq!(texts[0], "kept one");
    assert_eq!(texts[3], "kept four");
    assert_eq!(texts[1], "第2页译文");
    publish(&mut state, id, &texts, 4000);
    state.finish_retry(id);
    assert_eq!(state.get_progress(id).unwrap().status, TaskStatus::Complete);
}

#[test]
fn cancellation_stops_new_calls_and_never_completes() {
    let mut state = AppState::new(config());
    let id = "task-4";
    admit_upload(&mut state, id, "doc.pdf", b"%PDF", 1000).unwrap();
    state.set_rendering(id, 5, 1100);
    state.set_processing(id, 1200);
    let mut store = Store::new();
    let mut calls = Vec::new();
    let mut percents = Vec::new();
    let out = drive(&mut state, id, (1..=5).collect(), &ok_stubs(), &mut store, &mut calls, &mut percents, true);
    assert_eq!(out.clone().unwrap_err(), "任务已取消");
    assert!(calls.iter().all(|c| c.1 <= 3));
    assert!(!conclude_run(&mut state, id, &out, 3000));
    state.set_generating(id, 3100);
    state.set_complete(id, vec![1, 2, 3], 3200);
    let p = state.get_progress(id).unwrap();
    assert_eq!(p.status, TaskStatus::Error);
    assert_eq!(p.message, "任务已取消");
    assert!(state.is_cancelled(id));
    assert!(state.get_pdf_data(id).is_none());
    assert!(!state.cancel_task(id, 3300));
    match admit_retry(&mut state, id, true, 3400) {
        Err(RetryError::Busy) => {}
        other => panic!("unexpected {:?}", other.is_ok()),
    }
    state.release_task_slot();
    match admit_retry(&mut state, id, true, 3500) {
        Err(RetryError::Rejected(m)) => assert_eq!(m, "已取消的任务不能重试"),
        other => panic!("unexpected {:?}", other.is_ok()),
    }
    assert_eq!(state.active_task_count(), 0);
}

#[test]
fn results_ordered_by_page_whatever_the_completion_order() {
    let mut run = BatchRun::new(vec![1, 2, 3], 3);
    match run.next_step(false) {
        Step::Recognize(ps) => assert_eq!(ps, vec![1, 2, 3]),
        _ => panic!("expected recognition"),
    }
    assert!(run.on_joined(false, Ok((3, "c".to_string()))));
    assert!(run.on_joined(false, Ok((1, "a".to_string()))));
    assert!(run.on_joined(false, Ok((2, "b".to_string()))));
    match run.next_step(false) {
        Step::Translate(items) => {
            assert_eq!(items.iter().map(|i| i.0).collect::<Vec<_>>(), vec![1, 2, 3]);
            assert_eq!(items[0].1, "a");
        }
        _ => panic!("expected translation"),
    }
    assert!(run.on_joined(false, Ok((2, "B".to_string()))));
    assert!(run.on_joined(false, Ok((3, "C".to_string()))));
    assert!(run.on_joined(false, Ok((1, "A".to_string()))));
    match run.next_step(false) {
        Step::Finished(Ok(out)) => assert_eq!(
            out,
            vec![(1, "A".to_string()), (2, "B".to_string()), (3, "C".to_string())]
        ),
        _ => panic!("expected results"),
    }
}

#[test]
fn cancellation_observed_at_join_ends_the_run() {
    let mut run = BatchRun::new(vec![1, 2], 3);
    assert!(!run.on_joined(true, Ok((1, "a".to_string()))));
    match run.next_step(false) {
        Step::Finished(Err(e)) => assert_eq!(e, "任务已取消"),
        _ => panic!("expected end"),
    }
    assert!(unit_gate(true).is_err());
    assert!(unit_gate(false).is_ok());
}

#[test]
fn empty_run_finishes_at_once() {
    let run = BatchRun::new(vec![], 3);
    match run.next_step(false) {
        Step::Finished(Ok(out)) => assert!(out.is_empty()),
        _ => panic!("expected end"),
    }
}

//! Task lifecycle controller: admission of uploads and retries, and the
//! registry updates between the stages of an attempt (render, schedule,
//! assemble, publish). Rendering, the external calls and the disk are the
//! driver's; it hands their outcomes to these functions.
use vstd::prelude::*;

use crate::pdf::{document, generate_pdf, joined, page_streams};
use crate::state::{
    complete_step,
    retry_allowed, retry_refusal, retry_step, same_tasks, slot_available, status_step, task_updated, AppState,
    TaskData, TaskStatus,
};
use crate::text::{decimal, push_decimal};

verus! {

/// Largest accepted upload, in bytes.
pub const MAX_FILE_SIZE: usize = 50 * 1024 * 1024;

/// Why an upload was refused.
#[derive(Clone, Copy, Debug, PartialEq, Eq, Structural)]
pub enum UploadError {
    /// The admission ceiling is reached.
    Busy,
    /// Over `MAX_FILE_SIZE`.
    TooLarge,
    /// Does not start with the `%PDF` magic bytes.
    NotPdf,
}

/// Why a retry was refused.
#[derive(Clone, Debug)]
pub enum RetryError {
    /// The original input is no longer on disk.
    Expired,
    /// The admission ceiling is reached.
    Busy,
    /// The task is not in a retryable state; the reason is given.
    Rejected(String),
}

/// Whether the bytes start with `%PDF`.
pub open spec fn has_pdf_magic(d: Seq<u8>) -> bool {
    d.len() >= 4 && d[0] == 0x25 && d[1] == 0x50 && d[2] == 0x44 && d[3] == 0x46
}

/// The verdict on an upload's bytes.
pub open spec fn upload_check(d: Seq<u8>) -> Result<(), UploadError> {
    if d.len() > MAX_FILE_SIZE {
        Err(UploadError::TooLarge)
    } else if !has_pdf_magic(d) {
        Err(UploadError::NotPdf)
    } else {
        Ok(())
    }
}

/// Size and format check of an uploaded document.
pub fn validate_upload(data: &[u8]) -> (r: Result<(), UploadError>)
    ensures
        r == upload_check(data@),
{
    if data.len() > MAX_FILE_SIZE {
        return Err(UploadError::TooLarge);
    }
    if data.len() < 4 || data[0] != 0x25 || data[1] != 0x50 || data[2] != 0x44 || data[3] != 0x46 {
        return Err(UploadError::NotPdf);
    }
    Ok(())
}

impl UploadError {
    /// The message shown to the submitter.
    pub fn message(&self, limit: usize) -> (r: String)
        ensures
            *self == UploadError::Busy ==> r@ == "服务繁忙，当前已有 "@ + decimal(limit as nat) + " 个任务在处理，请稍后重试"@,
            *self == UploadError::TooLarge ==> r@ == "文件过大，最大支持 50MB"@,
            *self == UploadError::NotPdf ==> r@ == "无效的 PDF 文件"@,
    {
        match self {
            UploadError::Busy => busy_message(limit),
            UploadError::TooLarge => "文件过大，最大支持 50MB".to_owned(),
            UploadError::NotPdf => "无效的 PDF 文件".to_owned(),
        }
    }
}

fn busy_message(limit: usize) -> (r: String)
    ensures
        r@ == "服务繁忙，当前已有 "@ + decimal(limit as nat) + " 个任务在处理，请稍后重试"@,
{
    let mut s = "服务繁忙，当前已有 ".to_owned();
    push_decimal(&mut s, limit as u64);
    s.append(" 个任务在处理，请稍后重试");
    s
}

impl RetryError {
    /// The message shown to the requester.
    pub fn message(&self, limit: usize) -> (r: String)
        ensures
            *self is Expired ==> r@ == "任务已过期，原始 PDF 已清理"@,
            *self is Busy ==> r@ == "服务繁忙，当前已有 "@ + decimal(limit as nat) + " 个任务在处理，请稍后重试"@,
            self matches RetryError::Rejected(m) ==> r@ == m@,
    {
        match self {
            RetryError::Expired => "任务已过期，原始 PDF 已清理".to_owned(),
            RetryError::Busy => busy_message(limit),
            RetryError::Rejected(m) => m.clone(),
        }
    }
}

/// Admits an upload: takes an admission slot, checks the bytes, and
/// registers the task under its (new) id; an id already known keeps its
/// record. On refusal the registry is left as it was.
pub fn admit_upload(state: &mut AppState, task_id: &str, filename: &str, data: &[u8], now: u64) -> (r: Result<(), UploadError>)
    requires
        old(state).wf(),
    ensures
        final(state).wf(),
        final(state).limit() == old(state).limit(),
        !slot_available(old(state).active(), old(state).limit()) ==> r == Err::<(), UploadError>(UploadError::Busy),
        slot_available(old(state).active(), old(state).limit()) && upload_check(data@) is Err ==> r == upload_check(data@),
        r is Err ==> final(state).active() == old(state).active() && same_tasks(*old(state), *final(state)),
        r is Ok <==> slot_available(old(state).active(), old(state).limit()) && upload_check(data@) is Ok,
        r is Ok ==> final(state).active() == old(state).active() + 1
            && (old(state).task(task_id@) is None ==> (final(state).task(task_id@) matches Some(d)
                && crate::state::fresh_task(d, filename@, now)))
            && (old(state).task(task_id@) is Some ==> final(state).task(task_id@) == old(state).task(task_id@))
            && forall|k: Seq<char>| k != task_id@ ==> #[trigger] final(state).task(k) == old(state).task(k),
{
    if !state.try_acquire_task_slot() {
        return Err(UploadError::Busy);
    }
    match validate_upload(data) {
        Err(e) => {
            state.release_task_slot();
            Err(e)
        },
        Ok(()) => {
            state.create_task(task_id, filename, now);
            Ok(())
        },
    }
}

/// Admits a retry: the input must still be on disk, a slot must be free and
/// the task must be retryable. On refusal the registry is left as it was.
pub fn admit_retry(state: &mut AppState, task_id: &str, input_present: bool, now: u64) -> (r: Result<(), RetryError>)
    requires
        old(state).wf(),
    ensures
        final(state).wf(),
        final(state).limit() == old(state).limit(),
        !input_present ==> r matches Err(RetryError::Expired),
        input_present && !slot_available(old(state).active(), old(state).limit()) ==> r matches Err(RetryError::Busy),
        input_present && slot_available(old(state).active(), old(state).limit())
            && !(old(state).task(task_id@) matches Some(d) && retry_allowed(d))
            ==> (r matches Err(RetryError::Rejected(m)) && m@ == match old(state).task(task_id@) {
                Some(d) => retry_refusal(d),
                None => "任务不存在"@,
            }),
        r is Err ==> final(state).active() == old(state).active() && same_tasks(*old(state), *final(state)),
        r is Ok <==> input_present && slot_available(old(state).active(), old(state).limit())
            && (old(state).task(task_id@) matches Some(d) && retry_allowed(d)),
        r is Ok ==> final(state).active() == old(state).active() + 1
            && final(state).ids() == old(state).ids()
            && (forall|k: Seq<char>| k != task_id@ ==> #[trigger] final(state).task(k) == old(state).task(k))
            && (old(state).task(task_id@) matches Some(d)
                && (final(state).task(task_id@) matches Some(e) && retry_step(d, e, now))),
{
    if !input_present {
        return Err(RetryError::Expired);
    }
    if !state.try_acquire_task_slot() {
        return Err(RetryError::Busy);
    }
    match state.try_start_retry(task_id, now) {
        Err(e) => {
            state.release_task_slot();
            Err(RetryError::Rejected(e))
        },
        Ok(()) => Ok(()),
    }
}

/// Page count of a rendering, or the message the task fails with.
pub fn render_outcome(rendered: Result<usize, String>) -> (r: Result<usize, String>)
    ensures
        match rendered {
            Err(e) => r matches Err(m) && m@ == "PDF 处理失败: "@ + e@,
            Ok(n) => if n == 0 {
                r matches Err(m) && m@ == "PDF 没有页面"@
            } else {
                r == Ok::<usize, String>(n)
            },
        },
{
    match rendered {
        Err(e) => {
            let mut m = "PDF 处理失败: ".to_owned();
            m.append(e.as_str());
            Err(m)
        },
        Ok(n) => {
            if n == 0 {
                Err("PDF 没有页面".to_owned())
            } else {
                Ok(n)
            }
        },
    }
}

/// What a scheduling run's end means for the task: `true` when the task
/// goes on to assembly. A cancelled task is left alone; a failure ends it
/// with the failure's message.
pub fn conclude_run(state: &mut AppState, task_id: &str, outcome: &Result<Vec<(usize, String)>, String>, now: u64) -> (go_on: bool)
    requires
        old(state).wf(),
    ensures
        final(state).wf(),
        final(state).active() == old(state).active(),
        final(state).limit() == old(state).limit(),
        go_on == (outcome is Ok && !(old(state).task(task_id@) matches Some(d) && d.cancelled)),
        (old(state).task(task_id@) matches Some(d) && d.cancelled) || outcome is Ok ==> *final(state) == *old(state),
        match outcome {
            Err(e) => !(old(state).task(task_id@) matches Some(d) && d.cancelled) ==> task_updated(
                *old(state),
                *final(state),
                task_id@,
                |a: TaskData, b: TaskData| status_step(a, b, TaskStatus::Error, a.progress.overall_percent, e@, "错误: "@ + e@, now),
            ),
            Ok(_) => true,
        },
{
    if state.is_cancelled(task_id) {
        return false;
    }
    match outcome {
        Err(e) => {
            state.set_error(task_id, e.clone(), now);
            false
        },
        Ok(_) => true,
    }
}

/// Records the outcome of assembly: the task completes with the document,
/// or ends with the assembly failure. A task that has already ended (for
/// instance cancelled meanwhile) is left as it is.
pub fn finish_assembly(state: &mut AppState, task_id: &str, generated: Result<Vec<u8>, String>, now: u64)
    requires
        old(state).wf(),
    ensures
        final(state).wf(),
        final(state).active() == old(state).active(),
        final(state).limit() == old(state).limit(),
        final(state).ids() == old(state).ids(),
        forall|k: Seq<char>| k != task_id@ ==> #[trigger] final(state).task(k) == old(state).task(k),
        old(state).task(task_id@) matches Some(d) && d.progress.status.is_terminal()
            ==> final(state).task(task_id@) == old(state).task(task_id@),
        match generated {
            Ok(b) => task_updated(*old(state), *final(state), task_id@, |x: TaskData, y: TaskData| complete_step(x, y, b@, now)),
            Err(e) => task_updated(*old(state), *final(state), task_id@, |x: TaskData, y: TaskData|
                status_step(x, y, TaskStatus::Error, x.progress.overall_percent,
                    "生成 PDF 失败: "@ + e@, "错误: "@ + ("生成 PDF 失败: "@ + e@), now)),
        },
{
    proof { state.lemma_tasks_wf(task_id@); }
    match generated {
        Ok(pdf) => {
            state.set_complete(task_id, pdf, now);
        },
        Err(e) => {
            let mut m = "生成 PDF 失败: ".to_owned();
            m.append(e.as_str());
            state.set_error(task_id, m, now);
        },
    }
}

/// Assembles the translated page texts (in page order) into the final
/// document and completes the task with it; a failed assembly ends the
/// task with an error instead. A task that has already ended is left as
/// it is.
pub fn publish(state: &mut AppState, task_id: &str, texts: &Vec<String>, now: u64)
    requires
        old(state).wf(),
    ensures
        final(state).wf(),
        final(state).active() == old(state).active(),
        final(state).limit() == old(state).limit(),
        final(state).ids() == old(state).ids(),
        forall|k: Seq<char>| k != task_id@ ==> #[trigger] final(state).task(k) == old(state).task(k),
        old(state).task(task_id@) matches Some(d) && d.progress.status.is_terminal()
            ==> final(state).task(task_id@) == old(state).task(task_id@),
        old(state).task(task_id@) matches Some(d) && !d.progress.status.is_terminal()
            && 2 * page_streams(joined(texts@.map_values(|x: String| x@))).len() + 6 <= u64::MAX
            ==> (final(state).task(task_id@) matches Some(e)
                && e.progress.status == TaskStatus::Complete
                && e.progress.overall_percent == 100
                && (e.pdf_data matches Some(b) && b@ == document(page_streams(joined(texts@.map_values(|x: String| x@)))))),
        old(state).task(task_id@) matches Some(d) && !d.progress.status.is_terminal()
            && 2 * page_streams(joined(texts@.map_values(|x: String| x@))).len() + 6 > u64::MAX
            ==> (final(state).task(task_id@) matches Some(e)
                && e.progress.status == TaskStatus::Error && e.pdf_data is None),
{
    state.set_generating(task_id, now);
    proof { state.lemma_tasks_wf(task_id@); }
    let generated = generate_pdf(texts.as_slice());
    finish_assembly(state, task_id, generated, now);
}

/// Log line of a resumed attempt.
pub fn resume_message(completed: usize, total: usize) -> (r: String)
    ensures
        r@ == "继续处理，已完成 "@ + decimal(completed as nat) + "/"@ + decimal(total as nat) + " 页"@,
{
    let mut s = "继续处理，已完成 ".to_owned();
    push_decimal(&mut s, completed as u64);
    s.append("/");
    push_decimal(&mut s, total as u64);
    s.append(" 页");
    s
}

} // verus!

//! Task registry: lifecycle state of every submitted document, the
//! admission gate, cancellation flags, progress snapshots and the log trail.
use vstd::prelude::*;

use crate::config::Config;
use crate::text::{decimal, push_decimal};

verus! {

/// How many tasks may run at once unless another ceiling is chosen.
pub const MAX_CONCURRENT_TASKS: usize = 1;

/// Length of the log trail kept per task; older entries are evicted first.
pub const MAX_LOGS: usize = 50;

/// A terminal task older than this (in milliseconds) is reclaimed.
pub const RETENTION_MS: u64 = 3600000;

/// Lifecycle of a task: `Rendering -> Processing -> Generating -> Complete`,
/// with `Error` reachable from every non-terminal state.
#[derive(Clone, Copy, Debug, PartialEq, Eq, Structural)]
pub enum TaskStatus {
    Rendering,
    Processing,
    Generating,
    Complete,
    Error,
}

impl TaskStatus {
    /// `Complete` and `Error` end a task attempt.
    pub open spec fn is_terminal(self) -> bool {
        self is Complete || self is Error
    }
}

#[derive(Clone, Debug)]
pub struct LogEntry {
    pub ts: u64,
    pub msg: String,
}

/// Observable per-page state; `status` is one of
/// `pending`, `ocr`, `translating`, `done`, `error`.
#[derive(Clone, Debug)]
pub struct PageSummary {
    pub page_num: usize,
    pub ocr_started: Option<u64>,
    pub ocr_duration_ms: Option<u64>,
    pub ocr_chars: Option<usize>,
    pub ocr_text_preview: Option<String>,
    pub translate_started: Option<u64>,
    pub translate_duration_ms: Option<u64>,
    pub translated_chars: Option<usize>,
    pub translated_text_preview: Option<String>,
    pub status: String,
    pub error: Option<String>,
}

#[derive(Clone, Debug)]
pub struct TaskProgress {
    pub status: TaskStatus,
    pub total_pages: usize,
    pub ocr_done: usize,
    pub translate_done: usize,
    pub message: String,
    pub overall_percent: u8,
    pub filename: String,
    pub logs: Vec<LogEntry>,
    pub page_summaries: Vec<PageSummary>,
}

impl TaskProgress {
    /// Whether the task has reached a terminal status.
    pub fn is_done(&self) -> (r: bool)
        ensures
            r == self.status.is_terminal(),
    {
        match self.status {
            TaskStatus::Complete | TaskStatus::Error => true,
            _ => false,
        }
    }
}

#[derive(Clone, Debug)]
pub struct TaskSummary {
    pub task_id: String,
    pub filename: String,
    pub status: TaskStatus,
    pub overall_percent: u8,
    pub ocr_done: usize,
    pub translate_done: usize,
    pub total_pages: usize,
}

/// Everything the registry holds for one task.
#[derive(Debug)]
pub struct TaskData {
    pub progress: TaskProgress,
    pub pdf_data: Option<Vec<u8>>,
    pub cancelled: bool,
    pub started_at: u64,
    pub is_retrying: bool,
}

/// Invariant of one task record.
pub open spec fn task_wf(d: TaskData) -> bool {
    &&& d.progress.logs@.len() <= MAX_LOGS
    &&& (d.pdf_data is Some <==> d.progress.status == TaskStatus::Complete)
    &&& (d.cancelled ==> d.progress.status == TaskStatus::Error)
    &&& d.progress.ocr_done <= d.progress.total_pages
    &&& d.progress.translate_done <= d.progress.total_pages
    &&& d.progress.overall_percent <= 100
    &&& d.progress.page_summaries@.len() == d.progress.total_pages
    &&& forall|i: int| 0 <= i < d.progress.page_summaries@.len()
        ==> (#[trigger] d.progress.page_summaries@[i]).page_num == i + 1
}

/// Overall percentage: 5 for rendering, 45 for recognition and 45 for
/// translation in proportion to the pages done, 5 left for generation.
pub open spec fn stage_percent(ocr: nat, trans: nat, total: nat) -> nat {
    if total == 0 {
        0
    } else {
        (5 * total + 45 * ocr + 45 * trans) / total
    }
}

/// `after` is `before` with one entry `(ts, msg)` appended, the oldest
/// entry evicted when the trail was full.
pub open spec fn appended_log(before: Seq<LogEntry>, after: Seq<LogEntry>, ts: u64, msg: Seq<char>) -> bool {
    let kept = if before.len() >= MAX_LOGS { before.drop_first() } else { before };
    &&& after.len() == kept.len() + 1
    &&& after.subrange(0, kept.len() as int) == kept
    &&& after.last().ts == ts
    &&& after.last().msg@ == msg
}

/// `b - a`, or zero when the clock went backwards.
pub open spec fn elapsed(a: u64, b: u64) -> u64 {
    if b >= a { (b - a) as u64 } else { 0 }
}

/// A fresh task record as created on submission.
pub open spec fn fresh_task(d: TaskData, filename: Seq<char>, now: u64) -> bool {
    &&& d.progress.status == TaskStatus::Rendering
    &&& d.progress.total_pages == 0
    &&& d.progress.ocr_done == 0
    &&& d.progress.translate_done == 0
    &&& d.progress.message@ == "正在处理 PDF..."@
    &&& d.progress.overall_percent == 0
    &&& d.progress.filename@ == filename
    &&& d.progress.logs@.len() == 1
    &&& d.progress.logs@[0].ts == now
    &&& d.progress.logs@[0].msg@ == "任务开始"@
    &&& d.progress.page_summaries@.len() == 0
    &&& d.pdf_data is None
    &&& !d.cancelled
    &&& d.started_at == now
    &&& !d.is_retrying
}

/// A summary of page `n` that has not been started.
pub open spec fn pending_summary(p: PageSummary, n: nat) -> bool {
    &&& p.page_num == n
    &&& p.ocr_started is None
    &&& p.ocr_duration_ms is None
    &&& p.ocr_chars is None
    &&& p.ocr_text_preview is None
    &&& p.translate_started is None
    &&& p.translate_duration_ms is None
    &&& p.translated_chars is None
    &&& p.translated_text_preview is None
    &&& p.status@ == "pending"@
    &&& p.error is None
}

/// Cancellation: a non-terminal task becomes a cancelled `Error`.
pub open spec fn cancel_step(a: TaskData, b: TaskData, now: u64) -> bool {
    if a.progress.status.is_terminal() {
        b == a
    } else {
        &&& b == TaskData {
            cancelled: true,
            progress: TaskProgress {
                status: TaskStatus::Error,
                message: b.progress.message,
                logs: b.progress.logs,
                ..a.progress
            },
            ..a
        }
        &&& b.progress.message@ == "任务已取消"@
        &&& appended_log(a.progress.logs@, b.progress.logs@, now, "任务取消"@)
    }
}

/// Rendering finished with `total` pages: every page is pending again.
pub open spec fn rendering_step(a: TaskData, b: TaskData, total: usize, now: u64) -> bool {
    if a.progress.status.is_terminal() {
        b == a
    } else {
        &&& b == TaskData {
            progress: TaskProgress {
                status: TaskStatus::Rendering,
                total_pages: total,
                ocr_done: 0,
                translate_done: 0,
                overall_percent: 5,
                message: b.progress.message,
                logs: b.progress.logs,
                page_summaries: b.progress.page_summaries,
                ..a.progress
            },
            ..a
        }
        &&& b.progress.message@ == "共 "@ + decimal(total as nat) + " 页，开始并行处理..."@
        &&& appended_log(a.progress.logs@, b.progress.logs@, now, "渲染完成，共 "@ + decimal(total as nat) + " 页"@)
        &&& b.progress.page_summaries@.len() == total
        &&& forall|i: int| 0 <= i < total ==> pending_summary(#[trigger] b.progress.page_summaries@[i], (i + 1) as nat)
    }
}

/// A plain status change of a non-terminal task, with its message and log line.
pub open spec fn status_step(
    a: TaskData,
    b: TaskData,
    status: TaskStatus,
    percent: u8,
    msg: Seq<char>,
    log: Seq<char>,
    now: u64,
) -> bool {
    if a.progress.status.is_terminal() {
        b == a
    } else {
        &&& b == TaskData {
            progress: TaskProgress {
                status: status,
                overall_percent: percent,
                message: b.progress.message,
                logs: b.progress.logs,
                ..a.progress
            },
            ..a
        }
        &&& b.progress.message@ == msg
        &&& appended_log(a.progress.logs@, b.progress.logs@, now, log)
    }
}

/// Completion of a non-terminal task, which takes ownership of the artifact.
pub open spec fn complete_step(a: TaskData, b: TaskData, pdf: Seq<u8>, now: u64) -> bool {
    if a.progress.status.is_terminal() {
        b == a
    } else {
        let secs = decimal((elapsed(a.started_at, now) / 1000) as nat);
        &&& b == TaskData {
            pdf_data: b.pdf_data,
            progress: TaskProgress {
                status: TaskStatus::Complete,
                overall_percent: 100,
                message: b.progress.message,
                logs: b.progress.logs,
                ..a.progress
            },
            ..a
        }
        &&& b.pdf_data matches Some(v) && v@ == pdf
        &&& b.progress.message@ == "完成！用时 "@ + secs + " 秒"@
        &&& appended_log(a.progress.logs@, b.progress.logs@, now, "完成，用时 "@ + secs + " 秒"@)
    }
}

/// A log line appended to any task.
pub open spec fn log_step(a: TaskData, b: TaskData, msg: Seq<char>, now: u64) -> bool {
    &&& b == TaskData {
        progress: TaskProgress { logs: b.progress.logs, ..a.progress },
        ..a
    }
    &&& appended_log(a.progress.logs@, b.progress.logs@, now, msg)
}

/// Percentage and counter message after the page counters changed.
pub open spec fn progress_refreshed(a: TaskProgress, b: TaskProgress) -> bool {
    if a.total_pages == 0 {
        b == a
    } else {
        &&& b == TaskProgress {
            overall_percent: stage_percent(a.ocr_done as nat, a.translate_done as nat, a.total_pages as nat) as u8,
            message: b.message,
            ..a
        }
        &&& b.message@ == "OCR: "@ + decimal(a.ocr_done as nat) + "/"@ + decimal(a.total_pages as nat)
            + ", 翻译: "@ + decimal(a.translate_done as nat) + "/"@ + decimal(a.total_pages as nat)
    }
}

/// Whether `page` names one of the task's page summaries.
pub open spec fn has_page(d: TaskData, page: usize) -> bool {
    1 <= page <= d.progress.page_summaries@.len()
}

/// A change to the summary of `page` only; status, flags and artifact stay.
pub open spec fn page_only_step(
    a: TaskData,
    b: TaskData,
    page: usize,
    f: spec_fn(PageSummary, PageSummary) -> bool,
) -> bool {
    if !has_page(a, page) {
        b == a
    } else {
        &&& b == TaskData {
            progress: TaskProgress { page_summaries: b.progress.page_summaries, ..a.progress },
            ..a
        }
        &&& b.progress.page_summaries@.len() == a.progress.page_summaries@.len()
        &&& forall|i: int|
            0 <= i < a.progress.page_summaries@.len() && i != page - 1
                ==> #[trigger] b.progress.page_summaries@[i] == a.progress.page_summaries@[i]
        &&& f(a.progress.page_summaries@[page - 1], b.progress.page_summaries@[page - 1])
    }
}

/// A page finished a stage: the stage counter grows by one (up to the page
/// total), the page summary records the result, and the percentage and
/// message follow, unless the task has ended (they then keep describing
/// its end).
pub open spec fn page_finish_step(
    a: TaskData,
    b: TaskData,
    page: usize,
    translate: bool,
    f: spec_fn(PageSummary, PageSummary) -> bool,
) -> bool {
    {
        let p = a.progress;
        let ocr = if !translate && p.ocr_done < p.total_pages { p.ocr_done + 1 } else { p.ocr_done as int };
        let tr = if translate && p.translate_done < p.total_pages { p.translate_done + 1 } else { p.translate_done as int };
        let counted = TaskProgress {
            ocr_done: ocr as usize,
            translate_done: tr as usize,
            page_summaries: b.progress.page_summaries,
            ..p
        };
        &&& b == TaskData {
            progress: TaskProgress { overall_percent: b.progress.overall_percent, message: b.progress.message, ..counted },
            ..a
        }
        &&& if a.progress.status.is_terminal() {
            b.progress.overall_percent == p.overall_percent && b.progress.message == p.message
        } else {
            progress_refreshed(counted, b.progress)
        }
        &&& b.progress.page_summaries@.len() == p.page_summaries@.len()
        &&& forall|i: int|
            0 <= i < p.page_summaries@.len() && i != page - 1
                ==> #[trigger] b.progress.page_summaries@[i] == p.page_summaries@[i]
        &&& has_page(a, page) ==> f(p.page_summaries@[page - 1], b.progress.page_summaries@[page - 1])
    }
}

pub open spec fn ocr_started(a: PageSummary, b: PageSummary, now: u64) -> bool {
    &&& b == PageSummary { ocr_started: Some(now), status: b.status, error: None, ..a }
    &&& b.status@ == "ocr"@
}

pub open spec fn ocr_finished(a: PageSummary, b: PageSummary, chars: usize, preview: Seq<char>, now: u64) -> bool {
    &&& b == PageSummary {
        ocr_duration_ms: match a.ocr_started {
            Some(s) => Some(elapsed(s, now)),
            None => a.ocr_duration_ms,
        },
        ocr_chars: Some(chars),
        ocr_text_preview: b.ocr_text_preview,
        ..a
    }
    &&& b.ocr_text_preview matches Some(t) && t@ == preview
}

pub open spec fn translate_started(a: PageSummary, b: PageSummary, now: u64) -> bool {
    &&& b == PageSummary { translate_started: Some(now), status: b.status, ..a }
    &&& b.status@ == "translating"@
}

pub open spec fn translate_finished(a: PageSummary, b: PageSummary, chars: usize, preview: Seq<char>, now: u64) -> bool {
    &&& b == PageSummary {
        translate_duration_ms: match a.translate_started {
            Some(s) => Some(elapsed(s, now)),
            None => a.translate_duration_ms,
        },
        translated_chars: Some(chars),
        translated_text_preview: b.translated_text_preview,
        status: b.status,
        error: None,
        ..a
    }
    &&& b.translated_text_preview matches Some(t) && t@ == preview
    &&& b.status@ == "done"@
}

pub open spec fn page_failed(a: PageSummary, b: PageSummary, error: Seq<char>) -> bool {
    &&& b == PageSummary { status: b.status, error: b.error, ..a }
    &&& b.status@ == "error"@
    &&& b.error matches Some(e) && e@ == error
}

/// A retry may start: status `Error`, not cancelled, not already retrying.
pub open spec fn retry_allowed(d: TaskData) -> bool {
    d.progress.status == TaskStatus::Error && !d.cancelled && !d.is_retrying
}

/// A retry begins: back to `Processing` with the retry flag raised.
pub open spec fn retry_step(a: TaskData, b: TaskData, now: u64) -> bool {
    &&& b == TaskData {
        is_retrying: true,
        progress: TaskProgress {
            status: TaskStatus::Processing,
            message: b.progress.message,
            logs: b.progress.logs,
            ..a.progress
        },
        ..a
    }
    &&& b.progress.message@ == "重试中..."@
    &&& appended_log(a.progress.logs@, b.progress.logs@, now, "开始重试"@)
}

/// Progress reset for a resumed attempt: `completed` pages count as done
/// in both stages; page records are kept when their number matches the
/// page total and otherwise start afresh as pending; the percentage and
/// message follow unless the task has ended.
pub open spec fn retry_progress_step(a: TaskData, b: TaskData, completed: usize, total: usize) -> bool {
    let c = if completed <= total { completed } else { total };
    let counted = TaskProgress {
        ocr_done: c,
        translate_done: c,
        total_pages: total,
        page_summaries: b.progress.page_summaries,
        ..a.progress
    };
    &&& b == TaskData { progress: b.progress, ..a }
    &&& if a.progress.page_summaries@.len() == total {
        b.progress.page_summaries == a.progress.page_summaries
    } else {
        &&& b.progress.page_summaries@.len() == total
        &&& forall|i: int| 0 <= i < total ==> pending_summary(#[trigger] b.progress.page_summaries@[i], (i + 1) as nat)
    }
    &&& if a.progress.status.is_terminal() {
        b.progress == TaskProgress {
            overall_percent: a.progress.overall_percent,
            message: a.progress.message,
            ..counted
        }
    } else {
        progress_refreshed(counted, b.progress)
    }
}


/// `prefix`, then `n` in base ten, then `suffix`.
fn numbered(prefix: &str, n: u64, suffix: &str) -> (r: String)
    ensures
        r@ == prefix@ + decimal(n as nat) + suffix@,
{
    let mut s = prefix.to_owned();
    push_decimal(&mut s, n);
    s.append(suffix);
    s
}

fn push_log(logs: &mut Vec<LogEntry>, ts: u64, msg: String)
    requires
        old(logs)@.len() <= MAX_LOGS,
    ensures
        appended_log(old(logs)@, final(logs)@, ts, msg@),
        final(logs)@.len() <= MAX_LOGS,
{
    let ghost before = logs@;
    if logs.len() >= MAX_LOGS {
        logs.remove(0);
    }
    let ghost kept = logs@;
    assert(kept =~= if before.len() >= MAX_LOGS { before.drop_first() } else { before });
    logs.push(LogEntry { ts, msg });
    assert(logs@.subrange(0, kept.len() as int) =~= kept);
}

fn elapsed_ms(a: u64, b: u64) -> (r: u64)
    ensures
        r == elapsed(a, b),
{
    if b >= a { b - a } else { 0 }
}

fn percent_of(ocr: usize, trans: usize, total: usize) -> (r: u8)
    requires
        total > 0,
        ocr <= total,
        trans <= total,
    ensures
        r as nat == stage_percent(ocr as nat, trans as nat, total as nat),
        r <= 95,
{
    let t = total as u128;
    let sum: u128 = 5 * t + 45 * (ocr as u128) + 45 * (trans as u128);
    let p = sum / t;
    proof {
        let ti = total as int;
        assert(sum <= 95 * ti) by (nonlinear_arith)
            requires sum == 5 * ti + 45 * (ocr as int) + 45 * (trans as int), ocr <= ti, trans <= ti;
        let si = sum as int;
        assert(si / ti <= 95) by (nonlinear_arith)
            requires si <= 95 * ti, ti > 0;
    }
    p as u8
}

fn refresh_progress(p: &mut TaskProgress)
    requires
        old(p).ocr_done <= old(p).total_pages,
        old(p).translate_done <= old(p).total_pages,
    ensures
        progress_refreshed(*old(p), *final(p)),
        old(p).overall_percent <= 100 ==> final(p).overall_percent <= 100,
{
    let total = p.total_pages;
    if total == 0 {
        return;
    }
    p.overall_percent = percent_of(p.ocr_done, p.translate_done, total);
    let mut m = numbered("OCR: ", p.ocr_done as u64, "/");
    push_decimal(&mut m, total as u64);
    m.append(", 翻译: ");
    push_decimal(&mut m, p.translate_done as u64);
    m.append("/");
    push_decimal(&mut m, total as u64);
    p.message = m;
}

fn new_task(filename: &str, now: u64) -> (d: TaskData)
    ensures
        fresh_task(d, filename@, now),
        task_wf(d),
{
    let mut logs: Vec<LogEntry> = Vec::new();
    logs.push(LogEntry { ts: now, msg: "任务开始".to_owned() });
    TaskData {
        progress: TaskProgress {
            status: TaskStatus::Rendering,
            total_pages: 0,
            ocr_done: 0,
            translate_done: 0,
            message: "正在处理 PDF...".to_owned(),
            overall_percent: 0,
            filename: filename.to_owned(),
            logs,
            page_summaries: Vec::new(),
        },
        pdf_data: None,
        cancelled: false,
        started_at: now,
        is_retrying: false,
    }
}

fn pending_pages(total: usize) -> (v: Vec<PageSummary>)
    ensures
        v@.len() == total,
        forall|i: int| 0 <= i < total ==> pending_summary(#[trigger] v@[i], (i + 1) as nat),
{
    let mut v: Vec<PageSummary> = Vec::new();
    let mut i: usize = 0;
    while i < total
        invariant
            i <= total,
            v@.len() == i,
            forall|j: int| 0 <= j < i ==> pending_summary(#[trigger] v@[j], (j + 1) as nat),
        decreases total - i,
    {
        v.push(PageSummary {
            page_num: i + 1,
            ocr_started: None,
            ocr_duration_ms: None,
            ocr_chars: None,
            ocr_text_preview: None,
            translate_started: None,
            translate_duration_ms: None,
            translated_chars: None,
            translated_text_preview: None,
            status: "pending".to_owned(),
            error: None,
        });
        i = i + 1;
    }
    v
}

impl TaskData {
    fn cancel(&mut self, now: u64) -> (r: bool)
        requires
            task_wf(*old(self)),
        ensures
            task_wf(*final(self)),
            cancel_step(*old(self), *final(self), now),
            r == !old(self).progress.status.is_terminal(),
    {
        if self.progress.is_done() {
            return false;
        }
        self.cancelled = true;
        self.progress.status = TaskStatus::Error;
        self.progress.message = "任务已取消".to_owned();
        push_log(&mut self.progress.logs, now, "任务取消".to_owned());
        true
    }

    fn begin_rendering(&mut self, total_pages: usize, now: u64)
        requires
            task_wf(*old(self)),
        ensures
            task_wf(*final(self)),
            rendering_step(*old(self), *final(self), total_pages, now),
    {
        if self.progress.is_done() {
            return;
        }
        self.progress.status = TaskStatus::Rendering;
        self.progress.total_pages = total_pages;
        self.progress.ocr_done = 0;
        self.progress.translate_done = 0;
        self.progress.overall_percent = 5;
        self.progress.message = numbered("共 ", total_pages as u64, " 页，开始并行处理...");
        push_log(&mut self.progress.logs, now, numbered("渲染完成，共 ", total_pages as u64, " 页"));
        self.progress.page_summaries = pending_pages(total_pages);
    }

    fn change_status(&mut self, status: TaskStatus, percent: u8, msg: &str, log: &str, now: u64)
        requires
            task_wf(*old(self)),
            !status.is_terminal(),
            percent <= 100,
        ensures
            task_wf(*final(self)),
            status_step(*old(self), *final(self), status, percent, msg@, log@, now),
    {
        if self.progress.is_done() {
            return;
        }
        self.progress.status = status;
        self.progress.overall_percent = percent;
        self.progress.message = msg.to_owned();
        push_log(&mut self.progress.logs, now, log.to_owned());
    }

    fn complete(&mut self, pdf_data: Vec<u8>, now: u64)
        requires
            task_wf(*old(self)),
        ensures
            task_wf(*final(self)),
            complete_step(*old(self), *final(self), pdf_data@, now),
    {
        if self.progress.is_done() {
            return;
        }
        let secs = elapsed_ms(self.started_at, now) / 1000;
        self.progress.status = TaskStatus::Complete;
        self.progress.overall_percent = 100;
        self.progress.message = numbered("完成！用时 ", secs, " 秒");
        push_log(&mut self.progress.logs, now, numbered("完成，用时 ", secs, " 秒"));
        self.pdf_data = Some(pdf_data);
    }

    fn fail(&mut self, error: String, now: u64)
        requires
            task_wf(*old(self)),
        ensures
            task_wf(*final(self)),
            status_step(*old(self), *final(self), TaskStatus::Error, old(self).progress.overall_percent,
                error@, "错误: "@ + error@, now),
    {
        if self.progress.is_done() {
            return;
        }
        let mut log = "错误: ".to_owned();
        log.append(error.as_str());
        self.progress.status = TaskStatus::Error;
        self.progress.message = error;
        push_log(&mut self.progress.logs, now, log);
    }

    fn log(&mut self, msg: String, now: u64)
        requires
            task_wf(*old(self)),
        ensures
            task_wf(*final(self)),
            log_step(*old(self), *final(self), msg@, now),
    {
        push_log(&mut self.progress.logs, now, msg);
    }
}

impl TaskData {
    fn page_ocr_start(&mut self, page: usize, now: u64)
        requires
            task_wf(*old(self)),
        ensures
            task_wf(*final(self)),
            page_only_step(*old(self), *final(self), page, |a: PageSummary, b: PageSummary| ocr_started(a, b, now)),
    {
        if page == 0 || page > self.progress.page_summaries.len() {
            return;
        }
        let ps = &mut self.progress.page_summaries[page - 1];
        ps.ocr_started = Some(now);
        ps.status = "ocr".to_owned();
        ps.error = None;
    }

    fn page_translate_start(&mut self, page: usize, now: u64)
        requires
            task_wf(*old(self)),
        ensures
            task_wf(*final(self)),
            page_only_step(*old(self), *final(self), page, |a: PageSummary, b: PageSummary| translate_started(a, b, now)),
    {
        if page == 0 || page > self.progress.page_summaries.len() {
            return;
        }
        let ps = &mut self.progress.page_summaries[page - 1];
        ps.translate_started = Some(now);
        ps.status = "translating".to_owned();
    }

    fn page_error(&mut self, page: usize, error: String)
        requires
            task_wf(*old(self)),
        ensures
            task_wf(*final(self)),
            page_only_step(*old(self), *final(self), page, |a: PageSummary, b: PageSummary| page_failed(a, b, error@)),
    {
        if page == 0 || page > self.progress.page_summaries.len() {
            return;
        }
        let ps = &mut self.progress.page_summaries[page - 1];
        ps.status = "error".to_owned();
        ps.error = Some(error);
    }

    fn page_ocr_finish(&mut self, page: usize, chars: usize, preview: String, now: u64)
        requires
            task_wf(*old(self)),
        ensures
            task_wf(*final(self)),
            page_finish_step(*old(self), *final(self), page, false,
                |a: PageSummary, b: PageSummary| ocr_finished(a, b, chars, preview@, now)),
    {
        if self.progress.ocr_done < self.progress.total_pages {
            self.progress.ocr_done = self.progress.ocr_done + 1;
        }
        if page >= 1 && page <= self.progress.page_summaries.len() {
            let ps = &mut self.progress.page_summaries[page - 1];
            match ps.ocr_started {
                Some(started) => {
                    ps.ocr_duration_ms = Some(elapsed_ms(started, now));
                },
                None => {},
            }
            ps.ocr_chars = Some(chars);
            ps.ocr_text_preview = Some(preview);
        }
        if !self.progress.is_done() {
            refresh_progress(&mut self.progress);
        }
    }

    fn page_translate_finish(&mut self, page: usize, chars: usize, preview: String, now: u64)
        requires
            task_wf(*old(self)),
        ensures
            task_wf(*final(self)),
            page_finish_step(*old(self), *final(self), page, true,
                |a: PageSummary, b: PageSummary| translate_finished(a, b, chars, preview@, now)),
    {
        if self.progress.translate_done < self.progress.total_pages {
            self.progress.translate_done = self.progress.translate_done + 1;
        }
        if page >= 1 && page <= self.progress.page_summaries.len() {
            let ps = &mut self.progress.page_summaries[page - 1];
            match ps.translate_started {
                Some(started) => {
                    ps.translate_duration_ms = Some(elapsed_ms(started, now));
                },
                None => {},
            }
            ps.translated_chars = Some(chars);
            ps.translated_text_preview = Some(preview);
            ps.status = "done".to_owned();
            ps.error = None;
        }
        if !self.progress.is_done() {
            refresh_progress(&mut self.progress);
        }
    }

    fn begin_retry(&mut self, now: u64)
        requires
            task_wf(*old(self)),
            retry_allowed(*old(self)),
        ensures
            task_wf(*final(self)),
            retry_step(*old(self), *final(self), now),
    {
        self.is_retrying = true;
        self.progress.status = TaskStatus::Processing;
        self.progress.message = "重试中...".to_owned();
        push_log(&mut self.progress.logs, now, "开始重试".to_owned());
    }

    fn reset_for_retry(&mut self, completed: usize, total: usize)
        requires
            task_wf(*old(self)),
        ensures
            task_wf(*final(self)),
            retry_progress_step(*old(self), *final(self), completed, total),
    {
        let c = if completed <= total { completed } else { total };
        self.progress.ocr_done = c;
        self.progress.translate_done = c;
        self.progress.total_pages = total;
        if self.progress.page_summaries.len() != total {
            self.progress.page_summaries = pending_pages(total);
        }
        if !self.progress.is_done() {
            refresh_progress(&mut self.progress);
        }
    }
}

struct TaskEntry {
    id: String,
    data: TaskData,
}

spec fn ids_unique(s: Seq<TaskEntry>) -> bool {
    forall|i: int, j: int|
        0 <= i < s.len() && 0 <= j < s.len() && #[trigger] s[i].id@ == #[trigger] s[j].id@ ==> i == j
}

spec fn entries_wf(s: Seq<TaskEntry>) -> bool {
    &&& ids_unique(s)
    &&& forall|i: int| 0 <= i < s.len() ==> task_wf(#[trigger] s[i].data)
}

spec fn index_of(s: Seq<TaskEntry>, k: Seq<char>) -> Option<int> {
    if exists|i: int| 0 <= i < s.len() && #[trigger] s[i].id@ == k {
        Some(choose|i: int| 0 <= i < s.len() && #[trigger] s[i].id@ == k)
    } else {
        None
    }
}

spec fn lookup(s: Seq<TaskEntry>, k: Seq<char>) -> Option<TaskData> {
    match index_of(s, k) {
        Some(i) => Some(s[i].data),
        None => None,
    }
}

spec fn id_list(s: Seq<TaskEntry>) -> Seq<Seq<char>> {
    s.map_values(|e: TaskEntry| e.id@)
}

proof fn lemma_lookup_at(s: Seq<TaskEntry>, j: int)
    requires
        ids_unique(s),
        0 <= j < s.len(),
    ensures
        index_of(s, s[j].id@) == Some(j),
        lookup(s, s[j].id@) == Some(s[j].data),
{
    let k = s[j].id@;
    assert(exists|i: int| 0 <= i < s.len() && #[trigger] s[i].id@ == k);
    let c = choose|i: int| 0 <= i < s.len() && #[trigger] s[i].id@ == k;
    assert(s[c].id@ == s[j].id@);
}

proof fn lemma_lookup_absent(s: Seq<TaskEntry>, k: Seq<char>)
    requires
        forall|i: int| 0 <= i < s.len() ==> #[trigger] s[i].id@ != k,
    ensures
        index_of(s, k) is None,
        lookup(s, k) is None,
{
}

proof fn lemma_set_entry(s: Seq<TaskEntry>, i: int, e: TaskEntry)
    requires
        entries_wf(s),
        0 <= i < s.len(),
        e.id@ == s[i].id@,
        task_wf(e.data),
    ensures
        entries_wf(s.update(i, e)),
        lookup(s.update(i, e), s[i].id@) == Some(e.data),
        forall|k: Seq<char>| k != s[i].id@ ==> #[trigger] lookup(s.update(i, e), k) == lookup(s, k),
        id_list(s.update(i, e)) == id_list(s),
{
    let t = s.update(i, e);
    assert(ids_unique(t)) by {
        assert forall|a: int, b: int|
            0 <= a < t.len() && 0 <= b < t.len() && #[trigger] t[a].id@ == #[trigger] t[b].id@ implies a == b by {
            assert(t[a].id@ == s[a].id@);
            assert(t[b].id@ == s[b].id@);
        }
    }
    lemma_lookup_at(t, i);
    assert forall|k: Seq<char>| k != s[i].id@ implies #[trigger] lookup(t, k) == lookup(s, k) by {
        if exists|j: int| 0 <= j < s.len() && #[trigger] s[j].id@ == k {
            let j = choose|j: int| 0 <= j < s.len() && #[trigger] s[j].id@ == k;
            lemma_lookup_at(s, j);
            assert(t[j] == s[j]);
            lemma_lookup_at(t, j);
        } else {
            assert forall|j: int| 0 <= j < t.len() implies #[trigger] t[j].id@ != k by {
                if j != i {
                    assert(t[j] == s[j]);
                }
            }
            lemma_lookup_absent(t, k);
            lemma_lookup_absent(s, k);
        }
    }
    assert(id_list(t) =~= id_list(s));
}

/// The registry: every known task, keyed by its id, and the admission gate.
pub struct AppState {
    pub config: Config,
    /// Task records with pairwise distinct ids, in creation order.
    tasks: Vec<TaskEntry>,
    active_task_count: usize,
    max_tasks: usize,
}

/// `b` differs from `a` at most in the record of task `id`, and there by `step`.
pub open spec fn task_updated(
    a: AppState,
    b: AppState,
    id: Seq<char>,
    step: spec_fn(TaskData, TaskData) -> bool,
) -> bool {
    &&& b.cfg() == a.cfg()
    &&& b.active() == a.active()
    &&& b.limit() == a.limit()
    &&& b.ids() == a.ids()
    &&& forall|k: Seq<char>| k != id ==> #[trigger] b.task(k) == a.task(k)
    &&& match a.task(id) {
        Some(x) => b.task(id) matches Some(y) && step(x, y),
        None => b.task(id) is None,
    }
}

/// `b` holds the same tasks as `a`.
pub open spec fn same_tasks(a: AppState, b: AppState) -> bool {
    &&& b.cfg() == a.cfg()
    &&& b.ids() == a.ids()
    &&& forall|k: Seq<char>| #[trigger] b.task(k) == a.task(k)
}

/// Whether the admission gate lets one more task in.
pub open spec fn slot_available(active: nat, limit: nat) -> bool {
    active < limit
}

/// Why a retry is refused, for a task that exists.
pub open spec fn retry_refusal(d: TaskData) -> Seq<char> {
    if d.progress.status != TaskStatus::Error {
        "只能重试失败的任务"@
    } else if d.cancelled {
        "已取消的任务不能重试"@
    } else {
        "任务正在重试中"@
    }
}

/// `p` is a copy of `q`.
pub open spec fn progress_copy(p: TaskProgress, q: TaskProgress) -> bool {
    &&& p.status == q.status
    &&& p.total_pages == q.total_pages
    &&& p.ocr_done == q.ocr_done
    &&& p.translate_done == q.translate_done
    &&& p.message@ == q.message@
    &&& p.overall_percent == q.overall_percent
    &&& p.filename@ == q.filename@
    &&& p.logs@ == q.logs@
    &&& p.page_summaries@ == q.page_summaries@
}

/// Whether a task is due for reclamation at time `now`.
pub open spec fn expired(d: TaskData, now: u64) -> bool {
    d.progress.status.is_terminal() && elapsed(d.started_at, now) >= RETENTION_MS
}

fn copy_opt_string(o: &Option<String>) -> (r: Option<String>)
    ensures
        r == *o,
{
    match o {
        Some(s) => Some(s.clone()),
        None => None,
    }
}

fn copy_progress(p: &TaskProgress) -> (r: TaskProgress)
    ensures
        progress_copy(r, *p),
{
    let mut logs: Vec<LogEntry> = Vec::new();
    let mut i: usize = 0;
    while i < p.logs.len()
        invariant
            i <= p.logs@.len(),
            logs@ == p.logs@.subrange(0, i as int),
        decreases p.logs@.len() - i,
    {
        let e = &p.logs[i];
        logs.push(LogEntry { ts: e.ts, msg: e.msg.clone() });
        i = i + 1;
        assert(logs@ =~= p.logs@.subrange(0, i as int));
    }
    let mut pages: Vec<PageSummary> = Vec::new();
    let mut j: usize = 0;
    while j < p.page_summaries.len()
        invariant
            j <= p.page_summaries@.len(),
            pages@ == p.page_summaries@.subrange(0, j as int),
        decreases p.page_summaries@.len() - j,
    {
        let s = &p.page_summaries[j];
        pages.push(PageSummary {
            page_num: s.page_num,
            ocr_started: s.ocr_started,
            ocr_duration_ms: s.ocr_duration_ms,
            ocr_chars: s.ocr_chars,
            ocr_text_preview: copy_opt_string(&s.ocr_text_preview),
            translate_started: s.translate_started,
            translate_duration_ms: s.translate_duration_ms,
            translated_chars: s.translated_chars,
            translated_text_preview: copy_opt_string(&s.translated_text_preview),
            status: s.status.clone(),
            error: copy_opt_string(&s.error),
        });
        j = j + 1;
        assert(pages@ =~= p.page_summaries@.subrange(0, j as int));
    }
    assert(logs@ =~= p.logs@);
    assert(pages@ =~= p.page_summaries@);
    TaskProgress {
        status: p.status,
        total_pages: p.total_pages,
        ocr_done: p.ocr_done,
        translate_done: p.translate_done,
        message: p.message.clone(),
        overall_percent: p.overall_percent,
        filename: p.filename.clone(),
        logs,
        page_summaries: pages,
    }
}

impl AppState {
    /// Task `id`, if the registry knows it.
    pub closed spec fn task(&self, id: Seq<char>) -> Option<TaskData> {
        lookup(self.tasks@, id)
    }

    /// Ids of the known tasks, in listing order.
    pub closed spec fn ids(&self) -> Seq<Seq<char>> {
        id_list(self.tasks@)
    }

    /// The service settings the registry was built with.
    pub closed spec fn cfg(&self) -> Config {
        self.config
    }

    /// Number of admission slots in use.
    pub closed spec fn active(&self) -> nat {
        self.active_task_count as nat
    }

    /// The admission ceiling.
    pub closed spec fn limit(&self) -> nat {
        self.max_tasks as nat
    }

    pub closed spec fn wf(&self) -> bool {
        &&& entries_wf(self.tasks@)
        &&& self.active_task_count <= self.max_tasks
    }

    /// Every task record of a well-formed registry keeps the task invariant,
    /// and the listed ids are exactly the known tasks.
    pub proof fn lemma_tasks_wf(&self, id: Seq<char>)
        requires
            self.wf(),
        ensures
            self.task(id) matches Some(d) ==> task_wf(d),
            self.task(id) is Some <==> self.ids().contains(id),
    {
        let s = self.tasks@;
        if exists|i: int| 0 <= i < s.len() && #[trigger] s[i].id@ == id {
            let i = choose|i: int| 0 <= i < s.len() && #[trigger] s[i].id@ == id;
            lemma_lookup_at(s, i);
            assert(id_list(s)[i] == id);
        } else {
            lemma_lookup_absent(s, id);
            if self.ids().contains(id) {
                let j = choose|j: int| 0 <= j < id_list(s).len() && id_list(s)[j] == id;
                assert(s[j].id@ == id);
            }
        }
    }

    /// A registry with the default admission ceiling.
    pub fn new(config: Config) -> (r: Self)
        ensures
            r.wf(),
            r.cfg() == config,
            r.ids().len() == 0,
            forall|k: Seq<char>| #[trigger] r.task(k) is None,
            r.active() == 0,
            r.limit() == MAX_CONCURRENT_TASKS,
    {
        Self::with_task_limit(config, MAX_CONCURRENT_TASKS)
    }

    /// A registry admitting at most `limit` tasks at once.
    pub fn with_task_limit(config: Config, limit: usize) -> (r: Self)
        ensures
            r.wf(),
            r.cfg() == config,
            r.ids().len() == 0,
            forall|k: Seq<char>| #[trigger] r.task(k) is None,
            r.active() == 0,
            r.limit() == limit,
    {
        let r = AppState { config, tasks: Vec::new(), active_task_count: 0, max_tasks: limit };
        assert forall|k: Seq<char>| #[trigger] r.task(k) is None by {
            lemma_lookup_absent(r.tasks@, k);
        }
        assert(id_list(r.tasks@) =~= Seq::empty());
        r
    }

    fn position(&self, task_id: &str) -> (r: Option<usize>)
        requires
            self.wf(),
        ensures
            match r {
                Some(i) => i < self.tasks@.len() && self.tasks@[i as int].id@ == task_id@
                    && index_of(self.tasks@, task_id@) == Some(i as int),
                None => index_of(self.tasks@, task_id@) is None,
            },
    {
        let key = task_id.to_owned();
        let mut i: usize = 0;
        while i < self.tasks.len()
            invariant
                i <= self.tasks@.len(),
                key@ == task_id@,
                self.wf(),
                forall|j: int| 0 <= j < i ==> #[trigger] self.tasks@[j].id@ != task_id@,
            decreases self.tasks@.len() - i,
        {
            if self.tasks[i].id == key {
                proof { lemma_lookup_at(self.tasks@, i as int); }
                return Some(i);
            }
            i = i + 1;
        }
        proof { lemma_lookup_absent(self.tasks@, task_id@); }
        None
    }

    /// Takes an admission slot if one is free.
    pub fn try_acquire_task_slot(&mut self) -> (r: bool)
        requires
            old(self).wf(),
        ensures
            final(self).wf(),
            r == slot_available(old(self).active(), old(self).limit()),
            final(self).active() == if r { old(self).active() + 1 } else { old(self).active() },
            final(self).limit() == old(self).limit(),
            same_tasks(*old(self), *final(self)),
    {
        if self.active_task_count < self.max_tasks {
            self.active_task_count = self.active_task_count + 1;
            true
        } else {
            false
        }
    }

    /// Gives an admission slot back.
    pub fn release_task_slot(&mut self)
        requires
            old(self).wf(),
        ensures
            final(self).wf(),
            final(self).active() == if old(self).active() > 0 { old(self).active() - 1 } else { 0 },
            final(self).limit() == old(self).limit(),
            same_tasks(*old(self), *final(self)),
    {
        if self.active_task_count > 0 {
            self.active_task_count = self.active_task_count - 1;
        }
    }

    pub fn active_task_count(&self) -> (r: usize)
        ensures
            r == self.active(),
    {
        self.active_task_count
    }

    /// The admission ceiling.
    pub fn task_limit(&self) -> (r: usize)
        ensures
            r == self.limit(),
    {
        self.max_tasks
    }

    /// Slots in use never exceed the ceiling: every successful acquisition
    /// found a free slot, and a release never goes below zero.
    pub proof fn lemma_slots_bounded(&self)
        requires
            self.wf(),
        ensures
            self.active() <= self.limit(),
    {
    }

    /// Registers a new task; a task already known under that id is left as
    /// it is.
    pub fn create_task(&mut self, task_id: &str, filename: &str, now: u64)
        requires
            old(self).wf(),
        ensures
            final(self).wf(),
            final(self).active() == old(self).active(),
            final(self).limit() == old(self).limit(),
            final(self).cfg() == old(self).cfg(),
            old(self).task(task_id@) is Some ==> *final(self) == *old(self),
            old(self).task(task_id@) is None ==> (final(self).task(task_id@) matches Some(d)
                && fresh_task(d, filename@, now)),
            forall|k: Seq<char>| k != task_id@ ==> #[trigger] final(self).task(k) == old(self).task(k),
            old(self).ids().contains(task_id@) ==> final(self).ids() == old(self).ids(),
            !old(self).ids().contains(task_id@) ==> final(self).ids() == old(self).ids().push(task_id@),
    {
        proof { self.lemma_tasks_wf(task_id@); }
        match self.position(task_id) {
            Some(_) => {},
            None => {
                let data = new_task(filename, now);
                let ghost s = self.tasks@;
                self.tasks.push(TaskEntry { id: task_id.to_owned(), data });
                proof {
                    let t = self.tasks@;
                    assert forall|a: int, b: int|
                        0 <= a < t.len() && 0 <= b < t.len() && #[trigger] t[a].id@ == #[trigger] t[b].id@ implies a == b by {
                        if a < s.len() && b < s.len() {
                            assert(t[a] == s[a] && t[b] == s[b]);
                        } else if a < s.len() {
                            assert(t[a] == s[a]);
                        } else if b < s.len() {
                            assert(t[b] == s[b]);
                        }
                    }
                    assert forall|i: int| 0 <= i < t.len() implies task_wf(#[trigger] t[i].data) by {
                        if i < s.len() { assert(t[i] == s[i]); }
                    }
                    lemma_lookup_at(t, s.len() as int);
                    assert forall|k: Seq<char>| k != task_id@ implies #[trigger] lookup(t, k) == lookup(s, k) by {
                        if exists|j: int| 0 <= j < s.len() && #[trigger] s[j].id@ == k {
                            let j = choose|j: int| 0 <= j < s.len() && #[trigger] s[j].id@ == k;
                            lemma_lookup_at(s, j);
                            assert(t[j] == s[j]);
                            lemma_lookup_at(t, j);
                        } else {
                            assert forall|j: int| 0 <= j < t.len() implies #[trigger] t[j].id@ != k by {
                                if j < s.len() { assert(t[j] == s[j]); }
                            }
                            lemma_lookup_absent(t, k);
                            lemma_lookup_absent(s, k);
                        }
                    }
                    assert(id_list(t) =~= id_list(s).push(task_id@));
                }
            },
        }
    }

    /// Marks rendering as done with `total_pages` pages, all pending.
    pub fn set_rendering(&mut self, task_id: &str, total_pages: usize, now: u64)
        requires
            old(self).wf(),
        ensures
            final(self).wf(),
            task_updated(*old(self), *final(self), task_id@, |a: TaskData, b: TaskData| rendering_step(a, b, total_pages, now)),
    {
        proof { self.lemma_tasks_wf(task_id@); }
        match self.position(task_id) {
            Some(i) => {
                let ghost s = self.tasks@;
                self.tasks[i].data.begin_rendering(total_pages, now);
                proof { lemma_set_entry(s, i as int, self.tasks@[i as int]); }
            },
            None => {},
        }
    }

    /// Enters the page-processing stage.
    pub fn set_processing(&mut self, task_id: &str, now: u64)
        requires
            old(self).wf(),
        ensures
            final(self).wf(),
            task_updated(*old(self), *final(self), task_id@, |a: TaskData, b: TaskData| status_step(a, b, TaskStatus::Processing, a.progress.overall_percent, "并行处理中..."@, "开始并行 OCR + 翻译"@, now)),
    {
        proof { self.lemma_tasks_wf(task_id@); }
        match self.position(task_id) {
            Some(i) => {
                let ghost s = self.tasks@;
                let pct = self.tasks[i].data.progress.overall_percent;
                self.tasks[i].data.change_status(TaskStatus::Processing, pct, "并行处理中...", "开始并行 OCR + 翻译", now);
                proof { lemma_set_entry(s, i as int, self.tasks@[i as int]); }
            },
            None => {},
        }
    }

    /// Enters the document-generation stage.
    pub fn set_generating(&mut self, task_id: &str, now: u64)
        requires
            old(self).wf(),
        ensures
            final(self).wf(),
            task_updated(*old(self), *final(self), task_id@, |a: TaskData, b: TaskData| status_step(a, b, TaskStatus::Generating, 95, "正在生成 PDF..."@, "开始生成 PDF"@, now)),
    {
        proof { self.lemma_tasks_wf(task_id@); }
        match self.position(task_id) {
            Some(i) => {
                let ghost s = self.tasks@;
                self.tasks[i].data.change_status(TaskStatus::Generating, 95, "正在生成 PDF...", "开始生成 PDF", now);
                proof { lemma_set_entry(s, i as int, self.tasks@[i as int]); }
            },
            None => {},
        }
    }

    /// Completes the task with its final artifact.
    pub fn set_complete(&mut self, task_id: &str, pdf_data: Vec<u8>, now: u64)
        requires
            old(self).wf(),
        ensures
            final(self).wf(),
            task_updated(*old(self), *final(self), task_id@, |a: TaskData, b: TaskData| complete_step(a, b, pdf_data@, now)),
    {
        proof { self.lemma_tasks_wf(task_id@); }
        match self.position(task_id) {
            Some(i) => {
                let ghost s = self.tasks@;
                self.tasks[i].data.complete(pdf_data, now);
                proof { lemma_set_entry(s, i as int, self.tasks@[i as int]); }
            },
            None => {},
        }
    }

    /// Ends the task with an error message.
    pub fn set_error(&mut self, task_id: &str, error: String, now: u64)
        requires
            old(self).wf(),
        ensures
            final(self).wf(),
            task_updated(*old(self), *final(self), task_id@, |a: TaskData, b: TaskData| status_step(a, b, TaskStatus::Error, a.progress.overall_percent, error@, "错误: "@ + error@, now)),
    {
        proof { self.lemma_tasks_wf(task_id@); }
        match self.position(task_id) {
            Some(i) => {
                let ghost s = self.tasks@;
                self.tasks[i].data.fail(error, now);
                proof { lemma_set_entry(s, i as int, self.tasks@[i as int]); }
            },
            None => {},
        }
    }

    /// Appends a line to the task's log trail.
    pub fn add_log(&mut self, task_id: &str, msg: String, now: u64)
        requires
            old(self).wf(),
        ensures
            final(self).wf(),
            task_updated(*old(self), *final(self), task_id@, |a: TaskData, b: TaskData| log_step(a, b, msg@, now)),
    {
        proof { self.lemma_tasks_wf(task_id@); }
        match self.position(task_id) {
            Some(i) => {
                let ghost s = self.tasks@;
                self.tasks[i].data.log(msg, now);
                proof { lemma_set_entry(s, i as int, self.tasks@[i as int]); }
            },
            None => {},
        }
    }

    /// Records that recognition of a page started.
    pub fn start_page_ocr(&mut self, task_id: &str, page_num: usize, now: u64)
        requires
            old(self).wf(),
        ensures
            final(self).wf(),
            task_updated(*old(self), *final(self), task_id@, |a: TaskData, b: TaskData| page_only_step(a, b, page_num, |x: PageSummary, y: PageSummary| ocr_started(x, y, now))),
    {
        proof { self.lemma_tasks_wf(task_id@); }
        match self.position(task_id) {
            Some(i) => {
                let ghost s = self.tasks@;
                self.tasks[i].data.page_ocr_start(page_num, now);
                proof { lemma_set_entry(s, i as int, self.tasks@[i as int]); }
            },
            None => {},
        }
    }

    /// Records a page's recognized text statistics.
    pub fn finish_page_ocr(&mut self, task_id: &str, page_num: usize, char_count: usize, text_preview: String, now: u64)
        requires
            old(self).wf(),
        ensures
            final(self).wf(),
            task_updated(*old(self), *final(self), task_id@, |a: TaskData, b: TaskData| page_finish_step(a, b, page_num, false, |x: PageSummary, y: PageSummary| ocr_finished(x, y, char_count, text_preview@, now))),
    {
        proof { self.lemma_tasks_wf(task_id@); }
        match self.position(task_id) {
            Some(i) => {
                let ghost s = self.tasks@;
                self.tasks[i].data.page_ocr_finish(page_num, char_count, text_preview, now);
                proof { lemma_set_entry(s, i as int, self.tasks@[i as int]); }
            },
            None => {},
        }
    }

    /// Records that translation of a page started.
    pub fn start_page_translate(&mut self, task_id: &str, page_num: usize, now: u64)
        requires
            old(self).wf(),
        ensures
            final(self).wf(),
            task_updated(*old(self), *final(self), task_id@, |a: TaskData, b: TaskData| page_only_step(a, b, page_num, |x: PageSummary, y: PageSummary| translate_started(x, y, now))),
    {
        proof { self.lemma_tasks_wf(task_id@); }
        match self.position(task_id) {
            Some(i) => {
                let ghost s = self.tasks@;
                self.tasks[i].data.page_translate_start(page_num, now);
                proof { lemma_set_entry(s, i as int, self.tasks@[i as int]); }
            },
            None => {},
        }
    }

    /// Records a page's translated text statistics.
    pub fn finish_page_translate(&mut self, task_id: &str, page_num: usize, char_count: usize, text_preview: String, now: u64)
        requires
            old(self).wf(),
        ensures
            final(self).wf(),
            task_updated(*old(self), *final(self), task_id@, |a: TaskData, b: TaskData| page_finish_step(a, b, page_num, true, |x: PageSummary, y: PageSummary| translate_finished(x, y, char_count, text_preview@, now))),
    {
        proof { self.lemma_tasks_wf(task_id@); }
        match self.position(task_id) {
            Some(i) => {
                let ghost s = self.tasks@;
                self.tasks[i].data.page_translate_finish(page_num, char_count, text_preview, now);
                proof { lemma_set_entry(s, i as int, self.tasks@[i as int]); }
            },
            None => {},
        }
    }

    /// Records a page failure.
    pub fn set_page_error(&mut self, task_id: &str, page_num: usize, error: String)
        requires
            old(self).wf(),
        ensures
            final(self).wf(),
            task_updated(*old(self), *final(self), task_id@, |a: TaskData, b: TaskData| page_only_step(a, b, page_num, |x: PageSummary, y: PageSummary| page_failed(x, y, error@))),
    {
        proof { self.lemma_tasks_wf(task_id@); }
        match self.position(task_id) {
            Some(i) => {
                let ghost s = self.tasks@;
                self.tasks[i].data.page_error(page_num, error);
                proof { lemma_set_entry(s, i as int, self.tasks@[i as int]); }
            },
            None => {},
        }
    }

    /// Clears the retry flag, whatever the outcome of the retry.
    pub fn finish_retry(&mut self, task_id: &str)
        requires
            old(self).wf(),
        ensures
            final(self).wf(),
            task_updated(*old(self), *final(self), task_id@, |a: TaskData, b: TaskData| b == TaskData { is_retrying: false, ..a }),
    {
        proof { self.lemma_tasks_wf(task_id@); }
        match self.position(task_id) {
            Some(i) => {
                let ghost s = self.tasks@;
                self.tasks[i].data.is_retrying = false;
                proof { lemma_set_entry(s, i as int, self.tasks@[i as int]); }
            },
            None => {},
        }
    }

    /// Cancels a task that has not ended; returns whether it did.
    pub fn cancel_task(&mut self, task_id: &str, now: u64) -> (r: bool)
        requires
            old(self).wf(),
        ensures
            final(self).wf(),
            task_updated(*old(self), *final(self), task_id@, |a: TaskData, b: TaskData| cancel_step(a, b, now)),
            r == (old(self).task(task_id@) matches Some(d) && !d.progress.status.is_terminal()),
    {
        proof { self.lemma_tasks_wf(task_id@); }
        match self.position(task_id) {
            Some(i) => {
                let ghost s = self.tasks@;
                let r = self.tasks[i].data.cancel(now);
                proof { lemma_set_entry(s, i as int, self.tasks@[i as int]); }
                r
            },
            None => false,
        }
    }

    /// Whether the task was cancelled (false for an unknown task).
    pub fn is_cancelled(&self, task_id: &str) -> (r: bool)
        requires
            self.wf(),
        ensures
            r == (self.task(task_id@) matches Some(d) && d.cancelled),
    {
        match self.position(task_id) {
            Some(i) => {
                proof { lemma_lookup_at(self.tasks@, i as int); }
                self.tasks[i].data.cancelled
            },
            None => false,
        }
    }

    /// Page total of the task (zero for an unknown task).
    pub fn get_total_pages(&self, task_id: &str) -> (r: usize)
        requires
            self.wf(),
        ensures
            r == match self.task(task_id@) {
                Some(d) => d.progress.total_pages,
                None => 0,
            },
    {
        match self.position(task_id) {
            Some(i) => {
                proof { lemma_lookup_at(self.tasks@, i as int); }
                self.tasks[i].data.progress.total_pages
            },
            None => 0,
        }
    }

    /// A copy of the task's progress.
    pub fn get_progress(&self, task_id: &str) -> (r: Option<TaskProgress>)
        requires
            self.wf(),
        ensures
            match self.task(task_id@) {
                Some(d) => r matches Some(p) && progress_copy(p, d.progress),
                None => r is None,
            },
    {
        match self.position(task_id) {
            Some(i) => {
                proof { lemma_lookup_at(self.tasks@, i as int); }
                Some(copy_progress(&self.tasks[i].data.progress))
            },
            None => None,
        }
    }

    /// A copy of the final artifact, present once the task is complete.
    pub fn get_pdf_data(&self, task_id: &str) -> (r: Option<Vec<u8>>)
        requires
            self.wf(),
        ensures
            match self.task(task_id@) {
                Some(d) => match d.pdf_data {
                    Some(v) => r matches Some(w) && w@ == v@,
                    None => r is None,
                },
                None => r is None,
            },
    {
        match self.position(task_id) {
            Some(i) => {
                proof { lemma_lookup_at(self.tasks@, i as int); }
                match &self.tasks[i].data.pdf_data {
                    Some(v) => Some(v.clone()),
                    None => None,
                }
            },
            None => None,
        }
    }

    /// One summary per known task, in listing order.
    pub fn get_all_tasks(&self) -> (r: Vec<TaskSummary>)
        requires
            self.wf(),
        ensures
            r@.len() == self.ids().len(),
            forall|i: int| 0 <= i < r@.len() ==> {
                let t = #[trigger] r@[i];
                &&& t.task_id@ == self.ids()[i]
                &&& self.task(self.ids()[i]) matches Some(d)
                &&& t.filename@ == d.progress.filename@
                &&& t.status == d.progress.status
                &&& t.overall_percent == d.progress.overall_percent
                &&& t.ocr_done == d.progress.ocr_done
                &&& t.translate_done == d.progress.translate_done
                &&& t.total_pages == d.progress.total_pages
            },
    {
        let mut r: Vec<TaskSummary> = Vec::new();
        let mut i: usize = 0;
        while i < self.tasks.len()
            invariant
                self.wf(),
                i <= self.tasks@.len(),
                r@.len() == i,
                forall|j: int| 0 <= j < i ==> {
                    let t = #[trigger] r@[j];
                    let e = self.tasks@[j];
                    &&& t.task_id@ == e.id@
                    &&& t.filename@ == e.data.progress.filename@
                    &&& t.status == e.data.progress.status
                    &&& t.overall_percent == e.data.progress.overall_percent
                    &&& t.ocr_done == e.data.progress.ocr_done
                    &&& t.translate_done == e.data.progress.translate_done
                    &&& t.total_pages == e.data.progress.total_pages
                },
            decreases self.tasks@.len() - i,
        {
            let e = &self.tasks[i];
            r.push(TaskSummary {
                task_id: e.id.clone(),
                filename: e.data.progress.filename.clone(),
                status: e.data.progress.status,
                overall_percent: e.data.progress.overall_percent,
                ocr_done: e.data.progress.ocr_done,
                translate_done: e.data.progress.translate_done,
                total_pages: e.data.progress.total_pages,
            });
            i = i + 1;
        }
        proof {
            assert forall|j: int| 0 <= j < r@.len() implies self.task(self.ids()[j]) == Some(self.tasks@[j].data) by {
                lemma_lookup_at(self.tasks@, j);
            }
        }
        r
    }

    /// Reclamation sweep: forgets every terminal task started at least
    /// `RETENTION_MS` before `now` and returns their ids, whose files the
    /// caller then removes.
    #[verifier::rlimit(60)]
    pub fn cleanup_old_tasks(&mut self, now: u64) -> (removed: Vec<String>)
        requires
            old(self).wf(),
        ensures
            final(self).wf(),
            final(self).cfg() == old(self).cfg(),
            final(self).active() == old(self).active(),
            final(self).limit() == old(self).limit(),
            forall|k: Seq<char>| #[trigger] final(self).task(k) == match old(self).task(k) {
                Some(d) => if expired(d, now) { None } else { Some(d) },
                None => None,
            },
            forall|i: int| 0 <= i < removed@.len() ==>
                (old(self).task((#[trigger] removed@[i])@) matches Some(d) && expired(d, now)),
            forall|k: Seq<char>| (#[trigger] old(self).task(k) matches Some(d) && expired(d, now))
                ==> exists|i: int| 0 <= i < removed@.len() && (#[trigger] removed@[i])@ == k,
    {
        let ghost s = self.tasks@;
        let mut rest: Vec<TaskEntry> = Vec::new();
        std::mem::swap(&mut rest, &mut self.tasks);
        let mut kept: Vec<TaskEntry> = Vec::new();
        let mut removed: Vec<String> = Vec::new();
        let ghost mut pos: Seq<int> = Seq::empty();
        let ghost mut rpos: Seq<int> = Seq::empty();
        let n = rest.len();
        let mut i: usize = 0;
        while i < n
            invariant
                entries_wf(s),
                n == s.len(),
                i <= n,
                rest@ == s.subrange(i as int, n as int),
                pos.len() == kept@.len(),
                forall|a: int, b: int| 0 <= a < b < pos.len() ==> pos[a] < pos[b],
                forall|j: int| 0 <= j < pos.len() ==> 0 <= #[trigger] pos[j] < i && kept@[j] == s[pos[j]]
                    && !expired(s[pos[j]].data, now),
                forall|idx: int| 0 <= idx < i && !expired(#[trigger] s[idx].data, now)
                    ==> exists|j: int| 0 <= j < pos.len() && pos[j] == idx,
                rpos.len() == removed@.len(),
                forall|j: int| 0 <= j < rpos.len() ==> 0 <= #[trigger] rpos[j] < i
                    && removed@[j]@ == s[rpos[j]].id@ && expired(s[rpos[j]].data, now),
                forall|idx: int| 0 <= idx < i && expired(#[trigger] s[idx].data, now)
                    ==> exists|j: int| 0 <= j < rpos.len() && rpos[j] == idx,
            decreases n - i,
        {
            let e = rest.remove(0);
            assert(e == s[i as int]);
            let drop_it = e.data.progress.is_done() && elapsed_ms(e.data.started_at, now) >= RETENTION_MS;
            if drop_it {
                let ghost before = removed@;
                let ghost rb = rpos;
                removed.push(e.id.clone());
                proof {
                    rpos = rpos.push(i as int);
                    assert forall|idx: int| 0 <= idx < i + 1 && expired(#[trigger] s[idx].data, now)
                        implies exists|j: int| 0 <= j < rpos.len() && rpos[j] == idx by {
                        if idx < i {
                            let j = choose|j: int| 0 <= j < rb.len() && rb[j] == idx;
                            assert(rpos[j] == rb[j]);
                        } else {
                            assert(rpos[rb.len() as int] == idx);
                        }
                    }
                    assert forall|j: int| 0 <= j < rpos.len() implies 0 <= #[trigger] rpos[j] < i + 1
                        && removed@[j]@ == s[rpos[j]].id@ && expired(s[rpos[j]].data, now) by {
                        if j < rb.len() {
                            assert(rpos[j] == rb[j]);
                            assert(removed@[j] == before[j]);
                        }
                    }
                }
            } else {
                let ghost kb = kept@;
                let ghost pb = pos;
                kept.push(e);
                proof {
                    pos = pos.push(i as int);
                    assert forall|idx: int| 0 <= idx < i + 1 && !expired(#[trigger] s[idx].data, now)
                        implies exists|j: int| 0 <= j < pos.len() && pos[j] == idx by {
                        if idx < i {
                            let j = choose|j: int| 0 <= j < pb.len() && pb[j] == idx;
                            assert(pos[j] == pb[j]);
                        } else {
                            assert(pos[pb.len() as int] == idx);
                        }
                    }
                    assert forall|j: int| 0 <= j < pos.len() implies 0 <= #[trigger] pos[j] < i + 1
                        && kept@[j] == s[pos[j]] && !expired(s[pos[j]].data, now) by {
                        if j < pb.len() {
                            assert(pos[j] == pb[j]);
                            assert(kept@[j] == kb[j]);
                        }
                    }
                }
            }
            i = i + 1;
            assert(rest@ =~= s.subrange(i as int, n as int));
        }
        let ghost t = kept@;
        proof {
            assert forall|a: int, b: int|
                0 <= a < t.len() && 0 <= b < t.len() && #[trigger] t[a].id@ == #[trigger] t[b].id@ implies a == b by {
                assert(s[pos[a]].id@ == s[pos[b]].id@);
                if a < b {
                    assert(pos[a] < pos[b]);
                } else if b < a {
                    assert(pos[b] < pos[a]);
                }
            }
            assert forall|j: int| 0 <= j < t.len() implies task_wf(#[trigger] t[j].data) by {
                assert(t[j] == s[pos[j]]);
            }
        }
        self.tasks = kept;
        proof {
            assert forall|k: Seq<char>| #[trigger] lookup(t, k) == match lookup(s, k) {
                Some(d) => if expired(d, now) { None } else { Some(d) },
                None => None,
            } by {
                if exists|idx: int| 0 <= idx < s.len() && #[trigger] s[idx].id@ == k {
                    let idx = choose|idx: int| 0 <= idx < s.len() && #[trigger] s[idx].id@ == k;
                    lemma_lookup_at(s, idx);
                    if expired(s[idx].data, now) {
                        assert forall|j: int| 0 <= j < t.len() implies #[trigger] t[j].id@ != k by {
                            assert(t[j] == s[pos[j]]);
                            if s[pos[j]].id@ == k {
                                assert(pos[j] == idx);
                            }
                        }
                        lemma_lookup_absent(t, k);
                    } else {
                        let j = choose|j: int| 0 <= j < pos.len() && pos[j] == idx;
                        assert(t[j] == s[idx]);
                        lemma_lookup_at(t, j);
                    }
                } else {
                    lemma_lookup_absent(s, k);
                    assert forall|j: int| 0 <= j < t.len() implies #[trigger] t[j].id@ != k by {
                        assert(t[j] == s[pos[j]]);
                    }
                    lemma_lookup_absent(t, k);
                }
            }
            assert forall|i: int| 0 <= i < removed@.len() implies
                (lookup(s, (#[trigger] removed@[i])@) matches Some(d) && expired(d, now)) by {
                lemma_lookup_at(s, rpos[i]);
            }
            assert forall|k: Seq<char>| (#[trigger] lookup(s, k) matches Some(d) && expired(d, now))
                implies exists|i: int| 0 <= i < removed@.len() && (#[trigger] removed@[i])@ == k by {
                let idx = choose|idx: int| 0 <= idx < s.len() && #[trigger] s[idx].id@ == k;
                lemma_lookup_at(s, idx);
                let j = choose|j: int| 0 <= j < rpos.len() && rpos[j] == idx;
                assert(removed@[j]@ == k);
            }
        }
        removed
    }

    /// Begins a retry of a failed task. Refused, with a reason and no change,
    /// unless the task exists, has status `Error`, was not cancelled and is
    /// not already retrying.
    pub fn try_start_retry(&mut self, task_id: &str, now: u64) -> (r: Result<(), String>)
        requires
            old(self).wf(),
        ensures
            final(self).wf(),
            match old(self).task(task_id@) {
                None => r matches Err(e) && e@ == "任务不存在"@ && *final(self) == *old(self),
                Some(d) => if retry_allowed(d) {
                    &&& r is Ok
                    &&& task_updated(*old(self), *final(self), task_id@, |a: TaskData, b: TaskData| retry_step(a, b, now))
                } else {
                    &&& r matches Err(e) && e@ == retry_refusal(d)
                    &&& *final(self) == *old(self)
                },
            },
    {
        proof { self.lemma_tasks_wf(task_id@); }
        match self.position(task_id) {
            Some(i) => {
                proof { lemma_lookup_at(self.tasks@, i as int); }
                if self.tasks[i].data.progress.status != TaskStatus::Error {
                    return Err("只能重试失败的任务".to_owned());
                }
                if self.tasks[i].data.cancelled {
                    return Err("已取消的任务不能重试".to_owned());
                }
                if self.tasks[i].data.is_retrying {
                    return Err("任务正在重试中".to_owned());
                }
                let ghost s = self.tasks@;
                self.tasks[i].data.begin_retry(now);
                proof { lemma_set_entry(s, i as int, self.tasks@[i as int]); }
                Ok(())
            },
            None => Err("任务不存在".to_owned()),
        }
    }

    /// Resets the counters of a resumed attempt: `completed_count` pages
    /// (at most `total_pages`) count as done in both stages.
    pub fn init_retry_progress(&mut self, task_id: &str, completed_count: usize, total_pages: usize)
        requires
            old(self).wf(),
        ensures
            final(self).wf(),
            task_updated(*old(self), *final(self), task_id@, |a: TaskData, b: TaskData|
                retry_progress_step(a, b, completed_count, total_pages)),
    {
        proof { self.lemma_tasks_wf(task_id@); }
        match self.position(task_id) {
            Some(i) => {
                let ghost s = self.tasks@;
                self.tasks[i].data.reset_for_retry(completed_count, total_pages);
                proof { lemma_set_entry(s, i as int, self.tasks@[i as int]); }
            },
            None => {},
        }
    }
}

/// With a ceiling of `limit` tasks, a submission is refused while `limit`
/// tasks hold a slot, and admitted again once one of them gives its slot back.
pub proof fn lemma_admission_ceiling(limit: nat)
    requires
        limit > 0,
    ensures
        !slot_available(limit, limit),
        slot_available((limit - 1) as nat, limit),
{
}

/// Cancellation is final: every status transition leaves a cancelled task
/// as it is, and page, counter, retry-reset and log updates keep it a
/// cancelled `Error` without an artifact; so it never completes and cannot
/// be retried.
pub proof fn lemma_cancellation_is_final(a: TaskData, b: TaskData)
    requires
        task_wf(a),
        a.cancelled,
    ensures
        !retry_allowed(a),
        forall|s: TaskStatus, p: u8, m: Seq<char>, l: Seq<char>, now: u64|
            #[trigger] status_step(a, b, s, p, m, l, now) ==> b == a,
        forall|pdf: Seq<u8>, now: u64| #[trigger] complete_step(a, b, pdf, now) ==> b == a,
        forall|total: usize, now: u64| #[trigger] rendering_step(a, b, total, now) ==> b == a,
        forall|now: u64| #[trigger] cancel_step(a, b, now) ==> b == a,
        forall|page: usize, f: spec_fn(PageSummary, PageSummary) -> bool|
            #[trigger] page_only_step(a, b, page, f)
            ==> b.cancelled && b.progress.status == TaskStatus::Error && b.pdf_data is None,
        forall|page: usize, tr: bool, f: spec_fn(PageSummary, PageSummary) -> bool|
            #[trigger] page_finish_step(a, b, page, tr, f)
            ==> b.cancelled && b.progress.status == TaskStatus::Error && b.pdf_data is None,
        forall|completed: usize, total: usize| #[trigger] retry_progress_step(a, b, completed, total)
            ==> b.cancelled && b.progress.status == TaskStatus::Error && b.pdf_data is None,
        forall|msg: Seq<char>, now: u64| #[trigger] log_step(a, b, msg, now)
            ==> b.cancelled && b.progress.status == TaskStatus::Error && b.pdf_data is None,
{
}

/// The overall percentage never drops while pages finish: it starts at
/// the rendering share, grows with either stage counter, and stays within
/// the share left before generation.
pub proof fn lemma_percent_monotone(ocr1: nat, tr1: nat, ocr2: nat, tr2: nat, total: nat)
    requires
        total > 0,
        ocr1 <= ocr2 <= total,
        tr1 <= tr2 <= total,
    ensures
        stage_percent(0, 0, total) == 5,
        stage_percent(ocr1, tr1, total) <= stage_percent(ocr2, tr2, total),
        stage_percent(ocr2, tr2, total) <= 95,
        stage_percent(total, total, total) == 95,
{
    assert((5 * total + 45 * 0 + 45 * 0) / total == 5) by (nonlinear_arith)
        requires total > 0;
    assert((5 * total + 45 * total + 45 * total) / total == 95) by (nonlinear_arith)
        requires total > 0;
    vstd::arithmetic::div_mod::lemma_div_is_ordered(
        (5 * total + 45 * ocr1 + 45 * tr1) as int,
        (5 * total + 45 * ocr2 + 45 * tr2) as int,
        total as int,
    );
    vstd::arithmetic::div_mod::lemma_div_is_ordered(
        (5 * total + 45 * ocr2 + 45 * tr2) as int,
        (5 * total + 45 * total + 45 * total) as int,
        total as int,
    );
}

/// The percentage a task shows is at most what its page counters give.
pub open spec fn percent_within_counts(d: TaskData) -> bool {
    d.progress.total_pages > 0 && d.progress.overall_percent as nat <= stage_percent(
        d.progress.ocr_done as nat,
        d.progress.translate_done as nat,
        d.progress.total_pages as nat,
    )
}

/// Over an attempt the percentage never decreases: rendering sets the
/// rendering share, entering processing keeps it, every finished page keeps
/// it within the counters' share and does not lower it, generation shows
/// 95 and completion 100.
pub proof fn lemma_attempt_percent_monotone(a: TaskData, b: TaskData)
    requires
        task_wf(a),
    ensures
        forall|total: usize, now: u64|
            #[trigger] rendering_step(a, b, total, now) && !a.progress.status.is_terminal()
                && a.progress.overall_percent <= 5 && total > 0
            ==> b.progress.overall_percent >= a.progress.overall_percent && percent_within_counts(b),
        percent_within_counts(a) ==> forall|page: usize, tr: bool, f: spec_fn(PageSummary, PageSummary) -> bool|
            #[trigger] page_finish_step(a, b, page, tr, f)
            ==> b.progress.overall_percent >= a.progress.overall_percent && percent_within_counts(b),
        percent_within_counts(a) ==> forall|page: usize, f: spec_fn(PageSummary, PageSummary) -> bool|
            #[trigger] page_only_step(a, b, page, f)
            ==> b.progress.overall_percent == a.progress.overall_percent && percent_within_counts(b),
        forall|m: Seq<char>, l: Seq<char>, now: u64|
            #[trigger] status_step(a, b, TaskStatus::Processing, a.progress.overall_percent, m, l, now)
            ==> b.progress.overall_percent == a.progress.overall_percent,
        percent_within_counts(a) ==> forall|m: Seq<char>, l: Seq<char>, now: u64|
            #[trigger] status_step(a, b, TaskStatus::Generating, 95, m, l, now) && !a.progress.status.is_terminal()
            ==> b.progress.overall_percent >= a.progress.overall_percent,
        forall|pdf: Seq<u8>, now: u64| #[trigger] complete_step(a, b, pdf, now) && !a.progress.status.is_terminal()
            ==> b.progress.overall_percent == 100 && b.progress.overall_percent >= a.progress.overall_percent,
{
    assert forall|total: usize, now: u64|
        #[trigger] rendering_step(a, b, total, now) && !a.progress.status.is_terminal()
            && a.progress.overall_percent <= 5 && total > 0
        implies b.progress.overall_percent >= a.progress.overall_percent && percent_within_counts(b) by {
        lemma_percent_monotone(0, 0, 0, 0, total as nat);
    }
    if percent_within_counts(a) {
        let p = a.progress;
        assert forall|page: usize, tr: bool, f: spec_fn(PageSummary, PageSummary) -> bool|
            #[trigger] page_finish_step(a, b, page, tr, f)
            implies b.progress.overall_percent >= a.progress.overall_percent && percent_within_counts(b) by {
            let q = b.progress;
            lemma_percent_monotone(p.ocr_done as nat, p.translate_done as nat, q.ocr_done as nat,
                q.translate_done as nat, p.total_pages as nat);
        }
        assert forall|m: Seq<char>, l: Seq<char>, now: u64|
            #[trigger] status_step(a, b, TaskStatus::Generating, 95, m, l, now) && !a.progress.status.is_terminal()
            implies b.progress.overall_percent >= a.progress.overall_percent by {
            lemma_percent_monotone(p.ocr_done as nat, p.translate_done as nat, p.ocr_done as nat,
                p.translate_done as nat, p.total_pages as nat);
        }
    }
}

} // verus!

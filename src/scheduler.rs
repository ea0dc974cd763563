//! Batch pipeline scheduler. Pending pages are cut into fixed-size batches
//! in their given order; each batch is recognized, then translated, and the
//! next batch starts only after both phases of the current one succeeded.
//! The first failure or an observed cancellation ends the run.
//!
//! The run is a state machine: `next_step` says which calls to launch, and
//! the driver reports every joined unit through `on_joined`.
use vstd::prelude::*;

use crate::text::push_decimal;

verus! {

/// Pages processed together in one phase.
pub const BATCH_SIZE: usize = 3;

#[derive(Clone, Copy, Debug, PartialEq, Eq, Structural)]
pub enum Phase {
    Recognize,
    Translate,
}

/// Abstract state of a run.
pub struct RunView {
    pub pages: Seq<usize>,
    pub batch_size: nat,
    /// Index in `pages` where the current batch starts.
    pub start: nat,
    pub phase: Phase,
    /// Recognized text of each page of the current batch.
    pub recognized: Seq<Option<Seq<char>>>,
    /// Translated text of every page.
    pub translated: Seq<Option<Seq<char>>>,
    pub failure: Option<Seq<char>>,
}

impl RunView {
    pub open spec fn batch_end(self) -> nat {
        if self.start + self.batch_size <= self.pages.len() {
            self.start + self.batch_size
        } else {
            self.pages.len()
        }
    }

    /// Page numbers of the current batch.
    pub open spec fn batch(self) -> Seq<usize> {
        self.pages.subrange(self.start as int, self.batch_end() as int)
    }

    pub open spec fn done(self) -> bool {
        self.start >= self.pages.len()
    }

    pub open spec fn wf(self) -> bool {
        &&& self.batch_size > 0
        &&& self.start <= self.pages.len()
        &&& self.translated.len() == self.pages.len()
        &&& forall|i: int| 0 <= i < self.start ==> #[trigger] self.translated[i] is Some
        &&& forall|i: int| self.batch_end() <= i < self.pages.len() ==> #[trigger] self.translated[i] is None
        &&& self.phase == Phase::Recognize ==> forall|i: int|
            self.start <= i < self.pages.len() ==> #[trigger] self.translated[i] is None
        &&& self.recognized.len() == self.batch_end() - self.start
        &&& self.phase == Phase::Translate ==> !self.done() && forall|k: int|
            0 <= k < self.recognized.len() ==> #[trigger] self.recognized[k] is Some
    }
}

/// First position of `p` in `s`.
pub open spec fn slot_of(s: Seq<usize>, p: usize) -> int {
    choose|k: int| 0 <= k < s.len() && s[k] == p && forall|j: int| 0 <= j < k ==> s[j] != p
}

/// Recognized text `t` stored in slot `k` of the current batch; the batch
/// moves on to translation once every slot is filled.
pub open spec fn store_recognized(v: RunView, k: int, t: Seq<char>) -> RunView {
    let rec = v.recognized.update(k, Some(t));
    if forall|j: int| 0 <= j < rec.len() ==> #[trigger] rec[j] is Some {
        RunView { recognized: rec, phase: Phase::Translate, ..v }
    } else {
        RunView { recognized: rec, ..v }
    }
}

/// Translated text `t` stored for slot `k` of the current batch; once the
/// whole batch is translated the next batch begins with recognition.
pub open spec fn store_translated(v: RunView, k: int, t: Seq<char>) -> RunView {
    let tr = v.translated.update(v.start + k, Some(t));
    if forall|j: int| v.start <= j < v.batch_end() ==> #[trigger] tr[j] is Some {
        let next = RunView { translated: tr, start: v.batch_end(), phase: Phase::Recognize, ..v };
        RunView {
            recognized: Seq::new((next.batch_end() - next.start) as nat, |i: int| None::<Seq<char>>),
            ..next
        }
    } else {
        RunView { translated: tr, ..v }
    }
}

/// The state after a unit of the current phase delivered text `t` for page
/// `p`; a page outside the current batch changes nothing.
pub open spec fn record(v: RunView, p: usize, t: Seq<char>) -> RunView {
    if v.done() || !v.batch().contains(p) {
        v
    } else if v.phase == Phase::Recognize {
        store_recognized(v, slot_of(v.batch(), p), t)
    } else {
        store_translated(v, slot_of(v.batch(), p), t)
    }
}

/// `out` lists every page of the run with its translated text, in the
/// order of the run's pages.
pub open spec fn results_match(out: Seq<(usize, String)>, v: RunView) -> bool {
    &&& out.len() == v.pages.len()
    &&& forall|i: int|
        0 <= i < out.len() ==> (#[trigger] out[i]).0 == v.pages[i] && v.translated[i] == Some(out[i].1@)
}

/// What the driver does next.
#[derive(Debug)]
pub enum Step {
    /// Launch one recognition unit per page, in this order.
    Recognize(Vec<usize>),
    /// Launch one translation unit per (page, recognized text), in this order.
    Translate(Vec<(usize, String)>),
    /// The run is over.
    Finished(Result<Vec<(usize, String)>, String>),
}

pub open spec fn opt_view(o: Option<String>) -> Option<Seq<char>> {
    match o {
        Some(s) => Some(s@),
        None => None,
    }
}

/// A batched run over a list of pending pages.
pub struct BatchRun {
    pages: Vec<usize>,
    batch_size: usize,
    start: usize,
    phase: Phase,
    recognized: Vec<Option<String>>,
    translated: Vec<Option<String>>,
    failure: Option<String>,
}

impl View for BatchRun {
    type V = RunView;

    closed spec fn view(&self) -> RunView {
        RunView {
            pages: self.pages@,
            batch_size: self.batch_size as nat,
            start: self.start as nat,
            phase: self.phase,
            recognized: self.recognized@.map_values(|o: Option<String>| opt_view(o)),
            translated: self.translated@.map_values(|o: Option<String>| opt_view(o)),
            failure: opt_view(self.failure),
        }
    }
}

/// Message of a run stopped by cancellation.
pub open spec fn cancelled_message() -> Seq<char> {
    "任务已取消"@
}

fn cancelled_text() -> (r: String)
    ensures
        r@ == cancelled_message(),
{
    "任务已取消".to_owned()
}

fn nones(n: usize) -> (r: Vec<Option<String>>)
    ensures
        r@.len() == n,
        forall|i: int| 0 <= i < n ==> #[trigger] r@[i] is None,
{
    let mut r: Vec<Option<String>> = Vec::new();
    let mut i: usize = 0;
    while i < n
        invariant
            i <= n,
            r@.len() == i,
            forall|j: int| 0 <= j < i ==> #[trigger] r@[j] is None,
        decreases n - i,
    {
        r.push(None);
        i = i + 1;
    }
    r
}

fn copy_string(s: &String) -> (r: String)
    ensures
        r@ == s@,
{
    s.clone()
}

impl BatchRun {
    pub closed spec fn inv(&self) -> bool {
        &&& self@.wf()
        &&& self.pages@.len() < usize::MAX
        &&& self.batch_size < usize::MAX
    }

    fn batch_end_exec(&self) -> (r: usize)
        requires
            self.inv(),
        ensures
            r == self@.batch_end(),
    {
        if self.pages.len() - self.start >= self.batch_size {
            self.start + self.batch_size
        } else {
            self.pages.len()
        }
    }

    /// A run over `pages`, taken `batch_size` at a time.
    pub fn new(pages: Vec<usize>, batch_size: usize) -> (r: Self)
        requires
            batch_size > 0,
            pages@.len() < usize::MAX,
            batch_size < usize::MAX,
        ensures
            r.inv(),
            r@.pages == pages@,
            r@.batch_size == batch_size,
            r@.start == 0,
            r@.phase == Phase::Recognize,
            r@.failure is None,
            forall|i: int| 0 <= i < r@.translated.len() ==> #[trigger] r@.translated[i] is None,
            forall|i: int| 0 <= i < r@.recognized.len() ==> #[trigger] r@.recognized[i] is None,
    {
        let n = pages.len();
        let first = if batch_size <= n { batch_size } else { n };
        let r = BatchRun {
            pages,
            batch_size,
            start: 0,
            phase: Phase::Recognize,
            recognized: nones(first),
            translated: nones(n),
            failure: None,
        };
        r
    }

    /// The calls to launch next, or the end of the run. Once a failure was
    /// recorded or cancellation is observed, no further call is handed out.
    pub fn next_step(&self, cancelled: bool) -> (r: Step)
        requires
            self.inv(),
        ensures
            match self@.failure {
                Some(f) => r matches Step::Finished(Err(e)) && e@ == f,
                None => if cancelled {
                    r matches Step::Finished(Err(e)) && e@ == cancelled_message()
                } else if self@.done() {
                    r matches Step::Finished(Ok(out)) && results_match(out@, self@)
                } else if self@.phase == Phase::Recognize {
                    r matches Step::Recognize(ps) && ps@ == self@.batch()
                } else {
                    r matches Step::Translate(items) && items@.len() == self@.batch().len()
                        && forall|k: int| 0 <= k < items@.len() ==> (#[trigger] items@[k]).0 == self@.batch()[k]
                            && self@.recognized[k] == Some(items@[k].1@)
                },
            },
    {
        match &self.failure {
            Some(f) => {
                return Step::Finished(Err(copy_string(f)));
            },
            None => {},
        }
        if cancelled {
            return Step::Finished(Err(cancelled_text()));
        }
        let n = self.pages.len();
        if self.start >= n {
            let mut out: Vec<(usize, String)> = Vec::new();
            let mut i: usize = 0;
            while i < n
                invariant
                    self.inv(),
                    n == self.pages@.len(),
                    self@.done(),
                    i <= n,
                    out@.len() == i,
                    forall|j: int| 0 <= j < i ==> (#[trigger] out@[j]).0 == self@.pages[j]
                        && self@.translated[j] == Some(out@[j].1@),
                decreases n - i,
            {
                proof { assert(self@.translated[i as int] is Some); }
                let t = match &self.translated[i] {
                    Some(t) => copy_string(t),
                    None => String::new(),
                };
                out.push((self.pages[i], t));
                i = i + 1;
            }
            return Step::Finished(Ok(out));
        }
        let end = self.batch_end_exec();
        if self.phase == Phase::Recognize {
            let mut ps: Vec<usize> = Vec::new();
            let mut i: usize = self.start;
            while i < end
                invariant
                    self.inv(),
                    end == self@.batch_end(),
                    self.start <= i <= end,
                    ps@ == self@.pages.subrange(self.start as int, i as int),
                decreases end - i,
            {
                ps.push(self.pages[i]);
                i = i + 1;
                assert(ps@ =~= self@.pages.subrange(self.start as int, i as int));
            }
            Step::Recognize(ps)
        } else {
            let mut items: Vec<(usize, String)> = Vec::new();
            let mut k: usize = 0;
            while k < end - self.start
                invariant
                    self.inv(),
                    !self@.done(),
                    self@.phase == Phase::Translate,
                    end == self@.batch_end(),
                    k <= end - self.start,
                    items@.len() == k,
                    forall|j: int| 0 <= j < k ==> (#[trigger] items@[j]).0 == self@.batch()[j]
                        && self@.recognized[j] == Some(items@[j].1@),
                decreases end - self.start - k,
            {
                proof { assert(self@.recognized[k as int] is Some); }
                let t = match &self.recognized[k] {
                    Some(t) => copy_string(t),
                    None => String::new(),
                };
                items.push((self.pages[self.start + k], t));
                k = k + 1;
            }
            Step::Translate(items)
        }
    }
}

proof fn lemma_slot_of(s: Seq<usize>, p: usize, k: int)
    requires
        0 <= k < s.len(),
        s[k] == p,
        forall|j: int| 0 <= j < k ==> s[j] != p,
    ensures
        slot_of(s, p) == k,
{
    let c = slot_of(s, p);
    assert(0 <= c < s.len() && s[c] == p && forall|j: int| 0 <= j < c ==> s[j] != p);
    if c < k {
        assert(s[c] != p);
    } else if c > k {
        assert(s[k] != p);
    }
}

fn all_some(v: &Vec<Option<String>>, from: usize, to: usize) -> (r: bool)
    requires
        from <= to <= v@.len(),
    ensures
        r == forall|j: int| from <= j < to ==> #[trigger] v@[j] is Some,
{
    let mut i: usize = from;
    while i < to
        invariant
            from <= i <= to <= v@.len(),
            forall|j: int| from <= j < i ==> #[trigger] v@[j] is Some,
        decreases to - i,
    {
        if v[i].is_none() {
            return false;
        }
        i = i + 1;
    }
    true
}

impl BatchRun {
    fn find_slot(&self, p: usize) -> (r: Option<usize>)
        requires
            self.inv(),
            !self@.done(),
        ensures
            match r {
                Some(k) => k < self@.batch().len() && self@.batch().contains(p)
                    && slot_of(self@.batch(), p) == k as int,
                None => !self@.batch().contains(p),
            },
    {
        let ghost v = self@;
        let end = self.batch_end_exec();
        let mut i: usize = self.start;
        while i < end
            invariant
                self.inv(),
                end == v.batch_end(),
                v == self@,
                v.start <= i <= end,
                forall|j: int| 0 <= j < i - v.start ==> v.batch()[j] != p,
            decreases end - i,
        {
            if self.pages[i] == p {
                let k = i - self.start;
                proof {
                    assert(v.batch()[k as int] == p);
                    lemma_slot_of(v.batch(), p, k as int);
                }
                return Some(k);
            }
            i = i + 1;
        }
        None
    }

    fn record_text(&mut self, p: usize, t: String)
        requires
            old(self).inv(),
            old(self)@.failure is None,
        ensures
            final(self).inv(),
            final(self)@ == record(old(self)@, p, t@),
    {
        if self.start >= self.pages.len() {
            return;
        }
        match self.find_slot(p) {
            None => {},
            Some(k) => {
                if self.phase == Phase::Recognize {
                    self.store_recognized_exec(k, t);
                } else {
                    self.store_translated_exec(k, t);
                }
            },
        }
    }

    fn store_recognized_exec(&mut self, k: usize, t: String)
        requires
            old(self).inv(),
            !old(self)@.done(),
            old(self)@.phase == Phase::Recognize,
            k < old(self)@.recognized.len(),
        ensures
            final(self).inv(),
            final(self)@ == store_recognized(old(self)@, k as int, t@),
    {
        let ghost v = self@;
        self.recognized[k] = Some(t);
        let ghost rec = v.recognized.update(k as int, Some(t@));
        assert(self.recognized@.map_values(|o: Option<String>| opt_view(o)) =~= rec);
        let n = self.recognized.len();
        if all_some(&self.recognized, 0, n) {
            self.phase = Phase::Translate;
            proof {
                assert forall|j: int| 0 <= j < rec.len() implies #[trigger] rec[j] is Some by {
                    assert(self.recognized@[j] is Some);
                }
            }
            assert(self@ =~= RunView { recognized: rec, phase: Phase::Translate, ..v });
        } else {
            proof {
                let j = choose|j: int| 0 <= j < n && !(#[trigger] self.recognized@[j] is Some);
                assert(!(rec[j] is Some));
            }
            assert(self@ =~= RunView { recognized: rec, ..v });
        }
    }

    fn store_translated_exec(&mut self, k: usize, t: String)
        requires
            old(self).inv(),
            old(self)@.phase == Phase::Translate,
            k < old(self)@.recognized.len(),
        ensures
            final(self).inv(),
            final(self)@ == store_translated(old(self)@, k as int, t@),
    {
        let ghost v = self@;
        let end = self.batch_end_exec();
        let i = self.start + k;
        self.translated[i] = Some(t);
        let ghost tr = v.translated.update(i as int, Some(t@));
        assert(self.translated@.map_values(|o: Option<String>| opt_view(o)) =~= tr);
        let start = self.start;
        if all_some(&self.translated, start, end) {
            proof {
                assert forall|j: int| v.start <= j < v.batch_end() implies #[trigger] tr[j] is Some by {
                    assert(self.translated@[j] is Some);
                }
            }
            self.start = end;
            self.phase = Phase::Recognize;
            let next_end = self.batch_end_exec_raw();
            self.recognized = nones(next_end - end);
            proof {
                let next = RunView { translated: tr, start: v.batch_end(), phase: Phase::Recognize, ..v };
                let want = RunView {
                    recognized: Seq::new((next.batch_end() - next.start) as nat, |i: int| None::<Seq<char>>),
                    ..next
                };
                assert(self@.recognized =~= want.recognized);
                assert(self@ =~= want);
            }
        } else {
            proof {
                let j = choose|j: int| start <= j < end && !(#[trigger] self.translated@[j] is Some);
                assert(!(tr[j] is Some));
            }
            assert(self@ =~= RunView { translated: tr, ..v });
        }
    }

    /// `min(start + batch_size, len)` while the invariant is being re-established.
    fn batch_end_exec_raw(&self) -> (r: usize)
        requires
            self.start <= self.pages@.len(),
        ensures
            r == (if self.start + self.batch_size <= self.pages@.len() { self.start + self.batch_size } else { self.pages@.len() as int }),
    {
        if self.pages.len() - self.start >= self.batch_size {
            self.start + self.batch_size
        } else {
            self.pages.len()
        }
    }

    /// Reports one joined unit of the current phase; `cancelled` is the
    /// task's cancellation flag observed at the join. Returns whether to keep
    /// joining: on `false` the driver aborts the remaining units and asks
    /// `next_step` for the end of the run.
    pub fn on_joined(&mut self, cancelled: bool, outcome: Result<(usize, String), String>) -> (go_on: bool)
        requires
            old(self).inv(),
        ensures
            final(self).inv(),
            match old(self)@.failure {
                Some(_) => final(self)@ == old(self)@ && !go_on,
                None => if cancelled {
                    final(self)@ == RunView { failure: Some(cancelled_message()), ..old(self)@ } && !go_on
                } else {
                    match outcome {
                        Err(e) => final(self)@ == RunView { failure: Some(e@), ..old(self)@ } && !go_on,
                        Ok(pt) => final(self)@ == record(old(self)@, pt.0, pt.1@) && go_on,
                    }
                },
            },
    {
        if self.failure.is_some() {
            return false;
        }
        if cancelled {
            self.failure = Some(cancelled_text());
            assert(self@ =~= RunView { failure: Some(cancelled_message()), ..old(self)@ });
            return false;
        }
        match outcome {
            Err(e) => {
                self.failure = Some(e);
                assert(self@ =~= RunView { failure: Some(e@), ..old(self)@ });
                false
            },
            Ok((p, t)) => {
                self.record_text(p, t);
                true
            },
        }
    }
}

/// Message for a page whose unit failed in the given phase.
pub fn page_failure(page: usize, phase: Phase, error: &str) -> (r: String)
    ensures
        phase == Phase::Recognize ==> r@ == "第 "@ + crate::text::decimal(page as nat) + " 页 OCR 失败: "@ + error@,
        phase == Phase::Translate ==> r@ == "第 "@ + crate::text::decimal(page as nat) + " 页翻译失败: "@ + error@,
{
    let mut s = "第 ".to_owned();
    push_decimal(&mut s, page as u64);
    match phase {
        Phase::Recognize => s.append(" 页 OCR 失败: "),
        Phase::Translate => s.append(" 页翻译失败: "),
    }
    s.append(error);
    s
}

/// Whether a unit may make its external call: not once the task is cancelled.
pub fn unit_gate(cancelled: bool) -> (r: Result<(), String>)
    ensures
        cancelled <==> r is Err,
        r matches Err(e) ==> e@ == cancelled_message(),
{
    if cancelled {
        Err(cancelled_text())
    } else {
        Ok(())
    }
}

/// Results follow the order of the run's pages, not the order in which
/// units completed: when the pages are in ascending order, so are the page
/// numbers of the results, and each result is that page's translation.
pub proof fn lemma_results_in_page_order(out: Seq<(usize, String)>, v: RunView)
    requires
        results_match(out, v),
        forall|i: int, j: int| 0 <= i < j < v.pages.len() ==> v.pages[i] < v.pages[j],
    ensures
        forall|i: int, j: int| 0 <= i < j < out.len() ==> out[i].0 < out[j].0,
        forall|i: int| 0 <= i < out.len() ==> v.translated[i] == Some((#[trigger] out[i]).1@),
{
    assert forall|i: int, j: int| 0 <= i < j < out.len() implies out[i].0 < out[j].0 by {
        assert(out[i].0 == v.pages[i]);
        assert(out[j].0 == v.pages[j]);
    }
}

/// A resumed run is built over the pages without a translated checkpoint;
/// every page it hands out is one of them, so checkpointed pages are never
/// processed again.
pub proof fn lemma_resume_only_pending(done: Seq<bool>, v: RunView)
    requires
        v.wf(),
        forall|i: int| 0 <= i < v.pages.len() ==> 1 <= #[trigger] v.pages[i] <= done.len() && !done[v.pages[i] - 1],
    ensures
        forall|k: int| 0 <= k < v.batch().len() ==> !done[#[trigger] v.batch()[k] - 1],
{
    assert forall|k: int| 0 <= k < v.batch().len() implies !done[#[trigger] v.batch()[k] - 1] by {
        assert(v.batch()[k] == v.pages[v.start + k]);
    }
}

} // verus!

//! Checkpoint store bookkeeping. Artifacts live on disk under a task
//! directory: the original input, and per page one file for the recognized
//! text and one for the translated text. The file system work is the
//! driver's; this module names the files, decides what a listing means and
//! turns what was read into results.
use vstd::prelude::*;

use crate::text::{decimal, push_decimal};

verus! {

/// Root of all task directories.
pub const DATA_DIR: &'static str = "data/tasks";

/// Which text of a page a checkpoint holds.
#[derive(Clone, Copy, Debug, PartialEq, Eq, Structural)]
pub enum Stage {
    Recognized,
    Translated,
}

/// What the store holds for one page.
#[derive(Clone, Debug)]
pub struct PageDetail {
    pub page_num: usize,
    pub ocr_text: String,
    pub translated_text: String,
}

pub open spec fn stage_suffix(stage: Stage) -> Seq<char> {
    match stage {
        Stage::Recognized => ".ocr.txt"@,
        Stage::Translated => ".translated.txt"@,
    }
}

/// Directory of a task's artifacts.
pub fn task_dir(task_id: &str) -> (r: String)
    ensures
        r@ == DATA_DIR@ + "/"@ + task_id@,
{
    let mut s = DATA_DIR.to_owned();
    s.append("/");
    s.append(task_id);
    s
}

/// Directory of a task's page checkpoints.
pub fn pages_dir(task_id: &str) -> (r: String)
    ensures
        r@ == DATA_DIR@ + "/"@ + task_id@ + "/pages"@,
{
    let mut s = task_dir(task_id);
    s.append("/pages");
    s
}

/// File name of the input document within the task directory.
pub fn input_file_name() -> (r: String)
    ensures
        r@ == "input.pdf"@,
{
    "input.pdf".to_owned()
}

/// File name of a page checkpoint within the pages directory.
pub fn page_file_name(page_num: usize, stage: Stage) -> (r: String)
    ensures
        r@ == decimal(page_num as nat) + stage_suffix(stage),
{
    let mut s = String::new();
    push_decimal(&mut s, page_num as u64);
    match stage {
        Stage::Recognized => s.append(".ocr.txt"),
        Stage::Translated => s.append(".translated.txt"),
    }
    proof {
        assert(s@ =~= decimal(page_num as nat) + stage_suffix(stage));
    }
    s
}

/// Name under which a file is written before it is renamed into place, so
/// that a reader never sees a partial artifact.
pub fn temp_file_name(name: &str) -> (r: String)
    ensures
        r@ == name@ + ".tmp"@,
{
    let mut s = name.to_owned();
    s.append(".tmp");
    s
}

pub open spec fn ends_with(s: Seq<char>, suffix: Seq<char>) -> bool {
    suffix.len() <= s.len() && s.subrange(s.len() - suffix.len(), s.len() as int) == suffix
}

pub(crate) fn str_ends_with(s: &str, suffix: &str) -> (r: bool)
    ensures
        r == ends_with(s@, suffix@),
{
    let n = s.unicode_len();
    let m = suffix.unicode_len();
    if m > n {
        return false;
    }
    let mut i: usize = 0;
    while i < m
        invariant
            n == s@.len(),
            m == suffix@.len(),
            m <= n,
            i <= m,
            forall|j: int| 0 <= j < i ==> s@[n - m + j] == suffix@[j],
        decreases m - i,
    {
        if s.get_char(n - m + i) != suffix.get_char(i) {
            proof {
                assert(s@.subrange(n - m, n as int)[i as int] != suffix@[i as int]);
            }
            return false;
        }
        i = i + 1;
    }
    assert(s@.subrange(n - m, n as int) =~= suffix@);
    true
}

/// Whether a file name in a pages directory is a translated checkpoint.
pub fn is_translated_checkpoint(name: &str) -> (r: bool)
    ensures
        r == ends_with(name@, ".translated.txt"@),
{
    str_ends_with(name, ".translated.txt")
}

/// Number of names in `s` that are translated checkpoints.
pub open spec fn translated_count(s: Seq<Seq<char>>) -> nat
    decreases s.len(),
{
    if s.len() == 0 {
        0
    } else {
        translated_count(s.drop_last()) + if ends_with(s.last(), ".translated.txt"@) { 1nat } else { 0nat }
    }
}

/// Number of pages whose translated checkpoint exists, given the file names
/// found in the task's pages directory.
pub fn get_completed_page_count(file_names: &Vec<String>) -> (r: usize)
    ensures
        r == translated_count(file_names@.map_values(|s: String| s@)),
{
    let ghost names = file_names@.map_values(|s: String| s@);
    let mut count: usize = 0;
    let mut i: usize = 0;
    while i < file_names.len()
        invariant
            i <= file_names@.len(),
            names == file_names@.map_values(|s: String| s@),
            count == translated_count(names.subrange(0, i as int)),
            count <= i,
        decreases file_names@.len() - i,
    {
        proof {
            assert(names.subrange(0, i + 1).drop_last() =~= names.subrange(0, i as int));
        }
        if is_translated_checkpoint(file_names[i].as_str()) {
            count = count + 1;
        }
        i = i + 1;
    }
    assert(names.subrange(0, i as int) =~= names);
    count
}

pub open spec fn text_or_empty(o: Option<String>) -> Seq<char> {
    match o {
        Some(s) => s@,
        None => Seq::empty(),
    }
}

/// What the store holds for a page, from its two checkpoints (absent ones
/// read as empty); nothing when both are empty.
pub fn load_page_detail(page_num: usize, ocr: Option<String>, translated: Option<String>) -> (r: Option<PageDetail>)
    ensures
        (text_or_empty(ocr).len() == 0 && text_or_empty(translated).len() == 0) <==> r is None,
        r matches Some(d) ==> d.page_num == page_num && d.ocr_text@ == text_or_empty(ocr)
            && d.translated_text@ == text_or_empty(translated),
{
    let ocr_text = match ocr {
        Some(s) => s,
        None => String::new(),
    };
    let translated_text = match translated {
        Some(s) => s,
        None => String::new(),
    };
    if ocr_text.unicode_len() == 0 && translated_text.unicode_len() == 0 {
        return None;
    }
    Some(PageDetail { page_num, ocr_text, translated_text })
}

/// The translated text of every page, in page order; a page without a
/// checkpoint contributes an empty text. `stored[i]` is what was read for
/// page `i + 1`.
pub fn load_all_translated_pages(stored: Vec<Option<String>>) -> (r: Vec<String>)
    ensures
        r@.len() == stored@.len(),
        forall|i: int| 0 <= i < r@.len() ==> (#[trigger] r@[i])@ == text_or_empty(stored@[i]),
{
    let mut r: Vec<String> = Vec::new();
    let mut i: usize = 0;
    while i < stored.len()
        invariant
            i <= stored@.len(),
            r@.len() == i,
            forall|j: int| 0 <= j < i ==> (#[trigger] r@[j])@ == text_or_empty(stored@[j]),
        decreases stored@.len() - i,
    {
        let t = match &stored[i] {
            Some(s) => s.clone(),
            None => String::new(),
        };
        r.push(t);
        i = i + 1;
    }
    r
}

/// Number of pages marked done.
pub open spec fn done_count(done: Seq<bool>) -> nat
    decreases done.len(),
{
    if done.len() == 0 {
        0
    } else {
        done_count(done.drop_last()) + if done.last() { 1nat } else { 0nat }
    }
}

/// Pages `1..=done.len()` whose translated checkpoint is missing
/// (`done[p - 1]` is false), in ascending order.
pub fn pending_pages(done: &Vec<bool>) -> (r: Vec<usize>)
    ensures
        forall|i: int, j: int| 0 <= i < j < r@.len() ==> r@[i] < r@[j],
        forall|i: int| 0 <= i < r@.len() ==> 1 <= #[trigger] r@[i] <= done@.len() && !done@[r@[i] - 1],
        forall|p: usize| 1 <= p <= done@.len() && !done@[p - 1] ==> #[trigger] r@.contains(p),
        r@.len() + done_count(done@) == done@.len(),
{
    let mut r: Vec<usize> = Vec::new();
    let mut i: usize = 0;
    while i < done.len()
        invariant
            i <= done@.len(),
            forall|a: int, b: int| 0 <= a < b < r@.len() ==> r@[a] < r@[b],
            forall|a: int| 0 <= a < r@.len() ==> 1 <= #[trigger] r@[a] <= i && !done@[r@[a] - 1],
            forall|p: usize| 1 <= p <= i && !done@[p - 1] ==> #[trigger] r@.contains(p),
            r@.len() + done_count(done@.subrange(0, i as int)) == i,
        decreases done@.len() - i,
    {
        assert(done@.subrange(0, i + 1).drop_last() =~= done@.subrange(0, i as int));
        if !done[i] {
            let ghost before = r@;
            r.push(i + 1);
            proof {
                assert forall|p: usize| 1 <= p <= i + 1 && !done@[p - 1] implies #[trigger] r@.contains(p) by {
                    if p <= i {
                        assert(before.contains(p));
                        let k = choose|k: int| 0 <= k < before.len() && before[k] == p;
                        assert(r@[k] == p);
                    } else {
                        assert(r@[before.len() as int] == p);
                    }
                }
            }
        } else {
            proof {
                assert forall|p: usize| 1 <= p <= i + 1 && !done@[p - 1] implies #[trigger] r@.contains(p) by {
                    if p == i + 1 {
                        assert(done@[i as int]);
                    }
                }
            }
        }
        i = i + 1;
    }
    assert(done@.subrange(0, i as int) =~= done@);
    r
}

} // verus!

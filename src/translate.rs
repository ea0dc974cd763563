//! Requests to the recognition and translation services: what is sent, when
//! a translation call can be skipped, and how a response becomes a result.
//! The HTTP exchange itself runs outside the library.
use vstd::prelude::*;

use crate::retry::ApiError;
use crate::text::chars_of;

verus! {

/// Largest response excerpt quoted in a parse failure, in characters.
pub const BODY_EXCERPT_CHARS: usize = 500;

/// Instruction sent with every page image to the recognition model.
pub const OCR_PROMPT: &'static str = "请仔细识别这张图片中的所有文本内容。\n\n要求：\n1. 完整识别所有文字，不要遗漏\n2. 保持原文的段落结构和换行\n3. 保持原文的列表格式（如 1. 2. 或 - 等）\n4. 保持标题和正文的区分\n5. 如果有页码、页眉页脚也要识别\n6. 只输出识别到的文本，不要添加任何解释\n\n请开始识别：";

/// Instruction put before the text sent to the translation model.
pub const TRANSLATE_PROMPT: &'static str = "你是一个专业的多语言翻译专家。请将以下内容翻译成简体中文。\n\n翻译要求：\n1. 翻译准确、流畅、符合中文表达习惯\n2. 可以自由调整段落和换行，使译文更易读\n3. 专有名词、品牌名、人名可保留原文或音译\n4. 技术术语使用常见的中文译法\n5. 只输出翻译结果，不要添加任何解释\n\n原文内容：\n";

/// Unicode `White_Space` characters.
pub open spec fn is_space(c: char) -> bool {
    let u = c as u32;
    (0x09 <= u <= 0x0D) || u == 0x20 || u == 0x85 || u == 0xA0 || u == 0x1680 || (0x2000 <= u <= 0x200A)
        || u == 0x2028 || u == 0x2029 || u == 0x202F || u == 0x205F || u == 0x3000
}

/// CJK unified ideographs, extension A and extension B.
pub open spec fn is_cjk(c: char) -> bool {
    let u = c as u32;
    (0x4E00 <= u <= 0x9FFF) || (0x3400 <= u <= 0x4DBF) || (0x20000 <= u <= 0x2A6DF)
}

pub open spec fn cjk_count(s: Seq<char>) -> nat
    decreases s.len(),
{
    if s.len() == 0 {
        0
    } else {
        cjk_count(s.drop_last()) + if is_cjk(s.last()) { 1nat } else { 0nat }
    }
}

/// `s[a..b]` is `s` without leading and trailing white space.
pub open spec fn trim_bounds(s: Seq<char>, a: int, b: int) -> bool {
    &&& 0 <= a <= b <= s.len()
    &&& forall|i: int| 0 <= i < a ==> is_space(#[trigger] s[i])
    &&& forall|i: int| b <= i < s.len() ==> is_space(#[trigger] s[i])
    &&& a < b ==> !is_space(s[a]) && !is_space(s[b - 1])
}

/// `s` without leading and trailing white space.
pub open spec fn trimmed(s: Seq<char>) -> Seq<char> {
    let (a, b) = choose|a: int, b: int| trim_bounds(s, a, b);
    s.subrange(a, b)
}

/// More than seven in ten characters are CJK ideographs.
pub open spec fn mostly_cjk(t: Seq<char>) -> bool {
    10 * cjk_count(t) > 7 * t.len()
}

fn is_space_char(c: char) -> (r: bool)
    ensures
        r == is_space(c),
{
    let u = c as u32;
    (0x09 <= u && u <= 0x0D) || u == 0x20 || u == 0x85 || u == 0xA0 || u == 0x1680 || (0x2000 <= u && u <= 0x200A)
        || u == 0x2028 || u == 0x2029 || u == 0x202F || u == 0x205F || u == 0x3000
}

proof fn lemma_trim_unique(s: Seq<char>, a: int, b: int)
    requires
        trim_bounds(s, a, b),
    ensures
        trimmed(s) == s.subrange(a, b),
{
    let (c, d) = choose|c: int, d: int| trim_bounds(s, c, d);
    assert(trim_bounds(s, c, d));
    if a < b {
        if c < d {
            if c < a {
                assert(!is_space(s[c]));
            } else if a < c {
                assert(!is_space(s[a]));
            }
            if d < b {
                assert(!is_space(s[b - 1]));
            } else if b < d {
                assert(!is_space(s[d - 1]));
            }
        } else {
            assert(!is_space(s[a]));
            assert(a < c || a >= d);
        }
    } else if c < d {
        assert(!is_space(s[c]));
        assert(c < a || c >= b);
    }
    assert(s.subrange(a, b) =~= s.subrange(c, d));
}

/// `text` without leading and trailing white space.
pub fn trim(text: &str) -> (r: String)
    ensures
        r@ == trimmed(text@),
        r@.len() <= text@.len(),
{
    let chars = chars_of(text);
    let n = chars.len();
    let mut a: usize = 0;
    while a < n && is_space_char(chars[a])
        invariant
            n == chars@.len(),
            a <= n,
            forall|i: int| 0 <= i < a ==> is_space(#[trigger] chars@[i]),
        decreases n - a,
    {
        a = a + 1;
    }
    let mut b: usize = n;
    while b > a && is_space_char(chars[b - 1])
        invariant
            n == chars@.len(),
            a <= b <= n,
            forall|i: int| b <= i < n ==> is_space(#[trigger] chars@[i]),
        decreases b,
    {
        b = b - 1;
    }
    proof {
        assert(chars@ == text@);
        assert(trim_bounds(text@, a as int, b as int));
        lemma_trim_unique(text@, a as int, b as int);
    }
    text.substring_char(a, b).to_owned()
}

/// Number of CJK ideographs in `text`.
pub fn count_chinese_chars(text: &str) -> (r: usize)
    ensures
        r == cjk_count(text@),
{
    let chars = chars_of(text);
    let mut count: usize = 0;
    let mut i: usize = 0;
    while i < chars.len()
        invariant
            i <= chars@.len(),
            count <= i,
            count == cjk_count(chars@.subrange(0, i as int)),
        decreases chars@.len() - i,
    {
        assert(chars@.subrange(0, i + 1).drop_last() =~= chars@.subrange(0, i as int));
        let u = chars[i] as u32;
        if (0x4E00 <= u && u <= 0x9FFF) || (0x3400 <= u && u <= 0x4DBF) || (0x20000 <= u && u <= 0x2A6DF) {
            count = count + 1;
        }
        i = i + 1;
    }
    assert(chars@.subrange(0, i as int) =~= text@);
    count
}

/// What to do with a page's recognized text.
#[derive(Clone, Debug)]
pub enum TranslationPlan {
    /// No call: this is the result.
    Keep(String),
    /// Send this prompt to the translation model.
    Request(String),
}

/// Blank text translates to nothing, text that is already mostly Chinese is
/// kept as it is, anything else is sent with the translation instruction.
pub fn plan_translation(text: &str) -> (r: TranslationPlan)
    ensures
        ({
            let t = trimmed(text@);
            if t.len() == 0 {
                r matches TranslationPlan::Keep(k) && k@.len() == 0
            } else if mostly_cjk(t) {
                r matches TranslationPlan::Keep(k) && k@ == text@
            } else {
                r matches TranslationPlan::Request(p) && p@ == TRANSLATE_PROMPT@ + t
            }
        }),
{
    let t = trim(text);
    let n = t.unicode_len();
    if n == 0 {
        return TranslationPlan::Keep(String::new());
    }
    let c = count_chinese_chars(t.as_str());
    if c as u128 * 10 > n as u128 * 7 {
        return TranslationPlan::Keep(text.to_owned());
    }
    let mut p = TRANSLATE_PROMPT.to_owned();
    p.append(t.as_str());
    TranslationPlan::Request(p)
}

/// Chat-completions endpoint under a base URL (trailing slashes dropped).
pub fn chat_completions_url(base_url: &str) -> (r: String)
    ensures
        exists|k: int| 0 <= k <= base_url@.len() && r@ == base_url@.subrange(0, k) + "/v1/chat/completions"@
            && (forall|i: int| k <= i < base_url@.len() ==> #[trigger] base_url@[i] == '/')
            && (k > 0 ==> base_url@[k - 1] != '/'),
{
    let chars = chars_of(base_url);
    let mut k: usize = chars.len();
    while k > 0 && chars[k - 1] == '/'
        invariant
            chars@ == base_url@,
            k <= chars@.len(),
            forall|i: int| k <= i < chars@.len() ==> #[trigger] chars@[i] == '/',
        decreases k,
    {
        k = k - 1;
    }
    let mut s = base_url.substring_char(0, k).to_owned();
    s.append("/v1/chat/completions");
    s
}

/// Value of the `Authorization` header.
pub fn bearer_header(api_key: &str) -> (r: String)
    ensures
        r@ == "Bearer "@ + api_key@,
{
    let mut s = "Bearer ".to_owned();
    s.append(api_key);
    s
}

/// The reply text: the first choice's content, or a permanent failure when
/// the response holds no choice.
pub fn first_choice(contents: Vec<String>) -> (r: Result<String, ApiError>)
    ensures
        contents@.len() > 0 ==> (r matches Ok(t) && t@ == contents@[0]@),
        contents@.len() == 0 ==> (r matches Err(e) && e is NonRetryable && e.msg() == "空响应"@),
{
    if contents.len() == 0 {
        return Err(ApiError::NonRetryable("空响应".to_owned()));
    }
    Ok(contents[0].clone())
}

/// A permanent failure for a response that could not be decoded, quoting
/// the start of the body.
pub fn parse_failure(detail: &str, body: &str) -> (r: ApiError)
    ensures
        r is NonRetryable,
        r.msg() == "解析失败: "@ + detail@ + " - 响应: "@ + body@.subrange(
            0,
            if body@.len() <= BODY_EXCERPT_CHARS { body@.len() as int } else { BODY_EXCERPT_CHARS as int },
        ),
{
    let n = body.unicode_len();
    let end = if n <= BODY_EXCERPT_CHARS { n } else { BODY_EXCERPT_CHARS };
    let mut m = "解析失败: ".to_owned();
    m.append(detail);
    m.append(" - 响应: ");
    m.append(body.substring_char(0, end));
    ApiError::NonRetryable(m)
}

} // verus!

//! Renderer-side logic: the page count of an input document, the pages
//! handed to recognition, and the lookup of rasterised page images. The
//! rasteriser itself runs outside the library.
use base64::Engine;
use vstd::prelude::*;

use crate::text::{decimal, push_decimal};

verus! {

/// One page of an input document, ready for recognition.
#[derive(Clone, Debug)]
pub struct PdfPage {
    pub page_num: usize,
    /// The page image, base64-encoded.
    pub image_base64: Option<String>,
    /// Text taken directly from the document, when that is used instead.
    pub extracted_text: Option<String>,
}

/// Digit `v` (below 64) of the standard base64 alphabet.
pub open spec fn base64_digit(v: nat) -> char {
    "ABCDEFGHIJKLMNOPQRSTUVWXYZabcdefghijklmnopqrstuvwxyz0123456789+/"@[v as int]
}

/// Standard base64 with padding: each group of three bytes becomes four
/// digits of six bits; a final group of one or two bytes is padded with `=`.
pub open spec fn base64_of(data: Seq<u8>) -> Seq<char>
    decreases data.len(),
{
    if data.len() == 0 {
        Seq::empty()
    } else if data.len() == 1 {
        let a = data[0] as nat;
        seq![base64_digit(a / 4), base64_digit((a % 4) * 16), '=', '=']
    } else if data.len() == 2 {
        let a = data[0] as nat;
        let b = data[1] as nat;
        seq![base64_digit(a / 4), base64_digit((a % 4) * 16 + b / 16), base64_digit((b % 16) * 4), '=']
    } else {
        let a = data[0] as nat;
        let b = data[1] as nat;
        let c = data[2] as nat;
        seq![
            base64_digit(a / 4),
            base64_digit((a % 4) * 16 + b / 16),
            base64_digit((b % 16) * 4 + c / 64),
            base64_digit(c % 64),
        ] + base64_of(data.subrange(3, data.len() as int))
    }
}

/// Relies on `lopdf::Document::load_mem` and `Document::get_pages`: the
/// document's page count, or lopdf's error message when it cannot be
/// parsed. Nothing more is stated: lopdf may read objects in parallel, so
/// which copy of a duplicated object wins is not fixed by the bytes.
#[verifier::external_body]
fn load_page_count(data: &[u8]) -> (r: Result<usize, String>) {
    match lopdf::Document::load_mem(data) {
        Ok(doc) => Ok(doc.get_pages().len()),
        Err(e) => Err(format!("{}", e)),
    }
}

/// Relies on `base64::engine::general_purpose::STANDARD.encode`: standard
/// alphabet with padding, four characters for each started group of three
/// bytes.
#[verifier::external_body]
fn encode_base64(data: &[u8]) -> (r: String)
    requires
        data@.len() / 3 * 4 + 4 <= usize::MAX,
    ensures
        r@ == base64_of(data@),
        r@.len() == 4 * ((data@.len() + 2) / 3),
{
    base64::engine::general_purpose::STANDARD.encode(data)
}

/// Whether `m` is a parse failure: it starts with `Failed to parse PDF: `.
pub open spec fn is_parse_failure(m: Seq<char>) -> bool {
    m.len() >= 21 && m.subrange(0, 21) == "Failed to parse PDF: "@
}

/// What a parse result means for the task: a parse error is reported with
/// its message, a document without pages is refused, otherwise the page
/// count stands.
pub fn check_page_count(parsed: Result<usize, String>) -> (r: Result<usize, String>)
    ensures
        match parsed {
            Err(e) => r matches Err(m) && m@ == "Failed to parse PDF: "@ + e@,
            Ok(n) => if n == 0 {
                r matches Err(m) && m@ == "PDF has no pages"@
            } else {
                r == Ok::<usize, String>(n)
            },
        },
        r matches Err(m) ==> is_parse_failure(m@) || m@ == "PDF has no pages"@,
        r matches Ok(n) ==> n > 0,
{
    match parsed {
        Err(e) => {
            let mut m = "Failed to parse PDF: ".to_owned();
            m.append(e.as_str());
            proof {
                reveal_strlit("Failed to parse PDF: ");
                assert(m@.subrange(0, 21) =~= "Failed to parse PDF: "@);
            }
            Err(m)
        },
        Ok(n) => {
            if n == 0 {
                Err("PDF has no pages".to_owned())
            } else {
                Ok(n)
            }
        },
    }
}

/// Page count of an input document as lopdf reads it; a parse failure or a
/// document without pages is refused.
pub fn document_pages(data: &[u8]) -> (r: Result<usize, String>)
    ensures
        r matches Err(m) ==> is_parse_failure(m@) || m@ == "PDF has no pages"@,
        r matches Ok(n) ==> n > 0,
{
    check_page_count(load_page_count(data))
}

/// Pages `1..=images.len()`, each carrying its image in base64.
pub fn pages_from_images(images: &Vec<Vec<u8>>) -> (r: Vec<PdfPage>)
    requires
        forall|i: int| 0 <= i < images@.len() ==> (#[trigger] images@[i])@.len() / 3 * 4 + 4 <= usize::MAX,
    ensures
        r@.len() == images@.len(),
        forall|i: int| 0 <= i < r@.len() ==> {
            let p = #[trigger] r@[i];
            &&& p.page_num == i + 1
            &&& p.image_base64 matches Some(b) && b@ == base64_of(images@[i]@)
            &&& p.extracted_text is None
        },
{
    let mut pages: Vec<PdfPage> = Vec::new();
    let mut i: usize = 0;
    while i < images.len()
        invariant
            i <= images@.len(),
            pages@.len() == i,
            forall|j: int| 0 <= j < images@.len() ==> (#[trigger] images@[j])@.len() / 3 * 4 + 4 <= usize::MAX,
            forall|j: int| 0 <= j < i ==> {
                let p = #[trigger] pages@[j];
                &&& p.page_num == j + 1
                &&& p.image_base64 matches Some(b) && b@ == base64_of(images@[j]@)
                &&& p.extracted_text is None
            },
        decreases images@.len() - i,
    {
        let b = encode_base64(images[i].as_slice());
        pages.push(PdfPage { page_num: i + 1, image_base64: Some(b), extracted_text: None });
        i = i + 1;
    }
    pages
}

/// The file names the rasteriser may give page `n`: `page-N.jpg` with the
/// number unpadded, or padded to two or three digits.
pub open spec fn image_candidates(n: nat) -> Seq<Seq<char>> {
    seq![
        "page-"@ + decimal(n) + ".jpg"@,
        "page-"@ + crate::text::zero_padded(n, 2) + ".jpg"@,
        "page-"@ + crate::text::zero_padded(n, 3) + ".jpg"@,
    ]
}

fn candidate(page_num: usize, width: usize) -> (r: String)
    ensures
        r@ == "page-"@ + crate::text::zero_padded(page_num as nat, width as nat) + ".jpg"@,
{
    let d = crate::text::decimal_string(page_num as u64);
    let mut s = "page-".to_owned();
    let len = d.unicode_len();
    let ghost start = s@;
    let mut k: usize = len;
    while k < width
        invariant
            len == decimal(page_num as nat).len(),
            len <= k,
            k <= width || k == len,
            s@ == start + Seq::new((k - len) as nat, |i: int| '0'),
        decreases width - k,
    {
        crate::text::push_char(&mut s, '0');
        k = k + 1;
        assert(s@ =~= start + Seq::new((k - len) as nat, |i: int| '0'));
    }
    s.append(d.as_str());
    s.append(".jpg");
    assert(s@ =~= "page-"@ + crate::text::zero_padded(page_num as nat, width as nat) + ".jpg"@);
    s
}

fn contains_name(names: &Vec<String>, name: &String) -> (r: bool)
    ensures
        r == name_present(names@, name@),
{
    let mut i: usize = 0;
    while i < names.len()
        invariant
            i <= names@.len(),
            forall|j: int| 0 <= j < i ==> (#[trigger] names@[j])@ != name@,
        decreases names@.len() - i,
    {
        if names[i] == *name {
            return true;
        }
        i = i + 1;
    }
    false
}

/// Whether a file of that name is among `names`.
pub open spec fn name_present(names: Seq<String>, name: Seq<char>) -> bool {
    exists|i: int| 0 <= i < names.len() && (#[trigger] names[i])@ == name
}

/// The image file of page `page_num` among the file names the rasteriser
/// produced: the first candidate name that is present.
pub fn find_page_image(existing: &Vec<String>, page_num: usize) -> (r: Result<String, String>)
    ensures
        ({
            let c = image_candidates(page_num as nat);
            let e = existing@;
            match r {
                Ok(name) => (name_present(e, c[0]) && name@ == c[0])
                    || (!name_present(e, c[0]) && name_present(e, c[1]) && name@ == c[1])
                    || (!name_present(e, c[0]) && !name_present(e, c[1]) && name_present(e, c[2]) && name@ == c[2]),
                Err(m) => !name_present(e, c[0]) && !name_present(e, c[1]) && !name_present(e, c[2])
                    && m@ == "Image for page "@ + decimal(page_num as nat) + " not found"@,
            }
        }),
{
    let ghost c = image_candidates(page_num as nat);
    let a = candidate(page_num, 0);
    assert(crate::text::zero_padded(page_num as nat, 0) == decimal(page_num as nat));
    if contains_name(existing, &a) {
        return Ok(a);
    }
    let b = candidate(page_num, 2);
    if contains_name(existing, &b) {
        return Ok(b);
    }
    let d = candidate(page_num, 3);
    if contains_name(existing, &d) {
        return Ok(d);
    }
    let mut m = "Image for page ".to_owned();
    push_decimal(&mut m, page_num as u64);
    m.append(" not found");
    Err(m)
}

/// The data URL under which a page image is sent for recognition.
pub fn image_data_url(image_base64: &str) -> (r: String)
    ensures
        r@ == "data:image/jpeg;base64,"@ + image_base64@,
{
    let mut s = "data:image/jpeg;base64,".to_owned();
    s.append(image_base64);
    s
}

} // verus!

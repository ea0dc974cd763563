//! Output assembler: lays translated page texts out on A4 pages in a CJK
//! font and serialises them as a PDF document.
use vstd::prelude::*;

use crate::text::{chars_of, decimal, decimal_string, push_char, push_decimal, zero_padded};

verus! {

/// Characters per line: the usable width (495 pt) over the width of one
/// narrow character (11 pt font at 0.55 em).
pub const MAX_LINE_CHARS: usize = 81;

/// Lines per page: the usable height (742 pt) over the 16 pt leading.
pub const MAX_PAGE_LINES: usize = 46;

/// Width of a character in line units: one for ASCII, two otherwise.
pub open spec fn char_width(c: char) -> nat {
    if (c as u32) < 128 { 1 } else { 2 }
}

/// Pieces of `s` between line feeds (always at least one piece).
pub open spec fn split_lf(s: Seq<char>) -> Seq<Seq<char>>
    decreases s.len(),
{
    if s.len() == 0 {
        seq![Seq::empty()]
    } else {
        let p = split_lf(s.drop_last());
        if s.last() == '\n' {
            p.push(Seq::empty())
        } else {
            p.update(p.len() - 1, p.last().push(s.last()))
        }
    }
}

/// A line without its trailing carriage return.
pub open spec fn strip_cr(l: Seq<char>) -> Seq<char> {
    if l.len() > 0 && l.last() == '\r' { l.drop_last() } else { l }
}

/// The lines of `s`: split at line feeds, a final line feed ends the last
/// line rather than starting an empty one, and each line loses a trailing
/// carriage return.
pub open spec fn text_lines(s: Seq<char>) -> Seq<Seq<char>> {
    let p = if s.len() > 0 && s.last() == '\n' { split_lf(s).drop_last() } else { split_lf(s) };
    if s.len() == 0 { Seq::empty() } else { p.map_values(|l: Seq<char>| strip_cr(l)) }
}

/// Greedy wrapping state after the characters of `t`: finished lines, the
/// line being filled, and its width.
pub open spec fn wrap_state(t: Seq<char>, max: nat) -> (Seq<Seq<char>>, Seq<char>, nat)
    decreases t.len(),
{
    if t.len() == 0 {
        (Seq::empty(), Seq::empty(), 0)
    } else {
        let (ls, cur, cnt) = wrap_state(t.drop_last(), max);
        let c = t.last();
        if cnt + char_width(c) > max && cur.len() > 0 {
            (ls.push(cur), seq![c], char_width(c))
        } else {
            (ls, cur.push(c), cnt + char_width(c))
        }
    }
}

/// `t` broken greedily into lines no wider than `max` (a single character
/// wider than `max` still gets a line); an empty text is one empty line.
pub open spec fn wrap(t: Seq<char>, max: nat) -> Seq<Seq<char>> {
    if t.len() == 0 {
        seq![Seq::empty()]
    } else {
        let (ls, cur, cnt) = wrap_state(t, max);
        ls.push(cur)
    }
}

/// Concatenation of the pieces, left to right.
pub open spec fn concat_all<A>(s: Seq<Seq<A>>) -> Seq<A>
    decreases s.len(),
{
    if s.len() == 0 { Seq::empty() } else { concat_all(s.drop_last()) + s.last() }
}

pub open spec fn hex_char(d: nat) -> char {
    "0123456789ABCDEF"@[d as int]
}

/// Four upper-case hex digits of a 16-bit unit.
pub open spec fn hex4(u: nat) -> Seq<char> {
    seq![hex_char(u / 4096 % 16), hex_char(u / 256 % 16), hex_char(u / 16 % 16), hex_char(u % 16)]
}

/// UTF-16BE code units of `c` in hex: one unit, or a surrogate pair.
pub open spec fn utf16_hex(c: char) -> Seq<char> {
    let code = (c as u32) as nat;
    if code <= 0xFFFF {
        hex4(code)
    } else {
        let a = (code - 0x10000) as nat;
        hex4(0xD800 + a / 1024 % 1024) + hex4(0xDC00 + a % 1024)
    }
}

/// Byte-order mark followed by the UTF-16BE hex of every character.
pub open spec fn utf16be_hex(s: Seq<char>) -> Seq<char> {
    "FEFF"@ + concat_all(s.map_values(|c: char| utf16_hex(c)))
}

/// Text-showing operators for one line.
pub open spec fn line_ops(l: Seq<char>) -> Seq<char> {
    if l.len() == 0 { "T*\n"@ } else { "<"@ + utf16be_hex(l) + "> Tj T*\n"@ }
}

/// Content stream of one page: font, leading and start position, then the lines.
pub open spec fn page_stream(lines: Seq<Seq<char>>) -> Seq<char> {
    "BT\n/F1 11 Tf\n16 TL\n1 0 0 1 50 792 Tm\n"@ + concat_all(lines.map_values(|l: Seq<char>| line_ops(l))) + "ET\n"@
}

/// Every wrapped line of the document text.
pub open spec fn layout_lines(content: Seq<char>) -> Seq<Seq<char>> {
    concat_all(text_lines(content).map_values(|l: Seq<char>| wrap(l, MAX_LINE_CHARS as nat)))
}

/// Number of pages for `n` lines: at least one.
pub open spec fn page_count(n: nat) -> nat {
    if n == 0 { 1 } else { (n + MAX_PAGE_LINES - 1) as nat / MAX_PAGE_LINES as nat }
}

/// Lines of page `k` (counting from zero).
pub open spec fn page_lines(lines: Seq<Seq<char>>, k: nat) -> Seq<Seq<char>> {
    let from: int = k * MAX_PAGE_LINES;
    let to: int = if from + MAX_PAGE_LINES <= lines.len() { from + MAX_PAGE_LINES } else { lines.len() as int };
    lines.subrange(from, to)
}

/// Characters written as bytes (every character the writer emits is ASCII).
pub open spec fn low_bytes(s: Seq<char>) -> Seq<u8> {
    s.map_values(|c: char| (c as u32) as u8)
}

/// `%PDF-1.4`, then a comment of four high bytes marking the file as binary.
pub open spec fn header_bytes() -> Seq<u8> {
    low_bytes("%PDF-1.4\n%"@) + seq![0xE2u8, 0xE3u8, 0xCFu8, 0xD3u8] + low_bytes("\n"@)
}

pub open spec fn page_ref(i: nat) -> Seq<char> {
    decimal(4 + 2 * i) + " 0 R"@
}

/// References to the page objects, separated by spaces.
pub open spec fn page_refs(n: nat) -> Seq<char>
    decreases n,
{
    if n == 0 {
        Seq::empty()
    } else if n == 1 {
        page_ref(0)
    } else {
        page_refs((n - 1) as nat) + " "@ + page_ref((n - 1) as nat)
    }
}

pub open spec fn catalog_obj() -> Seq<char> {
    "1 0 obj\n<< /Type /Catalog /Pages 2 0 R >>\nendobj\n"@
}

pub open spec fn pages_obj(n: nat) -> Seq<char> {
    "2 0 obj\n<< /Type /Pages /Kids [ "@ + page_refs(n) + " ] /Count "@ + decimal(n) + " >>\nendobj\n"@
}

pub open spec fn font_obj() -> Seq<char> {
    "3 0 obj\n<< /Type /Font /Subtype /Type0 /BaseFont /STSong-Light /Encoding /UniGB-UTF16-H /DescendantFonts [ << /Type /Font /Subtype /CIDFontType0 /BaseFont /STSong-Light /CIDSystemInfo << /Registry (Adobe) /Ordering (GB1) /Supplement 5 >> >> ] >>\nendobj\n"@
}

pub open spec fn page_obj(i: nat) -> Seq<char> {
    decimal(4 + 2 * i)
        + " 0 obj\n<< /Type /Page /Parent 2 0 R /MediaBox [0 0 595 842] /Contents "@
        + decimal(5 + 2 * i)
        + " 0 R /Resources << /Font << /F1 3 0 R >> >> >>\nendobj\n"@
}

pub open spec fn content_obj(i: nat, stream: Seq<char>) -> Seq<char> {
    decimal(5 + 2 * i) + " 0 obj\n<< /Length "@ + decimal(stream.len()) + " >>\nstream\n"@ + stream
        + "endstream\nendobj\n"@
}

/// Catalog, page tree and font, then a page object and a content object
/// for each of the first `k` streams.
pub open spec fn objects(streams: Seq<Seq<char>>, k: nat) -> Seq<Seq<char>>
    decreases k,
{
    if k == 0 {
        seq![catalog_obj(), pages_obj(streams.len()), font_obj()]
    } else {
        let i = (k - 1) as nat;
        objects(streams, i).push(page_obj(i)).push(content_obj(i, streams[i as int]))
    }
}

/// Byte offset of each object, the body starting after `h` bytes.
pub open spec fn obj_offsets(objs: Seq<Seq<char>>, h: nat) -> Seq<nat> {
    Seq::new(objs.len(), |j: int| h + concat_all(objs.subrange(0, j)).len())
}

pub open spec fn xref_entry(offset: nat) -> Seq<char> {
    zero_padded(offset, 10) + " 00000 n \n"@
}

/// Cross-reference table: the free head entry, then one entry per object.
pub open spec fn xref_table(offsets: Seq<nat>) -> Seq<char> {
    "xref\n0 "@ + decimal(offsets.len() + 1) + "\n"@ + "0000000000 65535 f \n"@
        + concat_all(offsets.map_values(|o: nat| xref_entry(o)))
}

pub open spec fn trailer(count: nat, xref_at: nat) -> Seq<char> {
    "trailer\n<< /Size "@ + decimal(count + 1) + " /Root 1 0 R >>\nstartxref\n"@ + decimal(xref_at)
        + "\n%%EOF\n"@
}

/// The complete document for the given page content streams.
pub open spec fn document(streams: Seq<Seq<char>>) -> Seq<u8> {
    let objs = objects(streams, streams.len());
    let body = concat_all(objs);
    let h = header_bytes().len();
    header_bytes() + low_bytes(
        body + xref_table(obj_offsets(objs, h)) + trailer(objs.len(), h + body.len()),
    )
}

/// Content streams for a document text.
pub open spec fn page_streams(content: Seq<char>) -> Seq<Seq<char>> {
    let lines = layout_lines(content);
    Seq::new(page_count(lines.len()), |k: int| page_stream(page_lines(lines, k as nat)))
}

/// The text accumulated by `add_content` over `pages`.
pub open spec fn joined(pages: Seq<Seq<char>>) -> Seq<char>
    decreases pages.len(),
{
    if pages.len() == 0 {
        Seq::empty()
    } else {
        let j = joined(pages.drop_last());
        if j.len() == 0 { pages.last() } else { j + "\n\n"@ + pages.last() }
    }
}

fn push_text(out: &mut Vec<u8>, s: &str)
    ensures
        final(out)@ == old(out)@ + low_bytes(s@),
{
    let chars = chars_of(s);
    let ghost start = out@;
    let mut i: usize = 0;
    while i < chars.len()
        invariant
            chars@ == s@,
            i <= chars@.len(),
            out@ == start + low_bytes(chars@.subrange(0, i as int)),
        decreases chars@.len() - i,
    {
        let c = chars[i];
        out.push((c as u32) as u8);
        i = i + 1;
        assert(low_bytes(chars@.subrange(0, i as int)) =~= low_bytes(chars@.subrange(0, i - 1)).push((c as u32) as u8));
        assert(out@ =~= start + low_bytes(chars@.subrange(0, i as int)));
    }
    assert(chars@.subrange(0, i as int) =~= s@);
}

fn push_padded(s: &mut String, n: u64, width: usize)
    ensures
        final(s)@ == old(s)@ + zero_padded(n as nat, width as nat),
{
    let d = decimal_string(n);
    let len = d.unicode_len();
    let ghost start = s@;
    let mut k: usize = len;
    while k < width
        invariant
            len == decimal(n as nat).len(),
            len <= k,
            k <= width || k == len,
            s@ == start + Seq::new((k - len) as nat, |i: int| '0'),
        decreases width - k,
    {
        push_char(s, '0');
        k = k + 1;
        assert(s@ =~= start + Seq::new((k - len) as nat, |i: int| '0'));
    }
    s.append(d.as_str());
    assert(s@ =~= start + zero_padded(n as nat, width as nat));
}

proof fn lemma_low_bytes_append(a: Seq<char>, b: Seq<char>)
    ensures
        low_bytes(a + b) == low_bytes(a) + low_bytes(b),
{
    assert(low_bytes(a + b) =~= low_bytes(a) + low_bytes(b));
}

fn emit_object(
    out: &mut Vec<u8>,
    offsets: &mut Vec<usize>,
    obj: &str,
    Ghost(objs): Ghost<Seq<Seq<char>>>,
)
    requires
        old(out)@ == header_bytes() + low_bytes(concat_all(objs)),
        old(offsets)@.map_values(|o: usize| o as nat) == obj_offsets(objs, header_bytes().len()),
    ensures
        final(out)@ == header_bytes() + low_bytes(concat_all(objs.push(obj@))),
        final(offsets)@.map_values(|o: usize| o as nat) == obj_offsets(objs.push(obj@), header_bytes().len()),
{
    let ghost h = header_bytes().len();
    let ghost prev = offsets@;
    let at = out.len();
    assert(at == h + concat_all(objs).len());
    offsets.push(at);
    push_text(out, obj);
    proof {
        let all = objs.push(obj@);
        assert(all.drop_last() =~= objs);
        lemma_low_bytes_append(concat_all(objs), obj@);
        assert(out@ =~= header_bytes() + low_bytes(concat_all(all)));
        assert forall|j: int| 0 <= j < objs.len() implies #[trigger] all.subrange(0, j) == objs.subrange(0, j) by {
            assert(all.subrange(0, j) =~= objs.subrange(0, j));
        }
        assert(all.subrange(0, objs.len() as int) =~= objs);
        let got = offsets@.map_values(|o: usize| o as nat);
        let want = obj_offsets(all, h);
        let pm = prev.map_values(|o: usize| o as nat);
        assert(offsets@ == prev.push(at));
        assert(pm.len() == objs.len());
        assert(got.len() == want.len());
        assert forall|j: int| 0 <= j < got.len() implies got[j] == want[j] by {
            assert(got[j] == offsets@[j] as nat);
            if j < objs.len() {
                assert(offsets@[j] == prev[j]);
                assert(pm[j] == prev[j] as nat);
                assert(all.subrange(0, j) == objs.subrange(0, j));
            }
        }
        assert(got =~= want);
    }
}

fn pages_obj_text(n: usize) -> (r: String)
    requires
        2 * n + 4 <= u64::MAX,
    ensures
        r@ == pages_obj(n as nat),
{
    let mut s = "2 0 obj\n<< /Type /Pages /Kids [ ".to_owned();
    let ghost start = s@;
    let mut i: usize = 0;
    while i < n
        invariant
            2 * n + 4 <= u64::MAX,
            i <= n,
            s@ == start + page_refs(i as nat),
        decreases n - i,
    {
        if i > 0 {
            s.append(" ");
        }
        push_decimal(&mut s, 4 + 2 * (i as u64));
        s.append(" 0 R");
        i = i + 1;
        assert(s@ =~= start + page_refs(i as nat));
    }
    s.append(" ] /Count ");
    push_decimal(&mut s, n as u64);
    s.append(" >>\nendobj\n");
    s
}

fn page_obj_text(i: usize) -> (r: String)
    requires
        2 * i + 5 <= u64::MAX,
    ensures
        r@ == page_obj(i as nat),
{
    let mut s = String::new();
    push_decimal(&mut s, 4 + 2 * (i as u64));
    s.append(" 0 obj\n<< /Type /Page /Parent 2 0 R /MediaBox [0 0 595 842] /Contents ");
    push_decimal(&mut s, 5 + 2 * (i as u64));
    s.append(" 0 R /Resources << /Font << /F1 3 0 R >> >> >>\nendobj\n");
    assert(s@ =~= page_obj(i as nat));
    s
}

fn content_obj_text(i: usize, stream: &str) -> (r: String)
    requires
        2 * i + 5 <= u64::MAX,
    ensures
        r@ == content_obj(i as nat, stream@),
{
    let mut s = String::new();
    push_decimal(&mut s, 5 + 2 * (i as u64));
    s.append(" 0 obj\n<< /Length ");
    push_decimal(&mut s, stream.unicode_len() as u64);
    s.append(" >>\nstream\n");
    s.append(stream);
    s.append("endstream\nendobj\n");
    assert(s@ =~= content_obj(i as nat, stream@));
    s
}

proof fn lemma_objects_len(ss: Seq<Seq<char>>, k: nat)
    ensures
        objects(ss, k).len() == 3 + 2 * k,
    decreases k,
{
    if k > 0 {
        lemma_objects_len(ss, (k - 1) as nat);
    }
}

/// Serialises a document whose pages have the given content streams.
pub fn write_document(streams: &Vec<String>) -> (r: Vec<u8>)
    requires
        2 * streams@.len() + 6 <= u64::MAX,
    ensures
        r@ == document(streams@.map_values(|x: String| x@)),
{
    let ghost ss = streams@.map_values(|x: String| x@);
    let n = streams.len();
    let mut out: Vec<u8> = Vec::new();
    push_text(&mut out, "%PDF-1.4\n%");
    out.push(0xE2u8);
    out.push(0xE3u8);
    out.push(0xCFu8);
    out.push(0xD3u8);
    push_text(&mut out, "\n");
    assert(out@ =~= header_bytes());
    let mut offsets: Vec<usize> = Vec::new();
    proof {
        assert(out@ =~= header_bytes() + low_bytes(concat_all(Seq::<Seq<char>>::empty())));
        assert(offsets@.map_values(|o: usize| o as nat) =~= obj_offsets(Seq::empty(), header_bytes().len()));
    }
    let ghost o0 = Seq::<Seq<char>>::empty();
    emit_object(&mut out, &mut offsets, "1 0 obj\n<< /Type /Catalog /Pages 2 0 R >>\nendobj\n", Ghost(o0));
    let p2 = pages_obj_text(n);
    let ghost o1 = o0.push(catalog_obj());
    emit_object(&mut out, &mut offsets, p2.as_str(), Ghost(o1));
    let ghost o2 = o1.push(pages_obj(n as nat));
    emit_object(&mut out, &mut offsets, "3 0 obj\n<< /Type /Font /Subtype /Type0 /BaseFont /STSong-Light /Encoding /UniGB-UTF16-H /DescendantFonts [ << /Type /Font /Subtype /CIDFontType0 /BaseFont /STSong-Light /CIDSystemInfo << /Registry (Adobe) /Ordering (GB1) /Supplement 5 >> >> ] >>\nendobj\n", Ghost(o2));
    let ghost o3 = o2.push(font_obj());
    assert(o3 =~= objects(ss, 0));
    let mut i: usize = 0;
    while i < n
        invariant
            n == streams@.len(),
            ss == streams@.map_values(|x: String| x@),
            2 * n + 6 <= u64::MAX,
            i <= n,
            out@ == header_bytes() + low_bytes(concat_all(objects(ss, i as nat))),
            offsets@.map_values(|o: usize| o as nat) == obj_offsets(objects(ss, i as nat), header_bytes().len()),
        decreases n - i,
    {
        let ghost before = objects(ss, i as nat);
        let po = page_obj_text(i);
        emit_object(&mut out, &mut offsets, po.as_str(), Ghost(before));
        let co = content_obj_text(i, streams[i].as_str());
        emit_object(&mut out, &mut offsets, co.as_str(), Ghost(before.push(page_obj(i as nat))));
        i = i + 1;
        assert(objects(ss, i as nat) == before.push(page_obj((i - 1) as nat)).push(content_obj((i - 1) as nat, ss[i - 1])));
    }
    let ghost objs = objects(ss, n as nat);
    let ghost h = header_bytes().len();
    proof { lemma_objects_len(ss, n as nat); }
    let xref_at = out.len();
    let m = offsets.len();
    assert(m == 3 + 2 * n);
    let mut x = "xref\n0 ".to_owned();
    push_decimal(&mut x, (m as u64) + 1);
    x.append("\n");
    x.append("0000000000 65535 f \n");
    let ghost xstart = x@;
    let ghost offs = offsets@.map_values(|o: usize| o as nat);
    let mut j: usize = 0;
    while j < m
        invariant
            m == offsets@.len(),
            offs == offsets@.map_values(|o: usize| o as nat),
            j <= m,
            x@ == xstart + concat_all(offs.subrange(0, j as int).map_values(|o: nat| xref_entry(o))),
        decreases m - j,
    {
        let ghost pre = offs.subrange(0, j as int).map_values(|o: nat| xref_entry(o));
        let ghost nxt = offs.subrange(0, j + 1).map_values(|o: nat| xref_entry(o));
        assert(nxt.drop_last() =~= pre);
        push_padded(&mut x, offsets[j] as u64, 10);
        x.append(" 00000 n \n");
        j = j + 1;
        assert(x@ =~= xstart + concat_all(nxt));
    }
    assert(offs.subrange(0, j as int) =~= offs);
    push_text(&mut out, x.as_str());
    let mut t = "trailer\n<< /Size ".to_owned();
    push_decimal(&mut t, (m as u64) + 1);
    t.append(" /Root 1 0 R >>\nstartxref\n");
    push_decimal(&mut t, xref_at as u64);
    t.append("\n%%EOF\n");
    push_text(&mut out, t.as_str());
    proof {
        let body = concat_all(objs);
        assert(x@ =~= xref_table(obj_offsets(objs, h)));
        assert(t@ =~= trailer(objs.len(), h + body.len()));
        lemma_low_bytes_append(body, x@);
        lemma_low_bytes_append(body + x@, t@);
        assert(out@ =~= document(ss));
    }
    out
}

/// Document text accumulated page by page.
pub struct SimplePdf {
    pub content: String,
}

pub(crate) fn lines_of(s: &Vec<char>) -> (r: Vec<String>)
    ensures
        r@.map_values(|x: String| x@) == text_lines(s@),
{
    let n = s.len();
    let mut pieces: Vec<String> = Vec::new();
    let mut cur = String::new();
    let mut i: usize = 0;
    while i < n
        invariant
            n == s@.len(),
            i <= n,
            pieces@.map_values(|x: String| x@).push(cur@) == split_lf(s@.subrange(0, i as int)),
        decreases n - i,
    {
        let ghost pre = s@.subrange(0, i as int);
        assert(s@.subrange(0, i + 1).drop_last() =~= pre);
        let c = s[i];
        if c == '\n' {
            let ghost old_pieces = pieces@.map_values(|x: String| x@);
            pieces.push(cur);
            cur = String::new();
            assert(pieces@.map_values(|x: String| x@) =~= old_pieces.push(split_lf(pre).last()));
            assert(pieces@.map_values(|x: String| x@).push(cur@) =~= split_lf(pre).push(Seq::empty()));
        } else {
            let ghost old_cur = cur@;
            push_char(&mut cur, c);
            assert(pieces@.map_values(|x: String| x@).push(cur@)
                =~= split_lf(pre).update(split_lf(pre).len() - 1, old_cur.push(c)));
        }
        i = i + 1;
    }
    assert(s@.subrange(0, n as int) =~= s@);
    let ghost all = pieces@.map_values(|x: String| x@).push(cur@);
    let mut r: Vec<String> = Vec::new();
    if n == 0 {
        assert(r@.map_values(|x: String| x@) =~= text_lines(s@));
        return r;
    }
    let keep_last = s[n - 1] != '\n';
    let mut pieces = pieces;
    pieces.push(cur);
    assert(pieces@.map_values(|x: String| x@) =~= all);
    let count = if keep_last { pieces.len() } else { pieces.len() - 1 };
    let ghost kept = if keep_last { all } else { all.drop_last() };
    assert(kept.len() == count);
    let mut j: usize = 0;
    while j < count
        invariant
            count <= pieces@.len(),
            pieces@.map_values(|x: String| x@) == all,
            kept.len() == count,
            forall|k: int| 0 <= k < count ==> kept[k] == all[k],
            j <= count,
            r@.len() == j,
            forall|k: int| 0 <= k < j ==> (#[trigger] r@[k])@ == strip_cr(kept[k]),
        decreases count - j,
    {
        let l = &pieces[j];
        let chars = chars_of(l.as_str());
        let m = chars.len();
        let mut t = String::new();
        let stop = if m > 0 && chars[m - 1] == '\r' { m - 1 } else { m };
        let mut k: usize = 0;
        while k < stop
            invariant
                j < count,
                count == kept.len(),
                chars@ == all[j as int],
                stop <= chars@.len(),
                k <= stop,
                t@ == chars@.subrange(0, k as int),
            decreases stop - k,
        {
            push_char(&mut t, chars[k]);
            k = k + 1;
            assert(t@ =~= chars@.subrange(0, k as int));
        }
        assert(t@ =~= strip_cr(all[j as int]));
        r.push(t);
        j = j + 1;
    }
    assert(r@.map_values(|x: String| x@) =~= text_lines(s@));
    r
}

fn push_hex_digit(s: &mut String, d: u32)
    requires
        d < 16,
    ensures
        final(s)@ == old(s)@.push(hex_char(d as nat)),
{
    let digits = "0123456789ABCDEF";
    proof {
        reveal_strlit("0123456789ABCDEF");
    }
    push_char(s, digits.get_char(d as usize));
}

fn push_hex4(s: &mut String, u: u32)
    requires
        u < 65536,
    ensures
        final(s)@ == old(s)@ + hex4(u as nat),
{
    push_hex_digit(s, u / 4096 % 16);
    push_hex_digit(s, u / 256 % 16);
    push_hex_digit(s, u / 16 % 16);
    push_hex_digit(s, u % 16);
    assert(s@ =~= old(s)@ + hex4(u as nat));
}

impl SimplePdf {
    pub fn new() -> (r: Self)
        ensures
            r.content@ == Seq::<char>::empty(),
    {
        SimplePdf { content: String::new() }
    }

    /// Appends a page's text, separated from earlier text by a blank line.
    pub fn add_content(&mut self, text: &str)
        ensures
            old(self).content@.len() == 0 ==> final(self).content@ == text@,
            old(self).content@.len() > 0 ==> final(self).content@ == old(self).content@ + "\n\n"@ + text@,
    {
        if self.content.unicode_len() > 0 {
            self.content.append("\n\n");
        }
        self.content.append(text);
    }

    /// Greedy line breaking at `max_chars` width units.
    pub fn wrap_text(&self, text: &str, max_chars: usize) -> (r: Vec<String>)
        requires
            max_chars <= usize::MAX - 4,
        ensures
            r@.map_values(|x: String| x@) == wrap(text@, max_chars as nat),
    {
        let chars = chars_of(text);
        let n = chars.len();
        if n == 0 {
            let r = vec![String::new()];
            assert(r@.map_values(|x: String| x@) =~= wrap(text@, max_chars as nat));
            return r;
        }
        let mut lines: Vec<String> = Vec::new();
        let mut current = String::new();
        let mut count: usize = 0;
        let mut i: usize = 0;
        while i < n
            invariant
                chars@ == text@,
                n == chars@.len(),
                i <= n,
                max_chars <= usize::MAX - 4,
                count <= max_chars + 2,
                (current@.len() == 0) == (i == 0),
                (lines@.map_values(|x: String| x@), current@, count as nat)
                    == wrap_state(chars@.subrange(0, i as int), max_chars as nat),
            decreases n - i,
        {
            let ghost pre = chars@.subrange(0, i as int);
            assert(chars@.subrange(0, i + 1).drop_last() =~= pre);
            let c = chars[i];
            let w: usize = if (c as u32) < 128 { 1 } else { 2 };
            if count + w > max_chars && current.unicode_len() > 0 {
                let ghost old_lines = lines@.map_values(|x: String| x@);
                lines.push(current);
                current = String::new();
                push_char(&mut current, c);
                count = w;
                assert(lines@.map_values(|x: String| x@) =~= old_lines.push(wrap_state(pre, max_chars as nat).1));
                assert(current@ =~= seq![c]);
            } else {
                push_char(&mut current, c);
                count = count + w;
            }
            i = i + 1;
        }
        assert(chars@.subrange(0, n as int) =~= chars@);
        let ghost ls = lines@.map_values(|x: String| x@);
        lines.push(current);
        assert(lines@.map_values(|x: String| x@) =~= ls.push(wrap_state(text@, max_chars as nat).1));
        lines
    }

    /// `FEFF` followed by the UTF-16BE code units of `text` in hex.
    pub fn to_utf16be_hex(&self, text: &str) -> (r: String)
        ensures
            r@ == utf16be_hex(text@),
    {
        let chars = chars_of(text);
        let mut hex = "FEFF".to_owned();
        let mut i: usize = 0;
        while i < chars.len()
            invariant
                chars@ == text@,
                i <= chars@.len(),
                hex@ == "FEFF"@ + concat_all(chars@.subrange(0, i as int).map_values(|c: char| utf16_hex(c))),
            decreases chars@.len() - i,
        {
            let ghost pre = chars@.subrange(0, i as int).map_values(|c: char| utf16_hex(c));
            let ghost next = chars@.subrange(0, i + 1).map_values(|c: char| utf16_hex(c));
            assert(next.drop_last() =~= pre);
            let c = chars[i];
            let code = c as u32;
            if code <= 0xFFFF {
                push_hex4(&mut hex, code);
            } else {
                let adjusted = code - 0x10000;
                push_hex4(&mut hex, 0xD800 + adjusted / 1024 % 1024);
                push_hex4(&mut hex, 0xDC00 + adjusted % 1024);
            }
            i = i + 1;
            assert(hex@ =~= "FEFF"@ + concat_all(next));
        }
        assert(chars@.subrange(0, i as int) =~= chars@);
        hex
    }

    /// The content stream showing `lines` from the top-left margin.
    pub fn create_page_stream(&self, lines: &[String]) -> (r: String)
        ensures
            r@ == page_stream(lines@.map_values(|x: String| x@)),
    {
        let mut stream = "BT\n/F1 11 Tf\n16 TL\n1 0 0 1 50 792 Tm\n".to_owned();
        let ghost ls = lines@.map_values(|x: String| x@);
        let mut i: usize = 0;
        while i < lines.len()
            invariant
                ls == lines@.map_values(|x: String| x@),
                i <= lines@.len(),
                stream@ == "BT\n/F1 11 Tf\n16 TL\n1 0 0 1 50 792 Tm\n"@
                    + concat_all(ls.subrange(0, i as int).map_values(|l: Seq<char>| line_ops(l))),
            decreases lines@.len() - i,
        {
            let ghost next = ls.subrange(0, i + 1).map_values(|l: Seq<char>| line_ops(l));
            assert(next.drop_last() =~= ls.subrange(0, i as int).map_values(|l: Seq<char>| line_ops(l)));
            let line = lines[i].as_str();
            if line.unicode_len() == 0 {
                stream.append("T*\n");
            } else {
                stream.append("<");
                let h = self.to_utf16be_hex(line);
                stream.append(h.as_str());
                stream.append("> Tj T*\n");
            }
            i = i + 1;
            assert(stream@ =~= "BT\n/F1 11 Tf\n16 TL\n1 0 0 1 50 792 Tm\n"@ + concat_all(next));
        }
        assert(ls.subrange(0, i as int) =~= ls);
        stream.append("ET\n");
        stream
    }

    /// Content streams of the document's pages: every line of the text
    /// wrapped, then cut into pages of `MAX_PAGE_LINES` lines; an empty
    /// text still gives one page.
    pub fn prepare_pages(&self) -> (r: Vec<String>)
        ensures
            r@.len() == page_count(layout_lines(self.content@).len()),
            forall|k: int| 0 <= k < r@.len() ==>
                (#[trigger] r@[k])@ == page_stream(page_lines(layout_lines(self.content@), k as nat)),
    {
        let chars = chars_of(self.content.as_str());
        let lines = lines_of(&chars);
        let ghost tl = lines@.map_values(|x: String| x@);
        let ghost wrapped = tl.map_values(|l: Seq<char>| wrap(l, MAX_LINE_CHARS as nat));
        let mut all: Vec<String> = Vec::new();
        let mut i: usize = 0;
        while i < lines.len()
            invariant
                tl == lines@.map_values(|x: String| x@),
                wrapped == tl.map_values(|l: Seq<char>| wrap(l, MAX_LINE_CHARS as nat)),
                i <= lines@.len(),
                all@.map_values(|x: String| x@) == concat_all(wrapped.subrange(0, i as int)),
            decreases lines@.len() - i,
        {
            assert(wrapped.subrange(0, i + 1).drop_last() =~= wrapped.subrange(0, i as int));
            let w = self.wrap_text(lines[i].as_str(), MAX_LINE_CHARS);
            let ghost before = all@.map_values(|x: String| x@);
            let mut j: usize = 0;
            while j < w.len()
                invariant
                    j <= w@.len(),
                    all@.map_values(|x: String| x@) == before + w@.map_values(|x: String| x@).subrange(0, j as int),
                decreases w@.len() - j,
            {
                let c = w[j].clone();
                assert(c@ == w@.map_values(|x: String| x@)[j as int]);
                let ghost prev = all@;
                all.push(c);
                assert(all@.map_values(|x: String| x@) =~= prev.map_values(|x: String| x@).push(c@));
                assert(w@.map_values(|x: String| x@).subrange(0, j + 1)
                    =~= w@.map_values(|x: String| x@).subrange(0, j as int).push(c@));
                j = j + 1;
                assert(all@.map_values(|x: String| x@) =~= before + w@.map_values(|x: String| x@).subrange(0, j as int));
            }
            assert(w@.map_values(|x: String| x@).subrange(0, j as int) =~= w@.map_values(|x: String| x@));
            i = i + 1;
            assert(all@.map_values(|x: String| x@) =~= concat_all(wrapped.subrange(0, i as int)));
        }
        assert(wrapped.subrange(0, i as int) =~= wrapped);
        let ghost lay = all@.map_values(|x: String| x@);
        assert(lay == layout_lines(self.content@));
        let n = all.len();
        let mut pages: Vec<String> = Vec::new();
        if n == 0 {
            let empty: Vec<String> = Vec::new();
            let st = self.create_page_stream(empty.as_slice());
            pages.push(st);
            proof {
                assert(page_lines(lay, 0) =~= empty@.map_values(|x: String| x@));
            }
            return pages;
        }
        let count = n / MAX_PAGE_LINES + if n % MAX_PAGE_LINES == 0 { 0 } else { 1 };
        proof {
            assert(count == page_count(n as nat)) by (nonlinear_arith)
                requires
                    n > 0,
                    count == n / 46 + if n % 46 == 0 { 0int } else { 1int },
                    page_count(n as nat) == (n + 45) / 46;
        }
        let mut k: usize = 0;
        while k < count
            invariant
                lay == all@.map_values(|x: String| x@),
                n == all@.len(),
                count == page_count(n as nat),
                count == n / 46 + if n % 46 == 0 { 0int } else { 1int },
                k <= count,
                pages@.len() == k,
                forall|q: int| 0 <= q < k ==> (#[trigger] pages@[q])@ == page_stream(page_lines(lay, q as nat)),
            decreases count - k,
        {
            proof {
                assert(k * 46 < n) by (nonlinear_arith)
                    requires k < count, count == n / 46 + if n % 46 == 0 { 0int } else { 1int };
            }
            let from = k * MAX_PAGE_LINES;
            let to = if n - from >= MAX_PAGE_LINES { from + MAX_PAGE_LINES } else { n };
            let mut chunk: Vec<String> = Vec::new();
            let mut j: usize = from;
            while j < to
                invariant
                    from <= j <= to <= n,
                    n == all@.len(),
                    chunk@.map_values(|x: String| x@) == lay.subrange(from as int, j as int),
                    lay == all@.map_values(|x: String| x@),
                decreases to - j,
            {
                let c = all[j].clone();
                assert(c@ == lay[j as int]);
                let ghost prev = chunk@;
                chunk.push(c);
                assert(chunk@.map_values(|x: String| x@) =~= prev.map_values(|x: String| x@).push(c@));
                assert(lay.subrange(from as int, j + 1) =~= lay.subrange(from as int, j as int).push(c@));
                j = j + 1;
                assert(chunk@.map_values(|x: String| x@) =~= lay.subrange(from as int, j as int));
            }
            let st = self.create_page_stream(chunk.as_slice());
            assert(page_lines(lay, k as nat) == lay.subrange(from as int, to as int));
            pages.push(st);
            k = k + 1;
        }
        pages
    }

    /// The document for the accumulated text.
    pub fn render(&self) -> (r: Result<Vec<u8>, String>)
        ensures
            2 * page_streams(self.content@).len() + 6 <= u64::MAX <==> r is Ok,
            r matches Ok(b) ==> b@ == document(page_streams(self.content@)),
    {
        let pages = self.prepare_pages();
        proof {
            assert(pages@.map_values(|x: String| x@) =~= page_streams(self.content@));
        }
        if pages.len() as u128 * 2 + 6 > u64::MAX as u128 {
            return Err("document too large".to_owned());
        }
        Ok(write_document(&pages))
    }
}

/// Every wrapped line of the given page texts, joined by blank lines, laid
/// out on pages and serialised.
pub fn generate_pdf(pages: &[String]) -> (r: Result<Vec<u8>, String>)
    ensures
        2 * page_streams(joined(pages@.map_values(|x: String| x@))).len() + 6 <= u64::MAX <==> r is Ok,
        r matches Ok(b) ==> b@ == document(page_streams(joined(pages@.map_values(|x: String| x@)))),
{
    let ghost ps = pages@.map_values(|x: String| x@);
    let mut pdf = SimplePdf::new();
    let mut i: usize = 0;
    while i < pages.len()
        invariant
            ps == pages@.map_values(|x: String| x@),
            i <= pages@.len(),
            pdf.content@ == joined(ps.subrange(0, i as int)),
        decreases pages@.len() - i,
    {
        assert(ps.subrange(0, i + 1).drop_last() =~= ps.subrange(0, i as int));
        pdf.add_content(pages[i].as_str());
        i = i + 1;
    }
    assert(ps.subrange(0, i as int) =~= ps);
    pdf.render()
}

/// The document text holds every page's text, in page order: page `i`
/// sits at position `offs[i]`, and each page ends before the next begins.
pub proof fn lemma_pages_in_order(ps: Seq<Seq<char>>) -> (offs: Seq<int>)
    ensures
        offs.len() == ps.len(),
        forall|i: int| 0 <= i < ps.len() ==> 0 <= #[trigger] offs[i] && offs[i] + ps[i].len() <= joined(ps).len()
            && joined(ps).subrange(offs[i], offs[i] + ps[i].len()) == ps[i],
        forall|i: int, j: int| 0 <= i < j < ps.len() ==> #[trigger] offs[i] + ps[i].len() <= #[trigger] offs[j],
    decreases ps.len(),
{
    if ps.len() == 0 {
        Seq::empty()
    } else {
        let prev = ps.drop_last();
        let po = lemma_pages_in_order(prev);
        let j = joined(prev);
        let t = ps.last();
        let all = joined(ps);
        let at: int = if j.len() == 0 { 0 } else { j.len() as int + 2 };
        let offs = po.push(at);
        reveal_strlit("\n\n");
        assert(all == if j.len() == 0 { t } else { j + "\n\n"@ + t });
        assert(offs[prev.len() as int] == at);
        assert(ps[prev.len() as int] == t);
        assert forall|i: int| 0 <= i < ps.len() implies 0 <= #[trigger] offs[i] && offs[i] + ps[i].len() <= all.len()
            && all.subrange(offs[i], offs[i] + ps[i].len()) == ps[i] by {
            if i < prev.len() {
                assert(ps[i] == prev[i]);
                assert(offs[i] == po[i]);
                if j.len() == 0 {
                    assert(prev[i].len() == 0);
                    assert(all.subrange(offs[i], offs[i]) =~= ps[i]);
                } else {
                    assert(all.subrange(offs[i], offs[i] + ps[i].len()) =~= j.subrange(po[i], po[i] + prev[i].len()));
                }
            } else {
                assert(all.subrange(offs[i], offs[i] + ps[i].len()) =~= t);
            }
        }
        assert forall|i: int, k: int| 0 <= i < k < ps.len() implies #[trigger] offs[i] + ps[i].len() <= #[trigger] offs[k] by {
            if k < prev.len() {
                assert(ps[i] == prev[i]);
            } else {
                assert(ps[i] == prev[i]);
                assert(po[i] + prev[i].len() <= j.len());
            }
        }
        offs
    }
}

} // verus!

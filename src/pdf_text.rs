//! Decoding of text found in PDF content streams: literal-string escapes,
//! hex strings, and a plausibility check for extracted text.
use vstd::prelude::*;
use vstd::utf8::{decode_utf8, valid_utf8};

use crate::checkpoint::{ends_with, str_ends_with};
use crate::pdf::{lines_of, split_lf, strip_cr, text_lines};
use crate::text::{chars_of, push_char};
use crate::translate::{trim, trimmed};

verus! {

/// The character an escape `\c` stands for in a PDF literal string.
pub open spec fn unescape(c: char) -> char {
    if c == 'n' {
        '\n'
    } else if c == 'r' {
        '\r'
    } else if c == 't' {
        '\t'
    } else {
        c
    }
}

/// A PDF literal string with its escapes resolved; a lone trailing
/// backslash is dropped.
pub open spec fn unescaped(s: Seq<char>) -> Seq<char>
    decreases s.len(),
{
    if s.len() == 0 {
        Seq::empty()
    } else if s[0] == '\\' {
        if s.len() == 1 {
            Seq::empty()
        } else {
            seq![unescape(s[1])] + unescaped(s.subrange(2, s.len() as int))
        }
    } else {
        seq![s[0]] + unescaped(s.subrange(1, s.len() as int))
    }
}

/// Resolves the escapes of a PDF literal string.
pub fn decode_pdf_string(s: &str) -> (r: String)
    ensures
        r@ == unescaped(s@),
{
    let chars = chars_of(s);
    let n = chars.len();
    let mut out = String::new();
    let mut i: usize = 0;
    assert(s@.subrange(0, n as int) =~= s@);
    assert(out@ + unescaped(s@) =~= unescaped(s@));
    while i < n
        invariant
            chars@ == s@,
            n == s@.len(),
            i <= n,
            out@ + unescaped(s@.subrange(i as int, n as int)) == unescaped(s@),
        decreases n - i,
    {
        let ghost rest = s@.subrange(i as int, n as int);
        let c = chars[i];
        if c == '\\' {
            if i + 1 < n {
                let e = chars[i + 1];
                let d = if e == 'n' { '\n' } else if e == 'r' { '\r' } else if e == 't' { '\t' } else { e };
                assert(rest.subrange(2, rest.len() as int) =~= s@.subrange(i + 2, n as int));
                push_char(&mut out, d);
                i = i + 2;
                assert(out@ + unescaped(s@.subrange(i as int, n as int)) =~= unescaped(s@));
            } else {
                i = i + 1;
                assert(s@.subrange(i as int, n as int) =~= Seq::<char>::empty());
            }
        } else {
            assert(rest.subrange(1, rest.len() as int) =~= s@.subrange(i + 1, n as int));
            push_char(&mut out, c);
            i = i + 1;
            assert(out@ + unescaped(s@.subrange(i as int, n as int)) =~= unescaped(s@));
        }
    }
    assert(s@.subrange(n as int, n as int) =~= Seq::<char>::empty());
    assert(out@ + Seq::<char>::empty() =~= out@);
    out
}

/// Value of a hex digit.
pub open spec fn hex_value(c: char) -> Option<nat> {
    let u = c as u32;
    if 0x30 <= u <= 0x39 {
        Some((u - 0x30) as nat)
    } else if 0x41 <= u <= 0x46 {
        Some((u - 0x41 + 10) as nat)
    } else if 0x61 <= u <= 0x66 {
        Some((u - 0x61 + 10) as nat)
    } else {
        None
    }
}

/// Value of a non-empty run of hex digits.
pub open spec fn hex_digits_value(s: Seq<char>) -> Option<nat>
    decreases s.len(),
{
    if s.len() == 0 {
        None
    } else {
        match hex_value(s.last()) {
            None => None,
            Some(d) => if s.len() == 1 {
                Some(d)
            } else {
                match hex_digits_value(s.drop_last()) {
                    None => None,
                    Some(v) => Some(v * 16 + d),
                }
            },
        }
    }
}

/// An unsigned number in base 16 as `from_str_radix` reads it: an optional
/// `+`, then hex digits.
pub open spec fn radix16(s: Seq<char>) -> Option<nat> {
    if s.len() > 0 && s[0] == '+' {
        hex_digits_value(s.drop_first())
    } else {
        hex_digits_value(s)
    }
}

/// Whether `u` is a Unicode scalar value.
pub open spec fn is_scalar(u: nat) -> bool {
    u < 0xD800 || (0xDFFF < u && u <= 0x10FFFF)
}

/// `s` without its spaces.
pub open spec fn without_spaces(s: Seq<char>) -> Seq<char>
    decreases s.len(),
{
    if s.len() == 0 {
        Seq::empty()
    } else if s.last() == ' ' {
        without_spaces(s.drop_last())
    } else {
        without_spaces(s.drop_last()).push(s.last())
    }
}

/// Code points of the first `k` four-digit groups that read as scalar values.
pub open spec fn unit_codes(h: Seq<char>, k: nat) -> Seq<u32>
    decreases k,
{
    if k == 0 {
        Seq::empty()
    } else {
        let prev = unit_codes(h, (k - 1) as nat);
        let g = h.subrange(4 * (k - 1) as int, 4 * k as int);
        match radix16(g) {
            Some(v) => if is_scalar(v) { prev.push(v as u32) } else { prev },
            None => prev,
        }
    }
}

/// Bytes of the first `k` two-digit groups that read as numbers.
pub open spec fn pair_bytes(h: Seq<char>, k: nat) -> Seq<u8>
    decreases k,
{
    if k == 0 {
        Seq::empty()
    } else {
        let prev = pair_bytes(h, (k - 1) as nat);
        match radix16(h.subrange(2 * (k - 1) as int, 2 * k as int)) {
            Some(v) => prev.push(v as u8),
            None => prev,
        }
    }
}

/// Relies on `char::from_u32`: `Some` exactly for Unicode scalar values.
#[verifier::external_body]
fn scalar_char(u: u32) -> (r: Option<char>)
    ensures
        r is Some <==> is_scalar(u as nat),
        r matches Some(c) ==> c as u32 == u,
{
    char::from_u32(u)
}

/// Relies on `String::from_utf8`: `Ok` exactly for valid UTF-8, holding the
/// characters the bytes encode.
#[verifier::external_body]
fn utf8_string(bytes: Vec<u8>) -> (r: Option<String>)
    ensures
        r is Some <==> valid_utf8(bytes@),
        r matches Some(s) ==> s@ == decode_utf8(bytes@),
{
    String::from_utf8(bytes).ok()
}

fn hex_digit_value(c: char) -> (r: Option<u32>)
    ensures
        match hex_value(c) {
            Some(v) => r == Some(v as u32),
            None => r is None,
        },
{
    let u = c as u32;
    if 0x30 <= u && u <= 0x39 {
        Some(u - 0x30)
    } else if 0x41 <= u && u <= 0x46 {
        Some(u - 0x41 + 10)
    } else if 0x61 <= u && u <= 0x66 {
        Some(u - 0x61 + 10)
    } else {
        None
    }
}

/// Reads `h[from..to]` (at most four characters) as `from_str_radix` does in base 16.
fn read_radix16(h: &Vec<char>, from: usize, to: usize) -> (r: Option<u32>)
    requires
        from <= to <= h@.len(),
        to - from <= 4,
    ensures
        match radix16(h@.subrange(from as int, to as int)) {
            Some(v) => r == Some(v as u32) && v < 65536 && (to - from <= 2 ==> v < 256),
            None => r is None,
        },
{
    let ghost g = h@.subrange(from as int, to as int);
    let start = if from < to && h[from] == '+' { from + 1 } else { from };
    let ghost ds = h@.subrange(start as int, to as int);
    assert(radix16(g) == hex_digits_value(ds)) by {
        if from < to && h@[from as int] == '+' {
            assert(g.drop_first() =~= ds);
        } else {
            assert(g =~= ds);
        }
    }
    if start == to {
        return None;
    }
    let mut v: u32 = 0;
    let mut i: usize = start;
    while i < to
        invariant
            start < to <= h@.len(),
            to - start <= 4,
            start <= i <= to,
            ds == h@.subrange(start as int, to as int),
            radix16(h@.subrange(from as int, to as int)) == hex_digits_value(ds),
            i == start ==> v == 0,
            i > start ==> hex_digits_value(h@.subrange(start as int, i as int)) == Some(v as nat),
            v < pow16(i - start),
        decreases to - i,
    {
        let ghost pre = h@.subrange(start as int, i as int);
        let ghost nxt = h@.subrange(start as int, i + 1);
        assert(nxt.drop_last() =~= pre);
        match hex_digit_value(h[i]) {
            None => {
                proof { lemma_digits_none_extends(h@.subrange(start as int, to as int), (i - start) as nat); }
                return None;
            },
            Some(d) => {
                proof {
                    let k = (i - start) as nat;
                    lemma_pow16_step(k);
                    lemma_pow16_le4(k);
                    let p = pow16(k as int);
                    assert(v * 16 + d < 16 * p) by (nonlinear_arith)
                        requires v < p, d < 16;
                    assert(hex_digits_value(nxt) == Some((v * 16 + d) as nat) || i == start);
                }
                v = v * 16 + d;
                i = i + 1;
            },
        }
    }
    assert(h@.subrange(start as int, i as int) =~= ds);
    proof {
        lemma_pow16_step(0);
        lemma_pow16_le4((to - start) as nat);
        if to - from <= 2 {
            assert(pow16(1) == 16);
            assert(pow16(2) == 256);
            assert(to - start <= 2);
        }
    }
    Some(v)
}

spec fn pow16(n: int) -> nat
    decreases n,
{
    if n <= 0 { 1 } else { 16 * pow16(n - 1) }
}

proof fn lemma_pow16_step(n: nat)
    ensures
        pow16(n + 1 as int) == 16 * pow16(n as int),
{
}

proof fn lemma_pow16_le4(n: nat)
    requires
        n <= 4,
    ensures
        pow16(n as int) <= 65536,
        n <= 3 ==> pow16(n as int) <= 4096,
{
    assert(pow16(0) == 1);
    assert(pow16(1) == 16);
    assert(pow16(2) == 256);
    assert(pow16(3) == 4096);
    assert(pow16(4) == 65536);
}

/// A digit that is not hex makes every longer run unreadable too.
proof fn lemma_digits_none_extends(s: Seq<char>, k: nat)
    requires
        k < s.len(),
        hex_value(s[k as int]) is None,
    ensures
        hex_digits_value(s) is None,
    decreases s.len(),
{
    if k + 1 < s.len() {
        assert(s.drop_last()[k as int] == s[k as int]);
        lemma_digits_none_extends(s.drop_last(), k);
    }
}

/// The character with code point `u`.
pub open spec fn char_of(u: u32) -> char {
    u as char
}

/// Text of a PDF hex string (spaces ignored): UTF-16BE when the digits
/// come in groups of four and some group is a character, otherwise the
/// digit pairs as UTF-8 bytes (a trailing odd digit is ignored), nothing
/// when those bytes are not UTF-8. Groups that do not read as numbers are
/// skipped.
pub open spec fn hex_text(hex: Seq<char>) -> Option<Seq<char>> {
    let h = without_spaces(hex);
    let units = unit_codes(h, h.len() / 4);
    if h.len() % 4 == 0 && units.len() > 0 {
        Some(units.map_values(|u: u32| char_of(u)))
    } else {
        let b = pair_bytes(h, h.len() / 2);
        if valid_utf8(b) { Some(decode_utf8(b)) } else { None }
    }
}

/// Decodes a PDF hex string.
pub fn decode_hex_string(hex: &str) -> (r: Option<String>)
    ensures
        match hex_text(hex@) {
            Some(t) => r matches Some(s) && s@ == t,
            None => r is None,
        },
{
    let chars = chars_of(hex);
    let mut h: Vec<char> = Vec::new();
    let mut i: usize = 0;
    while i < chars.len()
        invariant
            chars@ == hex@,
            i <= chars@.len(),
            h@ == without_spaces(chars@.subrange(0, i as int)),
        decreases chars@.len() - i,
    {
        assert(chars@.subrange(0, i + 1).drop_last() =~= chars@.subrange(0, i as int));
        if chars[i] != ' ' {
            h.push(chars[i]);
        }
        i = i + 1;
    }
    assert(chars@.subrange(0, i as int) =~= hex@);
    let n = h.len();
    if n % 4 == 0 {
        let mut out = String::new();
        let mut k: usize = 0;
        while k < n / 4
            invariant
                n == h@.len(),
                n % 4 == 0,
                k <= n / 4,
                out@.map_values(|c: char| c as u32) == unit_codes(h@, k as nat),
            decreases n / 4 - k,
        {
            let ghost before = out@;
            match read_radix16(&h, 4 * k, 4 * k + 4) {
                Some(v) => {
                    match scalar_char(v) {
                        Some(c) => {
                            push_char(&mut out, c);
                            assert(out@.map_values(|c: char| c as u32) =~= before.map_values(|c: char| c as u32).push(v));
                        },
                        None => {},
                    }
                },
                None => {},
            }
            k = k + 1;
        }
        if out.unicode_len() > 0 {
            proof {
                let units = unit_codes(h@, (n / 4) as nat);
                let want = units.map_values(|u: u32| char_of(u));
                assert(want.len() == out@.len());
                assert forall|j: int| 0 <= j < out@.len() implies out@[j] == want[j] by {
                    assert(out@.map_values(|c: char| c as u32)[j] == units[j]);
                    assert(want[j] == char_of(units[j]));
                    vstd::utf8::char_u32_cast(out@[j], units[j]);
                }
                assert(out@ =~= want);
            }
            return Some(out);
        }
        assert(unit_codes(h@, (n / 4) as nat).len() == 0);
    }
    let mut bytes: Vec<u8> = Vec::new();
    let mut k: usize = 0;
    while k < n / 2
        invariant
            n == h@.len(),
            k <= n / 2,
            bytes@ == pair_bytes(h@, k as nat),
        decreases n / 2 - k,
    {
        match read_radix16(&h, 2 * k, 2 * k + 2) {
            Some(v) => {
                bytes.push(v as u8);
            },
            None => {},
        }
        k = k + 1;
    }
    utf8_string(bytes)
}

/// Bytes of `c` in UTF-8.
pub open spec fn utf8_width(c: char) -> nat {
    let u = c as u32;
    if u < 0x80 { 1 } else if u < 0x800 { 2 } else if u < 0x10000 { 3 } else { 4 }
}

/// Control characters, private-use characters and the replacement
/// character: signs of a font encoding decoded naively.
pub open spec fn is_noise(c: char) -> bool {
    let u = c as u32;
    u < 32 || (0xE000 <= u <= 0xF8FF) || u == 0xFFFD
}

/// ASCII letters, digits, white space and punctuation, CJK ideographs,
/// kana, hangul, and common full-width punctuation.
pub open spec fn is_readable(c: char) -> bool {
    let u = c as u32;
    ||| (0x30 <= u <= 0x39) || (0x41 <= u <= 0x5A) || (0x61 <= u <= 0x7A)
    ||| u == 0x20 || u == 0x09 || u == 0x0A || u == 0x0C || u == 0x0D
    ||| (0x21 <= u <= 0x2F) || (0x3A <= u <= 0x40) || (0x5B <= u <= 0x60) || (0x7B <= u <= 0x7E)
    ||| (0x4E00 <= u <= 0x9FFF) || (0x3040 <= u <= 0x30FF) || (0xAC00 <= u <= 0xD7AF)
    ||| u == 0xFF0C || u == 0x3002 || u == 0xFF01 || u == 0xFF1F || u == 0x3001 || u == 0xFF1B
        || u == 0xFF1A || u == 0xFF08 || u == 0xFF09 || (0x300A <= u <= 0x3011)
}

/// A space or a CJK ideograph: a sign of word structure.
pub open spec fn is_structural(c: char) -> bool {
    let u = c as u32;
    u == 0x20 || (0x4E00 <= u <= 0x9FFF)
}

/// (UTF-8 length, noise count, readable count, has structure) of `s`.
pub open spec fn text_stats(s: Seq<char>) -> (nat, nat, nat, bool)
    decreases s.len(),
{
    if s.len() == 0 {
        (0, 0, 0, false)
    } else {
        let (b, n, r, st) = text_stats(s.drop_last());
        let c = s.last();
        (
            b + utf8_width(c),
            n + if is_noise(c) { 1nat } else { 0nat },
            r + if is_readable(c) { 1nat } else { 0nat },
            st || is_structural(c),
        )
    }
}

/// Extracted text is usable when, once trimmed, it has at least 50 bytes,
/// at most 5% noise characters, more than 80% readable characters, and a
/// space or an ideograph.
pub open spec fn text_plausible(s: Seq<char>) -> bool {
    let t = trimmed(s);
    let (bytes, noise, readable, structured) = text_stats(t);
    &&& bytes >= 50
    &&& 20 * noise <= t.len()
    &&& 5 * readable > 4 * t.len()
    &&& structured
}

/// Whether extracted text looks like real text rather than decoding debris.
pub fn is_text_valid(text: &str) -> (r: bool)
    ensures
        r == text_plausible(text@),
{
    let t = trim(text);
    let chars = chars_of(t.as_str());
    let mut bytes: u128 = 0;
    let mut noise: usize = 0;
    let mut readable: usize = 0;
    let mut structured = false;
    let mut i: usize = 0;
    while i < chars.len()
        invariant
            i <= chars@.len(),
            bytes <= 4 * i,
            noise <= i,
            readable <= i,
            (bytes as nat, noise as nat, readable as nat, structured) == text_stats(chars@.subrange(0, i as int)),
        decreases chars@.len() - i,
    {
        assert(chars@.subrange(0, i + 1).drop_last() =~= chars@.subrange(0, i as int));
        let c = chars[i];
        let u = c as u32;
        bytes = bytes + if u < 0x80 { 1 } else if u < 0x800 { 2 } else if u < 0x10000 { 3 } else { 4 };
        if u < 32 || (0xE000 <= u && u <= 0xF8FF) || u == 0xFFFD {
            noise = noise + 1;
        }
        if (0x30 <= u && u <= 0x39) || (0x41 <= u && u <= 0x5A) || (0x61 <= u && u <= 0x7A)
            || u == 0x20 || u == 0x09 || u == 0x0A || u == 0x0C || u == 0x0D
            || (0x21 <= u && u <= 0x2F) || (0x3A <= u && u <= 0x40) || (0x5B <= u && u <= 0x60) || (0x7B <= u && u <= 0x7E)
            || (0x4E00 <= u && u <= 0x9FFF) || (0x3040 <= u && u <= 0x30FF) || (0xAC00 <= u && u <= 0xD7AF)
            || u == 0xFF0C || u == 0x3002 || u == 0xFF01 || u == 0xFF1F || u == 0x3001 || u == 0xFF1B
            || u == 0xFF1A || u == 0xFF08 || u == 0xFF09 || (0x300A <= u && u <= 0x3011) {
            readable = readable + 1;
        }
        if u == 0x20 || (0x4E00 <= u && u <= 0x9FFF) {
            structured = true;
        }
        i = i + 1;
    }
    assert(chars@.subrange(0, i as int) =~= t@);
    let n = chars.len();
    if bytes < 50 {
        return false;
    }
    if noise as u128 * 20 > n as u128 {
        return false;
    }
    readable as u128 * 5 > n as u128 * 4 && structured
}

/// Position of the first `c` in `s`.
pub open spec fn first_index(s: Seq<char>, c: char) -> Option<int>
    decreases s.len(),
{
    if s.len() == 0 {
        None
    } else {
        match first_index(s.drop_last(), c) {
            Some(i) => Some(i),
            None => if s.last() == c { Some(s.len() - 1) } else { None },
        }
    }
}

/// Position of the last `c` in `s`.
pub open spec fn last_index(s: Seq<char>, c: char) -> Option<int>
    decreases s.len(),
{
    if s.len() == 0 {
        None
    } else if s.last() == c {
        Some(s.len() - 1)
    } else {
        last_index(s.drop_last(), c)
    }
}

/// Where a literal string that starts at `k` ends: the first `)` not
/// escaped by a backslash, or past the end.
pub open spec fn literal_end(s: Seq<char>, k: int) -> int
    decreases s.len() + 1 - k,
{
    if k >= s.len() || k < 0 {
        k
    } else if s[k] == ')' {
        k
    } else if s[k] == '\\' {
        literal_end(s, k + 2)
    } else {
        literal_end(s, k + 1)
    }
}

/// Where a hex string that starts at `k` ends: the first `>`, or the end.
pub open spec fn hex_end(s: Seq<char>, k: int) -> int
    decreases s.len() - k,
{
    if k >= s.len() || k < 0 {
        k
    } else if s[k] == '>' {
        k
    } else {
        hex_end(s, k + 1)
    }
}

/// Text shown by the strings of a `TJ` array, from position `i` on.
pub open spec fn tj_text(s: Seq<char>, i: int) -> Seq<char>
    decreases s.len() - i, 1nat,
{
    if i >= s.len() || i < 0 {
        Seq::empty()
    } else if s[i] == '(' {
        let j = literal_end(s, i + 1);
        let stop = if j <= s.len() { j } else { s.len() as int };
        let piece = if j > i + 1 { unescaped(s.subrange(i + 1, stop)) } else { Seq::empty() };
        piece + tj_text_after(s, i, j)
    } else if s[i] == '<' {
        let j = hex_end(s, i + 1);
        let piece = if j > i + 1 {
            match hex_text(s.subrange(i + 1, j)) {
                Some(t) => t,
                None => Seq::empty(),
            }
        } else {
            Seq::empty()
        };
        piece + tj_text_after(s, i, j)
    } else {
        tj_text(s, i + 1)
    }
}

/// `tj_text` resumed after a string that ended at `j` (which lies past `i`).
pub open spec fn tj_text_after(s: Seq<char>, i: int, j: int) -> Seq<char>
    decreases s.len() - i, 0nat,
{
    if i < j + 1 && j + 1 <= s.len() { tj_text(s, j + 1) } else { Seq::empty() }
}

/// Text shown by one (trimmed) content-stream line: a literal string before
/// `Tj`, else a hex string before `Tj`, else the strings of a `TJ` array.
pub open spec fn operator_text(line: Seq<char>) -> Option<Seq<char>> {
    let l = trimmed(line);
    let shows_literal = ends_with(l, " Tj"@) || ends_with(l, ")Tj"@);
    let shows_hex = ends_with(l, " Tj"@) || ends_with(l, ">Tj"@);
    let shows_array = ends_with(l, " TJ"@) || ends_with(l, "]TJ"@);
    let lit = match (first_index(l, '('), last_index(l, ')')) {
        (Some(a), Some(b)) => if shows_literal && a < b { Some(unescaped(l.subrange(a + 1, b))) } else { None },
        _ => None,
    };
    let hex = match (first_index(l, '<'), last_index(l, '>')) {
        (Some(a), Some(b)) => if shows_hex && a < b { Some(hex_text(l.subrange(a + 1, b))) } else { None },
        _ => None,
    };
    if lit is Some {
        lit
    } else if hex is Some {
        hex->0
    } else if shows_array && tj_text(l, 0).len() > 0 {
        Some(tj_text(l, 0))
    } else {
        None
    }
}

proof fn lemma_index_bounds(s: Seq<char>, c: char)
    ensures
        first_index(s, c) matches Some(i) ==> 0 <= i < s.len() && s[i] == c,
        last_index(s, c) matches Some(i) ==> 0 <= i < s.len() && s[i] == c,
    decreases s.len(),
{
    if s.len() > 0 {
        lemma_index_bounds(s.drop_last(), c);
    }
}

fn find_first(s: &Vec<char>, c: char) -> (r: Option<usize>)
    ensures
        match first_index(s@, c) {
            Some(i) => r == Some(i as usize),
            None => r is None,
        },
        r matches Some(i) ==> i < s@.len() && first_index(s@, c) == Some(i as int),
{
    proof { lemma_index_bounds(s@, c); }
    let mut i: usize = 0;
    while i < s.len()
        invariant
            i <= s@.len(),
            first_index(s@.subrange(0, i as int), c) is None,
        decreases s@.len() - i,
    {
        assert(s@.subrange(0, i + 1).drop_last() =~= s@.subrange(0, i as int));
        if s[i] == c {
            proof { lemma_first_index_prefix(s@, c, (i + 1) as nat); }
            return Some(i);
        }
        i = i + 1;
    }
    assert(s@.subrange(0, i as int) =~= s@);
    None
}

/// The first occurrence within a prefix is the first occurrence overall.
proof fn lemma_first_index_prefix(s: Seq<char>, c: char, k: nat)
    requires
        k <= s.len(),
        first_index(s.subrange(0, k as int), c) is Some,
    ensures
        first_index(s, c) == first_index(s.subrange(0, k as int), c),
    decreases s.len() - k,
{
    if k < s.len() {
        assert(s.subrange(0, k + 1 as int).drop_last() =~= s.subrange(0, k as int));
        lemma_first_index_prefix(s, c, k + 1);
    } else {
        assert(s.subrange(0, k as int) =~= s);
    }
}

fn find_last(s: &Vec<char>, c: char) -> (r: Option<usize>)
    ensures
        match last_index(s@, c) {
            Some(i) => r == Some(i as usize),
            None => r is None,
        },
        r matches Some(i) ==> i < s@.len() && last_index(s@, c) == Some(i as int),
{
    proof { lemma_index_bounds(s@, c); }
    let mut r: Option<usize> = None;
    let mut i: usize = 0;
    while i < s.len()
        invariant
            i <= s@.len(),
            match last_index(s@.subrange(0, i as int), c) {
                Some(k) => r == Some(k as usize),
                None => r is None,
            },
        decreases s@.len() - i,
    {
        assert(s@.subrange(0, i + 1).drop_last() =~= s@.subrange(0, i as int));
        if s[i] == c {
            r = Some(i);
        }
        i = i + 1;
    }
    assert(s@.subrange(0, i as int) =~= s@);
    r
}

fn literal_end_exec(s: &Vec<char>, start: usize) -> (j: usize)
    requires
        start <= s@.len(),
        s@.len() + 3 <= usize::MAX,
    ensures
        j == literal_end(s@, start as int),
        start <= j <= s@.len() + 1,
{
    let n = s.len();
    let mut j: usize = start;
    while j < n && s[j] != ')'
        invariant
            n == s@.len(),
            n + 3 <= usize::MAX,
            start <= j <= n + 1,
            literal_end(s@, j as int) == literal_end(s@, start as int),
        decreases n + 1 - j,
    {
        if s[j] == '\\' {
            j = j + 1;
        }
        j = j + 1;
    }
    j
}

fn hex_end_exec(s: &Vec<char>, start: usize) -> (j: usize)
    requires
        start <= s@.len(),
    ensures
        j == hex_end(s@, start as int),
        start <= j <= s@.len(),
{
    let n = s.len();
    let mut j: usize = start;
    while j < n && s[j] != '>'
        invariant
            n == s@.len(),
            start <= j <= n,
            hex_end(s@, j as int) == hex_end(s@, start as int),
        decreases n - j,
    {
        j = j + 1;
    }
    j
}

/// Text of the strings of a `TJ` array.
fn tj_scan(line: &str, s: &Vec<char>) -> (r: String)
    requires
        s@ == line@,
        s@.len() + 3 <= usize::MAX,
    ensures
        r@ == tj_text(s@, 0),
{
    let n = s.len();
    let mut out = String::new();
    let mut i: usize = 0;
    assert(out@ + tj_text(s@, 0) =~= tj_text(s@, 0));
    while i < n
        invariant
            n == s@.len(),
            s@ == line@,
            n + 3 <= usize::MAX,
            i <= n + 2,
            out@ + tj_text(s@, i as int) == tj_text(s@, 0),
        decreases n + 2 - i,
    {
        let ghost before = out@;
        let ghost i0 = i as int;
        if s[i] == '(' {
            let start = i + 1;
            let j = literal_end_exec(s, start);
            let ghost stop_s: int = if j <= n { j as int } else { n as int };
            let ghost piece: Seq<char> = if j > start { unescaped(s@.subrange(start as int, stop_s)) } else { Seq::empty() };
            if j > start {
                let stop = if j <= n { j } else { n };
                let p = decode_pdf_string(line.substring_char(start, stop));
                out.append(p.as_str());
            }
            assert(out@ =~= before + piece);
            assert(tj_text(s@, i0) == piece + tj_text_after(s@, i0, j as int));
            i = j + 1;
            assert(tj_text_after(s@, i0, j as int) == tj_text(s@, i as int));
        } else if s[i] == '<' {
            let start = i + 1;
            let j = hex_end_exec(s, start);
            let ghost piece: Seq<char> = if j > start {
                match hex_text(s@.subrange(start as int, j as int)) {
                    Some(t) => t,
                    None => Seq::empty(),
                }
            } else {
                Seq::empty()
            };
            if j > start {
                match decode_hex_string(line.substring_char(start, j)) {
                    Some(t) => out.append(t.as_str()),
                    None => {},
                }
            }
            assert(out@ =~= before + piece);
            assert(tj_text(s@, i0) == piece + tj_text_after(s@, i0, j as int));
            i = j + 1;
            assert(tj_text_after(s@, i0, j as int) == tj_text(s@, i as int));
        } else {
            i = i + 1;
        }
        assert(out@ + tj_text(s@, i as int) =~= tj_text(s@, 0));
    }
    assert(out@ + tj_text(s@, i as int) =~= out@);
    out
}

/// Text shown by one content-stream line, if it is a text-showing operator.
pub fn extract_text_operator(line: &str) -> (r: Option<String>)
    requires
        line@.len() + 3 <= usize::MAX,
    ensures
        match operator_text(line@) {
            Some(t) => r matches Some(x) && x@ == t,
            None => r is None,
        },
{
    let t = trim(line);
    let l = t.as_str();
    let s = chars_of(l);
    let shows_literal = str_ends_with(l, " Tj") || str_ends_with(l, ")Tj");
    let shows_hex = str_ends_with(l, " Tj") || str_ends_with(l, ">Tj");
    let shows_array = str_ends_with(l, " TJ") || str_ends_with(l, "]TJ");
    if shows_literal {
        match (find_first(&s, '('), find_last(&s, ')')) {
            (Some(a), Some(b)) => {
                if a < b {
                    return Some(decode_pdf_string(l.substring_char(a + 1, b)));
                }
            },
            _ => {},
        }
    }
    if shows_hex {
        match (find_first(&s, '<'), find_last(&s, '>')) {
            (Some(a), Some(b)) => {
                if a < b {
                    return decode_hex_string(l.substring_char(a + 1, b));
                }
            },
            _ => {},
        }
    }
    if shows_array {
        let text = tj_scan(l, &s);
        if text.unicode_len() > 0 {
            return Some(text);
        }
    }
    None
}

/// A parsed PDF document.
#[verifier::external_type_specification]
#[verifier::external_body]
pub struct ExDocument(lopdf::Document);

/// Text of bytes read as UTF-8, each invalid sequence replaced by U+FFFD.
pub uninterp spec fn lossy_text(bytes: Seq<u8>) -> Seq<char>;

/// Relies on `String::from_utf8_lossy`: valid UTF-8 is decoded as is, and
/// every character of the result stands for at least one input byte.
#[verifier::external_body]
fn utf8_lossy(bytes: &[u8]) -> (r: String)
    ensures
        r@ == lossy_text(bytes@),
        valid_utf8(bytes@) ==> r@ == decode_utf8(bytes@),
        r@.len() <= bytes@.len(),
{
    String::from_utf8_lossy(bytes).into_owned()
}

/// Relies on `lopdf::Document::get_pages`: the object id of page `page_num`
/// (counted from one), if the document has that page.
#[verifier::external_body]
fn page_object_id(doc: &lopdf::Document, page_num: usize) -> (r: Option<(u32, u16)>) {
    doc.get_pages().get(&(page_num as u32)).copied()
}

/// Relies on `lopdf::Document::get_page_content`: the page's content
/// streams, decompressed and concatenated.
#[verifier::external_body]
fn page_content(doc: &lopdf::Document, id: (u32, u16)) -> (r: Vec<u8>) {
    doc.get_page_content(id)
}

/// Reading state over the lines of a content stream: text so far, whether
/// inside a `BT`/`ET` block, and the text of the current block.
pub open spec fn content_step(st: (Seq<char>, bool, Seq<char>), line: Seq<char>) -> (Seq<char>, bool, Seq<char>) {
    let (text, in_text, cur) = st;
    let l = trimmed(line);
    if l == "BT"@ {
        (text, true, cur)
    } else if l == "ET"@ {
        if cur.len() > 0 {
            ((if text.len() > 0 { text.push('\n') } else { text }) + cur, false, Seq::empty())
        } else {
            (text, false, cur)
        }
    } else if in_text {
        match operator_text(l) {
            Some(t) => (text, in_text, cur + t),
            None => st,
        }
    } else {
        st
    }
}

pub open spec fn content_fold(lines: Seq<Seq<char>>) -> (Seq<char>, bool, Seq<char>)
    decreases lines.len(),
{
    if lines.len() == 0 {
        (Seq::empty(), false, Seq::empty())
    } else {
        content_step(content_fold(lines.drop_last()), lines.last())
    }
}

/// Text of a content stream: the text shown inside each `BT`/`ET` block,
/// blocks separated by line feeds.
pub open spec fn content_text(content: Seq<u8>) -> Seq<char> {
    content_fold(text_lines(lossy_text(content))).0
}

proof fn lemma_split_lf_short(s: Seq<char>)
    ensures
        forall|i: int| 0 <= i < split_lf(s).len() ==> (#[trigger] split_lf(s)[i]).len() <= s.len(),
        split_lf(s).len() >= 1,
    decreases s.len(),
{
    if s.len() > 0 {
        lemma_split_lf_short(s.drop_last());
    }
}

proof fn lemma_lines_short(s: Seq<char>)
    ensures
        forall|i: int| 0 <= i < text_lines(s).len() ==> (#[trigger] text_lines(s)[i]).len() <= s.len(),
{
    lemma_split_lf_short(s);
    if s.len() > 0 {
        let p = if s.last() == '\n' { split_lf(s).drop_last() } else { split_lf(s) };
        assert forall|i: int| 0 <= i < text_lines(s).len() implies (#[trigger] text_lines(s)[i]).len() <= s.len() by {
            assert(text_lines(s)[i] == strip_cr(p[i]));
            assert(p[i] == split_lf(s)[i]);
        }
    }
}

/// Text shown in a page content stream.
pub fn extract_text_from_content(content: &[u8], _doc: &lopdf::Document) -> (r: String)
    requires
        content@.len() + 3 <= usize::MAX,
    ensures
        r@ == content_text(content@),
{
    let decoded = utf8_lossy(content);
    let chars = chars_of(decoded.as_str());
    let lines = lines_of(&chars);
    let ghost ls = lines@.map_values(|x: String| x@);
    proof { lemma_lines_short(chars@); }
    let mut text = String::new();
    let mut in_text = false;
    let mut current = String::new();
    let mut i: usize = 0;
    while i < lines.len()
        invariant
            ls == lines@.map_values(|x: String| x@),
            ls == text_lines(lossy_text(content@)),
            chars@ == lossy_text(content@),
            chars@.len() <= content@.len(),
            content@.len() + 3 <= usize::MAX,
            forall|k: int| 0 <= k < ls.len() ==> (#[trigger] ls[k]).len() <= chars@.len(),
            i <= lines@.len(),
            (text@, in_text, current@) == content_fold(ls.subrange(0, i as int)),
        decreases lines@.len() - i,
    {
        assert(ls.subrange(0, i + 1).drop_last() =~= ls.subrange(0, i as int));
        assert(ls.subrange(0, i + 1).last() == ls[i as int]);
        let ghost st = (text@, in_text, current@);
        let t = trim(lines[i].as_str());
        if t == "BT".to_owned() {
            in_text = true;
        } else if t == "ET".to_owned() {
            in_text = false;
            if current.unicode_len() > 0 {
                if text.unicode_len() > 0 {
                    push_char(&mut text, '\n');
                }
                text.append(current.as_str());
                current = String::new();
            }
        } else if in_text {
            proof { assert(ls[i as int].len() <= chars@.len()); }
            match extract_text_operator(t.as_str()) {
                Some(x) => {
                    current.append(x.as_str());
                },
                None => {},
            }
        }
        i = i + 1;
        assert((text@, in_text, current@) == content_step(st, ls[i - 1]));
    }
    assert(ls.subrange(0, i as int) =~= ls);
    text
}

/// Text shown on page `page_num` (counted from one) of a parsed document:
/// the text of the page's content streams, or nothing when the document
/// has no such page.
pub fn extract_page_text(doc: &lopdf::Document, page_num: usize) -> (r: String)
    ensures
        r@.len() == 0 || exists|content: Seq<u8>| r@ == content_text(content),
{
    match page_object_id(doc, page_num) {
        None => String::new(),
        Some(id) => {
            let content = page_content(doc, id);
            if content.len() > usize::MAX - 3 {
                return String::new();
            }
            extract_text_from_content(content.as_slice(), doc)
        },
    }
}

} // verus!

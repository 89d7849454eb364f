//! Colors as the settings write them: `#RRGGBB` / `#AARRGGBB` hex text,
//! CSS color names typed with spaces, underscores or hyphens, and which of
//! the accepted notations a typed color uses.
use vstd::prelude::*;
use vstd::string::*;

use crate::text::{is_whitespace, is_ws, push_char, trim, trim_seq};

verus! {

// ---------------------------------------------------------------------------
// Hex digits
// ---------------------------------------------------------------------------

/// Whether `c` is a hexadecimal digit (either case).
pub open spec fn is_hex_digit(c: char) -> bool {
    ('0' <= c && c <= '9') || ('a' <= c && c <= 'f') || ('A' <= c && c <= 'F')
}

/// The value of a hexadecimal digit.
pub open spec fn hex_value(c: char) -> int {
    if '0' <= c && c <= '9' {
        c as int - '0' as int
    } else if 'a' <= c && c <= 'f' {
        c as int - 'a' as int + 10
    } else {
        c as int - 'A' as int + 10
    }
}

/// What `u8::from_str_radix(.., 16)` gives for the two-character text `a b`:
/// two hex digits, or `+` and one hex digit.
pub open spec fn hex_pair(a: char, b: char) -> Option<u8> {
    if a == '+' && is_hex_digit(b) {
        Some(hex_value(b) as u8)
    } else if is_hex_digit(a) && is_hex_digit(b) {
        Some((16 * hex_value(a) + hex_value(b)) as u8)
    } else {
        None
    }
}

fn hex_digit_value(c: char) -> (r: Option<u8>)
    ensures
        is_hex_digit(c) ==> r == Some(hex_value(c) as u8),
        !is_hex_digit(c) ==> r is None,
{
    if '0' <= c && c <= '9' {
        Some(((c as u32) - ('0' as u32)) as u8)
    } else if 'a' <= c && c <= 'f' {
        Some(((c as u32) - ('a' as u32) + 10) as u8)
    } else if 'A' <= c && c <= 'F' {
        Some(((c as u32) - ('A' as u32) + 10) as u8)
    } else {
        None
    }
}

fn parse_hex_pair(a: char, b: char) -> (r: Option<u8>)
    ensures
        r == hex_pair(a, b),
{
    let hb = hex_digit_value(b);
    if a == '+' {
        return hb;
    }
    match (hex_digit_value(a), hb) {
        (Some(x), Some(y)) => Some(16 * x + y),
        _ => None,
    }
}

// ---------------------------------------------------------------------------
// UTF-8 lengths (hex text is measured and cut in bytes)
// ---------------------------------------------------------------------------

/// The number of bytes `c` takes in UTF-8.
pub open spec fn utf8_len(c: char) -> nat {
    if (c as u32) < 0x80 {
        1
    } else if (c as u32) < 0x800 {
        2
    } else if (c as u32) < 0x10000 {
        3
    } else {
        4
    }
}

/// The number of bytes `s` takes in UTF-8 (`str::len`).
pub open spec fn byte_len(s: Seq<char>) -> nat
    decreases s.len(),
{
    if s.len() == 0 {
        0
    } else {
        byte_len(s.drop_last()) + utf8_len(s.last())
    }
}

/// Whether byte offset `b` of `s` falls between two characters.
pub open spec fn is_char_boundary(s: Seq<char>, b: nat) -> bool {
    exists|k: int| 0 <= k <= s.len() && byte_len(#[trigger] s.take(k)) == b
}

/// Whether every character of `s` is ASCII.
pub open spec fn all_ascii(s: Seq<char>) -> bool {
    forall|i: int| 0 <= i < s.len() ==> (#[trigger] s[i] as u32) < 0x80
}

proof fn lemma_ascii_byte_len(s: Seq<char>)
    requires
        all_ascii(s),
    ensures
        byte_len(s) == s.len(),
    decreases s.len(),
{
    if s.len() > 0 {
        assert(all_ascii(s.drop_last())) by {
            assert forall|i: int| 0 <= i < s.drop_last().len() implies (#[trigger] s.drop_last()[i] as u32) < 0x80 by {
                assert(s.drop_last()[i] == s[i]);
            }
        }
        lemma_ascii_byte_len(s.drop_last());
        assert((s[s.len() - 1] as u32) < 0x80);
    }
}

/// The byte length of `s`, and whether it is all ASCII.
fn measure(s: &str) -> (r: (usize, bool))
    requires
        byte_len(s@) <= usize::MAX,
    ensures
        r.0 == byte_len(s@),
        r.1 == all_ascii(s@),
{
    let n = s.unicode_len();
    let mut bytes: usize = 0;
    let mut ascii = true;
    let mut i: usize = 0;
    assert(s@.take(0) =~= Seq::<char>::empty());
    while i < n
        invariant
            n == s@.len(),
            i <= n,
            byte_len(s@) <= usize::MAX,
            bytes == byte_len(s@.take(i as int)),
            ascii == all_ascii(s@.take(i as int)),
        decreases n - i,
    {
        let c = s.get_char(i);
        let ghost p = s@.take(i as int);
        let ghost q = s@.take(i + 1);
        assert(q.drop_last() =~= p);
        assert(q.last() == c);
        proof {
            lemma_byte_len_prefix(s@, i + 1);
        }
        let u = c as u32;
        let w: usize = if u < 0x80 {
            1
        } else if u < 0x800 {
            2
        } else if u < 0x10000 {
            3
        } else {
            4
        };
        bytes = bytes + w;
        if u >= 0x80 {
            ascii = false;
            assert(!all_ascii(q)) by {
                assert(q[i as int] == c);
            }
        } else {
            assert(all_ascii(q) == all_ascii(p)) by {
                if all_ascii(p) {
                    assert forall|k: int| 0 <= k < q.len() implies (#[trigger] q[k] as u32) < 0x80 by {
                        if k < p.len() {
                            assert(q[k] == p[k]);
                        }
                    }
                } else {
                    let k = choose|k: int| 0 <= k < p.len() && !((#[trigger] p[k] as u32) < 0x80);
                    assert(q[k] == p[k]);
                }
            }
        }
        i = i + 1;
    }
    assert(s@.take(n as int) =~= s@);
    (bytes, ascii)
}

proof fn lemma_byte_len_prefix(s: Seq<char>, k: int)
    requires
        0 <= k <= s.len(),
    ensures
        byte_len(s.take(k)) <= byte_len(s),
    decreases s.len() - k,
{
    if k < s.len() {
        lemma_byte_len_prefix(s, k + 1);
        assert(s.take(k + 1).drop_last() =~= s.take(k));
    } else {
        assert(s.take(k) =~= s);
    }
}

// ---------------------------------------------------------------------------
// Hex colors
// ---------------------------------------------------------------------------

/// `s` without its leading `#` characters.
pub open spec fn strip_hashes(s: Seq<char>) -> Seq<char>
    decreases s.len(),
{
    if s.len() > 0 && s[0] == '#' {
        strip_hashes(s.drop_first())
    } else {
        s
    }
}

/// Whether the byte offsets at which hex text is cut into pairs fall between
/// characters (cutting elsewhere would be an error of the string slicing).
pub open spec fn hex_cuts_ok(h: Seq<char>) -> bool {
    &&& byte_len(h) == 6 ==> is_char_boundary(h, 2) && is_char_boundary(h, 4)
    &&& byte_len(h) == 8 ==> is_char_boundary(h, 2) && is_char_boundary(h, 4) && is_char_boundary(h, 6)
}

/// The `(alpha, red, green, blue)` bytes of hex color text: after the
/// leading `#`s, six hex digits `RRGGBB` (alpha 255) or eight `AARRGGBB`,
/// each pair read as `u8::from_str_radix` reads it. A text with a non-ASCII
/// character has a pair that is not a number, so it gives `None`.
pub open spec fn spec_parse_hex(input: Seq<char>) -> Option<(u8, u8, u8, u8)> {
    let h = strip_hashes(input);
    if !all_ascii(h) {
        None
    } else if h.len() == 6 {
        match (hex_pair(h[0], h[1]), hex_pair(h[2], h[3]), hex_pair(h[4], h[5])) {
            (Some(r), Some(g), Some(b)) => Some((255u8, r, g, b)),
            _ => None,
        }
    } else if h.len() == 8 {
        match (hex_pair(h[0], h[1]), hex_pair(h[2], h[3]), hex_pair(h[4], h[5]), hex_pair(h[6], h[7])) {
            (Some(a), Some(r), Some(g), Some(b)) => Some((a, r, g, b)),
            _ => None,
        }
    } else {
        None
    }
}

/// Reads hex color text into `(alpha, red, green, blue)` bytes (see
/// `spec_parse_hex`).
pub fn parse_hex_argb(input: &str) -> (r: Option<(u8, u8, u8, u8)>)
    requires
        hex_cuts_ok(strip_hashes(input@)),
        byte_len(input@) <= usize::MAX,
    ensures
        r == spec_parse_hex(input@),
{
    let n = input.unicode_len();
    let mut start: usize = 0;
    assert(input@.skip(0) =~= input@);
    while start < n && input.get_char(start) == '#'
        invariant
            n == input@.len(),
            start <= n,
            strip_hashes(input@) == strip_hashes(input@.skip(start as int)),
        decreases n - start,
    {
        assert(input@.skip(start as int).drop_first() =~= input@.skip(start + 1));
        start = start + 1;
    }
    let hex = input.substring_char(start, n);
    assert(hex@ =~= input@.skip(start as int));
    assert(strip_hashes(hex@) == hex@);
    proof {
        lemma_byte_len_suffix(input@, start as int);
    }
    let (bytes, ascii) = measure(hex);
    if !ascii {
        return None;
    }
    proof {
        lemma_ascii_byte_len(hex@);
    }
    if bytes == 6 {
        let r = parse_hex_pair(hex.get_char(0), hex.get_char(1));
        let g = parse_hex_pair(hex.get_char(2), hex.get_char(3));
        let b = parse_hex_pair(hex.get_char(4), hex.get_char(5));
        match (r, g, b) {
            (Some(r), Some(g), Some(b)) => Some((255u8, r, g, b)),
            _ => None,
        }
    } else if bytes == 8 {
        let a = parse_hex_pair(hex.get_char(0), hex.get_char(1));
        let r = parse_hex_pair(hex.get_char(2), hex.get_char(3));
        let g = parse_hex_pair(hex.get_char(4), hex.get_char(5));
        let b = parse_hex_pair(hex.get_char(6), hex.get_char(7));
        match (a, r, g, b) {
            (Some(a), Some(r), Some(g), Some(b)) => Some((a, r, g, b)),
            _ => None,
        }
    } else {
        None
    }
}

proof fn lemma_byte_len_suffix(s: Seq<char>, k: int)
    requires
        0 <= k <= s.len(),
    ensures
        byte_len(s.skip(k)) <= byte_len(s),
    decreases s.len(),
{
    if k < s.len() {
        lemma_byte_len_suffix(s.drop_last(), k);
        assert(s.skip(k).drop_last() =~= s.drop_last().skip(k));
        assert(s.skip(k).last() == s.last());
    } else {
        assert(s.skip(k).len() == 0);
    }
}

/// The uppercase hex digit for `d` in `0..16`.
pub open spec fn hex_digit_char(d: int) -> char {
    if d < 10 {
        (('0' as int) + d) as char
    } else {
        (('A' as int) + d - 10) as char
    }
}

/// A byte as two uppercase hex digits.
pub open spec fn hex2(v: u8) -> Seq<char> {
    seq![hex_digit_char(v as int / 16), hex_digit_char(v as int % 16)]
}

/// `#AARRGGBB` with uppercase digits.
pub open spec fn spec_argb_hex(a: u8, r: u8, g: u8, b: u8) -> Seq<char> {
    seq!['#'] + hex2(a) + hex2(r) + hex2(g) + hex2(b)
}

fn hex_digit(d: u8) -> (c: char)
    requires
        d < 16,
    ensures
        c == hex_digit_char(d as int),
{
    if d < 10 {
        ((d as u32) + ('0' as u32)) as u8 as char
    } else {
        ((d as u32) - 10 + ('A' as u32)) as u8 as char
    }
}

fn push_hex2(out: &mut String, v: u8)
    ensures
        final(out)@ == old(out)@ + hex2(v),
{
    push_char(out, hex_digit(v / 16));
    push_char(out, hex_digit(v % 16));
    assert(final(out)@ =~= old(out)@ + hex2(v));
}

/// Writes a color's bytes as `#AARRGGBB` with uppercase hex digits.
pub fn argb_hex(a: u8, r: u8, g: u8, b: u8) -> (s: String)
    ensures
        s@ == spec_argb_hex(a, r, g, b),
{
    let mut s = String::new();
    push_char(&mut s, '#');
    push_hex2(&mut s, a);
    push_hex2(&mut s, r);
    push_hex2(&mut s, g);
    push_hex2(&mut s, b);
    assert(s@ =~= spec_argb_hex(a, r, g, b));
    s
}

proof fn lemma_hex2_reads_back(v: u8)
    ensures
        hex_pair(hex2(v)[0], hex2(v)[1]) == Some(v),
        (hex2(v)[0] as u32) < 0x80 && (hex2(v)[1] as u32) < 0x80,
        hex2(v)[0] != '#',
{
    let hi = v as int / 16;
    let lo = v as int % 16;
    assert(0 <= hi < 16 && 0 <= lo < 16);
    assert(16 * hi + lo == v);
}

/// Writing a color as hex and reading the text back gives the same bytes.
pub proof fn law_hex_round_trip(a: u8, r: u8, g: u8, b: u8)
    ensures
        spec_parse_hex(spec_argb_hex(a, r, g, b)) == Some((a, r, g, b)),
        hex_cuts_ok(strip_hashes(spec_argb_hex(a, r, g, b))),
{
    let s = spec_argb_hex(a, r, g, b);
    let h = s.drop_first();
    assert(strip_hashes(s) == strip_hashes(h));
    lemma_hex2_reads_back(a);
    lemma_hex2_reads_back(r);
    lemma_hex2_reads_back(g);
    lemma_hex2_reads_back(b);
    assert(h =~= hex2(a) + hex2(r) + hex2(g) + hex2(b));
    assert(h[0] == hex2(a)[0]);
    assert(strip_hashes(h) == h);
    assert(all_ascii(h)) by {
        assert forall|i: int| 0 <= i < h.len() implies (#[trigger] h[i] as u32) < 0x80 by {
            if i < 2 {
                assert(h[i] == hex2(a)[i]);
            } else if i < 4 {
                assert(h[i] == hex2(r)[i - 2]);
            } else if i < 6 {
                assert(h[i] == hex2(g)[i - 4]);
            } else {
                assert(h[i] == hex2(b)[i - 6]);
            }
        }
    }
    lemma_ascii_byte_len(h);
    assert(h.len() == 8);
    assert(h[0] == hex2(a)[0] && h[1] == hex2(a)[1]);
    assert(h[2] == hex2(r)[0] && h[3] == hex2(r)[1]);
    assert(h[4] == hex2(g)[0] && h[5] == hex2(g)[1]);
    assert(h[6] == hex2(b)[0] && h[7] == hex2(b)[1]);
    assert forall|k: int| 0 <= k <= h.len() implies byte_len(#[trigger] h.take(k)) == k by {
        assert(all_ascii(h.take(k))) by {
            assert forall|i: int| 0 <= i < h.take(k).len() implies (#[trigger] h.take(k)[i] as u32) < 0x80 by {
                assert(h.take(k)[i] == h[i]);
            }
        }
        lemma_ascii_byte_len(h.take(k));
    }
    assert(byte_len(h.take(2)) == 2);
    assert(byte_len(h.take(4)) == 4);
    assert(byte_len(h.take(6)) == 6);
}

// ---------------------------------------------------------------------------
// Color names and the kinds of color text
// ---------------------------------------------------------------------------

/// `char::to_ascii_lowercase`.
pub open spec fn ascii_lower(c: char) -> char {
    if 'A' <= c && c <= 'Z' {
        ((c as int) + 32) as char
    } else {
        c
    }
}

/// Whether a character is kept in a color name: not whitespace, `_` or `-`.
pub open spec fn kept_in_name(c: char) -> bool {
    !is_ws(c) && c != '_' && c != '-'
}

/// The kept characters of `s`, in ASCII lowercase.
pub open spec fn cleaned(s: Seq<char>) -> Seq<char>
    decreases s.len(),
{
    if s.len() == 0 {
        Seq::empty()
    } else {
        cleaned(s.drop_last()) + (if kept_in_name(s.last()) {
            seq![ascii_lower(s.last())]
        } else {
            Seq::empty()
        })
    }
}

/// A typed color name in the form CSS names are looked up: `Light Gray`,
/// `light-gray` and `light_gray` all become `lightgray`.
pub fn clean_color_name(input: &str) -> (r: String)
    ensures
        r@ == cleaned(trim_seq(input@)),
{
    let t = trim(input);
    let n = t.unicode_len();
    let mut out = String::new();
    let mut i: usize = 0;
    assert(t@.take(0) =~= Seq::<char>::empty());
    while i < n
        invariant
            n == t@.len(),
            i <= n,
            out@ == cleaned(t@.take(i as int)),
        decreases n - i,
    {
        let c = t.get_char(i);
        assert(t@.take(i + 1).drop_last() =~= t@.take(i as int));
        assert(t@.take(i + 1).last() == c);
        if !is_whitespace(c) && c != '_' && c != '-' {
            let l = if 'A' <= c && c <= 'Z' {
                ((c as u32) + 32) as u8 as char
            } else {
                c
            };
            push_char(&mut out, l);
        }
        assert(out@ =~= cleaned(t@.take(i + 1)));
        i = i + 1;
    }
    assert(t@.take(n as int) =~= t@);
    out
}

/// The notations a typed color can use.
#[derive(Clone, Copy, Debug, PartialEq, Eq, Structural)]
pub enum ColorInputKind {
    /// A CSS color name (no `#`, `:` or `,`).
    Named,
    /// `#RRGGBB` or `#AARRGGBB`.
    Hex,
    /// `A:1.0 R:0.5 G:0.3 B:0.2`.
    Labeled,
    /// `1.0,0.5,0.3,0.2` (ARGB) or `0.5,0.3,0.2` (RGB).
    Csv,
    /// Blank text.
    Unrecognized,
}

/// The notation of the trimmed text `t`.
pub open spec fn spec_color_input_kind(t: Seq<char>) -> ColorInputKind {
    if t.len() > 0 && t[0] != '#' && !t.contains(':') && !t.contains(',') {
        ColorInputKind::Named
    } else if t.len() > 0 && t[0] == '#' {
        ColorInputKind::Hex
    } else if t.contains(':') {
        ColorInputKind::Labeled
    } else if t.contains(',') {
        ColorInputKind::Csv
    } else {
        ColorInputKind::Unrecognized
    }
}

fn contains_char(s: &str, c: char) -> (r: bool)
    ensures
        r == s@.contains(c),
{
    let n = s.unicode_len();
    let mut i: usize = 0;
    while i < n
        invariant
            n == s@.len(),
            i <= n,
            forall|k: int| 0 <= k < i ==> s@[k] != c,
        decreases n - i,
    {
        if s.get_char(i) == c {
            assert(s@[i as int] == c);
            return true;
        }
        i = i + 1;
    }
    false
}

/// Which notation a typed color uses, judged on the text without its
/// surrounding whitespace: a name first, then hex, labelled components, and
/// comma-separated components.
pub fn color_input_kind(input: &str) -> (r: ColorInputKind)
    ensures
        r == spec_color_input_kind(trim_seq(input@)),
{
    let t = trim(input);
    let n = t.unicode_len();
    let hash = n > 0 && t.get_char(0) == '#';
    let colon = contains_char(t, ':');
    let comma = contains_char(t, ',');
    if n > 0 && !hash && !colon && !comma {
        ColorInputKind::Named
    } else if hash {
        ColorInputKind::Hex
    } else if colon {
        ColorInputKind::Labeled
    } else if comma {
        ColorInputKind::Csv
    } else {
        ColorInputKind::Unrecognized
    }
}

/// How typed color text is read: text starting with `#` is hex; other text
/// holding a `:` is labeled notation, whatever else it holds; other text
/// holding a `,` (and no `:`) is comma-separated; other non-empty text is a
/// color name; empty text is not recognized.
pub proof fn law_color_input_kind(t: Seq<char>)
    ensures
        t.len() > 0 && t[0] == '#' ==> spec_color_input_kind(t) == ColorInputKind::Hex,
        t.len() > 0 && t[0] != '#' && t.contains(':') ==> spec_color_input_kind(t) == ColorInputKind::Labeled,
        t.len() > 0 && t[0] != '#' && !t.contains(':') && t.contains(',') ==> spec_color_input_kind(t)
            == ColorInputKind::Csv,
        t.len() > 0 && t[0] != '#' && !t.contains(':') && !t.contains(',') ==> spec_color_input_kind(t)
            == ColorInputKind::Named,
        t.len() == 0 ==> spec_color_input_kind(t) == ColorInputKind::Unrecognized,
        spec_color_input_kind(t) == ColorInputKind::Csv ==> t.contains(',') && !t.contains(':'),
        spec_color_input_kind(t) == ColorInputKind::Labeled ==> t.contains(':'),
{
}

} // verus!

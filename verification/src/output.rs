//! Scan results and how they are written out: sizes for humans, terminal
//! lines, text-file lines and CSV records.
use crossterm::style::Stylize;
use vstd::prelude::*;
use crate::colors::{status_color_of, MAUVE, OVERLAY0, SKY, TEXT, YELLOW};
use crate::text::{append_chars, chars_of, decimal, digit_char, pad_left, push_decimal, push_padded, string_from};

verus! {

/// One displayed response of a scan.
#[derive(Debug, Clone, PartialEq)]
pub struct ScanResult {
    pub url: String,
    pub status: u16,
    pub size: u64,
    pub words: u64,
    pub lines: u64,
    pub duration_ms: u64,
    pub redirect_to: Option<String>,
    pub content_type: Option<String>,
    pub depth: u32,
    pub input: String,
}

/// 2^53: below it every integer is exactly an `f64`.
pub open spec fn f64_exact_limit() -> nat {
    0x20000000000000
}

/// The spacing of `f64` values around `v`: 1 below 2^53, doubling with each
/// further bit of `v`.
pub open spec fn f64_unit(v: nat) -> nat
    decreases v,
{
    if v < f64_exact_limit() {
        1
    } else {
        2 * f64_unit(v / 2)
    }
}

/// `q + r/d` rounded to the nearest integer, ties to even.
pub open spec fn round_half_even(q: nat, r: nat, d: nat) -> nat {
    if 2 * r > d || (2 * r == d && q % 2 == 1) {
        q + 1
    } else {
        q
    }
}

/// The value of `v as f64` (round to nearest, ties to even).
pub open spec fn as_f64(v: nat) -> nat {
    let u = f64_unit(v);
    round_half_even(v / u, v % u, u) * u
}

/// `v / unit` in tenths, rounded to nearest with ties to even, as `{:.1}`
/// rounds the exact value.
pub open spec fn tenths(v: nat, unit: nat) -> nat {
    round_half_even((10 * v) / unit, (10 * v) % unit, unit)
}

/// A number of tenths written with one decimal: `12` is `1.2`.
pub open spec fn one_decimal(t: nat) -> Seq<char> {
    decimal(t / 10) + seq!['.', digit_char(t % 10)]
}

/// The size for humans: bytes below 1024 as `500B`; below 1 MiB in KiB with
/// one decimal (`1.0 KB`); above in MiB with one decimal (`1.0 MB`), computed
/// as `size as f64 / 1048576.0` formatted with `{:.1}`.
pub open spec fn human_size_text(size: nat) -> Seq<char> {
    if size >= 1048576 {
        one_decimal(tenths(as_f64(size), 1048576)) + seq![' ', 'M', 'B']
    } else if size >= 1024 {
        one_decimal(tenths(size, 1024)) + seq![' ', 'K', 'B']
    } else {
        decimal(size) + seq!['B']
    }
}

fn f64_value(v: u64) -> (r: u128)
    ensures
        r == as_f64(v as nat),
        r <= 2 * (v as nat) + 1,
{
    let mut unit: u128 = 1;
    let mut w: u64 = v;
    while w >= 0x20000000000000
        invariant
            1 <= unit,
            unit <= v as u128 + 1,
            w as nat == v as nat / unit as nat,
            f64_unit(v as nat) == unit * f64_unit(w as nat),
        decreases w,
    {
        proof {
            vstd::arithmetic::div_mod::lemma_div_denominator(v as int, unit as int, 2);
            assert((w / 2) as nat == (v as nat / unit as nat) / 2);
            assert(f64_unit(w as nat) == 2 * f64_unit((w / 2) as nat));
            assert(unit * (2 * f64_unit((w / 2) as nat)) == (unit * 2) * f64_unit((w / 2) as nat))
                by (nonlinear_arith);
            let nu = (unit * 2) as int;
            let nw = (w / 2) as int;
            assert(nw == v as int / nu);
            assert(nw >= 1);
            assert(nu <= v as int) by (nonlinear_arith)
                requires
                    nw == v as int / nu,
                    nw >= 1,
                    nu > 0,
                    v >= 0,
            ;
        }
        w = w / 2;
        unit = unit * 2;
    }
    assert(f64_unit(w as nat) == 1);
    let vv = v as u128;
    let q = vv / unit;
    let rem = vv % unit;
    proof {
        assert(q * unit + rem == vv) by (nonlinear_arith)
            requires
                q == vv / unit,
                rem == vv % unit,
                unit > 0,
        ;
        assert(q * unit <= vv);
        assert(rem < unit);
    }
    let q2 = if 2 * rem > unit || (2 * rem == unit && q % 2 == 1) {
        q + 1
    } else {
        q
    };
    assert(f64_unit(v as nat) == unit as nat) by (nonlinear_arith)
        requires
            f64_unit(w as nat) == 1,
            f64_unit(v as nat) == unit * f64_unit(w as nat),
    ;
    assert(as_f64(v as nat) == round_half_even(q as nat, rem as nat, unit as nat) * unit);
    assert(q2 * unit <= vv + unit) by (nonlinear_arith)
        requires
            q2 <= q + 1,
            q * unit <= vv,
            unit > 0,
    ;
    q2 * unit
}

fn push_one_decimal(out: &mut Vec<char>, t: u128)
    requires
        t / 10 <= u64::MAX,
    ensures
        final(out)@ == old(out)@ + one_decimal(t as nat),
{
    push_decimal(out, (t / 10) as u64);
    let d = (t % 10) as u8;
    let c = (48u8 + d) as char;
    assert(c == digit_char((t % 10) as nat));
    out.push('.');
    out.push(c);
}

fn tenths_exec(v: u128, unit: u128) -> (t: u128)
    requires
        0 < unit <= 0x1_0000_0000,
        v <= 0x3_0000_0000_0000_0000,
    ensures
        t == tenths(v as nat, unit as nat),
        t <= 10 * (v as nat) / (unit as nat) + 1,
{
    let x = 10 * v;
    let q = x / unit;
    let rem = x % unit;
    if 2 * rem > unit || (2 * rem == unit && q % 2 == 1) {
        q + 1
    } else {
        q
    }
}

fn push_human_size(out: &mut Vec<char>, size: u64)
    ensures
        final(out)@ == old(out)@ + human_size_text(size as nat),
{
    if size >= 1048576 {
        let v = f64_value(size);
        let t = tenths_exec(v, 1048576);
        assert(t / 10 <= u64::MAX) by (nonlinear_arith)
            requires
                t <= 10 * (v as nat) / 1048576 + 1,
                v <= 2 * (size as nat) + 1,
                size <= u64::MAX,
        ;
        push_one_decimal(out, t);
        out.push(' ');
        out.push('M');
        out.push('B');
    } else if size >= 1024 {
        let t = tenths_exec(size as u128, 1024);
        assert(t / 10 <= u64::MAX) by (nonlinear_arith)
            requires
                t <= 10 * (size as nat) / 1024 + 1,
                size < 1048576,
        ;
        push_one_decimal(out, t);
        out.push(' ');
        out.push('K');
        out.push('B');
    } else {
        push_decimal(out, size);
        out.push('B');
    }
}

impl ScanResult {
    /// The size for humans: `500B`, `1.0 KB`, `1.0 MB`.
    pub fn human_size(&self) -> (s: String)
        ensures
            s@ == human_size_text(self.size as nat),
    {
        let mut v: Vec<char> = Vec::new();
        push_human_size(&mut v, self.size);
        string_from(v.as_slice())
    }
}


/// The status, size, word count, URL, redirect and depth columns of a result
/// (`{:>3}  {:>8}  {:>5}w  {url}{redirect}{depth}`).
pub open spec fn result_columns(r: &ScanResult) -> Seq<char> {
    number_columns(r) + r.url@ + redirect_note(r) + depth_note(r)
}

/// The padded status, size and word count columns.
pub open spec fn number_columns(r: &ScanResult) -> Seq<char> {
    pad_left(decimal(r.status as nat), 3) + seq![' ', ' '] + pad_left(
        human_size_text(r.size as nat),
        8,
    ) + seq![' ', ' '] + pad_left(decimal(r.words as nat), 5) + seq!['w', ' ', ' ']
}

/// ` → location` for a redirect, nothing otherwise.
pub open spec fn redirect_note(r: &ScanResult) -> Seq<char> {
    match r.redirect_to {
        Some(l) => seq![' ', '\u{2192}', ' '] + l@,
        None => Seq::empty(),
    }
}

/// `(depth: N)`.
pub open spec fn depth_label(depth: nat) -> Seq<char> {
    seq!['(', 'd', 'e', 'p', 't', 'h', ':', ' '] + decimal(depth) + seq![')']
}

/// ` (depth: N)` below the top level, nothing at depth 0.
pub open spec fn depth_note(r: &ScanResult) -> Seq<char> {
    if r.depth > 0 {
        seq![' '] + depth_label(r.depth as nat)
    } else {
        Seq::empty()
    }
}

/// A result on the terminal without color: `  ● ` then the columns.
pub open spec fn plain_line(r: &ScanResult) -> Seq<char> {
    seq![' ', ' ', '\u{25cf}', ' '] + result_columns(r)
}

fn push_depth_label(out: &mut Vec<char>, depth: u32)
    ensures
        final(out)@ == old(out)@ + depth_label(depth as nat),
{
    out.push('(');
    out.push('d');
    out.push('e');
    out.push('p');
    out.push('t');
    out.push('h');
    out.push(':');
    out.push(' ');
    push_decimal(out, depth as u64);
    out.push(')');
}

fn push_number_columns(out: &mut Vec<char>, r: &ScanResult)
    ensures
        final(out)@ == old(out)@ + number_columns(r),
{
    let mut num: Vec<char> = Vec::new();
    push_decimal(&mut num, r.status as u64);
    push_padded(out, num.as_slice(), 3);
    out.push(' ');
    out.push(' ');
    let mut hs: Vec<char> = Vec::new();
    push_human_size(&mut hs, r.size);
    push_padded(out, hs.as_slice(), 8);
    out.push(' ');
    out.push(' ');
    let mut wd: Vec<char> = Vec::new();
    push_decimal(&mut wd, r.words);
    push_padded(out, wd.as_slice(), 5);
    out.push('w');
    out.push(' ');
    out.push(' ');
}

fn push_redirect_note(out: &mut Vec<char>, r: &ScanResult)
    ensures
        final(out)@ == old(out)@ + redirect_note(r),
{
    match &r.redirect_to {
        Some(l) => {
            out.push(' ');
            out.push('\u{2192}');
            out.push(' ');
            let lc = chars_of(l.as_str());
            append_chars(out, lc.as_slice());
        },
        None => {},
    }
}

fn push_depth_note(out: &mut Vec<char>, r: &ScanResult)
    ensures
        final(out)@ == old(out)@ + depth_note(r),
{
    if r.depth > 0 {
        out.push(' ');
        push_depth_label(out, r.depth);
    }
}

fn push_columns(out: &mut Vec<char>, r: &ScanResult)
    ensures
        final(out)@ == old(out)@ + result_columns(r),
{
    push_number_columns(out, r);
    let url = chars_of(r.url.as_str());
    append_chars(out, url.as_slice());
    push_redirect_note(out, r);
    push_depth_note(out, r);
}

/// A result as a line of the text output file.
pub fn format_text_line(r: &ScanResult) -> (s: String)
    ensures
        s@ == result_columns(r),
{
    let mut v: Vec<char> = Vec::new();
    push_columns(&mut v, r);
    string_from(v.as_slice())
}

/// A result as a terminal line without color.
pub fn format_result_plain(r: &ScanResult) -> (s: String)
    ensures
        s@ == plain_line(r),
{
    let mut v: Vec<char> = Vec::new();
    v.push(' ');
    v.push(' ');
    v.push('\u{25cf}');
    v.push(' ');
    push_columns(&mut v, r);
    string_from(v.as_slice())
}

/// The escape sequence that sets a 24-bit foreground color.
pub open spec fn fg_code(c: (u8, u8, u8)) -> Seq<char> {
    seq!['\u{1b}', '[', '3', '8', ';', '2', ';'] + decimal(c.0 as nat) + seq![';'] + decimal(
        c.1 as nat,
    ) + seq![';'] + decimal(c.2 as nat) + seq!['m']
}

/// The escape sequence that resets the foreground color.
pub open spec fn fg_reset_code() -> Seq<char> {
    seq!['\u{1b}', '[', '3', '9', 'm']
}

/// The escape sequence crossterm writes for a color when colors are disabled
/// through the `NO_COLOR` environment variable.
pub open spec fn empty_code() -> Seq<char> {
    seq!['\u{1b}', '[', 'm']
}

/// `out` is what crossterm writes for `text` in foreground color `c`: the text
/// between the color code and the reset code; with `NO_COLOR` set, between two
/// empty codes; on a Windows console without ANSI support, nothing.
pub open spec fn painted(text: Seq<char>, c: (u8, u8, u8), out: Seq<char>) -> bool {
    ||| out == fg_code(c) + text + fg_reset_code()
    ||| out == empty_code() + text + empty_code()
    ||| out.len() == 0
}

/// Formats `text` in the foreground color `c` with crossterm (`Stylize::with`
/// and `Display`). Trusted: the outcome is one of the three forms of
/// [`painted`]; which one depends on the environment and the console.
#[verifier::external_body]
pub(crate) fn paint(text: &str, c: (u8, u8, u8)) -> (s: String)
    ensures
        painted(text@, c, s@),
{
    format!("{}", text.with(crossterm::style::Color::Rgb { r: c.0, g: c.1, b: c.2 }))
}

/// The colored pieces of a result line.
pub struct PaintedPieces {
    pub dot: String,
    pub status: String,
    pub size: String,
    pub words: String,
    pub url: String,
    pub arrow: String,
    pub location: String,
    pub depth: String,
}

/// The colored pieces each hold what crossterm writes for the matching
/// column of `r` in its color (redirect and depth pieces only where `r` has
/// them).
pub open spec fn pieces_painted(r: &ScanResult, p: &PaintedPieces) -> bool {
    let sc = status_color_of(r.status);
    &&& painted(seq!['\u{25cf}'], sc, p.dot@)
    &&& painted(decimal(r.status as nat), sc, p.status@)
    &&& painted(human_size_text(r.size as nat), YELLOW, p.size@)
    &&& painted(decimal(r.words as nat), MAUVE, p.words@)
    &&& painted(r.url@, TEXT, p.url@)
    &&& (r.redirect_to matches Some(l) ==> painted(seq!['\u{2192}'], OVERLAY0, p.arrow@)
        && painted(l@, OVERLAY0, p.location@))
    &&& (r.depth > 0 ==> painted(depth_label(r.depth as nat), OVERLAY0, p.depth@))
}

/// A colored result line from its pieces. Widths do not apply: crossterm
/// ignores them for styled content.
pub open spec fn colored_line(r: &ScanResult, p: &PaintedPieces) -> Seq<char> {
    seq![' ', ' '] + p.dot@ + seq![' '] + p.status@ + seq![' ', ' '] + p.size@ + seq![' ', ' ']
        + p.words@ + seq!['w', ' ', ' '] + p.url@ + (if r.redirect_to is Some {
        seq![' '] + p.arrow@ + seq![' '] + p.location@
    } else {
        Seq::empty()
    }) + (if r.depth > 0 {
        seq![' '] + p.depth@
    } else {
        Seq::empty()
    })
}

/// Assembles a colored result line from its colored pieces.
pub fn assemble_colored_line(r: &ScanResult, p: &PaintedPieces) -> (s: String)
    ensures
        s@ == colored_line(r, p),
{
    let mut v: Vec<char> = Vec::new();
    v.push(' ');
    v.push(' ');
    append_chars(&mut v, chars_of(p.dot.as_str()).as_slice());
    v.push(' ');
    append_chars(&mut v, chars_of(p.status.as_str()).as_slice());
    v.push(' ');
    v.push(' ');
    append_chars(&mut v, chars_of(p.size.as_str()).as_slice());
    v.push(' ');
    v.push(' ');
    append_chars(&mut v, chars_of(p.words.as_str()).as_slice());
    v.push('w');
    v.push(' ');
    v.push(' ');
    append_chars(&mut v, chars_of(p.url.as_str()).as_slice());
    if r.redirect_to.is_some() {
        v.push(' ');
        append_chars(&mut v, chars_of(p.arrow.as_str()).as_slice());
        v.push(' ');
        append_chars(&mut v, chars_of(p.location.as_str()).as_slice());
    }
    if r.depth > 0 {
        v.push(' ');
        append_chars(&mut v, chars_of(p.depth.as_str()).as_slice());
    }
    string_from(v.as_slice())
}

fn chars_string(v: Vec<char>) -> (s: String)
    ensures
        s@ == v@,
{
    string_from(v.as_slice())
}

/// A result as a terminal line: plain when `no_color`, else each column
/// colored (status by its class, size yellow, words mauve, URL in the text
/// color, redirect and depth in the overlay color).
pub fn format_result(result: &ScanResult, no_color: bool) -> (s: String)
    ensures
        no_color ==> s@ == plain_line(result),
        !no_color ==> exists|p: PaintedPieces| pieces_painted(result, &p) && s@ == colored_line(
            result,
            &p,
        ),
{
    if no_color {
        return format_result_plain(result);
    }
    let sc = crate::colors::status_color(result.status);
    let mut dot_v: Vec<char> = Vec::new();
    dot_v.push('\u{25cf}');
    let dot_s = chars_string(dot_v);
    let status_s = crate::text::decimal_string(result.status as u64);
    let mut hs: Vec<char> = Vec::new();
    push_human_size(&mut hs, result.size);
    let size_s = chars_string(hs);
    let words_s = crate::text::decimal_string(result.words);
    let mut arrow_v: Vec<char> = Vec::new();
    arrow_v.push('\u{2192}');
    let arrow_s = chars_string(arrow_v);
    let (arrow, location) = match &result.redirect_to {
        Some(l) => (paint(arrow_s.as_str(), OVERLAY0), paint(l.as_str(), OVERLAY0)),
        None => (String::new(), String::new()),
    };
    let depth = if result.depth > 0 {
        let mut dv: Vec<char> = Vec::new();
        push_depth_label(&mut dv, result.depth);
        let ds = chars_string(dv);
        paint(ds.as_str(), OVERLAY0)
    } else {
        String::new()
    };
    let p = PaintedPieces {
        dot: paint(dot_s.as_str(), sc),
        status: paint(status_s.as_str(), sc),
        size: paint(size_s.as_str(), YELLOW),
        words: paint(words_s.as_str(), MAUVE),
        url: paint(result.url.as_str(), TEXT),
        arrow,
        location,
        depth,
    };
    let s = assemble_colored_line(result, &p);
    assert(pieces_painted(result, &p));
    s
}

/// `├── scanning recursively: ` followed by the path.
pub open spec fn recursion_note(path: Seq<char>) -> Seq<char> {
    seq![
        '\u{251c}',
        '\u{2500}',
        '\u{2500}',
        ' ',
        's',
        'c',
        'a',
        'n',
        'n',
        'i',
        'n',
        'g',
        ' ',
        'r',
        'e',
        'c',
        'u',
        'r',
        's',
        'i',
        'v',
        'e',
        'l',
        'y',
        ':',
        ' ',
    ] + path
}

/// Six spaces of indentation.
pub open spec fn indent6() -> Seq<char> {
    seq![' ', ' ', ' ', ' ', ' ', ' ']
}

/// The line announcing that `path` will be scanned recursively: indented,
/// and in the sky color unless `no_color`.
pub fn format_recursion_indicator(path: &str, no_color: bool) -> (s: String)
    ensures
        no_color ==> s@ == indent6() + recursion_note(path@),
        !no_color ==> exists|note: Seq<char>| painted(recursion_note(path@), SKY, note) && s@ == indent6() + note,
{
    let mut note: Vec<char> = Vec::new();
    note.push('\u{251c}');
    note.push('\u{2500}');
    note.push('\u{2500}');
    note.push(' ');
    let word = ['s', 'c', 'a', 'n', 'n', 'i', 'n', 'g', ' ', 'r', 'e', 'c', 'u', 'r', 's', 'i', 'v', 'e', 'l', 'y', ':', ' '];
    append_chars(&mut note, word.as_slice());
    append_chars(&mut note, chars_of(path).as_slice());
    assert(note@ == recursion_note(path@));
    let mut out: Vec<char> = Vec::new();
    let mut k: usize = 0;
    while k < 6
        invariant
            k <= 6,
            out@ == indent6().take(k as int),
        decreases 6 - k,
    {
        out.push(' ');
        assert(indent6().take(k + 1) == indent6().take(k as int).push(' '));
        k = k + 1;
    }
    assert(indent6().take(6) == indent6());
    if no_color {
        append_chars(&mut out, note.as_slice());
    } else {
        let ns = chars_string(note);
        let painted_note = paint(ns.as_str(), SKY);
        append_chars(&mut out, chars_of(painted_note.as_str()).as_slice());
    }
    string_from(out.as_slice())
}

/// The CSV header row.
pub open spec fn csv_header_fields() -> Seq<Seq<char>> {
    seq![
        seq!['u', 'r', 'l'],
        seq!['s', 't', 'a', 't', 'u', 's'],
        seq!['s', 'i', 'z', 'e'],
        seq!['w', 'o', 'r', 'd', 's'],
        seq!['l', 'i', 'n', 'e', 's'],
        seq!['d', 'u', 'r', 'a', 't', 'i', 'o', 'n', '_', 'm', 's'],
        seq!['r', 'e', 'd', 'i', 'r', 'e', 'c', 't', '_', 't', 'o'],
        seq!['c', 'o', 'n', 't', 'e', 'n', 't', '_', 't', 'y', 'p', 'e'],
        seq!['d', 'e', 'p', 't', 'h'],
        seq!['i', 'n', 'p', 'u', 't'],
    ]
}

fn field(cs: &[char]) -> (s: String)
    ensures
        s@ == cs@,
{
    string_from(cs)
}

/// The field names of the CSV output, in column order.
pub fn csv_header() -> (r: Vec<String>)
    ensures
        crate::text::string_views(r@) == csv_header_fields(),
{
    let mut r: Vec<String> = Vec::new();
    r.push(field(&['u', 'r', 'l']));
    r.push(field(&['s', 't', 'a', 't', 'u', 's']));
    r.push(field(&['s', 'i', 'z', 'e']));
    r.push(field(&['w', 'o', 'r', 'd', 's']));
    r.push(field(&['l', 'i', 'n', 'e', 's']));
    r.push(field(&['d', 'u', 'r', 'a', 't', 'i', 'o', 'n', '_', 'm', 's']));
    r.push(field(&['r', 'e', 'd', 'i', 'r', 'e', 'c', 't', '_', 't', 'o']));
    r.push(field(&['c', 'o', 'n', 't', 'e', 'n', 't', '_', 't', 'y', 'p', 'e']));
    r.push(field(&['d', 'e', 'p', 't', 'h']));
    r.push(field(&['i', 'n', 'p', 'u', 't']));
    assert(crate::text::string_views(r@) == csv_header_fields());
    r
}

/// An optional text, empty when absent.
pub open spec fn or_empty(o: Option<String>) -> Seq<char> {
    match o {
        Some(s) => s@,
        None => Seq::empty(),
    }
}

/// The CSV fields of a result, in the order of [`csv_header_fields`].
pub open spec fn csv_fields(r: &ScanResult) -> Seq<Seq<char>> {
    seq![
        r.url@,
        decimal(r.status as nat),
        decimal(r.size as nat),
        decimal(r.words as nat),
        decimal(r.lines as nat),
        decimal(r.duration_ms as nat),
        or_empty(r.redirect_to),
        or_empty(r.content_type),
        decimal(r.depth as nat),
        r.input@,
    ]
}

fn opt_text(o: &Option<String>) -> (s: String)
    ensures
        s@ == or_empty(*o),
{
    match o {
        Some(s) => s.clone(),
        None => String::new(),
    }
}

/// The CSV record of a result.
pub fn csv_record(r: &ScanResult) -> (v: Vec<String>)
    ensures
        crate::text::string_views(v@) == csv_fields(r),
{
    let mut v: Vec<String> = Vec::new();
    v.push(r.url.clone());
    v.push(crate::text::decimal_string(r.status as u64));
    v.push(crate::text::decimal_string(r.size));
    v.push(crate::text::decimal_string(r.words));
    v.push(crate::text::decimal_string(r.lines));
    v.push(crate::text::decimal_string(r.duration_ms));
    v.push(opt_text(&r.redirect_to));
    v.push(opt_text(&r.content_type));
    v.push(crate::text::decimal_string(r.depth as u64));
    v.push(r.input.clone());
    assert(crate::text::string_views(v@) == csv_fields(r));
    v
}

} // verus!

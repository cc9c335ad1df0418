//! The banner and the configuration summary shown when a scan starts.
use vstd::prelude::*;
use crate::colors::{BLUE, OVERLAY0, SUBTEXT0};
use crate::output::{paint, painted};
use crate::text::{append_chars, chars_of, decimal, push_decimal, string_from, string_views};

verus! {

/// The ASCII-art name.
pub const BANNER: &'static str = r#"     _____ _                 _
    |  ___| | ___   ___   __| |
    | |_  | |/ _ \ / _ \ / _` |
    |  _| | | (_) | (_) | (_| |
    |_|   |_|\___/ \___/ \__,_|"#;

/// `v` followed by the version.
pub open spec fn version_tag(version: Seq<char>) -> Seq<char> {
    seq!['v'] + version
}

fn push_str(out: &mut Vec<char>, s: &str)
    ensures
        final(out)@ == old(out)@ + s@,
{
    let v = chars_of(s);
    append_chars(out, v.as_slice());
}

/// The banner line: the art, two spaces and `v` with the version; colored
/// (art in blue, version in the overlay color) unless `no_color`.
pub fn banner_line(version: &str, no_color: bool) -> (s: String)
    ensures
        no_color ==> s@ == BANNER@ + seq![' ', ' '] + version_tag(version@),
        !no_color ==> exists|a: Seq<char>, b: Seq<char>|
            painted(BANNER@, BLUE, a) && painted(version_tag(version@), OVERLAY0, b) && s@ == a
                + seq![' ', ' '] + b,
{
    let mut tag: Vec<char> = Vec::new();
    tag.push('v');
    push_str(&mut tag, version);
    assert(tag@ == version_tag(version@));
    let mut out: Vec<char> = Vec::new();
    if no_color {
        push_str(&mut out, BANNER);
        out.push(' ');
        out.push(' ');
        append_chars(&mut out, tag.as_slice());
    } else {
        let art = paint(BANNER, BLUE);
        let ts = string_from(tag.as_slice());
        let v = paint(ts.as_str(), OVERLAY0);
        push_str(&mut out, art.as_str());
        out.push(' ');
        out.push(' ');
        push_str(&mut out, v.as_str());
        assert(tag@ == version_tag(version@));
        assert(painted(BANNER@, BLUE, art@) && painted(version_tag(version@), OVERLAY0, v@));
        assert(out@ == art@ + seq![' ', ' '] + v@);
    }
    string_from(out.as_slice())
}

/// Forty horizontal box lines.
pub open spec fn separator() -> Seq<char> {
    Seq::new(40, |i: int| '\u{2500}')
}

/// Four spaces of indentation.
pub open spec fn indent4() -> Seq<char> {
    seq![' ', ' ', ' ', ' ']
}

/// `Target ─── url`.
pub open spec fn target_text(url: Seq<char>) -> Seq<char> {
    seq!['T', 'a', 'r', 'g', 'e', 't', ' ', '\u{2500}', '\u{2500}', '\u{2500}', ' '] + url
}

/// `Wordlist ─ name (count) │ Threads: threads`.
pub open spec fn wordlist_text(name: Seq<char>, count: nat, threads: nat) -> Seq<char> {
    seq!['W', 'o', 'r', 'd', 'l', 'i', 's', 't', ' ', '\u{2500}', ' '] + name + seq![' ', '(']
        + decimal(count) + seq![')', ' ', '\u{2502}', ' ', 'T', 'h', 'r', 'e', 'a', 'd', 's', ':', ' ']
        + decimal(threads)
}

/// `Filters ── Match: codes`.
pub open spec fn filters_text(codes: Seq<char>) -> Seq<char> {
    seq!['F', 'i', 'l', 't', 'e', 'r', 's', ' ', '\u{2500}', '\u{2500}', ' ', 'M', 'a', 't', 'c', 'h', ':', ' ']
        + codes
}

/// The texts of the five summary lines, before indentation and color:
/// separator, target, wordlist, filters, separator.
pub open spec fn summary_texts(
    url: Seq<char>,
    name: Seq<char>,
    count: nat,
    threads: nat,
    codes: Seq<char>,
) -> Seq<Seq<char>> {
    seq![
        separator(),
        target_text(url),
        wordlist_text(name, count, threads),
        filters_text(codes),
        separator(),
    ]
}

fn push_separator(out: &mut Vec<char>)
    ensures
        final(out)@ == old(out)@ + separator(),
{
    let mut i: usize = 0;
    while i < 40
        invariant
            i <= 40,
            out@ == old(out)@ + separator().take(i as int),
        decreases 40 - i,
    {
        out.push('\u{2500}');
        assert(separator().take(i + 1) == separator().take(i as int).push('\u{2500}'));
        i = i + 1;
    }
    assert(separator().take(40) == separator());
}

fn summary_text(k: usize, url: &str, name: &str, count: usize, threads: usize, codes: &str) -> (s: Vec<char>)
    requires
        k < 5,
    ensures
        s@ == summary_texts(url@, name@, count as nat, threads as nat, codes@)[k as int],
{
    let mut v: Vec<char> = Vec::new();
    if k == 0 || k == 4 {
        push_separator(&mut v);
    } else if k == 1 {
        let head = ['T', 'a', 'r', 'g', 'e', 't', ' ', '\u{2500}', '\u{2500}', '\u{2500}', ' '];
        append_chars(&mut v, head.as_slice());
        push_str(&mut v, url);
    } else if k == 2 {
        let head = ['W', 'o', 'r', 'd', 'l', 'i', 's', 't', ' ', '\u{2500}', ' '];
        append_chars(&mut v, head.as_slice());
        push_str(&mut v, name);
        v.push(' ');
        v.push('(');
        push_decimal(&mut v, count as u64);
        let mid = [')', ' ', '\u{2502}', ' ', 'T', 'h', 'r', 'e', 'a', 'd', 's', ':', ' '];
        append_chars(&mut v, mid.as_slice());
        push_decimal(&mut v, threads as u64);
    } else {
        let head = ['F', 'i', 'l', 't', 'e', 'r', 's', ' ', '\u{2500}', '\u{2500}', ' ', 'M', 'a', 't', 'c', 'h', ':', ' '];
        append_chars(&mut v, head.as_slice());
        push_str(&mut v, codes);
    }
    v
}

/// The configuration summary lines, each indented by four spaces: the
/// separator, target, wordlist with count and threads, match codes, and the
/// separator again; colored (separators in the overlay color, the rest in
/// subtext) unless `no_color`.
pub fn config_lines(
    url: &str,
    wordlist_name: &str,
    wordlist_count: usize,
    threads: usize,
    match_codes: &str,
    no_color: bool,
) -> (lines: Vec<String>)
    ensures
        lines@.len() == 5,
        forall|k: int|
            0 <= k < 5 ==> {
                let t = #[trigger] summary_texts(
                    url@,
                    wordlist_name@,
                    wordlist_count as nat,
                    threads as nat,
                    match_codes@,
                )[k];
                let c = if k == 0 || k == 4 {
                    OVERLAY0
                } else {
                    SUBTEXT0
                };
                &&& no_color ==> lines@[k]@ == indent4() + t
                &&& !no_color ==> exists|p: Seq<char>| painted(t, c, p) && lines@[k]@ == indent4() + p
            },
{
    let ghost texts = summary_texts(
        url@,
        wordlist_name@,
        wordlist_count as nat,
        threads as nat,
        match_codes@,
    );
    let mut lines: Vec<String> = Vec::new();
    let mut k: usize = 0;
    while k < 5
        invariant
            k <= 5,
            lines@.len() == k,
            texts == summary_texts(
                url@,
                wordlist_name@,
                wordlist_count as nat,
                threads as nat,
                match_codes@,
            ),
            forall|j: int|
                0 <= j < k ==> {
                    let t = #[trigger] texts[j];
                    let c = if j == 0 || j == 4 {
                        OVERLAY0
                    } else {
                        SUBTEXT0
                    };
                    &&& no_color ==> lines@[j]@ == indent4() + t
                    &&& !no_color ==> exists|p: Seq<char>| painted(t, c, p) && lines@[j]@ == indent4() + p
                },
        decreases 5 - k,
    {
        let t = summary_text(k, url, wordlist_name, wordlist_count, threads, match_codes);
        let mut line: Vec<char> = Vec::new();
        line.push(' ');
        line.push(' ');
        line.push(' ');
        line.push(' ');
        assert(line@ == indent4());
        if no_color {
            append_chars(&mut line, t.as_slice());
        } else {
            let color = if k == 0 || k == 4 {
                OVERLAY0
            } else {
                SUBTEXT0
            };
            let ts = string_from(t.as_slice());
            let p = paint(ts.as_str(), color);
            push_str(&mut line, p.as_str());
        }
        lines.push(string_from(line.as_slice()));
        k = k + 1;
    }
    lines
}

} // verus!

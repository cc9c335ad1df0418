//! Character-level text operations with their mathematical models.
//!
//! Strings are modelled by their view, a `Seq<char>`. The exec functions here
//! work on `Vec<char>` buffers and convert at the edges.
use vstd::prelude::*;

verus! {

/// Appends one character to a `String` (std's `String::push`).
/// Trusted: the new contents are the old contents followed by `c`.
#[verifier::external_body]
pub(crate) fn push_char(s: &mut String, c: char)
    ensures
        final(s)@ == old(s)@.push(c),
{
    s.push(c);
}

/// The characters of `s`, in order.
pub fn chars_of(s: &str) -> (v: Vec<char>)
    ensures
        v@ == s@,
{
    broadcast use vstd::string::group_string_axioms;
    let mut v: Vec<char> = Vec::new();
    let chars = s.chars();
    for c in it: chars
        invariant
            v@ == it.seq().take(it.index()),
            it.seq() == s@,
    {
        v.push(c);
        assert(it.seq().take(it.index() + 1) == it.seq().take(it.index()).push(c));
    }
    assert(v@ == s@);
    v
}

/// Builds a `String` from a slice of characters.
pub fn string_from(v: &[char]) -> (s: String)
    ensures
        s@ == v@,
{
    let mut s = String::new();
    let mut i: usize = 0;
    while i < v.len()
        invariant
            i <= v@.len(),
            s@ == v@.take(i as int),
        decreases v@.len() - i,
    {
        push_char(&mut s, v[i]);
        assert(v@.take(i as int + 1) == v@.take(i as int).push(v@[i as int]));
        i = i + 1;
    }
    assert(v@.take(v@.len() as int) == v@);
    s
}


/// Unicode `White_Space`, the set that std's `char::is_whitespace` and
/// `str::trim` go by.
pub open spec fn is_ws(c: char) -> bool {
    ||| ('\u{9}' <= c && c <= '\u{d}')
    ||| c == ' '
    ||| c == '\u{85}'
    ||| c == '\u{a0}'
    ||| c == '\u{1680}'
    ||| ('\u{2000}' <= c && c <= '\u{200a}')
    ||| c == '\u{2028}'
    ||| c == '\u{2029}'
    ||| c == '\u{202f}'
    ||| c == '\u{205f}'
    ||| c == '\u{3000}'
}

pub fn is_whitespace(c: char) -> (b: bool)
    ensures
        b == is_ws(c),
{
    ('\u{9}' <= c && c <= '\u{d}') || c == ' ' || c == '\u{85}' || c == '\u{a0}' || c
        == '\u{1680}' || ('\u{2000}' <= c && c <= '\u{200a}') || c == '\u{2028}' || c
        == '\u{2029}' || c == '\u{202f}' || c == '\u{205f}' || c == '\u{3000}'
}

/// `s` without its leading whitespace.
pub open spec fn trim_start(s: Seq<char>) -> Seq<char>
    decreases s.len(),
{
    if s.len() > 0 && is_ws(s[0]) {
        trim_start(s.drop_first())
    } else {
        s
    }
}

/// `s` without its trailing whitespace.
pub open spec fn trim_end(s: Seq<char>) -> Seq<char>
    decreases s.len(),
{
    if s.len() > 0 && is_ws(s.last()) {
        trim_end(s.drop_last())
    } else {
        s
    }
}

/// `s` without leading and trailing whitespace (std's `str::trim`).
pub open spec fn trim(s: Seq<char>) -> Seq<char> {
    trim_end(trim_start(s))
}

/// The characters of `s` with leading and trailing whitespace removed.
pub fn trim_chars(s: &[char]) -> (r: Vec<char>)
    ensures
        r@ == trim(s@),
{
    let n = s.len();
    let mut i: usize = 0;
    assert(s@.subrange(0, n as int) == s@);
    while i < n && is_whitespace(s[i])
        invariant
            i <= n,
            n == s@.len(),
            trim_start(s@.subrange(i as int, n as int)) == trim_start(s@),
        decreases n - i,
    {
        assert(s@.subrange(i as int, n as int).drop_first() == s@.subrange(i as int + 1, n as int));
        i = i + 1;
    }
    assert(trim_start(s@.subrange(i as int, n as int)) == s@.subrange(i as int, n as int));
    let mut j: usize = n;
    while j > i && is_whitespace(s[j - 1])
        invariant
            i <= j <= n,
            n == s@.len(),
            trim_end(s@.subrange(i as int, j as int)) == trim_end(s@.subrange(i as int, n as int)),
        decreases j,
    {
        assert(s@.subrange(i as int, j as int).drop_last() == s@.subrange(i as int, j - 1));
        j = j - 1;
    }
    let mut r: Vec<char> = Vec::new();
    let mut k: usize = i;
    while k < j
        invariant
            i <= k <= j <= n,
            n == s@.len(),
            r@ == s@.subrange(i as int, k as int),
        decreases j - k,
    {
        r.push(s[k]);
        assert(s@.subrange(i as int, k + 1) == s@.subrange(i as int, k as int).push(s@[k as int]));
        k = k + 1;
    }
    r
}

/// The pieces of `s` between occurrences of `sep` (std's `str::split` with a
/// `char` pattern): one more piece than there are separators.
pub open spec fn split_on(s: Seq<char>, sep: char) -> Seq<Seq<char>>
    decreases s.len(),
{
    if s.len() == 0 {
        seq![Seq::<char>::empty()]
    } else {
        let r = split_on(s.drop_last(), sep);
        if s.last() == sep {
            r.push(Seq::<char>::empty())
        } else {
            r.update(r.len() - 1, r.last().push(s.last()))
        }
    }
}

pub proof fn lemma_split_on_nonempty(s: Seq<char>, sep: char)
    ensures
        split_on(s, sep).len() >= 1,
    decreases s.len(),
{
    if s.len() > 0 {
        lemma_split_on_nonempty(s.drop_last(), sep);
    }
}

/// Every character of `w` is whitespace.
pub open spec fn all_ws(w: Seq<char>) -> bool {
    forall|i: int| 0 <= i < w.len() ==> is_ws(#[trigger] w[i])
}

proof fn lemma_trim_end_append_ws(s: Seq<char>, w: Seq<char>)
    requires
        all_ws(w),
    ensures
        trim_end(s + w) == trim_end(s),
    decreases w.len(),
{
    if w.len() == 0 {
        assert(s + w == s);
    } else {
        assert((s + w).drop_last() == s + w.drop_last());
        assert((s + w).last() == w.last());
        assert(is_ws(w[w.len() - 1]));
        lemma_trim_end_append_ws(s, w.drop_last());
    }
}

proof fn lemma_trim_start_prepend_ws(w: Seq<char>, s: Seq<char>)
    requires
        all_ws(w),
    ensures
        trim_start(w + s) == trim_start(s),
    decreases w.len(),
{
    if w.len() == 0 {
        assert(w + s == s);
    } else {
        assert((w + s)[0] == w[0]);
        assert(is_ws(w[0]));
        assert((w + s).drop_first() == w.drop_first() + s);
        lemma_trim_start_prepend_ws(w.drop_first(), s);
    }
}

proof fn lemma_trim_start_append(s: Seq<char>, t: Seq<char>)
    ensures
        trim_start(s + t) == if trim_start(s).len() > 0 {
            trim_start(s) + t
        } else {
            trim_start(t)
        },
    decreases s.len(),
{
    if s.len() == 0 {
        assert(s + t == t);
    } else if is_ws(s[0]) {
        assert((s + t)[0] == s[0]);
        assert((s + t).drop_first() == s.drop_first() + t);
        lemma_trim_start_append(s.drop_first(), t);
    } else {
        assert((s + t)[0] == s[0]);
    }
}

/// Whitespace added before or after a text does not change it once
/// trimmed.
pub proof fn trim_ignores_added_whitespace(s: Seq<char>, w: Seq<char>)
    requires
        all_ws(w),
    ensures
        trim(s + w) == trim(s),
        trim(w + s) == trim(s),
{
    lemma_trim_start_prepend_ws(w, s);
    lemma_trim_start_append(s, w);
    if trim_start(s).len() > 0 {
        lemma_trim_end_append_ws(trim_start(s), w);
    } else {
        lemma_trim_start_prepend_ws(w, Seq::empty());
        assert(w + Seq::<char>::empty() == w);
        assert(trim_start(s) == Seq::<char>::empty());
    }
}

pub(crate) proof fn lemma_split_first_piece_empty(y: Seq<char>, sep: char)
    requires
        y.len() > 0,
        y[0] == sep,
    ensures
        split_on(y, sep).len() >= 2,
        split_on(y, sep)[0] == Seq::<char>::empty(),
    decreases y.len(),
{
    if y.len() == 1 {
        assert(y.drop_last() == Seq::<char>::empty());
    } else {
        assert(y.drop_last()[0] == sep);
        lemma_split_first_piece_empty(y.drop_last(), sep);
    }
}

pub(crate) proof fn lemma_split_without_sep(w: Seq<char>, sep: char)
    requires
        forall|i: int| 0 <= i < w.len() ==> w[i] != sep,
    ensures
        split_on(w, sep) == seq![w],
    decreases w.len(),
{
    if w.len() > 0 {
        lemma_split_without_sep(w.drop_last(), sep);
        assert(w.drop_last().push(w.last()) == w);
    } else {
        assert(w == Seq::<char>::empty());
    }
}

/// Splitting a concatenation: the pieces of `x`, with the last piece of `x`
/// and the first of `y` joined, then the pieces of `y`.
pub proof fn split_of_concat(x: Seq<char>, y: Seq<char>, sep: char)
    ensures
        split_on(x + y, sep) == split_on(x, sep).drop_last() + seq![
            split_on(x, sep).last() + split_on(y, sep)[0],
        ] + split_on(y, sep).drop_first(),
    decreases y.len(),
{
    lemma_split_on_nonempty(x, sep);
    lemma_split_on_nonempty(y, sep);
    let sx = split_on(x, sep);
    if y.len() == 0 {
        assert(x + y == x);
        assert(sx.drop_last() + seq![sx.last() + Seq::<char>::empty()] =~= sx);
        assert(split_on(y, sep).drop_first() =~= Seq::<Seq<char>>::empty());
    } else {
        let yd = y.drop_last();
        let c = y.last();
        split_of_concat(x, yd, sep);
        lemma_split_on_nonempty(yd, sep);
        assert((x + y).drop_last() == x + yd);
        assert((x + y).last() == c);
        let sy = split_on(yd, sep);
        let r = split_on(x + yd, sep);
        if c == sep {
            assert(split_on(y, sep) == sy.push(Seq::<char>::empty()));
            assert(sy.push(Seq::<char>::empty())[0] == sy[0]);
            assert(sy.push(Seq::<char>::empty()).drop_first() =~= sy.drop_first().push(
                Seq::<char>::empty(),
            ));
            assert(split_on(x + y, sep) =~= sx.drop_last() + seq![sx.last() + split_on(y, sep)[0]]
                + split_on(y, sep).drop_first());
        } else {
            let sy2 = sy.update(sy.len() - 1, sy.last().push(c));
            assert(split_on(y, sep) == sy2);
            if sy.len() == 1 {
                assert(sy2[0] == sy[0].push(c));
                assert(sy2.drop_first() =~= Seq::<Seq<char>>::empty());
                assert((sx.last() + sy[0]).push(c) =~= sx.last() + sy[0].push(c));
                assert(split_on(x + y, sep) =~= sx.drop_last() + seq![sx.last() + sy2[0]]
                    + sy2.drop_first());
            } else {
                assert(sy2[0] == sy[0]);
                assert(sy2.drop_first() =~= sy.drop_first().update(
                    sy.len() - 2,
                    sy.last().push(c),
                ));
                assert(split_on(x + y, sep) =~= sx.drop_last() + seq![sx.last() + sy2[0]]
                    + sy2.drop_first());
            }
        }
    }
}

/// The views of a vector of character buffers.
pub open spec fn views(v: Seq<Vec<char>>) -> Seq<Seq<char>> {
    v.map_values(|x: Vec<char>| x@)
}

/// The views of a sequence of strings.
pub open spec fn string_views(v: Seq<String>) -> Seq<Seq<char>> {
    v.map_values(|s: String| s@)
}

/// Splits `s` at every `sep`.
pub fn split_chars(s: &[char], sep: char) -> (r: Vec<Vec<char>>)
    ensures
        views(r@) == split_on(s@, sep),
{
    let mut done: Vec<Vec<char>> = Vec::new();
    let mut cur: Vec<char> = Vec::new();
    let mut i: usize = 0;
    while i < s.len()
        invariant
            i <= s@.len(),
            views(done@).push(cur@) == split_on(s@.take(i as int), sep),
        decreases s@.len() - i,
    {
        let ghost pre = s@.take(i as int);
        assert(s@.take(i as int + 1).drop_last() == pre);
        proof {
            lemma_split_on_nonempty(pre, sep);
        }
        if s[i] == sep {
            let ghost before = views(done@);
            let piece = cur;
            cur = Vec::new();
            done.push(piece);
            assert(views(done@) == before.push(piece@));
        } else {
            let ghost before = views(done@);
            cur.push(s[i]);
            assert(views(done@).push(cur@) == before.push(cur@));
        }
        i = i + 1;
    }
    assert(s@.take(s@.len() as int) == s@);
    let ghost before = views(done@);
    done.push(cur);
    assert(views(done@) == before.push(cur@));
    done
}


/// `p` occurs in `s` starting at index `i`.
pub open spec fn occurs_at(s: Seq<char>, p: Seq<char>, i: int) -> bool {
    0 <= i && i + p.len() <= s.len() && s.subrange(i, i + p.len()) == p
}

/// `p` is a substring of `s` (std's `str::contains`).
pub open spec fn contains(s: Seq<char>, p: Seq<char>) -> bool {
    exists|i: int| occurs_at(s, p, i)
}

/// Whether `p` occurs in `s` at index `i`.
pub fn matches_at(s: &[char], p: &[char], i: usize) -> (b: bool)
    ensures
        b == occurs_at(s@, p@, i as int),
{
    if i > s.len() || p.len() > s.len() - i {
        return false;
    }
    let n = s.len();
    let mut k: usize = 0;
    while k < p.len()
        invariant
            n == s@.len(),
            i + p@.len() <= n,
            k <= p@.len(),
            forall|j: int| 0 <= j < k ==> s@[i + j] == p@[j],
        decreases p@.len() - k,
    {
        if s[i + k] != p[k] {
            assert(s@.subrange(i as int, i + p@.len())[k as int] != p@[k as int]);
            return false;
        }
        k = k + 1;
    }
    assert(s@.subrange(i as int, i + p@.len()) == p@);
    true
}

/// Whether `p` is a substring of `s`.
pub fn contains_chars(s: &[char], p: &[char]) -> (b: bool)
    ensures
        b == contains(s@, p@),
{
    if p.len() > s.len() {
        assert(forall|i: int| !#[trigger] occurs_at(s@, p@, i));
        return false;
    }
    let last = s.len() - p.len();
    let mut i: usize = 0;
    while i <= last
        invariant
            last + p@.len() == s@.len(),
            forall|j: int| 0 <= j < i ==> !#[trigger] occurs_at(s@, p@, j),
        decreases last + 1 - i,
    {
        if matches_at(s, p, i) {
            return true;
        }
        if i == last {
            assert(forall|j: int| !#[trigger] occurs_at(s@, p@, j));
            return false;
        }
        i = i + 1;
    }
    false
}

/// Whether the text `s` contains the text `p`.
pub fn str_contains(s: &str, p: &str) -> (b: bool)
    ensures
        b == contains(s@, p@),
{
    let sv = chars_of(s);
    let pv = chars_of(p);
    contains_chars(sv.as_slice(), pv.as_slice())
}

/// Whether the two character sequences are equal.
pub fn chars_eq(a: &[char], b: &[char]) -> (r: bool)
    ensures
        r == (a@ == b@),
{
    if a.len() != b.len() {
        return false;
    }
    let r = matches_at(a, b, 0);
    assert(a@.subrange(0, b@.len() as int) == a@);
    r
}

/// Appends the characters of `v` to `out`.
pub fn append_chars(out: &mut Vec<char>, v: &[char])
    ensures
        final(out)@ == old(out)@ + v@,
{
    let mut i: usize = 0;
    while i < v.len()
        invariant
            i <= v@.len(),
            out@ == old(out)@ + v@.take(i as int),
        decreases v@.len() - i,
    {
        out.push(v[i]);
        assert(v@.take(i as int + 1) == v@.take(i as int).push(v@[i as int]));
        i = i + 1;
    }
    assert(v@.take(v@.len() as int) == v@);
}

/// `s` with every non-overlapping occurrence of `pat`, leftmost first,
/// replaced by `rep` (std's `str::replace`). An empty `pat` matches before
/// every character and at the end.
pub open spec fn replace_all(s: Seq<char>, pat: Seq<char>, rep: Seq<char>) -> Seq<char>
    decreases s.len(),
{
    if pat.len() == 0 {
        if s.len() == 0 {
            rep
        } else {
            rep + seq![s[0]] + replace_all(s.drop_first(), pat, rep)
        }
    } else if s.len() < pat.len() {
        s
    } else if s.take(pat.len() as int) == pat {
        rep + replace_all(s.skip(pat.len() as int), pat, rep)
    } else {
        seq![s[0]] + replace_all(s.drop_first(), pat, rep)
    }
}

/// A template in which the keyword does not occur comes back unchanged.
pub proof fn replace_without_occurrence_is_identity(s: Seq<char>, pat: Seq<char>, rep: Seq<char>)
    requires
        pat.len() > 0,
        !contains(s, pat),
    ensures
        replace_all(s, pat, rep) == s,
    decreases s.len(),
{
    if s.len() >= pat.len() {
        assert(s.subrange(0, pat.len() as int) == s.take(pat.len() as int));
        assert(!occurs_at(s, pat, 0));
        assert(!contains(s.drop_first(), pat)) by {
            if contains(s.drop_first(), pat) {
                let i = choose|i: int| occurs_at(s.drop_first(), pat, i);
                assert(s.subrange(i + 1, i + 1 + pat.len()) == s.drop_first().subrange(i, i + pat.len()));
                assert(occurs_at(s, pat, i + 1));
            }
        }
        replace_without_occurrence_is_identity(s.drop_first(), pat, rep);
        assert(seq![s[0]] + s.drop_first() == s);
    }
}

/// Replacing a keyword by itself changes nothing.
pub proof fn replace_by_itself_is_identity(s: Seq<char>, pat: Seq<char>)
    requires
        pat.len() > 0,
    ensures
        replace_all(s, pat, pat) == s,
    decreases s.len(),
{
    if s.len() >= pat.len() {
        if s.take(pat.len() as int) == pat {
            replace_by_itself_is_identity(s.skip(pat.len() as int), pat);
            assert(pat + s.skip(pat.len() as int) == s);
        } else {
            replace_by_itself_is_identity(s.drop_first(), pat);
            assert(seq![s[0]] + s.drop_first() == s);
        }
    }
}

/// Replaces every occurrence of `pat` in `t` with `rep`.
pub fn replace_chars(t: &[char], pat: &[char], rep: &[char]) -> (r: Vec<char>)
    ensures
        r@ == replace_all(t@, pat@, rep@),
{
    let n = t.len();
    let m = pat.len();
    let mut out: Vec<char> = Vec::new();
    let mut i: usize = 0;
    assert(t@.subrange(0, n as int) == t@);
    if m == 0 {
        while i < n
            invariant
                i <= n,
                n == t@.len(),
                m == pat@.len() == 0,
                out@ + replace_all(t@.subrange(i as int, n as int), pat@, rep@) == replace_all(
                    t@,
                    pat@,
                    rep@,
                ),
            decreases n - i,
        {
            let ghost rest = t@.subrange(i as int, n as int);
            assert(rest.drop_first() == t@.subrange(i + 1, n as int));
            assert(rest[0] == t@[i as int]);
            let ghost before = out@;
            append_chars(&mut out, rep);
            out.push(t[i]);
            assert(out@ == before + rep@ + seq![t@[i as int]]);
            i = i + 1;
        }
        append_chars(&mut out, rep);
        return out;
    }
    while m <= n - i
        invariant
            i <= n,
            n == t@.len(),
            m == pat@.len() > 0,
            out@ + replace_all(t@.subrange(i as int, n as int), pat@, rep@) == replace_all(
                t@,
                pat@,
                rep@,
            ),
        decreases n - i,
    {
        let ghost rest = t@.subrange(i as int, n as int);
        let ghost before = out@;
        if matches_at(t, pat, i) {
            assert(rest.take(m as int) == t@.subrange(i as int, i + m));
            assert(rest.skip(m as int) == t@.subrange(i + m, n as int));
            append_chars(&mut out, rep);
            i = i + m;
        } else {
            assert(rest.take(m as int) == t@.subrange(i as int, i + m));
            assert(rest.drop_first() == t@.subrange(i + 1, n as int));
            assert(rest[0] == t@[i as int]);
            out.push(t[i]);
            assert(out@ == before + seq![t@[i as int]]);
            i = i + 1;
        }
    }
    let mut k: usize = i;
    while k < n
        invariant
            i <= k <= n,
            n == t@.len(),
            out@ == replace_all(t@, pat@, rep@).take(out@.len() as int),
            out@ + t@.subrange(k as int, n as int) == replace_all(t@, pat@, rep@),
        decreases n - k,
    {
        let ghost before = out@;
        out.push(t[k]);
        assert(t@.subrange(k as int, n as int) == seq![t@[k as int]] + t@.subrange(k + 1, n as int));
        k = k + 1;
    }
    assert(t@.subrange(n as int, n as int).len() == 0);
    assert(out@ + t@.subrange(n as int, n as int) == out@);
    out
}

/// The text `template` with every occurrence of `keyword` replaced by `value`.
pub fn replace_str(template: &str, keyword: &str, value: &str) -> (r: String)
    ensures
        r@ == replace_all(template@, keyword@, value@),
{
    let t = chars_of(template);
    let p = chars_of(keyword);
    let v = chars_of(value);
    let r = replace_chars(t.as_slice(), p.as_slice(), v.as_slice());
    string_from(r.as_slice())
}

/// The ASCII digit for `d < 10`.
pub open spec fn digit_char(d: nat) -> char {
    (48 + d) as char
}

/// The decimal notation of `n`, without sign or leading zeros.
pub open spec fn decimal(n: nat) -> Seq<char>
    decreases n,
{
    if n < 10 {
        seq![digit_char(n)]
    } else {
        decimal(n / 10).push(digit_char(n % 10))
    }
}

/// Appends the decimal notation of `n` to `out`.
pub fn push_decimal(out: &mut Vec<char>, n: u64)
    ensures
        final(out)@ == old(out)@ + decimal(n as nat),
    decreases n,
{
    if n >= 10 {
        push_decimal(out, n / 10);
    }
    let d = (n % 10) as u8;
    let c = (48u8 + d) as char;
    assert(c == digit_char((n % 10) as nat));
    out.push(c);
}

/// The decimal notation of `n` (std's `to_string` on an unsigned integer).
pub fn decimal_string(n: u64) -> (s: String)
    ensures
        s@ == decimal(n as nat),
{
    let mut v: Vec<char> = Vec::new();
    push_decimal(&mut v, n);
    string_from(v.as_slice())
}

/// `n` spaces.
pub open spec fn spaces(n: nat) -> Seq<char> {
    Seq::new(n, |i: int| ' ')
}

/// `s` right-aligned in a field of `width` characters (`{:>width}`).
pub open spec fn pad_left(s: Seq<char>, width: nat) -> Seq<char> {
    if s.len() >= width {
        s
    } else {
        spaces((width - s.len()) as nat) + s
    }
}

/// Appends `v` right-aligned in a field of `width` characters.
pub fn push_padded(out: &mut Vec<char>, v: &[char], width: usize)
    ensures
        final(out)@ == old(out)@ + pad_left(v@, width as nat),
{
    if v.len() < width {
        let fill = width - v.len();
        let mut i: usize = 0;
        while i < fill
            invariant
                i <= fill,
                out@ == old(out)@ + spaces(i as nat),
            decreases fill - i,
        {
            out.push(' ');
            assert(spaces(i as nat + 1) == spaces(i as nat).push(' '));
            i = i + 1;
        }
    }
    append_chars(out, v);
}

/// The text before and after the first `c` of `s`, if it has one.
pub open spec fn split_first(s: Seq<char>, c: char) -> Option<(Seq<char>, Seq<char>)>
    decreases s.len(),
{
    if s.len() == 0 {
        None
    } else if s[0] == c {
        Some((Seq::empty(), s.drop_first()))
    } else {
        match split_first(s.drop_first(), c) {
            Some((a, b)) => Some((seq![s[0]] + a, b)),
            None => None,
        }
    }
}

/// Splits `s` at its first `c`.
pub fn split_first_chars(s: &[char], c: char) -> (r: Option<(Vec<char>, Vec<char>)>)
    ensures
        match split_first(s@, c) {
            Some((a, b)) => r matches Some((x, y)) && x@ == a && y@ == b,
            None => r is None,
        },
{
    let n = s.len();
    let mut i: usize = 0;
    assert(s@.subrange(0, n as int) == s@);
    proof {
        match split_first(s@, c) {
            Some((a, b)) => {
                assert(s@.take(0) + a == a);
            },
            None => {},
        }
    }
    while i < n
        invariant
            i <= n,
            n == s@.len(),
            forall|j: int| 0 <= j < i ==> s@[j] != c,
            split_first(s@, c) == match split_first(s@.subrange(i as int, n as int), c) {
                Some((a, b)) => Some((s@.take(i as int) + a, b)),
                None => None::<(Seq<char>, Seq<char>)>,
            },
        decreases n - i,
    {
        let ghost rest = s@.subrange(i as int, n as int);
        if s[i] == c {
            let mut a: Vec<char> = Vec::new();
            let mut k: usize = 0;
            while k < i
                invariant
                    k <= i < n,
                    n == s@.len(),
                    a@ == s@.take(k as int),
                decreases i - k,
            {
                a.push(s[k]);
                assert(s@.take(k + 1) == s@.take(k as int).push(s@[k as int]));
                k = k + 1;
            }
            let mut b: Vec<char> = Vec::new();
            let mut k: usize = i + 1;
            while k < n
                invariant
                    i < k <= n,
                    n == s@.len(),
                    b@ == s@.subrange(i + 1, k as int),
                decreases n - k,
            {
                b.push(s[k]);
                assert(s@.subrange(i + 1, k + 1) == s@.subrange(i + 1, k as int).push(s@[k as int]));
                k = k + 1;
            }
            assert(rest.drop_first() == s@.subrange(i + 1, n as int));
            assert(s@.take(i as int) + Seq::<char>::empty() == s@.take(i as int));
            return Some((a, b));
        }
        assert(rest.drop_first() == s@.subrange(i + 1, n as int));
        assert(s@.take(i as int) + seq![s@[i as int]] == s@.take(i + 1));
        proof {
            match split_first(rest.drop_first(), c) {
                Some((a, b)) => {
                    assert(s@.take(i as int) + (seq![s@[i as int]] + a) == s@.take(i + 1) + a);
                },
                None => {},
            }
        }
        i = i + 1;
    }
    assert(s@.subrange(n as int, n as int).len() == 0);
    None
}

/// The two texts one after the other.
pub fn concat2(a: &str, b: &str) -> (s: String)
    ensures
        s@ == a@ + b@,
{
    let mut v = chars_of(a);
    append_chars(&mut v, chars_of(b).as_slice());
    string_from(v.as_slice())
}

/// The three texts one after the other.
pub fn concat3(a: &str, b: &str, c: &str) -> (s: String)
    ensures
        s@ == a@ + b@ + c@,
{
    let mut v = chars_of(a);
    append_chars(&mut v, chars_of(b).as_slice());
    append_chars(&mut v, chars_of(c).as_slice());
    string_from(v.as_slice())
}

} // verus!

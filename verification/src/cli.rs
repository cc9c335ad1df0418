//! Command-line options and the parsing of their list-valued arguments.
use vstd::prelude::*;
use crate::text::{
    all_ws, chars_of, concat2, concat3, decimal, split_of_concat, trim_ignores_added_whitespace, digit_char, split_chars, split_first, split_first_chars, split_on,
    string_from, string_views, trim, trim_chars, views,
};

verus! {

#[verifier::external_type_specification]
#[verifier::external_body]
pub struct ExPathBuf(std::path::PathBuf);

/// The options of a scan, as given on the command line.
#[derive(Debug, Clone)]
pub struct Cli {
    /// Target URL with FUZZ keyword.
    pub url: String,
    /// Wordlist paths (one per keyword: FUZZ, FUZ2Z, ...).
    pub wordlist: Vec<std::path::PathBuf>,
    /// HTTP method.
    pub method: String,
    /// POST data (enables POST, supports FUZZ keyword).
    pub data: Option<String>,
    /// Custom headers "Name: Value" (support FUZZ).
    pub headers: Vec<String>,
    /// Cookie data "name=value; name2=value2".
    pub cookie: Option<String>,
    /// Recursive scanning.
    pub recurse: bool,
    /// Maximum recursion depth.
    pub depth: u32,
    /// Patterns that exclude a path from recursion.
    pub recurse_exclude: Vec<String>,
    /// Comma-separated file extensions to append.
    pub extensions: Option<String>,
    /// Also fuzz without any extension when extensions are set.
    pub no_extension: bool,
    /// Append / to each request.
    pub add_slash: bool,
    /// Status codes to match.
    pub match_code: String,
    /// Response sizes to match.
    pub match_size: Option<String>,
    /// Word counts to match.
    pub match_words: Option<String>,
    /// Line counts to match.
    pub match_lines: Option<String>,
    /// Regex to match in the response body.
    pub match_regex: Option<String>,
    /// Match response time greater than this many ms.
    pub match_time: Option<u64>,
    /// Status codes to filter out.
    pub filter_code: Option<String>,
    /// Response sizes to filter out.
    pub filter_size: Option<String>,
    /// Word counts to filter out.
    pub filter_words: Option<String>,
    /// Line counts to filter out.
    pub filter_lines: Option<String>,
    /// Regex whose match in the body filters a response out.
    pub filter_regex: Option<String>,
    /// Filter out response time greater than this many ms.
    pub filter_time: Option<u64>,
    /// Concurrent requests.
    pub threads: usize,
    /// Maximum requests per second (0 = unlimited).
    pub rate: u32,
    /// Request timeout in seconds.
    pub timeout: u64,
    /// Retries on connection error.
    pub retries: u32,
    /// No automatic throttle on 429 responses.
    pub no_auto_throttle: bool,
    /// HTTP Basic auth (user:pass).
    pub auth: Option<String>,
    /// Bearer token.
    pub bearer: Option<String>,
    /// Proxy URL.
    pub proxy: Option<String>,
    /// Proxy through which matched results are replayed.
    pub replay_proxy: Option<String>,
    /// Skip TLS certificate verification.
    pub insecure: bool,
    /// Follow HTTP redirects.
    pub follow_redirects: bool,
    /// Maximum redirects to follow.
    pub max_redirects: usize,
    /// Output file path.
    pub output: Option<std::path::PathBuf>,
    /// Output format: json, jsonl, csv, text.
    pub output_format: String,
    /// Show all responses, filtered ones too.
    pub verbose: bool,
    /// Results only, no banner or progress bar.
    pub silent: bool,
    /// No colored output.
    pub no_color: bool,
    /// State file to resume from.
    pub resume: Option<std::path::PathBuf>,
    /// Where to save the scan state on quit.
    pub state_file: Option<std::path::PathBuf>,
    /// User-Agent string.
    pub user_agent: String,
    /// Randomize the User-Agent.
    pub random_agent: bool,
}

/// Why an integer could not be read (std's `IntErrorKind`, the kinds that
/// unsigned decimal parsing can give).
#[derive(Debug, Clone, Copy, PartialEq, Eq, Structural)]
pub enum IntErrorKind {
    /// The text was empty.
    Empty,
    /// A character was not a decimal digit.
    InvalidDigit,
    /// The value was too large for the type.
    PosOverflow,
}

pub open spec fn is_digit(c: char) -> bool {
    '0' <= c && c <= '9'
}

pub open spec fn digit_value(c: char) -> nat {
    (c as int - 48) as nat
}

/// Reading the digits of `s` left to right into a value at most `max`: the
/// first non-digit gives `InvalidDigit`, unless the value read so far already
/// exceeded `max`, which gives `PosOverflow`.
pub open spec fn parse_digits(s: Seq<char>, max: nat) -> Result<nat, IntErrorKind>
    decreases s.len(),
{
    if s.len() == 0 {
        Ok(0)
    } else {
        match parse_digits(s.drop_last(), max) {
            Err(e) => Err(e),
            Ok(v) => if !is_digit(s.last()) {
                Err(IntErrorKind::InvalidDigit)
            } else if v * 10 + digit_value(s.last()) > max {
                Err(IntErrorKind::PosOverflow)
            } else {
                Ok(v * 10 + digit_value(s.last()))
            },
        }
    }
}

/// Unsigned decimal parsing as std's `from_str` does it: an optional leading
/// `+`, then one or more digits.
pub open spec fn parse_unsigned(s: Seq<char>, max: nat) -> Result<nat, IntErrorKind> {
    if s.len() == 0 {
        Err(IntErrorKind::Empty)
    } else if s.len() == 1 && (s[0] == '+' || s[0] == '-') {
        Err(IntErrorKind::InvalidDigit)
    } else if s[0] == '+' {
        parse_digits(s.drop_first(), max)
    } else {
        parse_digits(s, max)
    }
}

fn parse_digits_exec(s: &[char], start: usize, max: u64) -> (r: Result<u64, IntErrorKind>)
    requires
        start <= s@.len(),
    ensures
        match parse_digits(s@.subrange(start as int, s@.len() as int), max as nat) {
            Ok(v) => r == Ok::<u64, IntErrorKind>(v as u64),
            Err(e) => r == Err::<u64, IntErrorKind>(e),
        },
        r matches Ok(v) ==> v <= max,
{
    let n = s.len();
    let mut value: u64 = 0;
    let mut i: usize = start;
    while i < n
        invariant
            start <= i <= n,
            n == s@.len(),
            parse_digits(s@.subrange(start as int, i as int), max as nat) == Ok::<
                nat,
                IntErrorKind,
            >(value as nat),
            value <= max,
        decreases n - i,
    {
        let c = s[i];
        assert(s@.subrange(start as int, i + 1).drop_last() == s@.subrange(start as int, i as int));
        assert(s@.subrange(start as int, i + 1).last() == c);
        assert(s@.subrange(start as int, n as int).take((i - start) as int + 1) == s@.subrange(start as int, i + 1));
        if !('0' <= c && c <= '9') {
            proof {
                lemma_digits_error_sticks(s@.subrange(start as int, n as int), (i - start) as nat + 1, max as nat);
            }
            return Err(IntErrorKind::InvalidDigit);
        }
        let d = (c as u32 - 48) as u64;
        if d > max || value > (max - d) / 10 {
            assert(value * 10 + d > max) by (nonlinear_arith)
                requires d > max || value > (max - d) / 10;
            proof {
                lemma_digits_error_sticks(s@.subrange(start as int, n as int), (i - start) as nat + 1, max as nat);
            }
            return Err(IntErrorKind::PosOverflow);
        }
        assert(value * 10 + d <= max) by (nonlinear_arith)
            requires value <= (max - d) / 10, d <= max;
        value = value * 10 + d;
        i = i + 1;
    }
    Ok(value)
}

/// Once reading a prefix fails, reading the whole text fails the same way.
proof fn lemma_digits_error_sticks(s: Seq<char>, k: nat, max: nat)
    requires
        k <= s.len(),
        parse_digits(s.take(k as int), max) is Err,
    ensures
        parse_digits(s, max) == parse_digits(s.take(k as int), max),
    decreases s.len() - k,
{
    if k < s.len() {
        assert(s.take(k as int + 1).drop_last() == s.take(k as int));
        lemma_digits_error_sticks(s, k + 1, max);
    } else {
        assert(s.take(k as int) == s);
    }
}

proof fn lemma_digit_char(d: nat)
    requires
        d < 10,
    ensures
        is_digit(digit_char(d)),
        digit_value(digit_char(d)) == d,
{
}

proof fn lemma_decimal_digits(n: nat, max: nat)
    requires
        n <= max,
    ensures
        parse_digits(decimal(n), max) == Ok::<nat, IntErrorKind>(n),
        decimal(n).len() >= 1,
        is_digit(decimal(n)[0]),
    decreases n,
{
    lemma_digit_char(n % 10);
    if n < 10 {
        assert(decimal(n) == seq![digit_char(n)]);
        assert(decimal(n).drop_last() == Seq::<char>::empty());
        assert(decimal(n).last() == digit_char(n));
        assert(parse_digits(decimal(n).drop_last(), max) == Ok::<nat, IntErrorKind>(0));
    } else {
        lemma_decimal_digits(n / 10, max);
        assert(decimal(n).drop_last() == decimal(n / 10));
        assert(decimal(n)[0] == decimal(n / 10)[0]);
        assert(decimal(n).last() == digit_char(n % 10));
        assert((n / 10) * 10 + n % 10 == n);
        assert(parse_digits(decimal(n), max) == Ok::<nat, IntErrorKind>((n / 10) * 10 + n % 10));
    }
}

/// Reading back the decimal notation of a number gives the number: parsing
/// undoes formatting, for every value the type holds.
pub proof fn parse_reads_back_decimal(n: nat, max: nat)
    requires
        n <= max,
    ensures
        parse_unsigned(decimal(n), max) == Ok::<nat, IntErrorKind>(n),
{
    lemma_decimal_digits(n, max);
}

/// Reads an unsigned decimal number of at most `max` from `s`.
pub fn parse_unsigned_chars(s: &[char], max: u64) -> (r: Result<u64, IntErrorKind>)
    ensures
        match parse_unsigned(s@, max as nat) {
            Ok(v) => r == Ok::<u64, IntErrorKind>(v as u64),
            Err(e) => r == Err::<u64, IntErrorKind>(e),
        },
        r matches Ok(v) ==> v <= max,
{
    if s.len() == 0 {
        return Err(IntErrorKind::Empty);
    }
    if s.len() == 1 && (s[0] == '+' || s[0] == '-') {
        return Err(IntErrorKind::InvalidDigit);
    }
    if s[0] == '+' {
        assert(s@.subrange(1, s@.len() as int) == s@.drop_first());
        parse_digits_exec(s, 1, max)
    } else {
        assert(s@.subrange(0, s@.len() as int) == s@);
        parse_digits_exec(s, 0, max)
    }
}

/// The values of the comma-separated tokens, each trimmed and read as a
/// number of at most `max`; the first token that cannot be read gives the
/// error, with that token.
pub open spec fn parse_tokens(pieces: Seq<Seq<char>>, max: nat) -> Result<
    Seq<nat>,
    (Seq<char>, IntErrorKind),
>
    decreases pieces.len(),
{
    if pieces.len() == 0 {
        Ok(Seq::empty())
    } else {
        match parse_tokens(pieces.drop_last(), max) {
            Err(e) => Err(e),
            Ok(vs) => match parse_unsigned(trim(pieces.last()), max) {
                Ok(v) => Ok(vs.push(v)),
                Err(k) => Err((trim(pieces.last()), k)),
            },
        }
    }
}

/// Comma-separated numbers of at most `max`.
pub open spec fn parse_number_list(input: Seq<char>, max: nat) -> Result<
    Seq<nat>,
    (Seq<char>, IntErrorKind),
> {
    parse_tokens(split_on(input, ','), max)
}

impl IntErrorKind {
    /// How std describes the error.
    pub open spec fn text(&self) -> Seq<char> {
        match self {
            IntErrorKind::Empty => "cannot parse integer from empty string"@,
            IntErrorKind::InvalidDigit => "invalid digit found in string"@,
            IntErrorKind::PosOverflow => "number too large to fit in target type"@,
        }
    }

    /// The description of the error, as std's `ParseIntError` displays it.
    pub fn description(&self) -> (s: &'static str)
        ensures
            s@ == self.text(),
    {
        match self {
            IntErrorKind::Empty => "cannot parse integer from empty string",
            IntErrorKind::InvalidDigit => "invalid digit found in string",
            IntErrorKind::PosOverflow => "number too large to fit in target type",
        }
    }
}

proof fn lemma_tokens_by_trim(p: Seq<Seq<char>>, q: Seq<Seq<char>>, max: nat)
    requires
        p.len() == q.len(),
        forall|j: int| 0 <= j < p.len() ==> trim(#[trigger] p[j]) == trim(q[j]),
    ensures
        parse_tokens(p, max) == parse_tokens(q, max),
        parse_range_tokens(p) == parse_range_tokens(q),
    decreases p.len(),
{
    if p.len() > 0 {
        assert(trim(p[p.len() - 1]) == trim(q[q.len() - 1]));
        lemma_tokens_by_trim(p.drop_last(), q.drop_last(), max);
    }
}

/// Whitespace around a token does not matter: inserting whitespace right
/// after a token (before a `,` or at the end of the list) or right before one
/// (after a `,` or at the start) leaves the parsed status codes, numbers and
/// ranges, and any error, unchanged. So `"200 , 404"` reads as `"200,404"`.
pub proof fn whitespace_around_tokens_is_ignored(x: Seq<char>, w: Seq<char>, y: Seq<char>, max: nat)
    requires
        all_ws(w),
        (x.len() == 0 || x.last() == ',') || (y.len() == 0 || y[0] == ','),
    ensures
        parse_number_list(x + w + y, max) == parse_number_list(x + y, max),
        parse_range_list(x + w + y) == parse_range_list(x + y),
{
    crate::text::lemma_split_on_nonempty(x, ',');
    crate::text::lemma_split_on_nonempty(y, ',');
    crate::text::lemma_split_on_nonempty(x + w, ',');
    assert forall|i: int| 0 <= i < w.len() implies w[i] != ',' by {
        assert(crate::text::is_ws(w[i]));
    }
    crate::text::lemma_split_without_sep(w, ',');
    split_of_concat(x, w, ',');
    split_of_concat(x + w, y, ',');
    split_of_concat(x, y, ',');
    let sx = split_on(x, ',');
    let sy = split_on(y, ',');
    let a = split_on(x + w, ',');
    assert(seq![w][0] == w);
    assert(seq![w].drop_first() =~= Seq::<Seq<char>>::empty());
    assert(a =~= sx.drop_last() + seq![sx.last() + w]);
    let l = sx.last();
    let y0 = sy[0];
    let p = split_on(x + w + y, ',');
    let q = split_on(x + y, ',');
    assert(a.drop_last() =~= sx.drop_last());
    assert(a.last() == l + w);
    assert(p =~= sx.drop_last() + seq![l + w + y0] + sy.drop_first());
    assert(q =~= sx.drop_last() + seq![l + y0] + sy.drop_first());
    let k = sx.len() - 1;
    if x.len() == 0 || x.last() == ',' {
        if x.len() == 0 {
            assert(split_on(x, ',') == seq![Seq::<char>::empty()]);
        } else {
            assert(split_on(x, ',') == split_on(x.drop_last(), ',').push(Seq::<char>::empty()));
        }
        assert(l == Seq::<char>::empty());
        assert(l + w + y0 == w + y0);
        assert(l + y0 == y0);
        trim_ignores_added_whitespace(y0, w);
    } else {
        if y.len() == 0 {
            assert(y0 == Seq::<char>::empty());
        } else {
            crate::text::lemma_split_first_piece_empty(y, ',');
        }
        assert(l + w + y0 == l + w);
        assert(l + y0 == l);
        trim_ignores_added_whitespace(l, w);
    }
    assert forall|j: int| 0 <= j < p.len() implies trim(#[trigger] p[j]) == trim(q[j]) by {
        if j < k {
            assert(p[j] == sx[j]);
            assert(q[j] == sx[j]);
        } else if j > k {
            assert(p[j] == sy[j - k]);
            assert(q[j] == sy[j - k]);
        }
    }
    lemma_tokens_by_trim(p, q, max);
}

/// Numbers written in decimal and separated by commas.
pub open spec fn comma_list(vs: Seq<nat>) -> Seq<char>
    decreases vs.len(),
{
    if vs.len() == 0 {
        Seq::empty()
    } else if vs.len() == 1 {
        decimal(vs[0])
    } else {
        comma_list(vs.drop_last()) + seq![','] + decimal(vs.last())
    }
}

proof fn lemma_decimal_all_digits(n: nat)
    ensures
        decimal(n).len() >= 1,
        forall|i: int| 0 <= i < decimal(n).len() ==> is_digit(#[trigger] decimal(n)[i]),
    decreases n,
{
    lemma_digit_char(n % 10);
    if n >= 10 {
        lemma_decimal_all_digits(n / 10);
        assert forall|i: int| 0 <= i < decimal(n).len() implies is_digit(#[trigger] decimal(n)[i]) by {
            if i < decimal(n / 10).len() {
                assert(decimal(n)[i] == decimal(n / 10)[i]);
            }
        }
    } else {
        assert(decimal(n) == seq![digit_char(n)]);
    }
}

proof fn lemma_no_split_first(s: Seq<char>, c: char)
    requires
        forall|i: int| 0 <= i < s.len() ==> s[i] != c,
    ensures
        split_first(s, c) is None,
    decreases s.len(),
{
    if s.len() > 0 {
        lemma_no_split_first(s.drop_first(), c);
    }
}

proof fn lemma_decimal_token(n: nat)
    ensures
        trim(decimal(n)) == decimal(n),
        split_on(decimal(n), ',') == seq![decimal(n)],
        split_first(decimal(n), '-') is None,
{
    lemma_decimal_all_digits(n);
    let d = decimal(n);
    assert(!crate::text::is_ws(d[0]));
    assert(!crate::text::is_ws(d[d.len() - 1]));
    assert(crate::text::trim_start(d) == d);
    crate::text::lemma_split_without_sep(d, ',');
    lemma_no_split_first(d, '-');
}

proof fn lemma_split_comma_list(vs: Seq<nat>)
    requires
        vs.len() >= 1,
    ensures
        split_on(comma_list(vs), ',') == vs.map_values(|v: nat| decimal(v)),
    decreases vs.len(),
{
    lemma_decimal_token(vs.last());
    if vs.len() == 1 {
        assert(vs.map_values(|v: nat| decimal(v)) =~= seq![decimal(vs[0])]);
    } else {
        let c = comma_list(vs.drop_last());
        lemma_split_comma_list(vs.drop_last());
        assert((c + seq![',']).drop_last() == c);
        assert((c + seq![',']).last() == ',');
        crate::text::lemma_split_on_nonempty(c, ',');
        split_of_concat(c + seq![','], decimal(vs.last()), ',');
        let sc = split_on(c + seq![','], ',');
        assert(sc == split_on(c, ',').push(Seq::<char>::empty()));
        assert(Seq::<char>::empty() + decimal(vs.last()) == decimal(vs.last()));
        assert(seq![decimal(vs.last())].drop_first() =~= Seq::<Seq<char>>::empty());
        assert(vs.map_values(|v: nat| decimal(v)) =~= vs.drop_last().map_values(
            |v: nat| decimal(v),
        ).push(decimal(vs.last())));
        assert(split_on(comma_list(vs), ',') =~= split_on(c, ',').push(decimal(vs.last())));
    }
}

proof fn lemma_tokens_of_decimals(vs: Seq<nat>, max: nat)
    requires
        forall|i: int| 0 <= i < vs.len() ==> #[trigger] vs[i] <= max,
    ensures
        parse_tokens(vs.map_values(|v: nat| decimal(v)), max) == Ok::<
            Seq<nat>,
            (Seq<char>, IntErrorKind),
        >(vs),
        max == u64::MAX ==> parse_range_tokens(vs.map_values(|v: nat| decimal(v))) == Ok::<
            Seq<(nat, nat)>,
            (Seq<char>, IntErrorKind),
        >(vs.map_values(|v: nat| (v, v))),
    decreases vs.len(),
{
    let ds = vs.map_values(|v: nat| decimal(v));
    if vs.len() > 0 {
        assert(vs.drop_last().map_values(|v: nat| decimal(v)) =~= ds.drop_last());
        lemma_tokens_of_decimals(vs.drop_last(), max);
        assert(vs.drop_last().push(vs.last()) =~= vs);
        assert(vs.drop_last().map_values(|v: nat| (v, v)).push((vs.last(), vs.last()))
            =~= vs.map_values(|v: nat| (v, v)));
        lemma_decimal_token(vs.last());
        assert(vs.last() <= max);
        parse_reads_back_decimal(vs.last(), max);
        assert(ds.last() == decimal(vs.last()));
    } else {
        assert(ds =~= Seq::<Seq<char>>::empty());
        assert(vs =~= Seq::<nat>::empty());
        assert(vs.map_values(|v: nat| (v, v)) =~= Seq::<(nat, nat)>::empty());
    }
}

proof fn lemma_split_first_at(a: Seq<char>, c: char, b: Seq<char>)
    requires
        forall|i: int| 0 <= i < a.len() ==> a[i] != c,
    ensures
        split_first(a + seq![c] + b, c) == Some((a, b)),
    decreases a.len(),
{
    if a.len() == 0 {
        assert(a + seq![c] + b == seq![c] + b);
        assert((seq![c] + b).drop_first() == b);
    } else {
        lemma_split_first_at(a.drop_first(), c, b);
        assert((a + seq![c] + b).drop_first() == a.drop_first() + seq![c] + b);
        assert(seq![a[0]] + a.drop_first() == a);
    }
}

/// A range written `a-b` reads as the range from `a` to `b`.
pub proof fn ranges_read_back(a: nat, b: nat)
    requires
        a <= u64::MAX,
        b <= u64::MAX,
    ensures
        parse_range(decimal(a) + seq!['-'] + decimal(b)) == Ok::<(nat, nat), IntErrorKind>((a, b)),
{
    lemma_decimal_token(a);
    lemma_decimal_token(b);
    lemma_decimal_all_digits(a);
    assert forall|i: int| 0 <= i < decimal(a).len() implies decimal(a)[i] != '-' by {
        assert(is_digit(decimal(a)[i]));
    }
    lemma_split_first_at(decimal(a), '-', decimal(b));
    parse_reads_back_decimal(a, u64::MAX as nat);
    parse_reads_back_decimal(b, u64::MAX as nat);
}

/// Writing numbers in decimal with commas between them and parsing the text
/// gives the numbers back, every one of them, in order; as ranges, each number
/// stands for itself.
pub proof fn comma_lists_read_back(vs: Seq<nat>, max: nat)
    requires
        vs.len() >= 1,
        forall|i: int| 0 <= i < vs.len() ==> #[trigger] vs[i] <= max,
    ensures
        parse_number_list(comma_list(vs), max) == Ok::<Seq<nat>, (Seq<char>, IntErrorKind)>(vs),
        max == u64::MAX ==> parse_range_list(comma_list(vs)) == Ok::<
            Seq<(nat, nat)>,
            (Seq<char>, IntErrorKind),
        >(vs.map_values(|v: nat| (v, v))),
{
    lemma_split_comma_list(vs);
    lemma_tokens_of_decimals(vs, max);
}

/// A comma-separated list that could not be read.
#[derive(Debug, Clone, PartialEq)]
pub enum ListParseError {
    /// A token is not a status code (an integer up to 65535).
    InvalidStatusCode { token: String, kind: IntErrorKind },
    /// A token is not a number (an integer up to 2^64 - 1).
    InvalidNumber { token: String, kind: IntErrorKind },
}

impl ListParseError {
    /// The message for the error: the token and why it is not a number.
    pub open spec fn message_text(&self) -> Seq<char> {
        match self {
            ListParseError::InvalidStatusCode { token, kind } => "Invalid status code '"@ + token@
                + "': "@ + kind.text(),
            ListParseError::InvalidNumber { token, kind } => "Invalid number '"@ + token@ + "': "@
                + kind.text(),
        }
    }

    /// The message for the error.
    pub fn message(&self) -> (s: String)
        ensures
            s@ == self.message_text(),
    {
        match self {
            ListParseError::InvalidStatusCode { token, kind } => {
                let head = concat3("Invalid status code '", token.as_str(), "': ");
                concat2(head.as_str(), kind.description())
            },
            ListParseError::InvalidNumber { token, kind } => {
                let head = concat3("Invalid number '", token.as_str(), "': ");
                concat2(head.as_str(), kind.description())
            },
        }
    }
}

fn parse_list(input: &str, max: u64) -> (r: Result<Vec<u64>, (Vec<char>, IntErrorKind)>)
    ensures
        match parse_number_list(input@, max as nat) {
            Ok(vs) => r is Ok && r->Ok_0@.map_values(|x: u64| x as nat) == vs,
            Err(e) => r matches Err((t, k)) && t@ == e.0 && k == e.1,
        },
        r matches Ok(vs) ==> forall|j: int| 0 <= j < vs@.len() ==> vs@[j] <= max,
{
    let chars = chars_of(input);
    let pieces = split_chars(chars.as_slice(), ',');
    let mut out: Vec<u64> = Vec::new();
    let mut i: usize = 0;
    assert(out@.map_values(|x: u64| x as nat) == Seq::<nat>::empty());
    assert(views(pieces@).take(0) == Seq::<Seq<char>>::empty());
    while i < pieces.len()
        invariant
            i <= pieces@.len(),
            forall|j: int| 0 <= j < out@.len() ==> out@[j] <= max,
            views(pieces@) == split_on(input@, ','),
            parse_tokens(views(pieces@).take(i as int), max as nat) == Ok::<
                Seq<nat>,
                (Seq<char>, IntErrorKind),
            >(out@.map_values(|x: u64| x as nat)),
        decreases pieces@.len() - i,
    {
        let t = trim_chars(pieces[i].as_slice());
        assert(views(pieces@).take(i + 1).drop_last() == views(pieces@).take(i as int));
        assert(views(pieces@).take(i + 1).last() == pieces@[i as int]@);
        match parse_unsigned_chars(t.as_slice(), max) {
            Ok(v) => {
                let ghost before = out@;
                out.push(v);
                assert(out@.map_values(|x: u64| x as nat) == before.map_values(|x: u64| x as nat).push(
                    v as nat,
                ));
            },
            Err(k) => {
                proof {
                    lemma_tokens_error_sticks(views(pieces@), (i + 1) as nat, max as nat);
                }
                assert(views(pieces@).take(pieces@.len() as int) == views(pieces@));
                return Err((t, k));
            },
        }
        i = i + 1;
    }
    assert(views(pieces@).take(pieces@.len() as int) == views(pieces@));
    Ok(out)
}

/// Once a prefix of the tokens fails, the whole list fails the same way.
proof fn lemma_tokens_error_sticks(p: Seq<Seq<char>>, k: nat, max: nat)
    requires
        k <= p.len(),
        parse_tokens(p.take(k as int), max) is Err,
    ensures
        parse_tokens(p, max) == parse_tokens(p.take(k as int), max),
    decreases p.len() - k,
{
    if k < p.len() {
        assert(p.take(k as int + 1).drop_last() == p.take(k as int));
        lemma_tokens_error_sticks(p, k + 1, max);
    } else {
        assert(p.take(k as int) == p);
    }
}

/// Parses comma-separated status codes.
pub fn parse_status_codes(input: &str) -> (r: Result<Vec<u16>, ListParseError>)
    ensures
        match parse_number_list(input@, 65535) {
            Ok(vs) => r is Ok && r->Ok_0@.map_values(|x: u16| x as nat) == vs,
            Err(e) => r matches Err(ListParseError::InvalidStatusCode { token, kind }) && token@
                == e.0 && kind == e.1,
        },
{
    match parse_list(input, 65535) {
        Ok(vs) => {
            let mut out: Vec<u16> = Vec::new();
            let mut i: usize = 0;
            while i < vs.len()
                invariant
                    i <= vs@.len(),
                    forall|j: int| 0 <= j < vs@.len() ==> vs@[j] <= 65535,
                    out@.map_values(|x: u16| x as nat) == vs@.map_values(|x: u64| x as nat).take(
                        i as int,
                    ),
                decreases vs@.len() - i,
            {
                let ghost before = out@;
                out.push(vs[i] as u16);
                assert(out@.map_values(|x: u16| x as nat) == before.map_values(|x: u16| x as nat).push(
                    vs@[i as int] as nat,
                ));
                assert(vs@.map_values(|x: u64| x as nat).take(i + 1) == vs@.map_values(
                    |x: u64| x as nat,
                ).take(i as int).push(vs@[i as int] as nat));
                i = i + 1;
            }
            assert(vs@.map_values(|x: u64| x as nat).take(vs@.len() as int) == vs@.map_values(
                |x: u64| x as nat,
            ));
            Ok(out)
        },
        Err((t, k)) => Err(ListParseError::InvalidStatusCode { token: string_from(t.as_slice()), kind: k }),
    }
}

/// A token of a number list: `a-b`, split at its first `-` with both sides
/// trimmed and something before the `-`, is the inclusive range from `a` to
/// `b`; any other token `n` (`-5` among them) is read as one number, the
/// range from `n` to `n`.
pub open spec fn parse_range(t: Seq<char>) -> Result<(nat, nat), IntErrorKind> {
    match split_first(t, '-') {
        Some((a, b)) if trim(a).len() > 0 => match parse_unsigned(trim(a), u64::MAX as nat) {
            Err(k) => Err(k),
            Ok(lo) => match parse_unsigned(trim(b), u64::MAX as nat) {
                Err(k) => Err(k),
                Ok(hi) => Ok((lo, hi)),
            },
        },
        _ => match parse_unsigned(t, u64::MAX as nat) {
            Ok(v) => Ok((v, v)),
            Err(k) => Err(k),
        },
    }
}

/// The ranges of the comma-separated tokens, each trimmed; the first token
/// that cannot be read gives the error, with that token.
pub open spec fn parse_range_tokens(pieces: Seq<Seq<char>>) -> Result<
    Seq<(nat, nat)>,
    (Seq<char>, IntErrorKind),
>
    decreases pieces.len(),
{
    if pieces.len() == 0 {
        Ok(Seq::empty())
    } else {
        match parse_range_tokens(pieces.drop_last()) {
            Err(e) => Err(e),
            Ok(rs) => match parse_range(trim(pieces.last())) {
                Ok(r) => Ok(rs.push(r)),
                Err(k) => Err((trim(pieces.last()), k)),
            },
        }
    }
}

/// Comma-separated numbers and ranges.
pub open spec fn parse_range_list(input: Seq<char>) -> Result<
    Seq<(nat, nat)>,
    (Seq<char>, IntErrorKind),
> {
    parse_range_tokens(split_on(input, ','))
}

/// The bounds of ranges as integers.
pub open spec fn range_views(v: Seq<(u64, u64)>) -> Seq<(nat, nat)> {
    v.map_values(|r: (u64, u64)| (r.0 as nat, r.1 as nat))
}

/// `n` lies in one of the inclusive ranges `rs`.
pub open spec fn in_ranges(rs: Seq<(u64, u64)>, n: u64) -> bool {
    exists|i: int| 0 <= i < rs.len() && #[trigger] rs[i].0 <= n && n <= rs[i].1
}

/// Reads one token of a number list.
fn parse_range_chars(t: &[char]) -> (r: Result<(u64, u64), IntErrorKind>)
    ensures
        match parse_range(t@) {
            Ok((lo, hi)) => r == Ok::<(u64, u64), IntErrorKind>((lo as u64, hi as u64)),
            Err(k) => r == Err::<(u64, u64), IntErrorKind>(k),
        },
{
    if let Some((a, b)) = split_first_chars(t, '-') {
        let ta = trim_chars(a.as_slice());
        if ta.len() > 0 {
            let lo = match parse_unsigned_chars(ta.as_slice(), u64::MAX) {
                Ok(v) => v,
                Err(k) => return Err(k),
            };
            let tb = trim_chars(b.as_slice());
            let hi = match parse_unsigned_chars(tb.as_slice(), u64::MAX) {
                Ok(v) => v,
                Err(k) => return Err(k),
            };
            return Ok((lo, hi));
        }
    }
    match parse_unsigned_chars(t, u64::MAX) {
        Ok(v) => Ok((v, v)),
        Err(k) => Err(k),
    }
}

/// Once a prefix of the tokens fails, the whole list fails the same way.
proof fn lemma_range_tokens_error_sticks(p: Seq<Seq<char>>, k: nat)
    requires
        k <= p.len(),
        parse_range_tokens(p.take(k as int)) is Err,
    ensures
        parse_range_tokens(p) == parse_range_tokens(p.take(k as int)),
    decreases p.len() - k,
{
    if k < p.len() {
        assert(p.take(k as int + 1).drop_last() == p.take(k as int));
        lemma_range_tokens_error_sticks(p, k + 1);
    } else {
        assert(p.take(k as int) == p);
    }
}

/// Parses comma-separated numbers and inclusive ranges `a-b` (as the size,
/// word and line options take them): a number `n` stands for `n-n`.
pub fn parse_numeric_list(input: &str) -> (r: Result<Vec<(u64, u64)>, ListParseError>)
    ensures
        match parse_range_list(input@) {
            Ok(rs) => r is Ok && range_views(r->Ok_0@) == rs,
            Err(e) => r matches Err(ListParseError::InvalidNumber { token, kind }) && token@ == e.0
                && kind == e.1,
        },
{
    let chars = chars_of(input);
    let pieces = split_chars(chars.as_slice(), ',');
    let mut out: Vec<(u64, u64)> = Vec::new();
    let mut i: usize = 0;
    assert(range_views(out@) == Seq::<(nat, nat)>::empty());
    assert(views(pieces@).take(0) == Seq::<Seq<char>>::empty());
    while i < pieces.len()
        invariant
            i <= pieces@.len(),
            views(pieces@) == split_on(input@, ','),
            parse_range_tokens(views(pieces@).take(i as int)) == Ok::<
                Seq<(nat, nat)>,
                (Seq<char>, IntErrorKind),
            >(range_views(out@)),
        decreases pieces@.len() - i,
    {
        let t = trim_chars(pieces[i].as_slice());
        assert(views(pieces@).take(i + 1).drop_last() == views(pieces@).take(i as int));
        assert(views(pieces@).take(i + 1).last() == pieces@[i as int]@);
        match parse_range_chars(t.as_slice()) {
            Ok(r) => {
                let ghost before = out@;
                out.push(r);
                assert(range_views(out@) == range_views(before).push((r.0 as nat, r.1 as nat)));
            },
            Err(k) => {
                proof {
                    lemma_range_tokens_error_sticks(views(pieces@), (i + 1) as nat);
                }
                assert(views(pieces@).take(pieces@.len() as int) == views(pieces@));
                return Err(ListParseError::InvalidNumber { token: string_from(t.as_slice()), kind: k });
            },
        }
        i = i + 1;
    }
    assert(views(pieces@).take(pieces@.len() as int) == views(pieces@));
    Ok(out)
}

/// `t` without its leading dots.
pub open spec fn strip_dots(t: Seq<char>) -> Seq<char>
    decreases t.len(),
{
    if t.len() > 0 && t[0] == '.' {
        strip_dots(t.drop_first())
    } else {
        t
    }
}

/// The extension names of a comma-separated list, in order: each token
/// trimmed and stripped of its leading dots, and dropped when nothing is left.
pub open spec fn extension_list(pieces: Seq<Seq<char>>) -> Seq<Seq<char>>
    decreases pieces.len(),
{
    if pieces.len() == 0 {
        Seq::empty()
    } else {
        let r = extension_list(pieces.drop_last());
        let x = strip_dots(trim(pieces.last()));
        if x.len() > 0 {
            r.push(x)
        } else {
            r
        }
    }
}

proof fn lemma_strip_dots(t: Seq<char>)
    ensures
        strip_dots(t).len() > 0 ==> strip_dots(t)[0] != '.',
    decreases t.len(),
{
    if t.len() > 0 && t[0] == '.' {
        lemma_strip_dots(t.drop_first());
    }
}

/// Every parsed extension name is non-empty and does not start with a dot.
pub proof fn extension_names_are_bare(pieces: Seq<Seq<char>>, i: int)
    requires
        0 <= i < extension_list(pieces).len(),
    ensures
        extension_list(pieces)[i].len() > 0,
        extension_list(pieces)[i][0] != '.',
    decreases pieces.len(),
{
    if pieces.len() > 0 {
        let r = extension_list(pieces.drop_last());
        let x = strip_dots(trim(pieces.last()));
        lemma_strip_dots(trim(pieces.last()));
        if i < r.len() {
            extension_names_are_bare(pieces.drop_last(), i);
            if x.len() > 0 {
                assert(extension_list(pieces)[i] == r[i]);
            }
        } else {
            assert(extension_list(pieces)[i] == x);
        }
    }
}

/// The characters of `t` after its leading dots.
fn strip_dots_chars(t: &[char]) -> (r: Vec<char>)
    ensures
        r@ == strip_dots(t@),
{
    let n = t.len();
    let mut i: usize = 0;
    assert(t@.subrange(0, n as int) == t@);
    while i < n && t[i] == '.'
        invariant
            i <= n,
            n == t@.len(),
            strip_dots(t@.subrange(i as int, n as int)) == strip_dots(t@),
        decreases n - i,
    {
        assert(t@.subrange(i as int, n as int).drop_first() == t@.subrange(i + 1, n as int));
        i = i + 1;
    }
    let mut r: Vec<char> = Vec::new();
    let mut k: usize = i;
    while k < n
        invariant
            i <= k <= n,
            n == t@.len(),
            r@ == t@.subrange(i as int, k as int),
        decreases n - k,
    {
        r.push(t[k]);
        assert(t@.subrange(i as int, k + 1) == t@.subrange(i as int, k as int).push(t@[k as int]));
        k = k + 1;
    }
    r
}

/// Parses comma-separated extensions into their names, stripping leading
/// dots; tokens with nothing else are dropped.
pub fn parse_extensions(input: &str) -> (r: Vec<String>)
    ensures
        string_views(r@) == extension_list(split_on(input@, ',')),
{
    let chars = chars_of(input);
    let pieces = split_chars(chars.as_slice(), ',');
    let mut out: Vec<String> = Vec::new();
    let mut i: usize = 0;
    while i < pieces.len()
        invariant
            i <= pieces@.len(),
            views(pieces@) == split_on(input@, ','),
            string_views(out@) == extension_list(views(pieces@).take(i as int)),
        decreases pieces@.len() - i,
    {
        let t = trim_chars(pieces[i].as_slice());
        assert(views(pieces@).take(i + 1).drop_last() == views(pieces@).take(i as int));
        assert(views(pieces@).take(i + 1).last() == pieces@[i as int]@);
        let x = strip_dots_chars(t.as_slice());
        if x.len() > 0 {
            let ghost before = out@;
            out.push(string_from(x.as_slice()));
            assert(string_views(out@) == string_views(before).push(x@));
        }
        i = i + 1;
    }
    assert(views(pieces@).take(pieces@.len() as int) == views(pieces@));
    out
}

} // verus!

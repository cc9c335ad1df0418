//! The saved state of an interrupted scan.
use vstd::prelude::*;
use crate::cli::{digit_value, is_digit, Cli};
use crate::requester::opt_view;
use crate::wordlist::copy_strings;
use crate::output::ScanResult;
use crate::text::{append_chars, chars_of, string_from, string_views};

verus! {

/// Everything needed to resume a scan where it stopped.
#[derive(Debug, Clone, PartialEq)]
pub struct ScanState {
    pub url: String,
    pub wordlist_paths: Vec<String>,
    pub method: String,
    pub headers: Vec<String>,
    pub data: Option<String>,
    pub match_codes: String,
    pub threads: usize,
    pub timeout: u64,
    pub wordlist_position: usize,
    pub recursion_pending: Vec<(String, u32)>,
    pub results: Vec<ScanResult>,
    pub elapsed_secs: u64,
    pub errors: u64,
}

/// Two decimal digits at `i` and `i + 1` of `s`, reading a value from `lo`
/// to `hi`.
pub open spec fn two_digits(s: Seq<char>, i: int, lo: nat, hi: nat) -> bool {
    &&& is_digit(s[i])
    &&& is_digit(s[i + 1])
    &&& lo <= digit_value(s[i]) * 10 + digit_value(s[i + 1]) <= hi
}

/// A year as chrono's `%Y` writes it: four digits for the years 0 to 9999,
/// else a sign and at least four digits.
pub open spec fn year_text(y: Seq<char>) -> bool {
    ||| (y.len() == 4 && forall|i: int| 0 <= i < 4 ==> is_digit(#[trigger] y[i]))
    ||| (y.len() >= 5 && (y[0] == '+' || y[0] == '-') && forall|i: int|
        1 <= i < y.len() ==> is_digit(#[trigger] y[i]))
}

/// A time stamp in the shape `%Y%m%d-%H%M%S`: the year, then two digits each
/// of month (01 to 12) and day (01 to 31), a `-`, and two digits each of hour
/// (00 to 23), minute (00 to 59) and second (00 to 60).
pub open spec fn stamp_text(s: Seq<char>) -> bool {
    let n = s.len();
    &&& n >= 15
    &&& year_text(s.take(n - 11))
    &&& two_digits(s, n - 11, 1, 12)
    &&& two_digits(s, n - 9, 1, 31)
    &&& s[n - 7] == '-'
    &&& two_digits(s, n - 6, 0, 23)
    &&& two_digits(s, n - 4, 0, 59)
    &&& two_digits(s, n - 2, 0, 60)
}

/// The local date and time as `%Y%m%d-%H%M%S` (chrono's `Local::now()`
/// formatted with that string). Trusted: the result has the shape that
/// chrono's documentation gives each of the fields; which moment it shows
/// depends on the clock and the time zone and is not stated.
#[verifier::external_body]
fn local_timestamp() -> (s: String)
    ensures
        stamp_text(s@),
{
    chrono::Local::now().format("%Y%m%d-%H%M%S").to_string()
}

/// `flood-state-<stamp>.json`.
pub open spec fn state_filename_text(stamp: Seq<char>) -> Seq<char> {
    seq!['f', 'l', 'o', 'o', 'd', '-', 's', 't', 'a', 't', 'e', '-'] + stamp + seq!['.', 'j', 's', 'o', 'n']
}

/// The state file name for a time stamp.
pub fn state_filename(stamp: &str) -> (s: String)
    ensures
        s@ == state_filename_text(stamp@),
{
    let mut v: Vec<char> = Vec::new();
    let head = ['f', 'l', 'o', 'o', 'd', '-', 's', 't', 'a', 't', 'e', '-'];
    append_chars(&mut v, head.as_slice());
    append_chars(&mut v, chars_of(stamp).as_slice());
    let tail = ['.', 'j', 's', 'o', 'n'];
    append_chars(&mut v, tail.as_slice());
    string_from(v.as_slice())
}

/// The default state file name, stamped with the local date and time.
pub fn default_state_filename() -> (s: String)
    ensures
        exists|stamp: Seq<char>| stamp_text(stamp) && s@ == state_filename_text(stamp),
{
    let stamp = local_timestamp();
    state_filename(stamp.as_str())
}

/// The state saved when a scan is quit: the options that describe the scan,
/// the wordlist files, the method sent, how many work items were handled
/// (`position`, where a resumed scan starts), the directories still pending,
/// the results so far, the time spent and the error count.
pub fn saved_state(
    cli: &Cli,
    wordlist_paths: Vec<String>,
    method: String,
    position: usize,
    recursion_pending: Vec<(String, u32)>,
    results: Vec<ScanResult>,
    elapsed_secs: u64,
    errors: u64,
) -> (s: ScanState)
    ensures
        s.url@ == cli.url@,
        s.wordlist_paths == wordlist_paths,
        s.method == method,
        string_views(s.headers@) == string_views(cli.headers@),
        opt_view(s.data) == opt_view(cli.data),
        s.match_codes@ == cli.match_code@,
        s.threads == cli.threads,
        s.timeout == cli.timeout,
        s.wordlist_position == position,
        s.recursion_pending == recursion_pending,
        s.results == results,
        s.elapsed_secs == elapsed_secs,
        s.errors == errors,
{
    let data = match &cli.data {
        Some(d) => Some(d.clone()),
        None => None,
    };
    ScanState {
        url: cli.url.clone(),
        wordlist_paths,
        method,
        headers: copy_strings(&cli.headers),
        data,
        match_codes: cli.match_code.clone(),
        threads: cli.threads,
        timeout: cli.timeout,
        wordlist_position: position,
        recursion_pending,
        results,
        elapsed_secs,
        errors,
    }
}

} // verus!

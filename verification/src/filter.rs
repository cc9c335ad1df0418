//! The two-phase match/filter rules that decide which responses are shown.
use vstd::prelude::*;
use crate::cli::in_ranges;

verus! {

#[verifier::external_type_specification]
#[verifier::external_body]
pub struct ExRegex(regex::Regex);

#[verifier::external_type_specification]
#[verifier::external_body]
pub struct ExRegexError(regex::Error);

/// Whether `regex::Regex::new` accepts the pattern (it depends on the pattern
/// alone).
pub uninterp spec fn regex_compiles(pattern: Seq<char>) -> bool;

/// Whether the regex compiled from `pattern` matches somewhere in `haystack`
/// (`regex::Regex::is_match`).
pub uninterp spec fn regex_is_match(pattern: Seq<char>, haystack: Seq<char>) -> bool;

/// Compiles a regex with `regex::Regex::new`. Trusted: it succeeds exactly
/// when the pattern compiles; what the compiled value holds is not stated
/// here beyond the name used by [`pattern_is_match`].
#[verifier::external_body]
fn compile_regex(pattern: &str) -> (r: Result<regex::Regex, regex::Error>)
    ensures
        r is Ok <==> regex_compiles(pattern@),
{
    regex::Regex::new(pattern)
}

/// Runs `regex::Regex::is_match` of the compiled pattern on `text`. Trusted:
/// the answer is the named result for the pattern's source and the text; this
/// holds because a [`Pattern`] is only built by [`Pattern::new`], which
/// compiles exactly its source.
#[verifier::external_body]
fn pattern_is_match(p: &Pattern, text: &str) -> (b: bool)
    ensures
        b == regex_is_match(p@, text@),
{
    p.compiled.is_match(text)
}

/// A regular expression together with its source text.
#[derive(Debug)]
pub struct Pattern {
    source: String,
    compiled: regex::Regex,
}

impl View for Pattern {
    type V = Seq<char>;

    closed spec fn view(&self) -> Seq<char> {
        self.source@
    }
}

/// A filter rule that could not be set up.
#[derive(Debug, Clone, PartialEq)]
pub enum FilterError {
    /// The regex does not compile.
    InvalidRegex(String),
}

impl Pattern {
    /// Compiles `pattern`; the error names the pattern when it does not compile.
    pub fn new(pattern: &str) -> (r: Result<Pattern, FilterError>)
        ensures
            r is Ok <==> regex_compiles(pattern@),
            r matches Ok(p) ==> p@ == pattern@,
            r matches Err(e) ==> e matches FilterError::InvalidRegex(s) && s@ == pattern@,
    {
        match compile_regex(pattern) {
            Ok(compiled) => Ok(Pattern { source: pattern.to_owned(), compiled }),
            Err(_) => Err(FilterError::InvalidRegex(pattern.to_owned())),
        }
    }

    /// The source text of the pattern.
    pub fn as_str(&self) -> (s: &str)
        ensures
            s@ == self@,
    {
        self.source.as_str()
    }
}

/// Metadata extracted from an HTTP response for filtering.
#[derive(Debug, Clone)]
pub struct ResponseData {
    pub status: u16,
    pub size: u64,
    pub words: u64,
    pub lines: u64,
    pub duration_ms: u64,
    pub body: String,
    pub redirect_to: Option<String>,
    pub content_type: Option<String>,
}

/// The rules of the match/filter engine. Status codes are listed one by
/// one; sizes, word counts and line counts as inclusive ranges `(lo, hi)`.
/// Empty lists and `None` impose nothing.
#[derive(Debug, Default)]
pub struct FilterConfig {
    pub match_codes: Vec<u16>,
    pub match_sizes: Vec<(u64, u64)>,
    pub match_words: Vec<(u64, u64)>,
    pub match_lines: Vec<(u64, u64)>,
    pub match_regex: Option<Pattern>,
    pub match_time: Option<u64>,
    pub filter_codes: Vec<u16>,
    pub filter_sizes: Vec<(u64, u64)>,
    pub filter_words: Vec<(u64, u64)>,
    pub filter_lines: Vec<(u64, u64)>,
    pub filter_regex: Option<Pattern>,
    pub filter_time: Option<u64>,
}

/// `x` is allowed by a match list: the list is empty or holds `x`.
pub open spec fn allowed<T>(list: Seq<T>, x: T) -> bool {
    list.len() == 0 || list.contains(x)
}

/// `x` is allowed by a match list of ranges: the list is empty or one of its
/// ranges holds `x`.
pub open spec fn allowed_in(ranges: Seq<(u64, u64)>, x: u64) -> bool {
    ranges.len() == 0 || in_ranges(ranges, x)
}

/// The match phase: every rule that is set must accept the response. The
/// regex rule uses `regex_hit`, whether the match regex matched the body.
pub open spec fn passes_match(c: &FilterConfig, r: &ResponseData, regex_hit: bool) -> bool {
    &&& allowed(c.match_codes@, r.status)
    &&& allowed_in(c.match_sizes@, r.size)
    &&& allowed_in(c.match_words@, r.words)
    &&& allowed_in(c.match_lines@, r.lines)
    &&& (c.match_regex is Some ==> regex_hit)
    &&& (c.match_time matches Some(t) ==> r.duration_ms > t)
}

/// The filter phase: any rule that is set and hits removes the response.
/// The regex rule uses `regex_hit`, whether the filter regex matched the body.
pub open spec fn filtered_out(c: &FilterConfig, r: &ResponseData, regex_hit: bool) -> bool {
    ||| c.filter_codes@.contains(r.status)
    ||| in_ranges(c.filter_sizes@, r.size)
    ||| in_ranges(c.filter_words@, r.words)
    ||| in_ranges(c.filter_lines@, r.lines)
    ||| (c.filter_regex is Some && regex_hit)
    ||| (c.filter_time matches Some(t) && r.duration_ms > t)
}

/// The decision, given the outcomes of the two regexes.
pub open spec fn display_decision(
    c: &FilterConfig,
    r: &ResponseData,
    match_hit: bool,
    filter_hit: bool,
) -> bool {
    passes_match(c, r, match_hit) && !filtered_out(c, r, filter_hit)
}

/// Whether the regex of a rule matches the body; `false` when the rule has no
/// regex.
pub open spec fn regex_hit(p: Option<Pattern>, body: Seq<char>) -> bool {
    match p {
        Some(p) => regex_is_match(p@, body),
        None => false,
    }
}

/// Whether a response is shown under the rules `c`.
pub open spec fn shown(c: &FilterConfig, r: &ResponseData) -> bool {
    display_decision(c, r, regex_hit(c.match_regex, r.body@), regex_hit(c.filter_regex, r.body@))
}

fn has_u16(list: &Vec<u16>, x: u16) -> (b: bool)
    ensures
        b == list@.contains(x),
{
    let mut i: usize = 0;
    while i < list.len()
        invariant
            i <= list@.len(),
            forall|j: int| 0 <= j < i ==> list@[j] != x,
        decreases list@.len() - i,
    {
        if list[i] == x {
            return true;
        }
        i = i + 1;
    }
    false
}

fn in_any_range(ranges: &Vec<(u64, u64)>, x: u64) -> (b: bool)
    ensures
        b == in_ranges(ranges@, x),
{
    let mut i: usize = 0;
    while i < ranges.len()
        invariant
            i <= ranges@.len(),
            forall|j: int| 0 <= j < i ==> !(ranges@[j].0 <= x && x <= ranges@[j].1),
        decreases ranges@.len() - i,
    {
        if ranges[i].0 <= x && x <= ranges[i].1 {
            return true;
        }
        i = i + 1;
    }
    false
}

/// Applies the match/filter rules to responses.
pub struct FilterEngine {
    config: FilterConfig,
}

impl FilterEngine {
    /// The rules this engine applies.
    pub closed spec fn config(&self) -> &FilterConfig {
        &self.config
    }

    pub fn new(config: FilterConfig) -> (e: Self)
        ensures
            e.config() == &config,
    {
        Self { config }
    }

    /// The match phase, given whether the match regex matched the body: every
    /// rule that is set must accept the response.
    fn matches(&self, resp: &ResponseData, match_hit: bool) -> (b: bool)
        ensures
            b == passes_match(self.config(), resp, match_hit),
    {
        let c = &self.config;
        if c.match_codes.len() != 0 && !has_u16(&c.match_codes, resp.status) {
            return false;
        }
        if c.match_sizes.len() != 0 && !in_any_range(&c.match_sizes, resp.size) {
            return false;
        }
        if c.match_words.len() != 0 && !in_any_range(&c.match_words, resp.words) {
            return false;
        }
        if c.match_lines.len() != 0 && !in_any_range(&c.match_lines, resp.lines) {
            return false;
        }
        if c.match_regex.is_some() && !match_hit {
            return false;
        }
        if let Some(threshold) = c.match_time {
            if resp.duration_ms <= threshold {
                return false;
            }
        }
        true
    }

    /// The filter phase, given whether the filter regex matched the body: any
    /// rule that is set and hits removes the response.
    fn filtered(&self, resp: &ResponseData, filter_hit: bool) -> (b: bool)
        ensures
            b == filtered_out(self.config(), resp, filter_hit),
    {
        let c = &self.config;
        if has_u16(&c.filter_codes, resp.status) {
            return true;
        }
        if in_any_range(&c.filter_sizes, resp.size) {
            return true;
        }
        if in_any_range(&c.filter_words, resp.words) {
            return true;
        }
        if in_any_range(&c.filter_lines, resp.lines) {
            return true;
        }
        if c.filter_regex.is_some() && filter_hit {
            return true;
        }
        if let Some(threshold) = c.filter_time {
            if resp.duration_ms > threshold {
                return true;
            }
        }
        false
    }

    /// The decision for a response, given whether the match regex and the
    /// filter regex matched its body (each ignored when that rule has none).
    pub fn decide(&self, resp: &ResponseData, match_hit: bool, filter_hit: bool) -> (b: bool)
        ensures
            b == display_decision(self.config(), resp, match_hit, filter_hit),
    {
        if !self.matches(resp, match_hit) {
            return false;
        }
        if self.filtered(resp, filter_hit) {
            return false;
        }
        true
    }

    /// Whether a response is shown: it passes every match rule that is set and
    /// no filter rule hits.
    pub fn should_display(&self, resp: &ResponseData) -> (b: bool)
        ensures
            b == shown(self.config(), resp),
    {
        let match_hit = match &self.config.match_regex {
            Some(p) => pattern_is_match(p, resp.body.as_str()),
            None => false,
        };
        let filter_hit = match &self.config.filter_regex {
            Some(p) => pattern_is_match(p, resp.body.as_str()),
            None => false,
        };
        self.decide(resp, match_hit, filter_hit)
    }
}

/// A response that a filter rule hits is never shown, whatever the match
/// rules say.
pub proof fn filter_overrides_match(c: &FilterConfig, r: &ResponseData)
    requires
        filtered_out(c, r, regex_hit(c.filter_regex, r.body@)),
    ensures
        !shown(c, r),
{
}

/// A listed filter code hides a response, wherever it stands in the list;
/// so do a filter range holding its size, word count or line count, and a
/// filter time it exceeds.
pub proof fn any_filter_hit_hides(c: &FilterConfig, r: &ResponseData, i: int)
    ensures
        0 <= i < c.filter_codes@.len() && c.filter_codes@[i] == r.status ==> !shown(c, r),
        0 <= i < c.filter_sizes@.len() && c.filter_sizes@[i].0 <= r.size <= c.filter_sizes@[i].1
            ==> !shown(c, r),
        0 <= i < c.filter_words@.len() && c.filter_words@[i].0 <= r.words
            <= c.filter_words@[i].1 ==> !shown(c, r),
        0 <= i < c.filter_lines@.len() && c.filter_lines@[i].0 <= r.lines
            <= c.filter_lines@[i].1 ==> !shown(c, r),
        (c.filter_time matches Some(t) && r.duration_ms > t) ==> !shown(c, r),
{
    if 0 <= i < c.filter_codes@.len() && c.filter_codes@[i] == r.status {
        assert(c.filter_codes@.contains(r.status));
    }
}

/// A match list that is set and does not hold the response's status, or no
/// range of which holds its size, word count or line count, hides it; so
/// does a response no slower than the match time.
pub proof fn any_match_miss_hides(c: &FilterConfig, r: &ResponseData)
    ensures
        c.match_codes@.len() > 0 && (forall|i: int|
            #![trigger c.match_codes@[i]]
            0 <= i < c.match_codes@.len() ==> c.match_codes@[i] != r.status) ==> !shown(c, r),
        c.match_sizes@.len() > 0 && (forall|i: int|
            #![trigger c.match_sizes@[i]]
            0 <= i < c.match_sizes@.len() ==> !(c.match_sizes@[i].0 <= r.size
                <= c.match_sizes@[i].1)) ==> !shown(c, r),
        c.match_words@.len() > 0 && (forall|i: int|
            #![trigger c.match_words@[i]]
            0 <= i < c.match_words@.len() ==> !(c.match_words@[i].0 <= r.words
                <= c.match_words@[i].1)) ==> !shown(c, r),
        c.match_lines@.len() > 0 && (forall|i: int|
            #![trigger c.match_lines@[i]]
            0 <= i < c.match_lines@.len() ==> !(c.match_lines@[i].0 <= r.lines
                <= c.match_lines@[i].1)) ==> !shown(c, r),
        (c.match_time matches Some(t) && r.duration_ms <= t) ==> !shown(c, r),
{
}

/// A response is shown exactly when it meets every match rule that is set
/// (codes listed, sizes, words and lines within a listed range, the match
/// regex hit, slower than the match time) and hits no filter rule.
pub proof fn shown_means_every_match_and_no_filter(c: &FilterConfig, r: &ResponseData)
    ensures
        shown(c, r) <==> ({
            &&& (c.match_codes@.len() == 0 || exists|i: int|
                #![trigger c.match_codes@[i]]
                0 <= i < c.match_codes@.len() && c.match_codes@[i] == r.status)
            &&& (c.match_sizes@.len() == 0 || exists|i: int|
                #![trigger c.match_sizes@[i]]
                0 <= i < c.match_sizes@.len() && c.match_sizes@[i].0 <= r.size
                    <= c.match_sizes@[i].1)
            &&& (c.match_words@.len() == 0 || exists|i: int|
                #![trigger c.match_words@[i]]
                0 <= i < c.match_words@.len() && c.match_words@[i].0 <= r.words
                    <= c.match_words@[i].1)
            &&& (c.match_lines@.len() == 0 || exists|i: int|
                #![trigger c.match_lines@[i]]
                0 <= i < c.match_lines@.len() && c.match_lines@[i].0 <= r.lines
                    <= c.match_lines@[i].1)
            &&& (c.match_regex matches Some(p) ==> regex_is_match(p@, r.body@))
            &&& (c.match_time matches Some(t) ==> r.duration_ms > t)
            &&& forall|i: int| #![trigger c.filter_codes@[i]] 0 <= i < c.filter_codes@.len() ==> c.filter_codes@[i] != r.status
            &&& forall|i: int|
                #![trigger c.filter_sizes@[i]]
                0 <= i < c.filter_sizes@.len() ==> !(c.filter_sizes@[i].0 <= r.size
                    <= c.filter_sizes@[i].1)
            &&& forall|i: int|
                #![trigger c.filter_words@[i]]
                0 <= i < c.filter_words@.len() ==> !(c.filter_words@[i].0 <= r.words
                    <= c.filter_words@[i].1)
            &&& forall|i: int|
                #![trigger c.filter_lines@[i]]
                0 <= i < c.filter_lines@.len() ==> !(c.filter_lines@[i].0 <= r.lines
                    <= c.filter_lines@[i].1)
            &&& !(c.filter_regex matches Some(p) && regex_is_match(p@, r.body@))
            &&& !(c.filter_time matches Some(t) && r.duration_ms > t)
        }),
{
    assert(c.match_codes@.contains(r.status) <==> exists|i: int|
        #![trigger c.match_codes@[i]]
        0 <= i < c.match_codes@.len() && c.match_codes@[i] == r.status);
    assert(c.filter_codes@.contains(r.status) <==> exists|i: int|
        #![trigger c.filter_codes@[i]]
        0 <= i < c.filter_codes@.len() && c.filter_codes@[i] == r.status);
}

/// With no rule set at all, every response is shown.
pub proof fn no_rules_show_everything(c: &FilterConfig, r: &ResponseData)
    requires
        c.match_codes@.len() == 0,
        c.match_sizes@.len() == 0,
        c.match_words@.len() == 0,
        c.match_lines@.len() == 0,
        c.match_regex is None,
        c.match_time is None,
        c.filter_codes@.len() == 0,
        c.filter_sizes@.len() == 0,
        c.filter_words@.len() == 0,
        c.filter_lines@.len() == 0,
        c.filter_regex is None,
        c.filter_time is None,
    ensures
        shown(c, r),
{
}

} // verus!

//! What goes into a request and what is measured of a response: header and
//! credential parsing, user agents, and body metrics.
use rand::Rng;
use vstd::prelude::*;
use crate::filter::ResponseData;
use crate::text::{chars_of, concat2, concat3, split_first, split_first_chars, is_whitespace, is_ws, string_from, string_views, trim, trim_chars};

verus! {

/// How requests are sent.
pub struct RequesterConfig {
    pub timeout: std::time::Duration,
    pub proxy: Option<String>,
    pub insecure: bool,
    pub follow_redirects: bool,
    pub max_redirects: usize,
    pub user_agent: String,
    pub auth: Option<(String, String)>,
    pub bearer: Option<String>,
    pub cookie: Option<String>,
}

/// A request option that could not be read.
#[derive(Debug, Clone, PartialEq)]
pub enum RequestSetupError {
    /// A header without `:`; expected `Name: Value`.
    InvalidHeader(String),
    /// Credentials without `:`; expected `user:pass`.
    InvalidAuth(String),
    /// The proxy URL does not parse.
    InvalidProxy(String),
    /// The replay proxy URL does not parse.
    InvalidReplayProxy(String),
    /// The HTTP method is not a token.
    InvalidMethod(String),
}

impl RequestSetupError {
    /// The message for the error.
    pub open spec fn message_text(&self) -> Seq<char> {
        match self {
            RequestSetupError::InvalidHeader(h) => "Invalid header format '"@ + h@
                + "' \u{2014} expected 'Name: Value'"@,
            RequestSetupError::InvalidAuth(a) => "Invalid auth format '"@ + a@
                + "' \u{2014} expected 'user:pass'"@,
            RequestSetupError::InvalidProxy(u) => "Invalid proxy URL: "@ + u@,
            RequestSetupError::InvalidReplayProxy(u) => "Invalid replay proxy URL: "@ + u@,
            RequestSetupError::InvalidMethod(m) => "Invalid HTTP method: "@ + m@,
        }
    }

    /// The message for the error.
    pub fn message(&self) -> (s: String)
        ensures
            s@ == self.message_text(),
    {
        match self {
            RequestSetupError::InvalidHeader(h) => concat3(
                "Invalid header format '",
                h.as_str(),
                "' \u{2014} expected 'Name: Value'",
            ),
            RequestSetupError::InvalidAuth(a) => concat3(
                "Invalid auth format '",
                a.as_str(),
                "' \u{2014} expected 'user:pass'",
            ),
            RequestSetupError::InvalidProxy(u) => concat2("Invalid proxy URL: ", u.as_str()),
            RequestSetupError::InvalidReplayProxy(u) => concat2("Invalid replay proxy URL: ", u.as_str()),
            RequestSetupError::InvalidMethod(m) => concat2("Invalid HTTP method: ", m.as_str()),
        }
    }
}

#[verifier::external_type_specification]
#[verifier::external_body]
pub struct ExProxy(reqwest::Proxy);

#[verifier::external_type_specification]
#[verifier::external_body]
pub struct ExReqwestError(reqwest::Error);

#[verifier::external_type_specification]
#[verifier::external_body]
pub struct ExMethod(reqwest::Method);

/// Whether reqwest takes `url` as a proxy URL: it parses as a URL with a
/// host, directly or after `http://` is put in front (it depends on the text
/// alone).
pub uninterp spec fn proxy_url_valid(url: Seq<char>) -> bool;

/// Parses a proxy for all traffic with `reqwest::Proxy::all`. Trusted: it
/// succeeds exactly when the URL is valid; the proxy value is opaque.
#[verifier::external_body]
fn parse_proxy(url: &str) -> (r: Result<reqwest::Proxy, reqwest::Error>)
    ensures
        r is Ok <==> proxy_url_valid(url@),
{
    reqwest::Proxy::all(url)
}

/// A character that may stand in an HTTP method (a token character of
/// RFC 9110: digits, ASCII letters and ``!#$%&'*+-.^_`|~``).
pub open spec fn is_token_char(c: char) -> bool {
    ||| ('0' <= c && c <= '9')
    ||| ('A' <= c && c <= 'Z')
    ||| ('a' <= c && c <= 'z')
    ||| c == '!' || c == '#' || c == '$' || c == '%' || c == '&' || c == '\'' || c == '*'
    ||| c == '+' || c == '-' || c == '.' || c == '^' || c == '_' || c == '`' || c == '|' || c == '~'
}

/// A valid HTTP method: one or more token characters.
pub open spec fn http_method_valid(m: Seq<char>) -> bool {
    m.len() > 0 && forall|i: int| 0 <= i < m.len() ==> is_token_char(#[trigger] m[i])
}

/// The method that `reqwest::Method::from_str` makes of a valid text (it
/// depends on the text alone).
pub uninterp spec fn parsed_method(m: Seq<char>) -> reqwest::Method;

/// Parses an HTTP method with `reqwest::Method::from_str`. Trusted: it
/// succeeds exactly on non-empty texts of token characters, as the method
/// table of the `http` crate has it, and gives the method named by the text.
#[verifier::external_body]
fn parse_method(m: &str) -> (r: Option<reqwest::Method>)
    ensures
        r is Some <==> http_method_valid(m@),
        r matches Some(x) ==> x == parsed_method(m@),
{
    <reqwest::Method as std::str::FromStr>::from_str(m).ok()
}

/// The method of a request; an error names a method that is not a token.
pub fn request_method(method: &str) -> (r: Result<reqwest::Method, RequestSetupError>)
    ensures
        r is Ok <==> http_method_valid(method@),
        r matches Ok(x) ==> x == parsed_method(method@),
        r matches Err(e) ==> e matches RequestSetupError::InvalidMethod(s) && s@ == method@,
{
    match parse_method(method) {
        Some(m) => Ok(m),
        None => Err(RequestSetupError::InvalidMethod(method.to_owned())),
    }
}

/// How a client treats redirects.
#[derive(Debug, Clone, Copy, PartialEq, Eq, Structural)]
pub enum RedirectRule {
    /// Follow at most this many redirects.
    Limited(usize),
    /// Follow none.
    NoFollow,
}

/// The redirect rule of the options.
pub open spec fn redirect_for(follow: bool, max: usize) -> RedirectRule {
    if follow {
        RedirectRule::Limited(max)
    } else {
        RedirectRule::NoFollow
    }
}

/// The redirect rule: follow up to `max` redirects when asked, else none.
pub fn redirect_rule(follow: bool, max: usize) -> (r: RedirectRule)
    ensures
        r == redirect_for(follow, max),
{
    if follow {
        RedirectRule::Limited(max)
    } else {
        RedirectRule::NoFollow
    }
}

/// What a client is built with besides the plain options: its redirect rule,
/// and its proxy with the URL it was parsed from.
pub struct ClientPlan {
    pub redirect: RedirectRule,
    pub proxy_url: Option<String>,
    pub proxy: Option<reqwest::Proxy>,
}

/// The plan of the scan's client: redirects as configured, and the
/// configured proxy, which must parse.
pub fn client_plan(config: &RequesterConfig) -> (r: Result<ClientPlan, RequestSetupError>)
    ensures
        r is Ok <==> (config.proxy matches Some(p) ==> proxy_url_valid(p@)),
        r matches Ok(plan) ==> plan.redirect == redirect_for(
            config.follow_redirects,
            config.max_redirects,
        ) && opt_view(plan.proxy_url) == opt_view(config.proxy) && (plan.proxy is Some
            <==> plan.proxy_url is Some),
        r matches Err(e) ==> e matches RequestSetupError::InvalidProxy(u) && config.proxy matches Some(
            p,
        ) && u@ == p@,
{
    let redirect = redirect_rule(config.follow_redirects, config.max_redirects);
    match &config.proxy {
        Some(url) => match parse_proxy(url.as_str()) {
            Ok(p) => Ok(ClientPlan { redirect, proxy_url: Some(url.clone()), proxy: Some(p) }),
            Err(_) => Err(RequestSetupError::InvalidProxy(url.clone())),
        },
        None => Ok(ClientPlan { redirect, proxy_url: None, proxy: None }),
    }
}

/// The plan of the replay client: no redirects, through the replay proxy,
/// which must parse.
pub fn replay_plan(proxy_url: &str) -> (r: Result<ClientPlan, RequestSetupError>)
    ensures
        r is Ok <==> proxy_url_valid(proxy_url@),
        r matches Ok(plan) ==> (plan.redirect == RedirectRule::NoFollow && plan.proxy is Some && (
        plan.proxy_url matches Some(u) && u@ == proxy_url@)),
        r matches Err(e) ==> e matches RequestSetupError::InvalidReplayProxy(u) && u@ == proxy_url@,
{
    match parse_proxy(proxy_url) {
        Ok(p) => Ok(
            ClientPlan {
                redirect: RedirectRule::NoFollow,
                proxy_url: Some(proxy_url.to_owned()),
                proxy: Some(p),
            },
        ),
        Err(_) => Err(RequestSetupError::InvalidReplayProxy(proxy_url.to_owned())),
    }
}

/// The name and value of a raw header: the trimmed text before and after its
/// first `:`; `None` without one.
pub open spec fn header_pair(h: Seq<char>) -> Option<(Seq<char>, Seq<char>)> {
    match split_first(h, ':') {
        Some((a, b)) => Some((trim(a), trim(b))),
        None => None,
    }
}

/// The raw headers parsed in order, or the first without a `:`.
pub open spec fn parsed_headers(hs: Seq<Seq<char>>) -> Result<Seq<(Seq<char>, Seq<char>)>, Seq<char>>
    decreases hs.len(),
{
    if hs.len() == 0 {
        Ok(Seq::empty())
    } else {
        match parsed_headers(hs.drop_last()) {
            Err(e) => Err(e),
            Ok(ps) => match header_pair(hs.last()) {
                Some(p) => Ok(ps.push(p)),
                None => Err(hs.last()),
            },
        }
    }
}

pub open spec fn pair_string_views(v: Seq<(String, String)>) -> Seq<(Seq<char>, Seq<char>)> {
    v.map_values(|p: (String, String)| (p.0@, p.1@))
}

proof fn lemma_headers_error_sticks(hs: Seq<Seq<char>>, k: nat)
    requires
        k <= hs.len(),
        parsed_headers(hs.take(k as int)) is Err,
    ensures
        parsed_headers(hs) == parsed_headers(hs.take(k as int)),
    decreases hs.len() - k,
{
    if k < hs.len() {
        assert(hs.take(k as int + 1).drop_last() == hs.take(k as int));
        lemma_headers_error_sticks(hs, k + 1);
    } else {
        assert(hs.take(k as int) == hs);
    }
}

/// Parses `Name: Value` headers; the first header without `:` is an error.
pub fn parse_headers(raw_headers: &[String]) -> (r: Result<Vec<(String, String)>, RequestSetupError>)
    ensures
        match parsed_headers(string_views(raw_headers@)) {
            Ok(ps) => r is Ok && pair_string_views(r->Ok_0@) == ps,
            Err(h) => r matches Err(RequestSetupError::InvalidHeader(s)) && s@ == h,
        },
{
    let ghost hs = string_views(raw_headers@);
    let mut out: Vec<(String, String)> = Vec::new();
    let mut i: usize = 0;
    assert(hs.take(0) == Seq::<Seq<char>>::empty());
    assert(pair_string_views(out@) == Seq::<(Seq<char>, Seq<char>)>::empty());
    while i < raw_headers.len()
        invariant
            i <= raw_headers@.len(),
            hs == string_views(raw_headers@),
            parsed_headers(hs.take(i as int)) == Ok::<
                Seq<(Seq<char>, Seq<char>)>,
                Seq<char>,
            >(pair_string_views(out@)),
        decreases raw_headers@.len() - i,
    {
        let h = chars_of(raw_headers[i].as_str());
        assert(hs.take(i + 1).drop_last() == hs.take(i as int));
        assert(hs.take(i + 1).last() == h@);
        match split_first_chars(h.as_slice(), ':') {
            Some((a, b)) => {
                let name = trim_chars(a.as_slice());
                let value = trim_chars(b.as_slice());
                let ghost before = out@;
                out.push((string_from(name.as_slice()), string_from(value.as_slice())));
                assert(pair_string_views(out@) == pair_string_views(before).push((name@, value@)));
            },
            None => {
                proof {
                    lemma_headers_error_sticks(hs, (i + 1) as nat);
                }
                return Err(RequestSetupError::InvalidHeader(raw_headers[i].clone()));
            },
        }
        i = i + 1;
    }
    assert(hs.take(raw_headers@.len() as int) == hs);
    Ok(out)
}

/// Splits `user:pass` at its first `:`; without one it is an error.
pub fn parse_auth(auth: &str) -> (r: Result<(String, String), RequestSetupError>)
    ensures
        match split_first(auth@, ':') {
            Some((u, p)) => r matches Ok((x, y)) && x@ == u && y@ == p,
            None => r matches Err(RequestSetupError::InvalidAuth(s)) && s@ == auth@,
        },
{
    let a = chars_of(auth);
    match split_first_chars(a.as_slice(), ':') {
        Some((u, p)) => Ok((string_from(u.as_slice()), string_from(p.as_slice()))),
        None => Err(RequestSetupError::InvalidAuth(auth.to_owned())),
    }
}

/// One piece of an outgoing request, in the order the pieces are applied.
#[derive(Debug, Clone, PartialEq)]
pub enum RequestPart {
    /// A header, added after those before it.
    Header(String, String),
    /// HTTP basic authentication with a user and a password.
    BasicAuth(String, String),
    /// A bearer token.
    BearerAuth(String),
    /// The request body.
    Body(String),
}

/// A [`RequestPart`] as text.
pub enum PartModel {
    Header(Seq<char>, Seq<char>),
    BasicAuth(Seq<char>, Seq<char>),
    BearerAuth(Seq<char>),
    Body(Seq<char>),
}

impl View for RequestPart {
    type V = PartModel;

    open spec fn view(&self) -> PartModel {
        match self {
            RequestPart::Header(n, v) => PartModel::Header(n@, v@),
            RequestPart::BasicAuth(u, p) => PartModel::BasicAuth(u@, p@),
            RequestPart::BearerAuth(t) => PartModel::BearerAuth(t@),
            RequestPart::Body(b) => PartModel::Body(b@),
        }
    }
}

pub open spec fn part_views(v: Seq<RequestPart>) -> Seq<PartModel> {
    v.map_values(|p: RequestPart| p@)
}

/// The pieces of a request: the headers in order, then basic authentication,
/// the bearer token and the cookie header where they are given, and for a
/// body the body with a form-encoded content type.
pub open spec fn request_model(
    headers: Seq<(Seq<char>, Seq<char>)>,
    data: Option<Seq<char>>,
    auth: Option<(Seq<char>, Seq<char>)>,
    bearer: Option<Seq<char>>,
    cookie: Option<Seq<char>>,
) -> Seq<PartModel> {
    headers.map_values(|h: (Seq<char>, Seq<char>)| PartModel::Header(h.0, h.1)) + match auth {
        Some((u, p)) => seq![PartModel::BasicAuth(u, p)],
        None => Seq::empty(),
    } + match bearer {
        Some(t) => seq![PartModel::BearerAuth(t)],
        None => Seq::empty(),
    } + match cookie {
        Some(c) => seq![PartModel::Header("Cookie"@, c)],
        None => Seq::empty(),
    } + match data {
        Some(d) => seq![
            PartModel::Body(d),
            PartModel::Header("Content-Type"@, "application/x-www-form-urlencoded"@),
        ],
        None => Seq::empty(),
    }
}

/// The view of an optional text.
pub open spec fn opt_view(o: Option<String>) -> Option<Seq<char>> {
    match o {
        Some(s) => Some(s@),
        None => None,
    }
}

/// The view of optional credentials.
pub open spec fn opt_pair_view(o: Option<(String, String)>) -> Option<(Seq<char>, Seq<char>)> {
    match o {
        Some((a, b)) => Some((a@, b@)),
        None => None,
    }
}

/// Lists what goes into a request, in the order it is applied.
pub fn request_parts(
    headers: &[(String, String)],
    data: Option<&str>,
    auth: &Option<(String, String)>,
    bearer: &Option<String>,
    cookie: &Option<String>,
) -> (r: Vec<RequestPart>)
    ensures
        part_views(r@) == request_model(
            pair_string_views(headers@),
            match data {
                Some(d) => Some(d@),
                None => None,
            },
            opt_pair_view(*auth),
            opt_view(*bearer),
            opt_view(*cookie),
        ),
{
    let mut parts: Vec<RequestPart> = Vec::new();
    let mut i: usize = 0;
    while i < headers.len()
        invariant
            i <= headers@.len(),
            part_views(parts@) == pair_string_views(headers@).take(i as int).map_values(
                |h: (Seq<char>, Seq<char>)| PartModel::Header(h.0, h.1),
            ),
        decreases headers@.len() - i,
    {
        let ghost before = parts@;
        parts.push(RequestPart::Header(headers[i].0.clone(), headers[i].1.clone()));
        assert(pair_string_views(headers@).take(i + 1) == pair_string_views(headers@).take(
            i as int,
        ).push(pair_string_views(headers@)[i as int]));
        assert(part_views(parts@) == part_views(before).push(parts@[i as int]@));
        i = i + 1;
    }
    assert(pair_string_views(headers@).take(headers@.len() as int) == pair_string_views(headers@));
    if let Some((user, pass)) = auth {
        parts.push(RequestPart::BasicAuth(user.clone(), pass.clone()));
    }
    if let Some(token) = bearer {
        parts.push(RequestPart::BearerAuth(token.clone()));
    }
    if let Some(c) = cookie {
        parts.push(RequestPart::Header("Cookie".to_owned(), c.clone()));
    }
    if let Some(body) = data {
        parts.push(RequestPart::Body(body.to_owned()));
        parts.push(
            RequestPart::Header(
                "Content-Type".to_owned(),
                "application/x-www-form-urlencoded".to_owned(),
            ),
        );
    }
    parts
}

/// The number of browser user agents to pick from.
pub const USER_AGENT_COUNT: usize = 8;

/// The user agents that random rotation picks from.
pub const USER_AGENTS: [&'static str; 8] = [
    "Mozilla/5.0 (Windows NT 10.0; Win64; x64) AppleWebKit/537.36 (KHTML, like Gecko) Chrome/120.0.0.0 Safari/537.36",
    "Mozilla/5.0 (Macintosh; Intel Mac OS X 10_15_7) AppleWebKit/537.36 (KHTML, like Gecko) Chrome/120.0.0.0 Safari/537.36",
    "Mozilla/5.0 (X11; Linux x86_64) AppleWebKit/537.36 (KHTML, like Gecko) Chrome/120.0.0.0 Safari/537.36",
    "Mozilla/5.0 (Windows NT 10.0; Win64; x64; rv:121.0) Gecko/20100101 Firefox/121.0",
    "Mozilla/5.0 (Macintosh; Intel Mac OS X 10.15; rv:121.0) Gecko/20100101 Firefox/121.0",
    "Mozilla/5.0 (X11; Linux x86_64; rv:121.0) Gecko/20100101 Firefox/121.0",
    "Mozilla/5.0 (Windows NT 10.0; Win64; x64) AppleWebKit/537.36 (KHTML, like Gecko) Edge/120.0.0.0 Safari/537.36",
    "Mozilla/5.0 (Macintosh; Intel Mac OS X 10_15_7) AppleWebKit/605.1.15 (KHTML, like Gecko) Version/17.2 Safari/605.1.15",
];

/// A uniformly random index below `n` (rand's `thread_rng().gen_range(0..n)`).
/// Trusted: the index is below `n`; which one is left to chance.
#[verifier::external_body]
fn random_index(n: usize) -> (i: usize)
    requires
        n > 0,
    ensures
        i < n,
{
    rand::thread_rng().gen_range(0..n)
}

/// One of the browser user agents, picked at random.
pub fn random_user_agent() -> (ua: &'static str)
    ensures
        exists|i: int| 0 <= i < USER_AGENT_COUNT && ua == USER_AGENTS[i],
{
    let i = random_index(USER_AGENT_COUNT);
    USER_AGENTS[i]
}

/// The number of whitespace-separated words in `s` (std's
/// `split_whitespace().count()`): maximal runs of non-whitespace characters.
pub open spec fn word_count(s: Seq<char>) -> nat
    decreases s.len(),
{
    if s.len() == 0 {
        0
    } else {
        word_count(s.drop_last()) + if !is_ws(s.last()) && (s.len() == 1 || is_ws(
            s[s.len() - 2],
        )) {
            1nat
        } else {
            0nat
        }
    }
}

/// The number of lines in `s` (std's `lines().count()`): a line starts at
/// the beginning of a non-empty text and after every line feed that is not
/// the last character.
pub open spec fn line_count(s: Seq<char>) -> nat
    decreases s.len(),
{
    if s.len() == 0 {
        0
    } else {
        line_count(s.drop_last()) + if s.len() == 1 || s[s.len() - 2] == '\n' {
            1nat
        } else {
            0nat
        }
    }
}

/// Counts the words and lines of a text.
pub fn count_words_and_lines(s: &str) -> (r: (u64, u64))
    ensures
        r.0 == word_count(s@),
        r.1 == line_count(s@),
{
    let v = chars_of(s);
    let n = v.len();
    let mut words: u64 = 0;
    let mut lines: u64 = 0;
    let mut i: usize = 0;
    while i < n
        invariant
            i <= n,
            n == v@.len(),
            v@ == s@,
            words == word_count(v@.take(i as int)),
            lines == line_count(v@.take(i as int)),
            words <= i,
            lines <= i,
        decreases n - i,
    {
        let c = v[i];
        assert(v@.take(i + 1).drop_last() == v@.take(i as int));
        assert(v@.take(i + 1).last() == c);
        if i >= 1 {
            assert(v@.take(i + 1)[i - 1] == v@[i - 1]);
        }
        if !is_whitespace(c) && (i == 0 || is_whitespace(v[i - 1])) {
            words = words + 1;
        }
        if i == 0 || v[i - 1] == '\n' {
            lines = lines + 1;
        }
        i = i + 1;
    }
    assert(v@.take(n as int) == v@);
    (words, lines)
}

/// The response data of a reply: its status, body, timing and headers, with
/// the body measured (size in UTF-8 bytes, words, lines).
pub fn response_data(
    status: u16,
    body: String,
    duration_ms: u64,
    redirect_to: Option<String>,
    content_type: Option<String>,
) -> (r: ResponseData)
    ensures
        r.status == status,
        r.body == body,
        r.duration_ms == duration_ms,
        r.redirect_to == redirect_to,
        r.content_type == content_type,
        r.size == (vstd::utf8::encode_utf8(body@).len() as usize) as u64,
        r.words == word_count(body@),
        r.lines == line_count(body@),
{
    let (words, lines) = count_words_and_lines(body.as_str());
    let size = body.as_str().len() as u64;
    ResponseData { status, size, words, lines, duration_ms, body, redirect_to, content_type }
}

} // verus!

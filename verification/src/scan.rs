//! The decisions of a scan: checking the target for keywords, building the
//! work list and the rules, building each request, retrying, recursing, and
//! choosing the output format. The application performs the I/O between them.
use vstd::prelude::*;
use crate::cli::{
    parse_number_list, parse_numeric_list, parse_range_list, parse_status_codes, range_views, Cli,
    IntErrorKind, ListParseError,
};
use crate::filter::{regex_compiles, FilterConfig, FilterError, Pattern, ResponseData};
use crate::fuzz::{
    apply_subs, build_data, build_headers, build_url, detect_fuzz_positions, fuzz_sites, pair_views, str_views, FuzzPosition,
};
use crate::output::ScanResult;
use crate::recursion::last_is;
use crate::requester::{pair_string_views, parse_headers, parsed_headers};
use crate::text::{append_chars, concat3, replace_all, chars_of, string_from, string_views};
use vstd::arithmetic::power2::{lemma2_to64, lemma2_to64_rest, lemma_pow2_strictly_increases, lemma_pow2_unfold, pow2};
use crate::wordlist::{cartesian_product, copy_strings, expand_with_extensions, expansions, list_views, product};

verus! {

/// Why a scan cannot start or finish.
#[derive(Debug, Clone, PartialEq)]
pub enum ScanError {
    /// No FUZZ keyword in the URL, the headers or the data.
    NoFuzzKeyword,
    /// A list option could not be read.
    InvalidList(ListParseError),
    /// The match regex does not compile.
    InvalidMatchRegex(FilterError),
    /// The filter regex does not compile.
    InvalidFilterRegex(FilterError),
    /// The output format is none of json, jsonl, csv, text.
    UnknownOutputFormat(String),
}

impl ScanError {
    /// The message for the error. A regex error names the option; why the
    /// regex does not compile is the regex crate's to say.
    pub open spec fn message_text(&self) -> Seq<char> {
        match self {
            ScanError::NoFuzzKeyword => "No FUZZ keyword found in URL, headers, or data.\nUse FUZZ in the URL (e.g., https://example.com/FUZZ) or headers/data."@,
            ScanError::InvalidList(e) => e.message_text(),
            ScanError::InvalidMatchRegex(_) => "Invalid match regex"@,
            ScanError::InvalidFilterRegex(_) => "Invalid filter regex"@,
            ScanError::UnknownOutputFormat(f) => "Unknown output format: "@ + f@
                + ". Use json, jsonl, csv, or text."@,
        }
    }

    /// The message for the error.
    pub fn message(&self) -> (s: String)
        ensures
            s@ == self.message_text(),
    {
        match self {
            ScanError::NoFuzzKeyword => "No FUZZ keyword found in URL, headers, or data.\nUse FUZZ in the URL (e.g., https://example.com/FUZZ) or headers/data.".to_owned(),
            ScanError::InvalidList(e) => e.message(),
            ScanError::InvalidMatchRegex(_) => "Invalid match regex".to_owned(),
            ScanError::InvalidFilterRegex(_) => "Invalid filter regex".to_owned(),
            ScanError::UnknownOutputFormat(f) => concat3(
                "Unknown output format: ",
                f.as_str(),
                ". Use json, jsonl, csv, or text.",
            ),
        }
    }
}

/// The keyword positions of the target; an error when there are none.
pub fn require_fuzz_keyword(url: &str, headers: &[String], data: &Option<String>) -> (r: Result<
    Vec<FuzzPosition>,
    ScanError,
>)
    ensures
        ({
            let sites = fuzz_sites(
                url@,
                string_views(headers@),
                match data {
                    Some(d) => Some(d@),
                    None => None,
                },
            );
            &&& r is Ok <==> sites.len() > 0
            &&& r matches Ok(ps) ==> crate::fuzz::site_views(ps@) == sites
            &&& r matches Err(e) ==> e == ScanError::NoFuzzKeyword
        }),
{
    let ps = detect_fuzz_positions(url, headers, data);
    if ps.len() == 0 {
        Err(ScanError::NoFuzzKeyword)
    } else {
        Ok(ps)
    }
}

/// The text `GET`.
pub open spec fn get_text() -> Seq<char> {
    seq!['G', 'E', 'T']
}

/// POST data turns the default GET into POST; any other method stays.
pub open spec fn method_for(method: Seq<char>, has_data: bool) -> Seq<char> {
    if has_data && method == get_text() {
        seq!['P', 'O', 'S', 'T']
    } else {
        method
    }
}

/// The HTTP method actually sent.
pub fn effective_method(method: &str, has_data: bool) -> (m: String)
    ensures
        m@ == method_for(method@, has_data),
{
    let mc = chars_of(method);
    let get = ['G', 'E', 'T'];
    if has_data && crate::text::chars_eq(mc.as_slice(), get.as_slice()) {
        assert(get@ == get_text());
        string_from(['P', 'O', 'S', 'T'].as_slice())
    } else {
        method.to_owned()
    }
}

/// The expansions of every word of a list, word by word.
pub open spec fn expanded_words(words: Seq<Seq<char>>, exts: Seq<Seq<char>>, no_ext: bool) -> Seq<
    Seq<char>,
>
    decreases words.len(),
{
    if words.len() == 0 {
        Seq::empty()
    } else {
        expanded_words(words.drop_last(), exts, no_ext) + expansions(words.last(), exts, no_ext)
    }
}

/// The work of a scan: with one wordlist, each of its words expanded with
/// the extensions, one word per item; with several, their cartesian product
/// (no extensions).
pub open spec fn work_items(lists: Seq<Seq<Seq<char>>>, exts: Seq<Seq<char>>, no_ext: bool) -> Seq<
    Seq<Seq<char>>,
> {
    if lists.len() == 1 {
        expanded_words(lists[0], exts, no_ext).map_values(|w: Seq<char>| seq![w])
    } else {
        product(lists)
    }
}

fn expand_all(words: &Vec<String>, extensions: &[String], no_extension: bool) -> (r: Vec<String>)
    ensures
        string_views(r@) == expanded_words(string_views(words@), string_views(extensions@), no_extension),
{
    let ghost ws = string_views(words@);
    let mut r: Vec<String> = Vec::new();
    let mut i: usize = 0;
    assert(ws.take(0) == Seq::<Seq<char>>::empty());
    assert(string_views(r@) == Seq::<Seq<char>>::empty());
    while i < words.len()
        invariant
            i <= words@.len(),
            ws == string_views(words@),
            string_views(r@) == expanded_words(ws.take(i as int), string_views(extensions@), no_extension),
        decreases words@.len() - i,
    {
        let ex = expand_with_extensions(words[i].as_str(), extensions, no_extension);
        let ghost before = string_views(r@);
        let mut j: usize = 0;
        while j < ex.len()
            invariant
                j <= ex@.len(),
                string_views(r@) == before + string_views(ex@).take(j as int),
            decreases ex@.len() - j,
        {
            let ghost b2 = r@;
            r.push(ex[j].clone());
            assert(string_views(r@) == string_views(b2).push(ex@[j as int]@));
            assert(string_views(ex@).take(j + 1) == string_views(ex@).take(j as int).push(
                ex@[j as int]@,
            ));
            j = j + 1;
        }
        assert(string_views(ex@).take(ex@.len() as int) == string_views(ex@));
        assert(ws.take(i + 1).drop_last() == ws.take(i as int));
        assert(ws.take(i + 1).last() == words@[i as int]@);
        i = i + 1;
    }
    assert(ws.take(words@.len() as int) == ws);
    r
}

/// Extension names as file suffixes: each with a dot in front.
pub open spec fn dot_all(names: Seq<Seq<char>>) -> Seq<Seq<char>> {
    names.map_values(|e: Seq<char>| seq!['.'] + e)
}

/// The suffixes for extension names as `parse_extensions` gives them: `php`
/// becomes `.php`.
pub fn dotted_extensions(names: &[String]) -> (r: Vec<String>)
    ensures
        string_views(r@) == dot_all(string_views(names@)),
{
    let mut r: Vec<String> = Vec::new();
    let mut i: usize = 0;
    while i < names.len()
        invariant
            i <= names@.len(),
            string_views(r@) == dot_all(string_views(names@)).take(i as int),
        decreases names@.len() - i,
    {
        let mut buf: Vec<char> = Vec::new();
        buf.push('.');
        append_chars(&mut buf, chars_of(names[i].as_str()).as_slice());
        let ghost before = r@;
        r.push(string_from(buf.as_slice()));
        assert(string_views(r@) == string_views(before).push(seq!['.'] + names@[i as int]@));
        assert(dot_all(string_views(names@)).take(i + 1) == dot_all(string_views(names@)).take(
            i as int,
        ).push(seq!['.'] + names@[i as int]@));
        i = i + 1;
    }
    assert(dot_all(string_views(names@)).take(names@.len() as int) == dot_all(string_views(names@)));
    r
}

/// Builds the work items of a scan from the wordlists and the extension
/// names, which are appended to the words with a dot.
pub fn build_work_items(wordlists: &[Vec<String>], extension_names: &[String], no_extension: bool) -> (r:
    Vec<Vec<String>>)
    ensures
        list_views(r@) == work_items(
            list_views(wordlists@),
            dot_all(string_views(extension_names@)),
            no_extension,
        ),
{
    if wordlists.len() == 1 {
        let extensions = dotted_extensions(extension_names);
        let words = expand_all(&wordlists[0], extensions.as_slice(), no_extension);
        let ghost ew = string_views(words@);
        assert(list_views(wordlists@)[0] == string_views(wordlists@[0]@));
        let mut r: Vec<Vec<String>> = Vec::new();
        let mut i: usize = 0;
        while i < words.len()
            invariant
                i <= words@.len(),
                ew == string_views(words@),
                list_views(r@) == ew.take(i as int).map_values(|w: Seq<char>| seq![w]),
            decreases words@.len() - i,
        {
            let mut one: Vec<String> = Vec::new();
            one.push(words[i].clone());
            assert(string_views(one@) == seq![words@[i as int]@]);
            let ghost before = r@;
            r.push(one);
            assert(list_views(r@) == list_views(before).push(seq![words@[i as int]@]));
            assert(ew.take(i + 1) == ew.take(i as int).push(words@[i as int]@));
            i = i + 1;
        }
        assert(ew.take(words@.len() as int) == ew);
        r
    } else {
        cartesian_product(wordlists)
    }
}

/// A unit of work of a scan: the request template its words go into, the
/// words (one per keyword), and the recursion depth.
#[derive(Debug, Clone)]
pub struct WorkItem {
    pub template: String,
    pub words: Vec<String>,
    pub depth: u32,
}

/// A [`WorkItem`] as text.
pub open spec fn work_view(w: WorkItem) -> (Seq<char>, Seq<Seq<char>>, nat) {
    (w.template@, string_views(w.words@), w.depth as nat)
}

pub open spec fn work_views(v: Seq<WorkItem>) -> Seq<(Seq<char>, Seq<Seq<char>>, nat)> {
    v.map_values(|w: WorkItem| work_view(w))
}

/// The work added for pending directories: for each, in order, every word of
/// the first wordlist expanded with the extensions, substituted into that
/// directory's base template, at that directory's depth.
pub open spec fn recursion_items(
    pending: Seq<(Seq<char>, nat)>,
    words: Seq<Seq<char>>,
    exts: Seq<Seq<char>>,
    no_ext: bool,
) -> Seq<(Seq<char>, Seq<Seq<char>>, nat)>
    decreases pending.len(),
{
    if pending.len() == 0 {
        Seq::empty()
    } else {
        recursion_items(pending.drop_last(), words, exts, no_ext) + expanded_words(
            words,
            exts,
            no_ext,
        ).map_values(|w: Seq<char>| (pending.last().0, seq![w], pending.last().1))
    }
}

pub open spec fn pending_views(p: Seq<(String, u32)>) -> Seq<(Seq<char>, nat)> {
    p.map_values(|e: (String, u32)| (e.0@, e.1 as nat))
}

/// The work for the directories drained from the recursion queue: each
/// directory's base template (`.../FUZZ`) with every word of the first
/// wordlist expanded with the extension names (appended with a dot), at the
/// depth it was queued with.
pub fn recursion_work(
    pending: &[(String, u32)],
    first_wordlist: &Vec<String>,
    extension_names: &[String],
    no_extension: bool,
) -> (r: Vec<WorkItem>)
    ensures
        work_views(r@) == recursion_items(
            pending_views(pending@),
            string_views(first_wordlist@),
            dot_all(string_views(extension_names@)),
            no_extension,
        ),
{
    let extensions = dotted_extensions(extension_names);
    let words = expand_all(first_wordlist, extensions.as_slice(), no_extension);
    let ghost ew = string_views(words@);
    let ghost ps = pending_views(pending@);
    let mut r: Vec<WorkItem> = Vec::new();
    let mut i: usize = 0;
    assert(ps.take(0) == Seq::<(Seq<char>, nat)>::empty());
    assert(work_views(r@) == Seq::<(Seq<char>, Seq<Seq<char>>, nat)>::empty());
    while i < pending.len()
        invariant
            i <= pending@.len(),
            ps == pending_views(pending@),
            ew == string_views(words@),
            ew == expanded_words(string_views(first_wordlist@), string_views(extensions@), no_extension),
            work_views(r@) == recursion_items(
                ps.take(i as int),
                string_views(first_wordlist@),
                string_views(extensions@),
                no_extension,
            ),
        decreases pending@.len() - i,
    {
        let base = &pending[i].0;
        let depth = pending[i].1;
        let ghost before = work_views(r@);
        let mut j: usize = 0;
        while j < words.len()
            invariant
                j <= words@.len(),
                ew == string_views(words@),
                work_views(r@) == before + ew.take(j as int).map_values(
                    |w: Seq<char>| (base@, seq![w], depth as nat),
                ),
            decreases words@.len() - j,
        {
            let mut one: Vec<String> = Vec::new();
            one.push(words[j].clone());
            assert(string_views(one@) == seq![words@[j as int]@]);
            let ghost b2 = r@;
            let item = WorkItem { template: base.clone(), words: one, depth };
            r.push(item);
            assert(work_views(r@) == work_views(b2).push((base@, seq![words@[j as int]@], depth as nat)));
            assert(ew.take(j + 1) == ew.take(j as int).push(words@[j as int]@));
            j = j + 1;
        }
        assert(ew.take(words@.len() as int) == ew);
        assert(ps.take(i + 1).drop_last() == ps.take(i as int));
        assert(ps.take(i + 1).last() == (base@, depth as nat));
        i = i + 1;
    }
    assert(ps.take(pending@.len() as int) == ps);
    r
}

/// The work of the first pass: every item substituted into the target
/// template, at depth 0.
pub fn initial_work(template: &str, items: &[Vec<String>]) -> (r: Vec<WorkItem>)
    ensures
        r@.len() == items@.len(),
        forall|i: int|
            0 <= i < items@.len() ==> #[trigger] work_view(r@[i]) == (
                template@,
                string_views(items@[i]@),
                0nat,
            ),
{
    let mut r: Vec<WorkItem> = Vec::new();
    let mut i: usize = 0;
    while i < items.len()
        invariant
            i <= items@.len(),
            r@.len() == i,
            forall|k: int|
                0 <= k < i ==> #[trigger] work_view(r@[k]) == (
                    template@,
                    string_views(items@[k]@),
                    0nat,
                ),
        decreases items@.len() - i,
    {
        r.push(WorkItem { template: template.to_owned(), words: copy_strings(&items[i]), depth: 0 });
        i = i + 1;
    }
    r
}

/// The first-pass items of a target template, at depth 0.
pub open spec fn initial_items(template: Seq<char>, items: Seq<Seq<Seq<char>>>) -> Seq<
    (Seq<char>, Seq<Seq<char>>, nat),
> {
    items.map_values(|w: Seq<Seq<char>>| (template, w, 0nat))
}

/// The work of a resumed scan: the first pass on the target, whose first
/// `wordlist_position` items the resumed run skips, then the directories that
/// were pending when the scan was quit, each scanned below its base as
/// recursion does it.
pub fn resume_work(
    template: &str,
    items: &[Vec<String>],
    pending: &[(String, u32)],
    first_wordlist: &Vec<String>,
    extension_names: &[String],
    no_extension: bool,
) -> (r: Vec<WorkItem>)
    ensures
        work_views(r@) == initial_items(template@, list_views(items@)) + recursion_items(
            pending_views(pending@),
            string_views(first_wordlist@),
            dot_all(string_views(extension_names@)),
            no_extension,
        ),
{
    let mut r = initial_work(template, items);
    assert(work_views(r@) == initial_items(template@, list_views(items@)));
    let mut rest = recursion_work(pending, first_wordlist, extension_names, no_extension);
    let ghost a = r@;
    let ghost b = rest@;
    r.append(&mut rest);
    assert(work_views(a + b) == work_views(a) + work_views(b));
    r
}

/// The items of one batch of the scan loop: the first batch is the first
/// pass followed by the work of the directories it starts with (those saved
/// by a quit run; none on a fresh run); a later batch is the work of the
/// directories drained from the recursion queue.
pub open spec fn batch_items(
    first_batch: bool,
    template: Seq<char>,
    items: Seq<Seq<Seq<char>>>,
    dirs: Seq<(Seq<char>, nat)>,
    words: Seq<Seq<char>>,
    exts: Seq<Seq<char>>,
    no_ext: bool,
) -> Seq<(Seq<char>, Seq<Seq<char>>, nat)> {
    if first_batch {
        initial_items(template, items) + recursion_items(dirs, words, exts, no_ext)
    } else {
        recursion_items(dirs, words, exts, no_ext)
    }
}

/// The position saved when the loop stops at item `index` of a batch: in the
/// first batch the index itself; in a later one, past the whole first pass.
pub open spec fn saved_position(first_batch: bool, first_len: nat, index: nat) -> nat {
    if first_batch {
        index
    } else {
        first_len + index
    }
}

/// Where a quit run resumes: the saved position (see [`saved_position`]),
/// and the directories still to scan, those of the interrupted batch first,
/// then those waiting in the recursion queue.
pub fn quit_point(
    first_batch: bool,
    first_len: usize,
    batch_index: usize,
    batch_dirs: Vec<(String, u32)>,
    queued: Vec<(String, u32)>,
) -> (r: (usize, Vec<(String, u32)>))
    requires
        !first_batch ==> first_len + batch_index <= usize::MAX,
    ensures
        r.0 == saved_position(first_batch, first_len as nat, batch_index as nat),
        r.1@ == batch_dirs@ + queued@,
{
    let position = if first_batch {
        batch_index
    } else {
        first_len + batch_index
    };
    let mut pending = batch_dirs;
    let mut rest = queued;
    pending.append(&mut rest);
    (position, pending)
}

proof fn lemma_recursion_items_append(
    a: Seq<(Seq<char>, nat)>,
    b: Seq<(Seq<char>, nat)>,
    words: Seq<Seq<char>>,
    exts: Seq<Seq<char>>,
    no_ext: bool,
)
    ensures
        recursion_items(a + b, words, exts, no_ext) == recursion_items(a, words, exts, no_ext)
            + recursion_items(b, words, exts, no_ext),
    decreases b.len(),
{
    if b.len() == 0 {
        assert(a + b == a);
    } else {
        assert((a + b).drop_last() == a + b.drop_last());
        assert((a + b).last() == b.last());
        lemma_recursion_items_append(a, b.drop_last(), words, exts, no_ext);
    }
}

/// Quitting anywhere and resuming loses and repeats nothing. Say the loop
/// stops at item `i` of a batch, having handled the items before it. The run
/// resumed from the saved state (its work is [`resume_work`] of the saved
/// directories, and it skips the items before the saved position) skips
/// exactly the first pass, where the quit batch is a later one, and the
/// handled items of the quit batch; it sends the rest of that batch and then
/// the work of the directories that were queued.
pub proof fn quit_anywhere_then_resume(
    first_batch: bool,
    template: Seq<char>,
    items: Seq<Seq<Seq<char>>>,
    dirs: Seq<(Seq<char>, nat)>,
    queued: Seq<(Seq<char>, nat)>,
    words: Seq<Seq<char>>,
    exts: Seq<Seq<char>>,
    no_ext: bool,
    i: nat,
)
    requires
        i <= batch_items(first_batch, template, items, dirs, words, exts, no_ext).len(),
    ensures
        ({
            let batch = batch_items(first_batch, template, items, dirs, words, exts, no_ext);
            let resumed = initial_items(template, items) + recursion_items(
                dirs + queued,
                words,
                exts,
                no_ext,
            );
            let p = saved_position(first_batch, items.len(), i);
            &&& p <= resumed.len()
            &&& resumed.skip(p as int) == batch.skip(i as int) + recursion_items(
                queued,
                words,
                exts,
                no_ext,
            )
            &&& first_batch ==> resumed.take(p as int) == batch.take(i as int)
            &&& !first_batch ==> resumed.take(p as int) == initial_items(template, items)
                + batch.take(i as int)
        }),
{
    lemma_recursion_items_append(dirs, queued, words, exts, no_ext);
    let init = initial_items(template, items);
    let rd = recursion_items(dirs, words, exts, no_ext);
    let rq = recursion_items(queued, words, exts, no_ext);
    let resumed = init + recursion_items(dirs + queued, words, exts, no_ext);
    assert(resumed == init + rd + rq);
    if first_batch {
        assert((init + rd + rq).skip(i as int) == (init + rd).skip(i as int) + rq);
        assert((init + rd + rq).take(i as int) == (init + rd).take(i as int));
    } else {
        assert(init.len() == items.len());
        assert((init + rd + rq).skip((items.len() + i) as int) == rd.skip(i as int) + rq);
        assert((init + rd + rq).take((items.len() + i) as int) == init + rd.take(i as int));
    }
}

/// The keyword/value pairs of a work item: the i-th keyword with the i-th
/// word, as far as both go.
pub open spec fn zip_pairs(kws: Seq<Seq<char>>, item: Seq<Seq<char>>) -> Seq<(Seq<char>, Seq<char>)> {
    Seq::new(
        if kws.len() <= item.len() {
            kws.len()
        } else {
            item.len()
        },
        |i: int| (kws[i], item[i]),
    )
}

/// Pairs each keyword with the word of the item at the same position.
pub fn substitution_pairs<'a>(keywords: &[&'a str], item: &'a [String]) -> (r: Vec<(&'a str, &'a str)>)
    ensures
        pair_views(r@) == zip_pairs(str_views(keywords@), string_views(item@)),
{
    let n = if keywords.len() <= item.len() {
        keywords.len()
    } else {
        item.len()
    };
    let mut r: Vec<(&'a str, &'a str)> = Vec::new();
    let mut i: usize = 0;
    while i < n
        invariant
            i <= n,
            n == zip_pairs(str_views(keywords@), string_views(item@)).len(),
            n <= keywords@.len(),
            n <= item@.len(),
            pair_views(r@) == zip_pairs(str_views(keywords@), string_views(item@)).take(i as int),
        decreases n - i,
    {
        let ghost before = r@;
        r.push((keywords[i], item[i].as_str()));
        assert(pair_views(r@) == pair_views(before).push((keywords@[i as int]@, item@[i as int]@)));
        assert(zip_pairs(str_views(keywords@), string_views(item@)).take(i + 1) == zip_pairs(
            str_views(keywords@),
            string_views(item@),
        ).take(i as int).push((keywords@[i as int]@, item@[i as int]@)));
        i = i + 1;
    }
    assert(zip_pairs(str_views(keywords@), string_views(item@)).take(n as int) == zip_pairs(
        str_views(keywords@),
        string_views(item@),
    ));
    r
}

/// The URL of a request: the template with the item substituted, and a `/`
/// appended when asked for and not already last.
pub open spec fn request_url_text(
    template: Seq<char>,
    kws: Seq<Seq<char>>,
    item: Seq<Seq<char>>,
    add_slash: bool,
) -> Seq<char> {
    let u = apply_subs(template, zip_pairs(kws, item));
    if add_slash && !last_is(u, '/') {
        u.push('/')
    } else {
        u
    }
}

/// With `add_slash`, a request URL always ends with `/`.
pub proof fn add_slash_ends_with_slash(template: Seq<char>, kws: Seq<Seq<char>>, item: Seq<Seq<char>>)
    ensures
        last_is(request_url_text(template, kws, item, true), '/'),
{
}

/// A one-word item is requested at its template with the first keyword
/// replaced by the word: so recursion items, whose templates are the bases
/// below the directories found, are requested below those directories.
pub proof fn one_word_request_fills_first_keyword(template: Seq<char>, kws: Seq<Seq<char>>, w: Seq<char>)
    requires
        kws.len() >= 1,
    ensures
        request_url_text(template, kws, seq![w], false) == replace_all(template, kws[0], w),
{
    let z = zip_pairs(kws, seq![w]);
    assert(z.len() == 1);
    assert(z.drop_last().len() == 0);
    assert(apply_subs(template, z.drop_last()) == template);
    assert(z.last() == (kws[0], w));
}

/// Builds the URL of a request for a work item.
pub fn request_url(template: &str, keywords: &[&str], item: &[String], add_slash: bool) -> (u: String)
    ensures
        u@ == request_url_text(template@, str_views(keywords@), string_views(item@), add_slash),
{
    let subs = substitution_pairs(keywords, item);
    let url = build_url(template, subs.as_slice());
    let mut v = chars_of(url.as_str());
    if add_slash && !(v.len() > 0 && v[v.len() - 1] == '/') {
        v.push('/');
    }
    string_from(v.as_slice())
}

/// The headers of a request: its substituted headers when they all parse,
/// else the headers parsed from the options.
pub fn request_headers(fuzzed: &[String], parsed: Vec<(String, String)>) -> (r: Vec<(String, String)>)
    ensures
        match parsed_headers(string_views(fuzzed@)) {
            Ok(ps) => pair_string_views(r@) == ps,
            Err(_) => r == parsed,
        },
{
    match parse_headers(fuzzed) {
        Ok(h) => h,
        Err(_) => parsed,
    }
}

/// What is sent for a work item: the URL, the headers and the body.
pub struct RequestPlan {
    pub url: String,
    pub headers: Vec<(String, String)>,
    pub data: Option<String>,
}

/// The header templates of the options with an item's words substituted.
pub open spec fn substituted_headers(
    templates: Seq<Seq<char>>,
    kws: Seq<Seq<char>>,
    words: Seq<Seq<char>>,
) -> Seq<Seq<char>> {
    templates.map_values(|t: Seq<char>| apply_subs(t, zip_pairs(kws, words)))
}

/// The request for a work item: its template with its words substituted for
/// the keywords (and a `/` added when asked for), the header templates with
/// the words substituted and parsed (the headers parsed from the options when
/// they do not all parse), and the body template with the words substituted.
pub fn request_plan(
    work: &WorkItem,
    keywords: &[&str],
    header_templates: &[String],
    data_template: &Option<String>,
    add_slash: bool,
    parsed: Vec<(String, String)>,
) -> (p: RequestPlan)
    ensures
        p.url@ == request_url_text(
            work.template@,
            str_views(keywords@),
            string_views(work.words@),
            add_slash,
        ),
        match parsed_headers(
            substituted_headers(
                string_views(header_templates@),
                str_views(keywords@),
                string_views(work.words@),
            ),
        ) {
            Ok(ps) => pair_string_views(p.headers@) == ps,
            Err(_) => p.headers == parsed,
        },
        match data_template {
            Some(t) => p.data is Some && p.data->0@ == apply_subs(
                t@,
                zip_pairs(str_views(keywords@), string_views(work.words@)),
            ),
            None => p.data is None,
        },
{
    let url = request_url(work.template.as_str(), keywords, work.words.as_slice(), add_slash);
    let subs = substitution_pairs(keywords, work.words.as_slice());
    let fuzzed = build_headers(header_templates, subs.as_slice());
    assert(string_views(fuzzed@) =~= substituted_headers(
        string_views(header_templates@),
        str_views(keywords@),
        string_views(work.words@),
    ));
    let headers = request_headers(fuzzed.as_slice(), parsed);
    let data = build_data(data_template, subs.as_slice());
    RequestPlan { url, headers, data }
}

/// The new base for a directory found at `url`: `url` then `FUZZ`, with a
/// `/` between unless `url` already ends with one.
pub open spec fn recursion_base_text(url: Seq<char>) -> Seq<char> {
    if last_is(url, '/') {
        url + seq!['F', 'U', 'Z', 'Z']
    } else {
        url + seq!['/', 'F', 'U', 'Z', 'Z']
    }
}

/// The template that scans below a directory found at `url`.
pub fn recursion_base(url: &str) -> (b: String)
    ensures
        b@ == recursion_base_text(url@),
{
    let mut v = chars_of(url);
    if !(v.len() > 0 && v[v.len() - 1] == '/') {
        v.push('/');
    }
    v.push('F');
    v.push('U');
    v.push('Z');
    v.push('Z');
    string_from(v.as_slice())
}

/// The words of an item joined with commas.
pub open spec fn join_commas(items: Seq<Seq<char>>) -> Seq<char>
    decreases items.len(),
{
    if items.len() == 0 {
        Seq::empty()
    } else if items.len() == 1 {
        items[0]
    } else {
        join_commas(items.drop_last()) + seq![','] + items.last()
    }
}

/// Joins words with commas.
pub fn join_with_commas(items: &[String]) -> (s: String)
    ensures
        s@ == join_commas(string_views(items@)),
{
    let ghost iv = string_views(items@);
    let mut v: Vec<char> = Vec::new();
    let mut i: usize = 0;
    assert(iv.take(0) == Seq::<Seq<char>>::empty());
    while i < items.len()
        invariant
            i <= items@.len(),
            iv == string_views(items@),
            v@ == join_commas(iv.take(i as int)),
        decreases items@.len() - i,
    {
        if i > 0 {
            v.push(',');
        }
        append_chars(&mut v, chars_of(items[i].as_str()).as_slice());
        assert(iv.take(i + 1).drop_last() == iv.take(i as int));
        assert(iv.take(i + 1).last() == items@[i as int]@);
        if i == 0 {
            assert(iv.take(1) == seq![items@[0]@]);
            assert(join_commas(iv.take(1)) == items@[0]@);
        }
        i = i + 1;
    }
    assert(iv.take(items@.len() as int) == iv);
    string_from(v.as_slice())
}

/// The result record of a shown response for a work item at `depth`.
pub fn scan_result(url: String, resp: &ResponseData, depth: u32, item: &[String]) -> (r: ScanResult)
    ensures
        r.url == url,
        r.status == resp.status,
        r.size == resp.size,
        r.words == resp.words,
        r.lines == resp.lines,
        r.duration_ms == resp.duration_ms,
        r.redirect_to == resp.redirect_to,
        r.content_type == resp.content_type,
        r.depth == depth,
        r.input@ == join_commas(string_views(item@)),
{
    ScanResult {
        url,
        status: resp.status,
        size: resp.size,
        words: resp.words,
        lines: resp.lines,
        duration_ms: resp.duration_ms,
        redirect_to: resp.redirect_to.clone(),
        content_type: resp.content_type.clone(),
        depth,
        input: join_with_commas(item),
    }
}

/// What an attempt at a request came back with.
#[derive(Debug, Clone, Copy, PartialEq, Eq, Structural)]
pub enum AttemptOutcome {
    /// A response with this status.
    Response(u16),
    /// No response (connection error, timeout).
    Failed,
}

/// What to do after an attempt.
#[derive(Debug, Clone, Copy, PartialEq, Eq, Structural)]
pub enum RetryDecision {
    /// Keep the response.
    Accept,
    /// Wait this many milliseconds, then try again.
    RetryAfter(u64),
    /// Stop without a response.
    GiveUp,
}

/// The decision after an attempt, with its effect on the rate.
#[derive(Debug, Clone, Copy, PartialEq, Eq, Structural)]
pub struct RetryStep {
    /// Throttle the rate limiter.
    pub throttle: bool,
    /// Unthrottle the rate limiter.
    pub unthrottle: bool,
    pub decision: RetryDecision,
}

/// The retry policy. A 429 with auto-throttle throttles, and is retried
/// after 500 * 2^attempt ms while retries remain, else kept. Any other
/// response is kept, unthrottling first when auto-throttle is on and the rate
/// is throttled. A failure is retried after 200 * 2^attempt ms while retries
/// remain, else given up.
pub open spec fn retry_policy(
    attempt: nat,
    retries: nat,
    outcome: AttemptOutcome,
    no_auto_throttle: bool,
    throttled: bool,
) -> RetryStep {
    match outcome {
        AttemptOutcome::Response(status) => if status == 429 && !no_auto_throttle {
            RetryStep {
                throttle: true,
                unthrottle: false,
                decision: if attempt < retries {
                    RetryDecision::RetryAfter((500 * pow2(attempt)) as u64)
                } else {
                    RetryDecision::Accept
                },
            }
        } else {
            RetryStep {
                throttle: false,
                unthrottle: !no_auto_throttle && throttled,
                decision: RetryDecision::Accept,
            }
        },
        AttemptOutcome::Failed => RetryStep {
            throttle: false,
            unthrottle: false,
            decision: if attempt < retries {
                RetryDecision::RetryAfter((200 * pow2(attempt)) as u64)
            } else {
                RetryDecision::GiveUp
            },
        },
    }
}

fn backoff_ms(base: u64, attempt: u32) -> (ms: u64)
    requires
        base * pow2(attempt as nat) <= u64::MAX,
    ensures
        ms == base * pow2(attempt as nat),
{
    let mut ms: u64 = base;
    let mut k: u32 = 0;
    proof {
        lemma2_to64();
    }
    while k < attempt
        invariant
            k <= attempt,
            ms == base * pow2(k as nat),
            base * pow2(attempt as nat) <= u64::MAX,
        decreases attempt - k,
    {
        proof {
            if k + 1 < attempt {
                lemma_pow2_strictly_increases((k + 1) as nat, attempt as nat);
            }
            lemma_pow2_unfold((k + 1) as nat);
            assert(ms * 2 == base * pow2((k + 1) as nat)) by (nonlinear_arith)
                requires
                    ms == base * pow2(k as nat),
                    pow2((k + 1) as nat) == 2 * pow2(k as nat),
            ;
            assert(base * pow2((k + 1) as nat) <= base * pow2(attempt as nat)) by (nonlinear_arith)
                requires
                    pow2((k + 1) as nat) <= pow2(attempt as nat),
                    base >= 0,
            ;
        }
        ms = ms * 2;
        k = k + 1;
    }
    ms
}

/// The backoff that an attempt calls for fits in 64 bits (beyond, the
/// multiplication overflows).
pub open spec fn backoff_fits(attempt: nat, retries: nat, outcome: AttemptOutcome, no_auto_throttle: bool) -> bool {
    attempt < retries ==> match outcome {
        AttemptOutcome::Response(status) => (status == 429 && !no_auto_throttle) ==> 500 * pow2(
            attempt,
        ) <= u64::MAX,
        AttemptOutcome::Failed => 200 * pow2(attempt) <= u64::MAX,
    }
}

/// Whether [`retry_step`] can compute the backoff for this attempt.
pub fn backoff_in_range(attempt: u32, retries: u32, outcome: AttemptOutcome, no_auto_throttle: bool) -> (b: bool)
    ensures
        b == backoff_fits(attempt as nat, retries as nat, outcome, no_auto_throttle),
{
    proof {
        lemma2_to64();
        lemma2_to64_rest();
    }
    if attempt >= retries {
        return true;
    }
    let base: u64 = match outcome {
        AttemptOutcome::Response(status) => if status == 429 && !no_auto_throttle {
            500
        } else {
            return true;
        },
        AttemptOutcome::Failed => 200,
    };
    if attempt >= 64 {
        proof {
            if attempt > 64 {
                lemma_pow2_strictly_increases(64, attempt as nat);
            }
        }
        assert(pow2(attempt as nat) >= 0x10000000000000000);
        assert(base * pow2(attempt as nat) > u64::MAX) by (nonlinear_arith)
            requires
                base >= 200,
                pow2(attempt as nat) >= 0x10000000000000000,
        ;
        return false;
    }
    proof {
        vstd::bits::lemma_u64_pow2_no_overflow(attempt as nat);
    }
    let p: u64 = backoff_ms(1, attempt);
    assert(p == pow2(attempt as nat));
    let fits = p <= u64::MAX / base;
    assert(fits == (base * pow2(attempt as nat) <= u64::MAX)) by (nonlinear_arith)
        requires
            p == pow2(attempt as nat),
            fits == (p <= u64::MAX / base),
            base > 0,
    ;
    fits
}

/// Retries are bounded: the last attempt never asks for another.
pub proof fn last_attempt_never_retries(retries: nat, outcome: AttemptOutcome, no_auto_throttle: bool, throttled: bool)
    ensures
        !(retry_policy(retries, retries, outcome, no_auto_throttle, throttled).decision is RetryAfter),
{
}

/// With auto-throttle on, a 429 always throttles and never unthrottles; with
/// it off, the rate is never touched.
pub proof fn throttle_only_on_429(attempt: nat, retries: nat, outcome: AttemptOutcome, no_auto_throttle: bool, throttled: bool)
    ensures
        ({
            let s = retry_policy(attempt, retries, outcome, no_auto_throttle, throttled);
            &&& s.throttle <==> (!no_auto_throttle && outcome == AttemptOutcome::Response(429))
            &&& !(s.throttle && s.unthrottle)
            &&& no_auto_throttle ==> !s.unthrottle
        }),
{
}

/// Decides what to do after an attempt of a request (attempts count from 0;
/// there are `retries + 1` of them).
pub fn retry_step(
    attempt: u32,
    retries: u32,
    outcome: AttemptOutcome,
    no_auto_throttle: bool,
    throttled: bool,
) -> (s: RetryStep)
    requires
        attempt <= retries,
        backoff_fits(attempt as nat, retries as nat, outcome, no_auto_throttle),
    ensures
        s == retry_policy(attempt as nat, retries as nat, outcome, no_auto_throttle, throttled),
{
    match outcome {
        AttemptOutcome::Response(status) => {
            if status == 429 && !no_auto_throttle {
                let decision = if attempt < retries {
                    RetryDecision::RetryAfter(backoff_ms(500, attempt))
                } else {
                    RetryDecision::Accept
                };
                RetryStep { throttle: true, unthrottle: false, decision }
            } else {
                RetryStep {
                    throttle: false,
                    unthrottle: !no_auto_throttle && throttled,
                    decision: RetryDecision::Accept,
                }
            }
        },
        AttemptOutcome::Failed => {
            let decision = if attempt < retries {
                RetryDecision::RetryAfter(backoff_ms(200, attempt))
            } else {
                RetryDecision::GiveUp
            };
            RetryStep { throttle: false, unthrottle: false, decision }
        },
    }
}

/// What the scan loop does with the work item at `index` (counting every
/// item handed to the loop, from 0).
#[derive(Debug, Clone, Copy, PartialEq, Eq, Structural)]
pub enum WorkStep {
    /// The item was handled by the run being resumed: count it, send nothing.
    Skip,
    /// Quit was asked for: stop here; `index` is where a resumed run starts.
    Stop,
    /// Send the item's request.
    Send,
}

/// The step for the item at `index` when resuming from `resume_offset`, with
/// `quit` telling whether quit was asked for.
pub open spec fn work_step_for(index: nat, resume_offset: nat, quit: bool) -> WorkStep {
    if index < resume_offset {
        WorkStep::Skip
    } else if quit {
        WorkStep::Stop
    } else {
        WorkStep::Send
    }
}

/// Decides what to do with the work item at `index`.
pub fn work_step(index: usize, resume_offset: usize, quit: bool) -> (s: WorkStep)
    ensures
        s == work_step_for(index as nat, resume_offset as nat, quit),
{
    if index < resume_offset {
        WorkStep::Skip
    } else if quit {
        WorkStep::Stop
    } else {
        WorkStep::Send
    }
}

/// Where a run that resumes from `offset` and sees quit from item `quit_at`
/// on stops: the first item it neither skips nor sends.
pub open spec fn stop_index(offset: nat, quit_at: nat) -> nat {
    if quit_at > offset {
        quit_at
    } else {
        offset
    }
}

/// Quitting and resuming loses and repeats nothing. A run that resumes from
/// `offset` and sees quit from item `quit_at` on stops at `stop_index`, which
/// is the position it saves; the run resumed from there (with no quit) and
/// the first run together send every item from `offset` on exactly once.
pub proof fn quit_then_resume_sends_each_item_once(offset: nat, quit_at: nat, i: nat)
    ensures
        work_step_for(stop_index(offset, quit_at), offset, stop_index(offset, quit_at) >= quit_at)
            == WorkStep::Stop,
        i < stop_index(offset, quit_at) ==> work_step_for(i, offset, i >= quit_at) != WorkStep::Stop,
        ({
            let first = work_step_for(i, offset, i >= quit_at) == WorkStep::Send && i < stop_index(
                offset,
                quit_at,
            );
            let second = work_step_for(i, stop_index(offset, quit_at), false) == WorkStep::Send;
            &&& (first || second) <==> i >= offset
            &&& !(first && second)
        }),
{
}

/// The output file formats.
#[derive(Debug, Clone, Copy, PartialEq, Eq, Structural)]
pub enum OutputFormat {
    Json,
    Jsonl,
    Csv,
    Text,
}

/// The format named by `name`, if any.
pub open spec fn format_named(name: Seq<char>) -> Option<OutputFormat> {
    if name == seq!['j', 's', 'o', 'n'] {
        Some(OutputFormat::Json)
    } else if name == seq!['j', 's', 'o', 'n', 'l'] {
        Some(OutputFormat::Jsonl)
    } else if name == seq!['c', 's', 'v'] {
        Some(OutputFormat::Csv)
    } else if name == seq!['t', 'e', 'x', 't'] {
        Some(OutputFormat::Text)
    } else {
        None
    }
}

/// Reads an output format name: json, jsonl, csv or text.
pub fn output_format(name: &str) -> (r: Result<OutputFormat, ScanError>)
    ensures
        match format_named(name@) {
            Some(f) => r == Ok::<OutputFormat, ScanError>(f),
            None => r matches Err(ScanError::UnknownOutputFormat(s)) && s@ == name@,
        },
{
    let n = chars_of(name);
    let json = ['j', 's', 'o', 'n'];
    let jsonl = ['j', 's', 'o', 'n', 'l'];
    let csv = ['c', 's', 'v'];
    let text = ['t', 'e', 'x', 't'];
    if crate::text::chars_eq(n.as_slice(), json.as_slice()) {
        Ok(OutputFormat::Json)
    } else if crate::text::chars_eq(n.as_slice(), jsonl.as_slice()) {
        Ok(OutputFormat::Jsonl)
    } else if crate::text::chars_eq(n.as_slice(), csv.as_slice()) {
        Ok(OutputFormat::Csv)
    } else if crate::text::chars_eq(n.as_slice(), text.as_slice()) {
        Ok(OutputFormat::Text)
    } else {
        Err(ScanError::UnknownOutputFormat(name.to_owned()))
    }
}


/// An optional comma-separated list of status codes; none when absent.
pub open spec fn opt_codes(o: Option<String>) -> Result<Seq<nat>, (Seq<char>, IntErrorKind)> {
    match o {
        Some(s) => parse_number_list(s@, 65535),
        None => Ok(Seq::empty()),
    }
}

/// An optional comma-separated list of numbers and ranges; none when absent.
pub open spec fn opt_ranges(o: Option<String>) -> Result<Seq<(nat, nat)>, (Seq<char>, IntErrorKind)> {
    match o {
        Some(s) => parse_range_list(s@),
        None => Ok(Seq::empty()),
    }
}

/// An optional regex option compiles (or is absent).
pub open spec fn opt_regex_ok(o: Option<String>) -> bool {
    match o {
        Some(p) => regex_compiles(p@),
        None => true,
    }
}

/// The list options in the order they are read, with whether each holds
/// status codes (the others hold numbers and ranges). Steps 4 and 9 are the
/// regex options.
pub open spec fn list_option(cli: &Cli, k: int) -> (Option<String>, bool) {
    if k == 0 {
        (Some(cli.match_code), true)
    } else if k == 1 {
        (cli.match_size, false)
    } else if k == 2 {
        (cli.match_words, false)
    } else if k == 3 {
        (cli.match_lines, false)
    } else if k == 5 {
        (cli.filter_code, true)
    } else if k == 6 {
        (cli.filter_size, false)
    } else if k == 7 {
        (cli.filter_words, false)
    } else {
        (cli.filter_lines, false)
    }
}

/// Step `k` of reading the rules succeeds.
pub open spec fn rule_step_ok(cli: &Cli, k: int) -> bool {
    if k == 4 {
        opt_regex_ok(cli.match_regex)
    } else if k == 9 {
        opt_regex_ok(cli.filter_regex)
    } else if list_option(cli, k).1 {
        opt_codes(list_option(cli, k).0) is Ok
    } else {
        opt_ranges(list_option(cli, k).0) is Ok
    }
}

/// `e` is the error that step `k` of reading the rules gives.
pub open spec fn rule_step_error(cli: &Cli, k: int, e: &ScanError) -> bool {
    if k == 4 {
        e matches ScanError::InvalidMatchRegex(FilterError::InvalidRegex(p)) && cli.match_regex matches Some(
            q,
        ) && p@ == q@
    } else if k == 9 {
        e matches ScanError::InvalidFilterRegex(FilterError::InvalidRegex(p)) && cli.filter_regex matches Some(
            q,
        ) && p@ == q@
    } else if list_option(cli, k).1 {
        match opt_codes(list_option(cli, k).0) {
            Err((t, kind)) => e matches ScanError::InvalidList(
                ListParseError::InvalidStatusCode { token, kind: kk },
            ) && token@ == t && kk == kind,
            Ok(_) => false,
        }
    } else {
        match opt_ranges(list_option(cli, k).0) {
            Err((t, kind)) => e matches ScanError::InvalidList(
                ListParseError::InvalidNumber { token, kind: kk },
            ) && token@ == t && kk == kind,
            Ok(_) => false,
        }
    }
}

/// Steps `0..k` of reading the rules all succeed.
pub open spec fn steps_ok_below(cli: &Cli, k: int) -> bool {
    forall|j: int| 0 <= j < k ==> rule_step_ok(cli, j)
}

proof fn lemma_next_step_ok(cli: &Cli, k: int)
    requires
        steps_ok_below(cli, k),
        rule_step_ok(cli, k),
    ensures
        steps_ok_below(cli, k + 1),
{
    assert forall|j: int| 0 <= j < k + 1 implies rule_step_ok(cli, j) by {
        if j < k {
            assert(steps_ok_below(cli, k));
        }
    }
}

pub open spec fn u16_nats(v: Seq<u16>) -> Seq<nat> {
    v.map_values(|x: u16| x as nat)
}

/// A regex rule holds the compiled option, or nothing when the option is absent.
pub open spec fn regex_from(p: Option<Pattern>, o: Option<String>) -> bool {
    match o {
        Some(s) => p matches Some(q) && q@ == s@,
        None => p is None,
    }
}

/// The rules read from the options.
pub open spec fn rules_from(c: &FilterConfig, cli: &Cli) -> bool {
    &&& opt_codes(Some(cli.match_code)) == Ok::<Seq<nat>, (Seq<char>, IntErrorKind)>(
        u16_nats(c.match_codes@),
    )
    &&& opt_ranges(cli.match_size) == Ok::<Seq<(nat, nat)>, (Seq<char>, IntErrorKind)>(
        range_views(c.match_sizes@),
    )
    &&& opt_ranges(cli.match_words) == Ok::<Seq<(nat, nat)>, (Seq<char>, IntErrorKind)>(
        range_views(c.match_words@),
    )
    &&& opt_ranges(cli.match_lines) == Ok::<Seq<(nat, nat)>, (Seq<char>, IntErrorKind)>(
        range_views(c.match_lines@),
    )
    &&& regex_from(c.match_regex, cli.match_regex)
    &&& c.match_time == cli.match_time
    &&& opt_codes(cli.filter_code) == Ok::<Seq<nat>, (Seq<char>, IntErrorKind)>(
        u16_nats(c.filter_codes@),
    )
    &&& opt_ranges(cli.filter_size) == Ok::<Seq<(nat, nat)>, (Seq<char>, IntErrorKind)>(
        range_views(c.filter_sizes@),
    )
    &&& opt_ranges(cli.filter_words) == Ok::<Seq<(nat, nat)>, (Seq<char>, IntErrorKind)>(
        range_views(c.filter_words@),
    )
    &&& opt_ranges(cli.filter_lines) == Ok::<Seq<(nat, nat)>, (Seq<char>, IntErrorKind)>(
        range_views(c.filter_lines@),
    )
    &&& regex_from(c.filter_regex, cli.filter_regex)
    &&& c.filter_time == cli.filter_time
}

fn codes_option(o: &Option<String>) -> (r: Result<Vec<u16>, ScanError>)
    ensures
        match opt_codes(*o) {
            Ok(vs) => r is Ok && u16_nats(r->Ok_0@) == vs,
            Err((t, kind)) => r matches Err(
                ScanError::InvalidList(ListParseError::InvalidStatusCode { token, kind: kk }),
            ) && token@ == t && kk == kind,
        },
{
    match o {
        Some(s) => match parse_status_codes(s.as_str()) {
            Ok(v) => Ok(v),
            Err(e) => Err(ScanError::InvalidList(e)),
        },
        None => {
            let v: Vec<u16> = Vec::new();
            assert(u16_nats(v@) == Seq::<nat>::empty());
            Ok(v)
        },
    }
}

fn ranges_option(o: &Option<String>) -> (r: Result<Vec<(u64, u64)>, ScanError>)
    ensures
        match opt_ranges(*o) {
            Ok(rs) => r is Ok && range_views(r->Ok_0@) == rs,
            Err((t, kind)) => r matches Err(
                ScanError::InvalidList(ListParseError::InvalidNumber { token, kind: kk }),
            ) && token@ == t && kk == kind,
        },
{
    match o {
        Some(s) => match parse_numeric_list(s.as_str()) {
            Ok(v) => Ok(v),
            Err(e) => Err(ScanError::InvalidList(e)),
        },
        None => {
            let v: Vec<(u64, u64)> = Vec::new();
            assert(range_views(v@) == Seq::<(nat, nat)>::empty());
            Ok(v)
        },
    }
}

fn regex_option(o: &Option<String>) -> (r: Result<Option<Pattern>, FilterError>)
    ensures
        r is Ok <==> opt_regex_ok(*o),
        r matches Ok(p) ==> regex_from(p, *o),
        r matches Err(e) ==> e matches FilterError::InvalidRegex(p) && o matches Some(q) && p@ == q@,
{
    match o {
        Some(s) => match Pattern::new(s.as_str()) {
            Ok(p) => Ok(Some(p)),
            Err(e) => Err(e),
        },
        None => Ok(None),
    }
}

/// Reads the match and filter rules from the options, in order: match codes,
/// sizes, words, lines, regex, then filter codes, sizes, words, lines, regex.
/// The first option that cannot be read gives the error.
pub fn filter_config_from(cli: &Cli) -> (r: Result<FilterConfig, ScanError>)
    ensures
        r is Ok <==> steps_ok_below(cli, 10),
        r matches Ok(c) ==> rules_from(&c, cli),
        r matches Err(e) ==> exists|k: int|
            0 <= k < 10 && steps_ok_below(cli, k) && !rule_step_ok(cli, k) && rule_step_error(
                cli,
                k,
                &e,
            ),
{
    let match_code = Some(cli.match_code.clone());
    assert(match_code == list_option(cli, 0).0);
    assert(steps_ok_below(cli, 0));
    let match_codes = match codes_option(&match_code) {
        Ok(v) => v,
        Err(e) => {
            assert(rule_step_error(cli, 0, &e));
            assert(!rule_step_ok(cli, 0));
            return Err(e);
        },
    };
    proof { lemma_next_step_ok(cli, 0); }
    let match_sizes = match ranges_option(&cli.match_size) {
        Ok(v) => v,
        Err(e) => {
            assert(rule_step_error(cli, 1, &e));
            assert(!rule_step_ok(cli, 1));
            return Err(e);
        },
    };
    proof { lemma_next_step_ok(cli, 1); }
    let match_words = match ranges_option(&cli.match_words) {
        Ok(v) => v,
        Err(e) => {
            assert(rule_step_error(cli, 2, &e));
            assert(!rule_step_ok(cli, 2));
            return Err(e);
        },
    };
    proof { lemma_next_step_ok(cli, 2); }
    let match_lines = match ranges_option(&cli.match_lines) {
        Ok(v) => v,
        Err(e) => {
            assert(rule_step_error(cli, 3, &e));
            assert(!rule_step_ok(cli, 3));
            return Err(e);
        },
    };
    proof { lemma_next_step_ok(cli, 3); }
    let match_regex = match regex_option(&cli.match_regex) {
        Ok(v) => v,
        Err(e) => {
            let e = ScanError::InvalidMatchRegex(e);
            assert(rule_step_error(cli, 4, &e));
            assert(!rule_step_ok(cli, 4));
            return Err(e);
        },
    };
    proof { lemma_next_step_ok(cli, 4); }
    let filter_codes = match codes_option(&cli.filter_code) {
        Ok(v) => v,
        Err(e) => {
            assert(rule_step_error(cli, 5, &e));
            assert(!rule_step_ok(cli, 5));
            return Err(e);
        },
    };
    proof { lemma_next_step_ok(cli, 5); }
    let filter_sizes = match ranges_option(&cli.filter_size) {
        Ok(v) => v,
        Err(e) => {
            assert(rule_step_error(cli, 6, &e));
            assert(!rule_step_ok(cli, 6));
            return Err(e);
        },
    };
    proof { lemma_next_step_ok(cli, 6); }
    let filter_words = match ranges_option(&cli.filter_words) {
        Ok(v) => v,
        Err(e) => {
            assert(rule_step_error(cli, 7, &e));
            assert(!rule_step_ok(cli, 7));
            return Err(e);
        },
    };
    proof { lemma_next_step_ok(cli, 7); }
    let filter_lines = match ranges_option(&cli.filter_lines) {
        Ok(v) => v,
        Err(e) => {
            assert(rule_step_error(cli, 8, &e));
            assert(!rule_step_ok(cli, 8));
            return Err(e);
        },
    };
    proof { lemma_next_step_ok(cli, 8); }
    let filter_regex = match regex_option(&cli.filter_regex) {
        Ok(v) => v,
        Err(e) => {
            let e = ScanError::InvalidFilterRegex(e);
            assert(rule_step_error(cli, 9, &e));
            assert(!rule_step_ok(cli, 9));
            return Err(e);
        },
    };
    proof { lemma_next_step_ok(cli, 9); }
    Ok(
        FilterConfig {
            match_codes,
            match_sizes,
            match_words,
            match_lines,
            match_regex,
            match_time: cli.match_time,
            filter_codes,
            filter_sizes,
            filter_words,
            filter_lines,
            filter_regex,
            filter_time: cli.filter_time,
        },
    )
}

} // verus!

//! FUZZ keywords: where they occur in a request template, and substituting
//! wordlist entries for them.
use vstd::prelude::*;
use crate::text::{contains, digit_char, replace_all, replace_str, str_contains, string_views};

verus! {

/// Where a FUZZ keyword was found.
#[derive(Debug, Clone, PartialEq)]
pub enum FuzzPosition {
    /// The keyword (FUZZ, FUZ2Z, ...) occurs in the URL.
    Url(String),
    /// The keyword occurs in the header with this index.
    Header(usize, String),
    /// The keyword occurs in the POST data.
    Data(String),
}

/// The mathematical model of a [`FuzzPosition`].
pub enum FuzzSite {
    Url(Seq<char>),
    Header(nat, Seq<char>),
    Data(Seq<char>),
}

impl View for FuzzPosition {
    type V = FuzzSite;

    open spec fn view(&self) -> FuzzSite {
        match self {
            FuzzPosition::Url(k) => FuzzSite::Url(k@),
            FuzzPosition::Header(i, k) => FuzzSite::Header(*i as nat, k@),
            FuzzPosition::Data(k) => FuzzSite::Data(k@),
        }
    }
}

/// How many keywords there are: FUZZ and FUZ2Z through FUZ9Z.
pub open spec fn keyword_count() -> nat {
    9
}

/// The `i`-th keyword: FUZZ for the first wordlist, FUZ{i+1}Z after it.
pub open spec fn fuzz_keyword(i: int) -> Seq<char> {
    if i == 0 {
        seq!['F', 'U', 'Z', 'Z']
    } else {
        seq!['F', 'U', 'Z', digit_char((i + 1) as nat), 'Z']
    }
}

/// The first `n` keywords, at most all nine.
pub open spec fn keyword_list(n: nat) -> Seq<Seq<char>> {
    Seq::new(if n < keyword_count() { n } else { keyword_count() }, |i: int| fuzz_keyword(i))
}

/// The views of a sequence of string slices.
pub open spec fn str_views(v: Seq<&str>) -> Seq<Seq<char>> {
    v.map_values(|s: &str| s@)
}

fn keyword_at(i: usize) -> (k: &'static str)
    requires
        i < keyword_count(),
    ensures
        k@ == fuzz_keyword(i as int),
{
    proof {
        reveal_strlit("FUZZ");
        reveal_strlit("FUZ2Z");
        reveal_strlit("FUZ3Z");
        reveal_strlit("FUZ4Z");
        reveal_strlit("FUZ5Z");
        reveal_strlit("FUZ6Z");
        reveal_strlit("FUZ7Z");
        reveal_strlit("FUZ8Z");
        reveal_strlit("FUZ9Z");
    }
    match i {
        0 => "FUZZ",
        1 => "FUZ2Z",
        2 => "FUZ3Z",
        3 => "FUZ4Z",
        4 => "FUZ5Z",
        5 => "FUZ6Z",
        6 => "FUZ7Z",
        7 => "FUZ8Z",
        _ => "FUZ9Z",
    }
}

/// The keywords for `count` wordlists: FUZZ, FUZ2Z, ..., at most nine.
pub fn fuzz_keywords(count: usize) -> (r: Vec<&'static str>)
    ensures
        r@.len() == keyword_list(count as nat).len(),
        str_views(r@) == keyword_list(count as nat),
{
    let n: usize = if count < 9 { count } else { 9 };
    let mut r: Vec<&'static str> = Vec::new();
    let mut i: usize = 0;
    while i < n
        invariant
            i <= n <= 9,
            n == keyword_list(count as nat).len(),
            str_views(r@) == keyword_list(count as nat).take(i as int),
        decreases n - i,
    {
        let k = keyword_at(i);
        let ghost before = r@;
        r.push(k);
        assert(str_views(r@) == str_views(before).push(k@));
        assert(keyword_list(count as nat).take(i + 1) == keyword_list(count as nat).take(
            i as int,
        ).push(fuzz_keyword(i as int)));
        i = i + 1;
    }
    assert(keyword_list(count as nat).take(n as int) == keyword_list(count as nat));
    assert(r@.len() == str_views(r@).len());
    r
}

/// The keywords among `kws` that occur in `s`, in the order of `kws`.
pub open spec fn keyword_hits(s: Seq<char>, kws: Seq<Seq<char>>) -> Seq<Seq<char>>
    decreases kws.len(),
{
    if kws.len() == 0 {
        Seq::empty()
    } else {
        let r = keyword_hits(s, kws.drop_last());
        if contains(s, kws.last()) {
            r.push(kws.last())
        } else {
            r
        }
    }
}

/// The positions found in the headers, header by header.
pub open spec fn header_sites(hs: Seq<Seq<char>>) -> Seq<FuzzSite>
    decreases hs.len(),
{
    if hs.len() == 0 {
        Seq::empty()
    } else {
        header_sites(hs.drop_last()) + keyword_hits(hs.last(), keyword_list(9)).map_values(
            |k: Seq<char>| FuzzSite::Header((hs.len() - 1) as nat, k),
        )
    }
}

/// All keyword positions: URL first, then each header in order, then the data.
pub open spec fn fuzz_sites(url: Seq<char>, headers: Seq<Seq<char>>, data: Option<Seq<char>>) -> Seq<
    FuzzSite,
> {
    keyword_hits(url, keyword_list(9)).map_values(|k: Seq<char>| FuzzSite::Url(k)) + header_sites(
        headers,
    ) + match data {
        Some(d) => keyword_hits(d, keyword_list(9)).map_values(|k: Seq<char>| FuzzSite::Data(k)),
        None => Seq::empty(),
    }
}

proof fn lemma_first_keyword_hit(s: Seq<char>, kws: Seq<Seq<char>>)
    requires
        kws.len() >= 1,
        contains(s, kws[0]),
    ensures
        keyword_hits(s, kws).len() >= 1,
        keyword_hits(s, kws)[0] == kws[0],
    decreases kws.len(),
{
    if kws.len() > 1 {
        assert(kws.drop_last()[0] == kws[0]);
        lemma_first_keyword_hit(s, kws.drop_last());
        let r = keyword_hits(s, kws.drop_last());
        assert(r.push(kws.last())[0] == r[0]);
    } else {
        assert(kws.drop_last().len() == 0);
        assert(keyword_hits(s, kws.drop_last()) == Seq::<Seq<char>>::empty());
        assert(kws.last() == kws[0]);
        assert(Seq::<Seq<char>>::empty().push(kws[0])[0] == kws[0]);
    }
}

/// A URL that contains FUZZ is always detected: its first position is the
/// URL with FUZZ, whatever the headers and data hold.
pub proof fn url_with_fuzz_is_detected(url: Seq<char>, headers: Seq<Seq<char>>, data: Option<Seq<char>>)
    requires
        contains(url, fuzz_keyword(0)),
    ensures
        fuzz_sites(url, headers, data).len() >= 1,
        fuzz_sites(url, headers, data)[0] == FuzzSite::Url(fuzz_keyword(0)),
{
    lemma_first_keyword_hit(url, keyword_list(9));
}

/// `k` is one of the nine keywords FUZZ, FUZ2Z, ..., FUZ9Z.
pub open spec fn is_keyword(k: Seq<char>) -> bool {
    exists|i: int| 0 <= i < 9 && k == #[trigger] fuzz_keyword(i)
}

proof fn lemma_keyword_list_members(k: Seq<char>)
    ensures
        keyword_list(9).contains(k) <==> is_keyword(k),
{
    broadcast use vstd::seq_lib::group_seq_properties;

    if is_keyword(k) {
        let i = choose|i: int| 0 <= i < 9 && k == #[trigger] fuzz_keyword(i);
        assert(keyword_list(9)[i] == k);
    }
    if keyword_list(9).contains(k) {
        let i = choose|i: int| 0 <= i < keyword_list(9).len() && keyword_list(9)[i] == k;
        assert(k == fuzz_keyword(i));
    }
}

proof fn lemma_keyword_hits_members(s: Seq<char>, kws: Seq<Seq<char>>, k: Seq<char>)
    ensures
        keyword_hits(s, kws).contains(k) <==> (kws.contains(k) && contains(s, k)),
    decreases kws.len(),
{
    broadcast use vstd::seq_lib::group_seq_properties;

    if kws.len() > 0 {
        lemma_keyword_hits_members(s, kws.drop_last(), k);
        assert(kws == kws.drop_last().push(kws.last()));
    }
}

proof fn lemma_site_map_members(hits: Seq<Seq<char>>, k: Seq<char>, i: nat, j: nat)
    ensures
        hits.map_values(|x: Seq<char>| FuzzSite::Url(x)).contains(FuzzSite::Url(k))
            <==> hits.contains(k),
        hits.map_values(|x: Seq<char>| FuzzSite::Data(x)).contains(FuzzSite::Data(k))
            <==> hits.contains(k),
        hits.map_values(|x: Seq<char>| FuzzSite::Header(j, x)).contains(FuzzSite::Header(i, k))
            <==> (i == j && hits.contains(k)),
        !hits.map_values(|x: Seq<char>| FuzzSite::Url(x)).contains(FuzzSite::Data(k)),
        !hits.map_values(|x: Seq<char>| FuzzSite::Header(j, x)).contains(FuzzSite::Data(k)),
        !hits.map_values(|x: Seq<char>| FuzzSite::Header(j, x)).contains(FuzzSite::Url(k)),
        !hits.map_values(|x: Seq<char>| FuzzSite::Data(x)).contains(FuzzSite::Url(k)),
        !hits.map_values(|x: Seq<char>| FuzzSite::Url(x)).contains(FuzzSite::Header(i, k)),
        !hits.map_values(|x: Seq<char>| FuzzSite::Data(x)).contains(FuzzSite::Header(i, k)),
{
    broadcast use vstd::seq_lib::group_seq_properties;

    if hits.contains(k) {
        let n = choose|n: int| 0 <= n < hits.len() && hits[n] == k;
        assert(hits.map_values(|x: Seq<char>| FuzzSite::Url(x))[n] == FuzzSite::Url(k));
        assert(hits.map_values(|x: Seq<char>| FuzzSite::Data(x))[n] == FuzzSite::Data(k));
        assert(hits.map_values(|x: Seq<char>| FuzzSite::Header(j, x))[n] == FuzzSite::Header(j, k));
    }
}

proof fn lemma_header_site_members(hs: Seq<Seq<char>>, i: nat, k: Seq<char>)
    ensures
        header_sites(hs).contains(FuzzSite::Header(i, k)) <==> (i < hs.len() && is_keyword(k)
            && contains(hs[i as int], k)),
        !header_sites(hs).contains(FuzzSite::Url(k)),
        !header_sites(hs).contains(FuzzSite::Data(k)),
    decreases hs.len(),
{
    broadcast use vstd::seq_lib::group_seq_properties;

    if hs.len() > 0 {
        let last = (hs.len() - 1) as nat;
        let hits = keyword_hits(hs.last(), keyword_list(9));
        lemma_header_site_members(hs.drop_last(), i, k);
        lemma_site_map_members(hits, k, i, last);
        lemma_keyword_hits_members(hs.last(), keyword_list(9), k);
        lemma_keyword_list_members(k);
        if i < last {
            assert(hs.drop_last()[i as int] == hs[i as int]);
        }
    }
}

/// The URL positions found are exactly the keywords the URL contains: every
/// keyword in the URL is reported, and nothing else.
pub proof fn url_sites_are_the_keywords_in_the_url(
    url: Seq<char>,
    headers: Seq<Seq<char>>,
    data: Option<Seq<char>>,
    k: Seq<char>,
)
    ensures
        fuzz_sites(url, headers, data).contains(FuzzSite::Url(k)) <==> (is_keyword(k) && contains(
            url,
            k,
        )),
{
    broadcast use vstd::seq_lib::group_seq_properties;

    let hits = keyword_hits(url, keyword_list(9));
    lemma_site_map_members(hits, k, 0, 0);
    lemma_keyword_hits_members(url, keyword_list(9), k);
    lemma_keyword_list_members(k);
    lemma_header_site_members(headers, 0, k);
    match data {
        Some(d) => {
            lemma_site_map_members(keyword_hits(d, keyword_list(9)), k, 0, 0);
        },
        None => {},
    }
}

/// The header positions found are exactly the keywords each header contains:
/// `Header(i, k)` is reported exactly when header `i` exists and contains the
/// keyword `k`.
pub proof fn header_sites_are_the_keywords_in_each_header(
    url: Seq<char>,
    headers: Seq<Seq<char>>,
    data: Option<Seq<char>>,
    i: nat,
    k: Seq<char>,
)
    ensures
        fuzz_sites(url, headers, data).contains(FuzzSite::Header(i, k)) <==> (i < headers.len()
            && is_keyword(k) && contains(headers[i as int], k)),
{
    broadcast use vstd::seq_lib::group_seq_properties;

    lemma_site_map_members(keyword_hits(url, keyword_list(9)), k, i, 0);
    lemma_header_site_members(headers, i, k);
    match data {
        Some(d) => {
            lemma_site_map_members(keyword_hits(d, keyword_list(9)), k, i, 0);
        },
        None => {},
    }
}

/// The POST-data positions found are exactly the keywords the data contains:
/// every keyword in the data is reported (not just the first), nothing else
/// is, and without data there are none.
pub proof fn data_sites_are_the_keywords_in_the_data(
    url: Seq<char>,
    headers: Seq<Seq<char>>,
    data: Option<Seq<char>>,
    k: Seq<char>,
)
    ensures
        fuzz_sites(url, headers, data).contains(FuzzSite::Data(k)) <==> (data matches Some(d)
            && is_keyword(k) && contains(d, k)),
{
    broadcast use vstd::seq_lib::group_seq_properties;

    lemma_site_map_members(keyword_hits(url, keyword_list(9)), k, 0, 0);
    lemma_header_site_members(headers, 0, k);
    lemma_keyword_list_members(k);
    match data {
        Some(d) => {
            lemma_site_map_members(keyword_hits(d, keyword_list(9)), k, 0, 0);
            lemma_keyword_hits_members(d, keyword_list(9), k);
        },
        None => {},
    }
}

proof fn lemma_keyword_hits_is_filter(s: Seq<char>, kws: Seq<Seq<char>>)
    ensures
        keyword_hits(s, kws) == kws.filter(|k: Seq<char>| contains(s, k)),
    decreases kws.len(),
{
    reveal_with_fuel(Seq::filter, 1);
    if kws.len() > 0 {
        lemma_keyword_hits_is_filter(s, kws.drop_last());
    }
}

/// Detection, position by position: the URL's keywords first, then for each
/// header in order the keywords it contains, then the data's keywords; each
/// time exactly the keywords FUZZ, FUZ2Z, ..., FUZ9Z that occur in that text,
/// in keyword order, each once.
pub proof fn detection_lists_contained_keywords_in_order(
    url: Seq<char>,
    headers: Seq<Seq<char>>,
    h: Seq<char>,
    d: Seq<char>,
)
    ensures
        fuzz_sites(url, Seq::empty(), None) == keyword_list(9).filter(
            |k: Seq<char>| contains(url, k),
        ).map_values(|k: Seq<char>| FuzzSite::Url(k)),
        fuzz_sites(url, headers.push(h), None) == fuzz_sites(url, headers, None) + keyword_list(
            9,
        ).filter(|k: Seq<char>| contains(h, k)).map_values(
            |k: Seq<char>| FuzzSite::Header(headers.len(), k),
        ),
        fuzz_sites(url, headers, Some(d)) == fuzz_sites(url, headers, None) + keyword_list(9).filter(
            |k: Seq<char>| contains(d, k),
        ).map_values(|k: Seq<char>| FuzzSite::Data(k)),
{
    lemma_keyword_hits_is_filter(url, keyword_list(9));
    lemma_keyword_hits_is_filter(h, keyword_list(9));
    lemma_keyword_hits_is_filter(d, keyword_list(9));
    let u = keyword_hits(url, keyword_list(9)).map_values(|k: Seq<char>| FuzzSite::Url(k));
    assert(header_sites(Seq::<Seq<char>>::empty()) == Seq::<FuzzSite>::empty());
    assert(fuzz_sites(url, Seq::empty(), None) =~= u);
    assert(headers.push(h).drop_last() == headers);
    assert(fuzz_sites(url, headers.push(h), None) =~= fuzz_sites(url, headers, None) + keyword_hits(
        h,
        keyword_list(9),
    ).map_values(|k: Seq<char>| FuzzSite::Header(headers.len(), k)));
    assert(fuzz_sites(url, headers, Some(d)) =~= fuzz_sites(url, headers, None) + keyword_hits(
        d,
        keyword_list(9),
    ).map_values(|k: Seq<char>| FuzzSite::Data(k)));
}

/// No position is reported twice.
pub proof fn no_keyword_is_reported_twice_per_text(s: Seq<char>)
    ensures
        keyword_list(9).filter(|k: Seq<char>| contains(s, k)).no_duplicates(),
{
    assert forall|i: int, j: int| 0 <= i < j < 9 implies fuzz_keyword(i) != fuzz_keyword(j) by {
        if i == 0 {
            assert(fuzz_keyword(i).len() != fuzz_keyword(j).len());
        } else {
            assert(fuzz_keyword(i)[3] != fuzz_keyword(j)[3]);
        }
    }
    assert(keyword_list(9).no_duplicates());
    lemma_filter_keeps_no_duplicates(keyword_list(9), |k: Seq<char>| contains(s, k));
}

proof fn lemma_filter_keeps_no_duplicates(v: Seq<Seq<char>>, p: spec_fn(Seq<char>) -> bool)
    requires
        v.no_duplicates(),
    ensures
        v.filter(p).no_duplicates(),
    decreases v.len(),
{
    reveal_with_fuel(Seq::filter, 1);
    broadcast use vstd::seq_lib::group_seq_properties;
    broadcast use vstd::seq::group_seq_axioms;

    if v.len() > 0 {
        let w = v.drop_last();
        assert(w.no_duplicates());
        lemma_filter_keeps_no_duplicates(w, p);
        if p(v.last()) {
            assert(!w.contains(v.last()));
            assert forall|x: Seq<char>| w.filter(p).contains(x) implies w.contains(x) by {
                w.lemma_filter_contains_rev(p, x);
            }
            assert(!w.filter(p).contains(v.last()));
            let f = w.filter(p);
            assert forall|i: int, j: int| 0 <= i < f.push(v.last()).len() && 0 <= j < f.push(v.last()).len() && i != j implies f.push(v.last())[i] != f.push(v.last())[j] by {
                if i < f.len() && j < f.len() {
                } else if i < f.len() {
                    assert(f.contains(f[i]));
                } else if j < f.len() {
                    assert(f.contains(f[j]));
                }
            }
        }
    }
}

pub open spec fn site_views(v: Seq<FuzzPosition>) -> Seq<FuzzSite> {
    v.map_values(|p: FuzzPosition| p@)
}

/// The keywords that occur in `s`, in keyword order.
fn hits_in(s: &str) -> (r: Vec<&'static str>)
    ensures
        str_views(r@) == keyword_hits(s@, keyword_list(9)),
{
    let all = fuzz_keywords(9);
    let mut r: Vec<&'static str> = Vec::new();
    let mut i: usize = 0;
    while i < all.len()
        invariant
            i <= all@.len(),
            str_views(all@) == keyword_list(9),
            str_views(r@) == keyword_hits(s@, str_views(all@).take(i as int)),
        decreases all@.len() - i,
    {
        let k = all[i];
        let ghost before = r@;
        assert(str_views(all@).take(i + 1).drop_last() == str_views(all@).take(i as int));
        assert(str_views(all@)[i as int] == k@);
        if str_contains(s, k) {
            r.push(k);
            assert(str_views(r@) == str_views(before).push(k@));
        }
        i = i + 1;
    }
    assert(str_views(all@).take(all@.len() as int) == str_views(all@));
    r
}

/// Every position of a FUZZ keyword in the URL, the headers and the POST data,
/// in that order; within each, keywords in the order FUZZ, FUZ2Z, ..., FUZ9Z.
pub fn detect_fuzz_positions(url: &str, headers: &[String], data: &Option<String>) -> (r: Vec<
    FuzzPosition,
>)
    ensures
        site_views(r@) == fuzz_sites(
            url@,
            string_views(headers@),
            match data {
                Some(d) => Some(d@),
                None => None,
            },
        ),
{
    let mut r: Vec<FuzzPosition> = Vec::new();
    let url_hits = hits_in(url);
    let mut j: usize = 0;
    while j < url_hits.len()
        invariant
            j <= url_hits@.len(),
            site_views(r@) == str_views(url_hits@).take(j as int).map_values(
                |k: Seq<char>| FuzzSite::Url(k),
            ),
        decreases url_hits@.len() - j,
    {
        let ghost before = r@;
        r.push(FuzzPosition::Url(url_hits[j].to_owned()));
        assert(site_views(r@) == site_views(before).push(FuzzSite::Url(url_hits@[j as int]@)));
        assert(str_views(url_hits@).take(j + 1) == str_views(url_hits@).take(j as int).push(
            url_hits@[j as int]@,
        ));
        j = j + 1;
    }
    assert(str_views(url_hits@).take(url_hits@.len() as int) == str_views(url_hits@));
    let ghost url_part = site_views(r@);
    let mut h: usize = 0;
    while h < headers.len()
        invariant
            h <= headers@.len(),
            site_views(r@) == url_part + header_sites(string_views(headers@).take(h as int)),
        decreases headers@.len() - h,
    {
        let hh = hits_in(headers[h].as_str());
        let ghost start = site_views(r@);
        let mut j: usize = 0;
        while j < hh.len()
            invariant
                j <= hh@.len(),
                h < headers@.len(),
                site_views(r@) == start + str_views(hh@).take(j as int).map_values(
                    |k: Seq<char>| FuzzSite::Header(h as nat, k),
                ),
            decreases hh@.len() - j,
        {
            let ghost before = r@;
            r.push(FuzzPosition::Header(h, hh[j].to_owned()));
            assert(site_views(r@) == site_views(before).push(
                FuzzSite::Header(h as nat, hh@[j as int]@),
            ));
            assert(str_views(hh@).take(j + 1) == str_views(hh@).take(j as int).push(
                hh@[j as int]@,
            ));
            j = j + 1;
        }
        assert(str_views(hh@).take(hh@.len() as int) == str_views(hh@));
        assert(string_views(headers@).take(h + 1).drop_last() == string_views(headers@).take(
            h as int,
        ));
        assert(string_views(headers@).take(h + 1).last() == headers@[h as int]@);
        h = h + 1;
    }
    assert(string_views(headers@).take(headers@.len() as int) == string_views(headers@));
    let ghost head_part = site_views(r@);
    match data {
        Some(d) => {
            let dh = hits_in(d.as_str());
            let mut j: usize = 0;
            while j < dh.len()
                invariant
                    j <= dh@.len(),
                    site_views(r@) == head_part + str_views(dh@).take(j as int).map_values(
                        |k: Seq<char>| FuzzSite::Data(k),
                    ),
                decreases dh@.len() - j,
            {
                let ghost before = r@;
                r.push(FuzzPosition::Data(dh[j].to_owned()));
                assert(site_views(r@) == site_views(before).push(FuzzSite::Data(dh@[j as int]@)));
                assert(str_views(dh@).take(j + 1) == str_views(dh@).take(j as int).push(
                    dh@[j as int]@,
                ));
                j = j + 1;
            }
            assert(str_views(dh@).take(dh@.len() as int) == str_views(dh@));
        },
        None => {
            assert(site_views(r@) == head_part + Seq::<FuzzSite>::empty());
        },
    }
    r
}

/// Replaces every occurrence of `keyword` in `template` with `value`.
pub fn substitute(template: &str, value: &str, keyword: &str) -> (r: String)
    ensures
        r@ == replace_all(template@, keyword@, value@),
{
    replace_str(template, keyword, value)
}

/// The views of keyword/value pairs.
pub open spec fn pair_views(subs: Seq<(&str, &str)>) -> Seq<(Seq<char>, Seq<char>)> {
    subs.map_values(|p: (&str, &str)| (p.0@, p.1@))
}

/// `t` after substituting each pair's value for its keyword, pair by pair in
/// order, each on the result of the previous ones.
pub open spec fn apply_subs(t: Seq<char>, subs: Seq<(Seq<char>, Seq<char>)>) -> Seq<char>
    decreases subs.len(),
{
    if subs.len() == 0 {
        t
    } else {
        replace_all(apply_subs(t, subs.drop_last()), subs.last().0, subs.last().1)
    }
}

/// Builds the URL by substituting every keyword/value pair in order.
pub fn build_url(template: &str, substitutions: &[(&str, &str)]) -> (r: String)
    ensures
        r@ == apply_subs(template@, pair_views(substitutions@)),
{
    let mut result = template.to_owned();
    let mut i: usize = 0;
    while i < substitutions.len()
        invariant
            i <= substitutions@.len(),
            result@ == apply_subs(template@, pair_views(substitutions@).take(i as int)),
        decreases substitutions@.len() - i,
    {
        let (keyword, value) = substitutions[i];
        result = substitute(result.as_str(), value, keyword);
        assert(pair_views(substitutions@).take(i + 1).drop_last() == pair_views(
            substitutions@,
        ).take(i as int));
        i = i + 1;
    }
    assert(pair_views(substitutions@).take(substitutions@.len() as int) == pair_views(
        substitutions@,
    ));
    result
}

/// Builds each header by substituting every keyword/value pair in order.
pub fn build_headers(templates: &[String], substitutions: &[(&str, &str)]) -> (r: Vec<String>)
    ensures
        r@.len() == templates@.len(),
        forall|i: int|
            0 <= i < templates@.len() ==> #[trigger] r@[i]@ == apply_subs(
                templates@[i]@,
                pair_views(substitutions@),
            ),
{
    let mut r: Vec<String> = Vec::new();
    let mut i: usize = 0;
    while i < templates.len()
        invariant
            i <= templates@.len(),
            r@.len() == i,
            forall|j: int|
                0 <= j < i ==> #[trigger] r@[j]@ == apply_subs(
                    templates@[j]@,
                    pair_views(substitutions@),
                ),
        decreases templates@.len() - i,
    {
        r.push(build_url(templates[i].as_str(), substitutions));
        i = i + 1;
    }
    r
}

/// Builds the POST data, if any, by substituting every pair in order.
pub fn build_data(template: &Option<String>, substitutions: &[(&str, &str)]) -> (r: Option<String>)
    ensures
        match template {
            Some(t) => r is Some && r->0@ == apply_subs(t@, pair_views(substitutions@)),
            None => r is None,
        },
{
    match template {
        Some(t) => Some(build_url(t.as_str(), substitutions)),
        None => None,
    }
}

} // verus!

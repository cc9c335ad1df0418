//! Wordlists: parsing their text, combining several of them, and expanding
//! words with file extensions.
use vstd::prelude::*;
use crate::text::{
    chars_of, split_chars, split_on, string_from, string_views, trim, trim_chars, views,
};

verus! {

/// Why a wordlist could not be used.
#[derive(Debug, Clone, PartialEq, Eq)]
pub enum WordlistError {
    /// After dropping blank lines and comments nothing was left.
    Empty,
}

/// A line that stays in a wordlist: not blank and not a `#` comment.
pub open spec fn keeps_line(t: Seq<char>) -> bool {
    t.len() > 0 && t[0] != '#'
}

/// The trimmed lines of `lines` that are kept, in order.
pub open spec fn kept_words(lines: Seq<Seq<char>>) -> Seq<Seq<char>>
    decreases lines.len(),
{
    if lines.len() == 0 {
        Seq::empty()
    } else {
        let r = kept_words(lines.drop_last());
        let t = trim(lines.last());
        if keeps_line(t) {
            r.push(t)
        } else {
            r
        }
    }
}

/// The words of a wordlist file: each line trimmed, blank lines and lines
/// starting with `#` dropped.
pub open spec fn wordlist_words(content: Seq<char>) -> Seq<Seq<char>> {
    kept_words(split_on(content, '\n'))
}

/// Every word of a wordlist is non-empty and is not a comment.
pub proof fn words_are_kept_lines(lines: Seq<Seq<char>>, i: int)
    requires
        0 <= i < kept_words(lines).len(),
    ensures
        keeps_line(kept_words(lines)[i]),
    decreases lines.len(),
{
    if lines.len() > 0 {
        let r = kept_words(lines.drop_last());
        if i < r.len() {
            words_are_kept_lines(lines.drop_last(), i);
            if keeps_line(trim(lines.last())) {
                assert(kept_words(lines)[i] == r[i]);
            }
        }
    }
}

/// The words of the wordlist text `content`; an error if none is left.
pub fn parse_wordlist(content: &str) -> (r: Result<Vec<String>, WordlistError>)
    ensures
        match r {
            Ok(words) => string_views(words@) == wordlist_words(content@) && words@.len() > 0,
            Err(e) => e == WordlistError::Empty && wordlist_words(content@).len() == 0,
        },
{
    let chars = chars_of(content);
    let lines = split_chars(chars.as_slice(), '\n');
    let mut words: Vec<String> = Vec::new();
    let mut i: usize = 0;
    while i < lines.len()
        invariant
            i <= lines@.len(),
            views(lines@) == split_on(content@, '\n'),
            string_views(words@) == kept_words(views(lines@).take(i as int)),
        decreases lines@.len() - i,
    {
        let t = trim_chars(lines[i].as_slice());
        let ghost before = words@;
        assert(views(lines@).take(i + 1).drop_last() == views(lines@).take(i as int));
        assert(views(lines@).take(i + 1).last() == lines@[i as int]@);
        if t.len() > 0 && t[0] != '#' {
            words.push(string_from(t.as_slice()));
            assert(string_views(words@) == string_views(before).push(t@));
        }
        i = i + 1;
    }
    assert(views(lines@).take(lines@.len() as int) == views(lines@));
    if words.len() == 0 {
        Err(WordlistError::Empty)
    } else {
        Ok(words)
    }
}

/// One single-word combination for each word of `items`.
pub open spec fn singletons(items: Seq<Seq<char>>) -> Seq<Seq<Seq<char>>> {
    items.map_values(|w: Seq<char>| seq![w])
}

/// Each combination of `combos`, in order, extended by each item of `items`,
/// in order.
pub open spec fn extend(combos: Seq<Seq<Seq<char>>>, items: Seq<Seq<char>>) -> Seq<Seq<Seq<char>>>
    decreases combos.len(),
{
    if combos.len() == 0 {
        Seq::empty()
    } else {
        extend(combos.drop_last(), items) + items.map_values(|w: Seq<char>| combos.last().push(w))
    }
}

/// The cartesian product of the lists, in lexicographic order: the first list
/// varies slowest. No lists give no combinations.
pub open spec fn product(lists: Seq<Seq<Seq<char>>>) -> Seq<Seq<Seq<char>>>
    decreases lists.len(),
{
    if lists.len() == 0 {
        Seq::empty()
    } else if lists.len() == 1 {
        singletons(lists[0])
    } else {
        extend(product(lists.drop_last()), lists.last())
    }
}

/// The product of the lengths of the lists.
pub open spec fn lengths_product(lists: Seq<Seq<Seq<char>>>) -> nat
    decreases lists.len(),
{
    if lists.len() == 0 {
        1
    } else {
        lengths_product(lists.drop_last()) * lists.last().len()
    }
}

proof fn lemma_extend_len(c: Seq<Seq<Seq<char>>>, items: Seq<Seq<char>>)
    ensures
        extend(c, items).len() == c.len() * items.len(),
    decreases c.len(),
{
    if c.len() > 0 {
        lemma_extend_len(c.drop_last(), items);
        let n = c.len() as int;
        let m = items.len() as int;
        assert((n - 1) * m + m == n * m) by (nonlinear_arith);
    }
}

proof fn lemma_extend_index(c: Seq<Seq<Seq<char>>>, items: Seq<Seq<char>>, k: int) -> (ab: (int, int))
    requires
        0 <= k < extend(c, items).len(),
    ensures
        0 <= ab.0 < c.len(),
        0 <= ab.1 < items.len(),
        extend(c, items)[k] == c[ab.0].push(items[ab.1]),
    decreases c.len(),
{
    let init = c.drop_last();
    let tail = items.map_values(|w: Seq<char>| c.last().push(w));
    let front = extend(init, items);
    assert(extend(c, items) == front + tail);
    if k < front.len() {
        let ab = lemma_extend_index(init, items, k);
        assert(init[ab.0] == c[ab.0]);
        ab
    } else {
        let b = k - front.len();
        assert(extend(c, items)[k] == tail[b]);
        (c.len() - 1, b)
    }
}

proof fn lemma_extend_contains(c: Seq<Seq<Seq<char>>>, items: Seq<Seq<char>>, a: int, b: int)
    requires
        0 <= a < c.len(),
        0 <= b < items.len(),
    ensures
        extend(c, items).contains(c[a].push(items[b])),
    decreases c.len(),
{
    let init = c.drop_last();
    let tail = items.map_values(|w: Seq<char>| c.last().push(w));
    let front = extend(init, items);
    assert(extend(c, items) == front + tail);
    if a == c.len() - 1 {
        assert(extend(c, items)[front.len() + b] == tail[b]);
    } else {
        lemma_extend_contains(init, items, a, b);
        assert(init[a] == c[a]);
        let i = choose|i: int| 0 <= i < front.len() && front[i] == init[a].push(items[b]);
        assert(extend(c, items)[i] == front[i]);
    }
}

/// The number of combinations is the product of the lengths of the lists.
pub proof fn product_len_is_product_of_lengths(lists: Seq<Seq<Seq<char>>>)
    requires
        lists.len() >= 1,
    ensures
        product(lists).len() == lengths_product(lists),
    decreases lists.len(),
{
    if lists.len() == 1 {
        assert(lists.drop_last().len() == 0);
        assert(lists.last() == lists[0]);
        assert(singletons(lists[0]).len() == lists[0].len());
        assert(lengths_product(lists.drop_last()) == 1);
        assert(lengths_product(lists) == 1 * lists.last().len());
        assert(1 * lists.last().len() == lists.last().len()) by (nonlinear_arith);
    } else {
        product_len_is_product_of_lengths(lists.drop_last());
        lemma_extend_len(product(lists.drop_last()), lists.last());
    }
}

/// Every combination takes exactly one word from each list, in list order.
pub proof fn product_members_pick_one_from_each(lists: Seq<Seq<Seq<char>>>, k: int)
    requires
        0 <= k < product(lists).len(),
    ensures
        product(lists)[k].len() == lists.len(),
        forall|i: int| 0 <= i < lists.len() ==> lists[i].contains(#[trigger] product(lists)[k][i]),
    decreases lists.len(),
{
    if lists.len() == 1 {
        assert(product(lists)[k] == seq![lists[0][k]]);
        assert forall|i: int| 0 <= i < lists.len() implies lists[i].contains(
            #[trigger] product(lists)[k][i],
        ) by {
            assert(lists[0][k] == product(lists)[k][0]);
        }
    } else {
        let init = lists.drop_last();
        let ab = lemma_extend_index(product(init), lists.last(), k);
        product_members_pick_one_from_each(init, ab.0);
        let p = product(init)[ab.0];
        let w = lists.last()[ab.1];
        assert(product(lists)[k] == p.push(w));
        assert forall|i: int| 0 <= i < lists.len() implies lists[i].contains(
            #[trigger] product(lists)[k][i],
        ) by {
            if i < lists.len() - 1 {
                assert(init[i] == lists[i]);
                assert(product(lists)[k][i] == p[i]);
            } else {
                assert(product(lists)[k][i] == w);
            }
        }
    }
}

/// Every way of taking one word from each list is among the combinations.
pub proof fn product_contains_every_pick(lists: Seq<Seq<Seq<char>>>, pick: Seq<Seq<char>>)
    requires
        lists.len() >= 1,
        pick.len() == lists.len(),
        forall|i: int| 0 <= i < lists.len() ==> lists[i].contains(#[trigger] pick[i]),
    ensures
        product(lists).contains(pick),
    decreases lists.len(),
{
    if lists.len() == 1 {
        assert(lists[0].contains(pick[0]));
        let b = choose|b: int| 0 <= b < lists[0].len() && lists[0][b] == pick[0];
        assert(product(lists)[b] == seq![lists[0][b]]);
        assert(pick == seq![pick[0]]);
    } else {
        let init = lists.drop_last();
        let p = pick.drop_last();
        assert forall|i: int| 0 <= i < init.len() implies init[i].contains(#[trigger] p[i]) by {
            assert(init[i] == lists[i]);
            assert(p[i] == pick[i]);
        }
        product_contains_every_pick(init, p);
        let a = choose|a: int| 0 <= a < product(init).len() && product(init)[a] == p;
        assert(lists.last().contains(pick[pick.len() - 1]));
        let b = choose|b: int|
            0 <= b < lists.last().len() && lists.last()[b] == pick[pick.len() - 1];
        lemma_extend_contains(product(init), lists.last(), a, b);
        assert(p.push(pick.last()) == pick);
    }
}

/// The views of a sequence of wordlists.
pub open spec fn list_views(v: Seq<Vec<String>>) -> Seq<Seq<Seq<char>>> {
    v.map_values(|l: Vec<String>| string_views(l@))
}

pub(crate) fn copy_strings(v: &Vec<String>) -> (r: Vec<String>)
    ensures
        string_views(r@) == string_views(v@),
{
    let mut r: Vec<String> = Vec::new();
    let mut i: usize = 0;
    while i < v.len()
        invariant
            i <= v@.len(),
            string_views(r@) == string_views(v@).take(i as int),
        decreases v@.len() - i,
    {
        let ghost before = r@;
        r.push(v[i].clone());
        assert(string_views(r@) == string_views(before).push(v@[i as int]@));
        assert(string_views(v@).take(i + 1) == string_views(v@).take(i as int).push(
            v@[i as int]@,
        ));
        i = i + 1;
    }
    assert(string_views(v@).take(v@.len() as int) == string_views(v@));
    r
}

/// Every combination of one word from each list, the first list varying
/// slowest.
pub fn cartesian_product(lists: &[Vec<String>]) -> (r: Vec<Vec<String>>)
    ensures
        list_views(r@) == product(list_views(lists@)),
{
    if lists.len() == 0 {
        return Vec::new();
    }
    let ghost lv = list_views(lists@);
    let mut result: Vec<Vec<String>> = Vec::new();
    let first = &lists[0];
    let mut i: usize = 0;
    while i < first.len()
        invariant
            i <= first@.len(),
            first == lists@[0],
            list_views(result@) == singletons(string_views(first@)).take(i as int),
        decreases first@.len() - i,
    {
        let mut one: Vec<String> = Vec::new();
        one.push(first[i].clone());
        assert(string_views(one@) == seq![first@[i as int]@]);
        let ghost before = result@;
        result.push(one);
        assert(list_views(result@) == list_views(before).push(seq![first@[i as int]@]));
        assert(singletons(string_views(first@)).take(i + 1) == singletons(
            string_views(first@),
        ).take(i as int).push(seq![first@[i as int]@]));
        i = i + 1;
    }
    assert(singletons(string_views(first@)).take(first@.len() as int) == singletons(
        string_views(first@),
    ));
    assert(lv.take(1) == seq![lv[0]]);
    let mut l: usize = 1;
    while l < lists.len()
        invariant
            1 <= l <= lists@.len(),
            lv == list_views(lists@),
            list_views(result@) == product(lv.take(l as int)),
        decreases lists@.len() - l,
    {
        let list = &lists[l];
        let ghost combos = list_views(result@);
        let ghost items = string_views(list@);
        let mut next: Vec<Vec<String>> = Vec::new();
        let mut e: usize = 0;
        while e < result.len()
            invariant
                e <= result@.len(),
                combos == list_views(result@),
                items == string_views(list@),
                list_views(next@) == extend(combos.take(e as int), items),
            decreases result@.len() - e,
        {
            let existing = &result[e];
            let ghost mid = list_views(next@);
            let mut j: usize = 0;
            while j < list.len()
                invariant
                    j <= list@.len(),
                    e < result@.len(),
                    existing == result@[e as int],
                    items == string_views(list@),
                    list_views(next@) == mid + items.take(j as int).map_values(
                        |w: Seq<char>| string_views(existing@).push(w),
                    ),
                decreases list@.len() - j,
            {
                let mut combo = copy_strings(existing);
                combo.push(list[j].clone());
                let ghost before = next@;
                assert(string_views(combo@) == string_views(existing@).push(list@[j as int]@));
                next.push(combo);
                assert(list_views(next@) == list_views(before).push(
                    string_views(existing@).push(list@[j as int]@),
                ));
                assert(items.take(j + 1) == items.take(j as int).push(list@[j as int]@));
                j = j + 1;
            }
            assert(items.take(list@.len() as int) == items);
            assert(combos.take(e + 1).drop_last() == combos.take(e as int));
            assert(combos.take(e + 1).last() == string_views(existing@));
            e = e + 1;
        }
        assert(combos.take(result@.len() as int) == combos);
        assert(lv.take(l + 1).drop_last() == lv.take(l as int));
        assert(lv.take(l + 1).last() == items);
        result = next;
        l = l + 1;
    }
    assert(lv.take(lists@.len() as int) == lv);
    result
}

/// The candidates for one word: the bare word when there are no extensions
/// or `no_extension` is set, then the word followed by each extension as
/// given.
pub open spec fn expansions(word: Seq<char>, extensions: Seq<Seq<char>>, no_extension: bool) -> Seq<
    Seq<char>,
> {
    (if extensions.len() == 0 || no_extension {
        seq![word]
    } else {
        Seq::empty()
    }) + extensions.map_values(|e: Seq<char>| word + e)
}

/// A word yields one candidate per extension, plus the bare word when there
/// are no extensions or `no_extension` is set.
pub proof fn expansion_count(word: Seq<char>, extensions: Seq<Seq<char>>, no_extension: bool)
    ensures
        expansions(word, extensions, no_extension).len() == extensions.len() + if extensions.len()
            == 0 || no_extension {
            1nat
        } else {
            0nat
        },
{
}

/// Expands a word with the given extensions, appended as given (`index`
/// with `.php` gives `index.php`).
pub fn expand_with_extensions(word: &str, extensions: &[String], no_extension: bool) -> (r: Vec<
    String,
>)
    ensures
        string_views(r@) == expansions(word@, string_views(extensions@), no_extension),
{
    let mut results: Vec<String> = Vec::new();
    if extensions.len() == 0 || no_extension {
        results.push(word.to_owned());
    }
    let ghost head = string_views(results@);
    let w = chars_of(word);
    let mut i: usize = 0;
    while i < extensions.len()
        invariant
            i <= extensions@.len(),
            w@ == word@,
            string_views(results@) == head + string_views(extensions@).take(i as int).map_values(
                |e: Seq<char>| word@ + e,
            ),
        decreases extensions@.len() - i,
    {
        let mut buf = w.clone();
        let ext = chars_of(extensions[i].as_str());
        crate::text::append_chars(&mut buf, ext.as_slice());
        assert(buf@ == word@ + extensions@[i as int]@);
        let ghost before = results@;
        results.push(string_from(buf.as_slice()));
        assert(string_views(results@) == string_views(before).push(word@ + extensions@[i as int]@));
        assert(string_views(extensions@).take(i + 1) == string_views(extensions@).take(i as int).push(
            extensions@[i as int]@,
        ));
        i = i + 1;
    }
    assert(string_views(extensions@).take(extensions@.len() as int) == string_views(extensions@));
    results
}

} // verus!

//! Recursive discovery: which responses are directories, and the queue of
//! directories still to scan.
use std::collections::VecDeque;
use vstd::prelude::*;
use crate::text::{chars_eq, chars_of, contains, str_contains, string_views};

verus! {

/// The last character of `s` is `c`.
pub open spec fn last_is(s: Seq<char>, c: char) -> bool {
    s.len() > 0 && s.last() == c
}

/// A response names a directory: a 301 or 302 whose location ends with `/`,
/// or else a 200 for a path that ends with `/`.
pub open spec fn directory_response(status: u16, location: Option<Seq<char>>, path: Seq<char>) -> bool {
    if (status == 301 || status == 302) && location is Some {
        last_is(location->0, '/')
    } else {
        status == 200 && last_is(path, '/')
    }
}

fn last_char_is(s: &str, c: char) -> (b: bool)
    ensures
        b == last_is(s@, c),
{
    let v = chars_of(s);
    v.len() > 0 && v[v.len() - 1] == c
}

/// Whether a response names a directory that recursion can descend into.
pub fn is_directory_response(status: u16, redirect_location: Option<&str>, path: &str) -> (b: bool)
    ensures
        b == directory_response(
            status,
            match redirect_location {
                Some(l) => Some(l@),
                None => None,
            },
            path@,
        ),
{
    if status == 301 || status == 302 {
        if let Some(loc) = redirect_location {
            return last_char_is(loc, '/');
        }
    }
    if status == 200 && last_char_is(path, '/') {
        return true;
    }
    false
}

/// A redirect is a directory exactly when its location ends with `/`: a 301
/// or 302 to a location without a trailing `/` (a login page, say) is never
/// descended into, whatever the path.
pub proof fn redirect_is_directory_iff_location_ends_with_slash(
    status: u16,
    location: Seq<char>,
    path: Seq<char>,
)
    requires
        status == 301 || status == 302,
    ensures
        directory_response(status, Some(location), path) <==> (location.len() > 0
            && location[location.len() - 1] == '/'),
{
}

/// A 200 is a directory exactly when its path ends with `/`; any status other
/// than 200, 301 and 302 never is, and neither is a 301 or 302 without a
/// location.
pub proof fn other_responses_are_directories_only_as_200_with_slash(
    status: u16,
    location: Option<Seq<char>>,
    path: Seq<char>,
)
    ensures
        status == 200 ==> (directory_response(status, location, path) <==> (path.len() > 0
            && path[path.len() - 1] == '/')),
        status != 200 && status != 301 && status != 302 ==> !directory_response(
            status,
            location,
            path,
        ),
        (status == 301 || status == 302) && location is None ==> !directory_response(
            status,
            location,
            path,
        ),
{
}

/// The mathematical model of a [`RecursionQueue`].
pub struct QueueModel {
    pub max_depth: nat,
    pub exclude: Seq<Seq<char>>,
    /// Every path ever accepted, in order of acceptance.
    pub seen: Seq<Seq<char>>,
    /// The pending paths with their depths, oldest first.
    pub queue: Seq<(Seq<char>, nat)>,
}

/// `path` contains one of the exclusion patterns.
pub open spec fn excluded(path: Seq<char>, patterns: Seq<Seq<char>>) -> bool {
    exists|i: int| 0 <= i < patterns.len() && contains(path, #[trigger] patterns[i])
}

/// Whether `add(path, depth)` accepts the path.
pub open spec fn accepts(m: QueueModel, path: Seq<char>, depth: nat) -> bool {
    depth < m.max_depth && !excluded(path, m.exclude) && !m.seen.contains(path)
}

/// The queue after `add(path, depth)`.
pub open spec fn after_add(m: QueueModel, path: Seq<char>, depth: nat) -> QueueModel {
    if accepts(m, path, depth) {
        QueueModel { seen: m.seen.push(path), queue: m.queue.push((path, depth + 1)), ..m }
    } else {
        m
    }
}

/// The queue after `pop()`.
pub open spec fn after_pop(m: QueueModel) -> QueueModel {
    if m.queue.len() == 0 {
        m
    } else {
        QueueModel { queue: m.queue.drop_first(), ..m }
    }
}

/// What `pop()` returns.
pub open spec fn popped(m: QueueModel) -> Option<(Seq<char>, nat)> {
    if m.queue.len() == 0 {
        None
    } else {
        Some(m.queue[0])
    }
}

/// The queue's invariant: no path is seen twice, every pending path has been
/// seen, no path is pending twice, and every pending depth is between 1 and
/// the maximum depth.
pub open spec fn model_wf(m: QueueModel) -> bool {
    &&& m.seen.no_duplicates()
    &&& forall|i: int| 0 <= i < m.queue.len() ==> m.seen.contains(#[trigger] m.queue[i].0)
    &&& forall|i: int, j: int|
        0 <= i < j < m.queue.len() ==> #[trigger] m.queue[i].0 != #[trigger] m.queue[j].0
    &&& forall|i: int| 0 <= i < m.queue.len() ==> 1 <= #[trigger] m.queue[i].1 <= m.max_depth
}

/// A breadth-first queue of directories to scan, each accepted at most once.
pub struct RecursionQueue {
    max_depth: u32,
    exclude_patterns: Vec<String>,
    seen: Vec<String>,
    queue: VecDeque<(String, u32)>,
}

pub open spec fn entry_view(e: (String, u32)) -> (Seq<char>, nat) {
    (e.0@, e.1 as nat)
}

pub open spec fn entry_views(q: Seq<(String, u32)>) -> Seq<(Seq<char>, nat)> {
    q.map_values(|e: (String, u32)| entry_view(e))
}

impl View for RecursionQueue {
    type V = QueueModel;

    closed spec fn view(&self) -> QueueModel {
        QueueModel {
            max_depth: self.max_depth as nat,
            exclude: string_views(self.exclude_patterns@),
            seen: string_views(self.seen@),
            queue: entry_views(self.queue@),
        }
    }
}

impl RecursionQueue {
    /// The queue's invariant holds.
    pub open spec fn wf(&self) -> bool {
        model_wf(self@)
    }

    /// An empty queue that accepts paths up to `max_depth` levels deep and
    /// refuses paths containing one of `exclude_patterns`.
    pub fn new(max_depth: u32, exclude_patterns: Vec<String>) -> (q: Self)
        ensures
            q.wf(),
            q@.max_depth == max_depth as nat,
            q@.exclude == string_views(exclude_patterns@),
            q@.seen == Seq::<Seq<char>>::empty(),
            q@.queue == Seq::<(Seq<char>, nat)>::empty(),
    {
        let q = RecursionQueue {
            max_depth,
            exclude_patterns,
            seen: Vec::new(),
            queue: VecDeque::new(),
        };
        assert(q@.seen == Seq::<Seq<char>>::empty());
        assert(q@.queue == Seq::<(Seq<char>, nat)>::empty());
        q
    }

    fn is_excluded(&self, path: &str) -> (b: bool)
        ensures
            b == excluded(path@, self@.exclude),
    {
        let mut i: usize = 0;
        while i < self.exclude_patterns.len()
            invariant
                i <= self.exclude_patterns@.len(),
                forall|j: int|
                    0 <= j < i ==> !contains(path@, #[trigger] string_views(self.exclude_patterns@)[j]),
            decreases self.exclude_patterns@.len() - i,
        {
            if str_contains(path, self.exclude_patterns[i].as_str()) {
                assert(contains(path@, string_views(self.exclude_patterns@)[i as int]));
                return true;
            }
            i = i + 1;
        }
        false
    }

    fn has_seen(&self, path: &str) -> (b: bool)
        ensures
            b == self@.seen.contains(path@),
    {
        let p = chars_of(path);
        let mut i: usize = 0;
        while i < self.seen.len()
            invariant
                i <= self.seen@.len(),
                p@ == path@,
                forall|j: int| 0 <= j < i ==> #[trigger] string_views(self.seen@)[j] != path@,
            decreases self.seen@.len() - i,
        {
            let s = chars_of(self.seen[i].as_str());
            if chars_eq(s.as_slice(), p.as_slice()) {
                assert(string_views(self.seen@)[i as int] == path@);
                return true;
            }
            i = i + 1;
        }
        false
    }

    /// Queues `path` one level below `current_depth`, unless that would pass
    /// the maximum depth, the path contains an exclusion pattern, or the path
    /// was accepted before. Returns whether it was queued.
    pub fn add(&mut self, path: &str, current_depth: u32) -> (added: bool)
        requires
            old(self).wf(),
        ensures
            final(self).wf(),
            added == accepts(old(self)@, path@, current_depth as nat),
            final(self)@ == after_add(old(self)@, path@, current_depth as nat),
    {
        if current_depth >= self.max_depth {
            return false;
        }
        if self.is_excluded(path) {
            return false;
        }
        if self.has_seen(path) {
            return false;
        }
        let ghost m = self@;
        self.seen.push(path.to_owned());
        self.queue.push_back((path.to_owned(), current_depth + 1));
        assert(string_views(self.seen@) == m.seen.push(path@));
        assert(entry_views(self.queue@) == m.queue.push((path@, current_depth as nat + 1)));
        assert(self@ == after_add(m, path@, current_depth as nat));
        proof {
            lemma_add_keeps_wf(m, path@, current_depth as nat);
        }
        true
    }

    /// Takes the oldest pending path with its depth.
    pub fn pop(&mut self) -> (r: Option<(String, u32)>)
        requires
            old(self).wf(),
        ensures
            final(self).wf(),
            final(self)@ == after_pop(old(self)@),
            match r {
                Some(e) => popped(old(self)@) == Some(entry_view(e)),
                None => popped(old(self)@) is None,
            },
    {
        let ghost m = self@;
        let r = self.queue.pop_front();
        proof {
            if m.queue.len() > 0 {
                assert(entry_views(self.queue@) == m.queue.drop_first());
                assert(self@ == after_pop(m));
                lemma_pop_keeps_wf(m);
            } else {
                assert(self@ == m);
            }
        }
        r
    }

    /// The number of pending paths.
    pub fn len(&self) -> (n: usize)
        ensures
            n == self@.queue.len(),
    {
        self.queue.len()
    }

    /// Whether no path is pending.
    pub fn is_empty(&self) -> (b: bool)
        ensures
            b == (self@.queue.len() == 0),
    {
        self.queue.len() == 0
    }

    /// The number of paths ever accepted.
    pub fn total_seen(&self) -> (n: usize)
        ensures
            n == self@.seen.len(),
    {
        self.seen.len()
    }

    /// Takes every pending path, oldest first, leaving none pending.
    pub fn drain_pending(&mut self) -> (r: Vec<(String, u32)>)
        requires
            old(self).wf(),
        ensures
            final(self).wf(),
            entry_views(r@) == old(self)@.queue,
            final(self)@.queue.len() == 0,
            final(self)@.seen == old(self)@.seen,
            final(self)@.max_depth == old(self)@.max_depth,
            final(self)@.exclude == old(self)@.exclude,
    {
        let ghost m = self@;
        let mut out: Vec<(String, u32)> = Vec::new();
        while self.queue.len() > 0
            invariant
                self.wf(),
                self@.max_depth == m.max_depth,
                self@.exclude == m.exclude,
                self@.seen == m.seen,
                entry_views(out@) + self@.queue == m.queue,
            decreases self@.queue.len(),
        {
            let ghost before = self@;
            let ghost out_before = out@;
            match self.pop() {
                Some(e) => {
                    out.push(e);
                    assert(entry_views(out@) == entry_views(out_before).push(entry_view(e)));
                    assert(before.queue == seq![entry_view(e)] + before.queue.drop_first());
                },
                None => {},
            }
        }
        assert(self@.queue == Seq::<(Seq<char>, nat)>::empty());
        assert(entry_views(out@) == m.queue);
        out
    }
}

/// Adding a path keeps the queue's invariant.
pub proof fn lemma_add_keeps_wf(m: QueueModel, path: Seq<char>, depth: nat)
    requires
        model_wf(m),
    ensures
        model_wf(after_add(m, path, depth)),
{
    if accepts(m, path, depth) {
        let n = after_add(m, path, depth);
        assert forall|i: int| 0 <= i < n.queue.len() implies n.seen.contains(
            #[trigger] n.queue[i].0,
        ) by {
            if i < m.queue.len() {
                assert(n.queue[i] == m.queue[i]);
                let k = choose|k: int| 0 <= k < m.seen.len() && m.seen[k] == m.queue[i].0;
                assert(n.seen[k] == m.seen[k]);
            } else {
                assert(n.seen[m.seen.len() as int] == path);
            }
        }
        assert forall|i: int, j: int| 0 <= i < j < n.queue.len() implies #[trigger] n.queue[i].0
            != #[trigger] n.queue[j].0 by {
            if j == m.queue.len() {
                assert(m.seen.contains(m.queue[i].0));
            } else {
                assert(n.queue[i] == m.queue[i] && n.queue[j] == m.queue[j]);
            }
        }
        assert forall|i: int| 0 <= i < n.queue.len() implies 1 <= #[trigger] n.queue[i].1
            <= n.max_depth by {
            if i < m.queue.len() {
                assert(n.queue[i] == m.queue[i]);
            }
        }
        assert(n.seen.no_duplicates());
    }
}

/// Popping keeps the queue's invariant.
pub proof fn lemma_pop_keeps_wf(m: QueueModel)
    requires
        model_wf(m),
    ensures
        model_wf(after_pop(m)),
{
    if m.queue.len() > 0 {
        let n = after_pop(m);
        assert forall|i: int| 0 <= i < n.queue.len() implies n.seen.contains(
            #[trigger] n.queue[i].0,
        ) by {
            assert(n.queue[i] == m.queue[i + 1]);
        }
        assert forall|i: int, j: int| 0 <= i < j < n.queue.len() implies #[trigger] n.queue[i].0
            != #[trigger] n.queue[j].0 by {
            assert(n.queue[i] == m.queue[i + 1] && n.queue[j] == m.queue[j + 1]);
        }
        assert forall|i: int| 0 <= i < n.queue.len() implies 1 <= #[trigger] n.queue[i].1
            <= n.max_depth by {
            assert(n.queue[i] == m.queue[i + 1]);
        }
    }
}

/// A path that has been accepted once is refused from then on: it stays
/// among the seen paths through every later add and pop, and a seen path is
/// never accepted, whatever the depth.
pub proof fn accepted_path_is_refused_for_good(
    m: QueueModel,
    p: Seq<char>,
    d: nat,
    q: Seq<char>,
    e: nat,
)
    requires
        m.seen.contains(p),
    ensures
        !accepts(m, p, d),
        after_add(m, q, e).seen.contains(p),
        after_pop(m).seen.contains(p),
{
    let k = choose|k: int| 0 <= k < m.seen.len() && m.seen[k] == p;
    if accepts(m, q, e) {
        assert(after_add(m, q, e).seen[k] == p);
    }
}

/// Right after a path is accepted it is among the seen paths, so adding it
/// again is refused.
pub proof fn accepted_path_is_seen(m: QueueModel, p: Seq<char>, d: nat)
    requires
        accepts(m, p, d),
    ensures
        after_add(m, p, d).seen.contains(p),
        after_add(m, p, d).seen.len() == m.seen.len() + 1,
{
    assert(after_add(m, p, d).seen[m.seen.len() as int] == p);
}

/// The queue is first in, first out: adding leaves the next path to pop
/// unchanged, except that an accepted path on an empty queue is popped next.
pub proof fn add_keeps_pop_order(m: QueueModel, p: Seq<char>, d: nat)
    ensures
        popped(after_add(m, p, d)) == if m.queue.len() == 0 && accepts(m, p, d) {
            Some((p, d + 1))
        } else {
            popped(m)
        },
{
}

/// The paths of the pending entries, in order.
pub open spec fn pending_paths(m: QueueModel) -> Seq<Seq<char>> {
    m.queue.map_values(|e: (Seq<char>, nat)| e.0)
}

/// Never more paths are pending than were ever accepted: the pending count
/// stays at most `total_seen`.
pub proof fn pending_never_exceeds_seen(m: QueueModel)
    requires
        model_wf(m),
    ensures
        m.queue.len() <= m.seen.len(),
{
    broadcast use vstd::seq_lib::seq_to_set_is_finite;
    let qp = pending_paths(m);
    assert(qp.no_duplicates()) by {
        assert forall|i: int, j: int| 0 <= i < qp.len() && 0 <= j < qp.len() && i != j implies qp[i]
            != qp[j] by {
            if i < j {
                assert(m.queue[i].0 != m.queue[j].0);
            } else {
                assert(m.queue[j].0 != m.queue[i].0);
            }
        }
    }
    qp.unique_seq_to_set();
    m.seen.unique_seq_to_set();
    assert(qp.to_set().subset_of(m.seen.to_set())) by {
        assert forall|p: Seq<char>| qp.to_set().contains(p) implies m.seen.to_set().contains(p) by {
            let i = choose|i: int| 0 <= i < qp.len() && qp[i] == p;
            assert(m.seen.contains(m.queue[i].0));
        }
    }
    vstd::set_lib::lemma_len_subset(qp.to_set(), m.seen.to_set());
}

/// The seen count grows by one exactly on an accepted add, and taking
/// pending paths never changes it: `total_seen` counts the accepted adds.
pub proof fn seen_counts_accepted_adds(m: QueueModel, path: Seq<char>, depth: nat)
    ensures
        after_add(m, path, depth).seen.len() == m.seen.len() + if accepts(m, path, depth) {
            1nat
        } else {
            0nat
        },
        after_pop(m).seen == m.seen,
{
}

} // verus!

//! What the live dashboard shows: the recent requests it keeps, how each is
//! classified, and how often each model was seen.

use crate::text::{copy_str, str_eq, texts};
use vstd::prelude::*;

verus! {

/// How many recent requests the dashboard keeps.
pub const RECENT_EVENTS: usize = 100;

/// The list of recent requests after `event` arrives: newest first; when it
/// would exceed `RECENT_EVENTS`, the oldest one is dropped.
pub open spec fn with_recent<T>(events: Seq<T>, event: T) -> Seq<T> {
    let s = seq![event] + events;
    if s.len() > RECENT_EVENTS {
        s.drop_last()
    } else {
        s
    }
}

/// Adds a request to the front of the recent list (see `with_recent`).
pub fn push_recent<T>(events: &mut Vec<T>, event: T)
    ensures
        final(events)@ == with_recent(old(events)@, event),
{
    events.insert(0, event);
    if events.len() > RECENT_EVENTS {
        events.pop();
    }
    proof {
        assert(old(events)@.insert(0, event) =~= seq![event] + old(events)@);
    }
}

/// The recent list never grows past `RECENT_EVENTS`, and the newest request
/// comes first.
pub proof fn lemma_recent_bounded<T>(events: Seq<T>, event: T)
    requires
        events.len() <= RECENT_EVENTS,
    ensures
        with_recent(events, event).len() <= RECENT_EVENTS,
        with_recent(events, event)[0] == event,
        forall|i: int|
            0 <= i < with_recent(events, event).len() - 1 ==> with_recent(events, event)[i + 1]
                == events[i],
{
}

/// How a request used the provider's cache.
#[derive(Clone, Copy, Debug, PartialEq, Eq, Structural)]
pub enum CacheStatus {
    /// The request wrote the cache.
    Write,
    /// The request read from the cache.
    Hit,
    /// The request did neither.
    Miss,
}

/// The status of a request: a cache write counts first, then a cache read.
pub open spec fn status_of(cache_write_tokens: u64, cached_tokens: u64) -> CacheStatus {
    if cache_write_tokens > 0 {
        CacheStatus::Write
    } else if cached_tokens > 0 {
        CacheStatus::Hit
    } else {
        CacheStatus::Miss
    }
}

impl CacheStatus {
    /// The status of a request (see `status_of`).
    pub fn of(cache_write_tokens: u64, cached_tokens: u64) -> (r: CacheStatus)
        ensures
            r == status_of(cache_write_tokens, cached_tokens),
    {
        if cache_write_tokens > 0 {
            CacheStatus::Write
        } else if cached_tokens > 0 {
            CacheStatus::Hit
        } else {
            CacheStatus::Miss
        }
    }

    /// The label of the status in the event log.
    pub fn label(&self) -> (r: &'static str)
        ensures
            r@ == match *self {
                CacheStatus::Write => "CACHE_WRITE"@,
                CacheStatus::Hit => "HIT"@,
                CacheStatus::Miss => "MISS"@,
            },
    {
        match self {
            CacheStatus::Write => "CACHE_WRITE",
            CacheStatus::Hit => "HIT",
            CacheStatus::Miss => "MISS",
        }
    }
}

/// How many times `m` occurs in `s`.
pub open spec fn occurrences(s: Seq<Seq<char>>, m: Seq<char>) -> nat
    decreases s.len(),
{
    if s.len() == 0 {
        0
    } else {
        occurrences(s.drop_last(), m) + if s.last() == m {
            1nat
        } else {
            0nat
        }
    }
}

proof fn lemma_occurrences_push(s: Seq<Seq<char>>, x: Seq<char>, m: Seq<char>)
    ensures
        occurrences(s.push(x), m) == occurrences(s, m) + if x == m {
            1nat
        } else {
            0nat
        },
{
    assert(s.push(x).drop_last() =~= s);
}

proof fn lemma_occurrences_bound(s: Seq<Seq<char>>, m: Seq<char>)
    ensures
        occurrences(s, m) <= s.len(),
        occurrences(s, m) > 0 ==> exists|j: int| 0 <= j < s.len() && s[j] == m,
    decreases s.len(),
{
    if s.len() > 0 {
        lemma_occurrences_bound(s.drop_last(), m);
        if occurrences(s.drop_last(), m) > 0 {
            let j = choose|j: int| 0 <= j < s.drop_last().len() && s.drop_last()[j] == m;
            assert(s[j] == m);
        } else if s.last() == m {
            assert(s[s.len() - 1] == m);
        }
    }
}

/// Some entry of `counts` is for model `m`.
pub open spec fn lists_model(counts: Seq<(String, usize)>, m: Seq<char>) -> bool {
    exists|i: int| 0 <= i < counts.len() && counts[i].0@ == m
}

/// The distinct models of `models` with the number of times each occurs,
/// most frequent first (models seen equally often come in no promised order).
pub fn count_models(models: &Vec<String>) -> (r: Vec<(String, usize)>)
    ensures
        forall|i: int|
            0 <= i < r.len() ==> r[i].1 == occurrences(texts(models@), r[i].0@) && r[i].1 > 0,
        forall|i: int, j: int| 0 <= i < j < r.len() ==> r[i].0@ != r[j].0@,
        forall|k: int| 0 <= k < models@.len() ==> lists_model(r@, #[trigger] models@[k]@),
        forall|i: int, j: int| 0 <= i < j < r.len() ==> r[i].1 >= r[j].1,
{
    let ghost all = texts(models@);
    let total = models.len();
    let mut names: Vec<String> = Vec::new();
    let mut counts: Vec<usize> = Vec::new();
    let mut k: usize = 0;
    while k < total
        invariant
            k <= total,
            total == models@.len(),
            all == texts(models@),
            names@.len() == counts@.len(),
            forall|i: int|
                0 <= i < names@.len() ==> counts@[i] == occurrences(all.take(k as int), names@[i]@)
                    && counts@[i] >= 1,
            forall|i: int, j: int| 0 <= i < j < names@.len() ==> names@[i]@ != names@[j]@,
            forall|j: int|
                #![trigger all[j]]
                0 <= j < k ==> exists|i: int|
                    #![trigger names@[i]]
                    0 <= i < names@.len() && names@[i]@ == all[j],
        decreases total - k,
    {
        let ghost seen = all.take(k as int);
        let ghost m = models@[k as int]@;
        proof {
            assert(all.take(k + 1) =~= seen.push(m));
            lemma_occurrences_bound(seen, m);
            assert forall|x: Seq<char>|
                #[trigger] occurrences(all.take(k + 1), x) == occurrences(seen, x) + if m == x {
                    1nat
                } else {
                    0nat
                } by {
                lemma_occurrences_push(seen, m, x);
            }
        }
        let ghost old_names = names@;
        let mut found: Option<usize> = None;
        let n = names.len();
        for i in 0..n
            invariant
                n == names@.len(),
                k < models@.len(),
                m == models@[k as int]@,
                found is None ==> forall|j: int| 0 <= j < i ==> names@[j]@ != m,
                found matches Some(f) ==> f < n && names@[f as int]@ == m,
        {
            if found.is_none() && str_eq(names[i].as_str(), models[k].as_str()) {
                found = Some(i);
            }
        }
        match found {
            Some(f) => {
                proof {
                    lemma_occurrences_bound(seen, names@[f as int]@);
                }
                let c = counts[f];
                counts.set(f, c + 1);
            },
            None => {
                proof {
                    if occurrences(seen, m) > 0 {
                        let j = choose|j: int| 0 <= j < seen.len() && seen[j] == m;
                        assert(all[j] == m);
                    }
                }
                names.push(copy_str(models[k].as_str()));
                counts.push(1);
            },
        }
        proof {
            assert forall|j: int| #![trigger all[j]] 0 <= j < k + 1 implies exists|i: int|
                #![trigger names@[i]]
                0 <= i < names@.len() && names@[i]@ == all[j] by {
                if j == k {
                    match found {
                        Some(f) => assert(names@[f as int]@ == all[j]),
                        None => assert(names@[names@.len() - 1]@ == all[j]),
                    }
                } else {
                    let i = choose|i: int| 0 <= i < old_names.len() && old_names[i]@ == all[j];
                    assert(names@[i] == old_names[i]);
                }
            }
        }
        k = k + 1;
    }
    proof {
        assert(all.take(total as int) =~= all);
        assert forall|i: int| 0 <= i < counts@.len() implies counts@[i] <= total by {
            lemma_occurrences_bound(all, names@[i]@);
        }
    }
    let n = names.len();
    let mut r: Vec<(String, usize)> = Vec::new();
    let ghost mut src: Seq<int> = Seq::empty();
    let mut c = total;
    while c > 0
        invariant
            c <= total,
            n == names@.len() == counts@.len(),
            forall|i: int| 0 <= i < n ==> 1 <= #[trigger] counts@[i] <= total,
            r@.len() == src.len(),
            forall|t: int|
                0 <= t < src.len() ==> 0 <= #[trigger] src[t] < n && r@[t].0@ == names@[src[t]]@
                    && r@[t].1 == counts@[src[t]] && counts@[src[t]] > c,
            forall|t1: int, t2: int|
                0 <= t1 < t2 < src.len() ==> counts@[src[t1]] > counts@[src[t2]] || (
                counts@[src[t1]] == counts@[src[t2]] && src[t1] < src[t2]),
            forall|i: int|
                #![trigger counts@[i]]
                0 <= i < n && counts@[i] > c ==> exists|t: int|
                    #![trigger src[t]]
                    0 <= t < src.len() && src[t] == i,
        decreases c,
    {
        for i in 0..n
            invariant
                1 <= c <= total,
                n == names@.len() == counts@.len(),
                forall|x: int| 0 <= x < n ==> 1 <= #[trigger] counts@[x] <= total,
                r@.len() == src.len(),
                forall|t: int|
                    0 <= t < src.len() ==> 0 <= #[trigger] src[t] < n && r@[t].0@ == names@[src[t]]@
                        && r@[t].1 == counts@[src[t]] && counts@[src[t]] >= c && (counts@[src[t]]
                        == c ==> src[t] < i),
                forall|t1: int, t2: int|
                    0 <= t1 < t2 < src.len() ==> counts@[src[t1]] > counts@[src[t2]] || (
                    counts@[src[t1]] == counts@[src[t2]] && src[t1] < src[t2]),
                forall|x: int|
                    #![trigger counts@[x]]
                    0 <= x < n && (counts@[x] > c || (counts@[x] == c && x < i)) ==> exists|t: int|
                        #![trigger src[t]]
                        0 <= t < src.len() && src[t] == x,
        {
            if counts[i] == c {
                r.push((copy_str(names[i].as_str()), c));
                proof {
                    let old_src = src;
                    src = src.push(i as int);
                    assert forall|x: int|
                        #![trigger counts@[x]]
                        0 <= x < n && (counts@[x] > c || (counts@[x] == c && x < i + 1))
                        implies exists|t: int|
                        #![trigger src[t]]
                        0 <= t < src.len() && src[t] == x by {
                        if x == i {
                            assert(src[src.len() - 1] == x);
                        } else {
                            let t = choose|t: int| 0 <= t < old_src.len() && old_src[t] == x;
                            assert(src[t] == x);
                        }
                    }
                }
            }
        }
        c = c - 1;
    }
    proof {
        assert forall|i: int, j: int| 0 <= i < j < r@.len() implies r@[i].0@ != r@[j].0@ by {
            assert(src[i] != src[j]);
        }
        assert forall|q: int| 0 <= q < models@.len() implies lists_model(
            r@,
            #[trigger] models@[q]@,
        ) by {
            assert(all[q] == models@[q]@);
            let x = choose|x: int| 0 <= x < names@.len() && names@[x]@ == all[q];
            assert(counts@[x] > 0);
            let t = choose|t: int| 0 <= t < src.len() && src[t] == x;
            assert(r@[t].0@ == models@[q]@);
        }
        assert forall|i: int, j: int| 0 <= i < j < r.len() implies r[i].1 >= r[j].1 by {
            assert(counts@[src[i]] >= counts@[src[j]]);
        }
        assert forall|i: int| 0 <= i < r@.len() implies r@[i].1 == occurrences(all, r@[i].0@)
            && r@[i].1 > 0 by {
            assert(0 <= src[i] < n);
        }
    }
    r
}

} // verus!

//! The order in which cached vindexes are listed.

use vstd::prelude::*;

use crate::entry::{entries, CacheSource, CachedEntry, CachedVindex};
use crate::text::{at_most, text_le};

verus! {

/// By cache, then by name.
pub open spec fn entry_le(a: CachedEntry, b: CachedEntry) -> bool {
    a.source.rank() < b.source.rank() || (a.source == b.source && text_le(a.repo, b.repo))
}

pub open spec fn is_ordered(s: Seq<CachedEntry>) -> bool {
    forall|i: int, j: int| 0 <= i < j < s.len() ==> entry_le(#[trigger] s[i], #[trigger] s[j])
}

/// The property to be listed under `repo` in the cache `source`.
pub open spec fn listed_as(source: CacheSource, repo: Seq<char>) -> spec_fn(CachedEntry) -> bool {
    |e: CachedEntry| e.source == source && e.repo == repo
}

/// `t` holds what `s` holds, in order; what is listed under one name stands in
/// `t` as it stood in `s`.
pub open spec fn is_stable_sort(t: Seq<CachedEntry>, s: Seq<CachedEntry>) -> bool {
    &&& is_ordered(t)
    &&& forall|source: CacheSource, repo: Seq<char>|
        #![trigger listed_as(source, repo)]
        t.filter(listed_as(source, repo)) == s.filter(listed_as(source, repo))
}

/// `s` in order, what is listed under one name left as it stood.
pub open spec fn stable_sort(s: Seq<CachedEntry>) -> Seq<CachedEntry> {
    choose|t: Seq<CachedEntry>| is_stable_sort(t, s)
}

proof fn lemma_text_le_reflexive(a: Seq<char>)
    ensures
        text_le(a, a),
    decreases a.len(),
{
    if a.len() > 0 {
        lemma_text_le_reflexive(a.drop_first());
    }
}

proof fn lemma_text_le_total(a: Seq<char>, b: Seq<char>)
    ensures
        text_le(a, b) || text_le(b, a),
    decreases a.len(),
{
    if a.len() > 0 && b.len() > 0 && a.first() == b.first() {
        lemma_text_le_total(a.drop_first(), b.drop_first());
    }
}

proof fn lemma_text_le_antisymmetric(a: Seq<char>, b: Seq<char>)
    requires
        text_le(a, b),
        text_le(b, a),
    ensures
        a == b,
    decreases a.len(),
{
    if a.len() > 0 && b.len() > 0 {
        lemma_text_le_antisymmetric(a.drop_first(), b.drop_first());
        assert(a =~= seq![a.first()] + a.drop_first());
        assert(b =~= seq![b.first()] + b.drop_first());
    } else {
        assert(a =~= b);
    }
}

proof fn lemma_text_le_transitive(a: Seq<char>, b: Seq<char>, c: Seq<char>)
    requires
        text_le(a, b),
        text_le(b, c),
    ensures
        text_le(a, c),
    decreases a.len(),
{
    if a.len() > 0 && b.len() > 0 && c.len() > 0 && a.first() == b.first() && b.first()
        == c.first() {
        lemma_text_le_transitive(a.drop_first(), b.drop_first(), c.drop_first());
    }
}

/// The order of texts is a total order.
pub proof fn law_text_order(a: Seq<char>, b: Seq<char>, c: Seq<char>)
    ensures
        text_le(a, a),
        text_le(a, b) || text_le(b, a),
        text_le(a, b) && text_le(b, a) ==> a == b,
        text_le(a, b) && text_le(b, c) ==> text_le(a, c),
{
    lemma_text_le_reflexive(a);
    lemma_text_le_total(a, b);
    if text_le(a, b) && text_le(b, a) {
        lemma_text_le_antisymmetric(a, b);
    }
    if text_le(a, b) && text_le(b, c) {
        lemma_text_le_transitive(a, b, c);
    }
}

/// A sequence has at most one stable sort.
pub proof fn law_stable_sort_unique(t: Seq<CachedEntry>, u: Seq<CachedEntry>, s: Seq<CachedEntry>)
    requires
        is_stable_sort(t, s),
        is_stable_sort(u, s),
    ensures
        t == u,
    decreases t.len(),
{
    if t.len() == 0 {
        if u.len() > 0 {
            let p = listed_as(u[0].source, u[0].repo);
            u.lemma_filter_contains(p, 0);
            assert(t.filter(p).len() == 0) by {
                t.lemma_filter_len(p);
            }
        }
        assert(t =~= u);
    } else {
        lemma_same_first(t, u, s);
        let p0 = listed_as(t[0].source, t[0].repo);
        let t1 = t.drop_first();
        let u1 = u.drop_first();
        assert(t =~= seq![t[0]] + t1);
        assert(u =~= seq![t[0]] + u1);
        assert forall|source: CacheSource, repo: Seq<char>|
            #![trigger listed_as(source, repo)]
            u1.filter(listed_as(source, repo)) == t1.filter(listed_as(source, repo)) by {
            let p = listed_as(source, repo);
            Seq::filter_distributes_over_add(seq![t[0]], t1, p);
            Seq::filter_distributes_over_add(seq![t[0]], u1, p);
            assert(t.filter(p) == u.filter(p));
            let head = seq![t[0]].filter(p);
            assert(t1.filter(p) =~= t.filter(p).skip(head.len() as int));
            assert(u1.filter(p) =~= u.filter(p).skip(head.len() as int));
        }
        assert(is_stable_sort(t1, t1));
        assert(is_stable_sort(u1, t1));
        law_stable_sort_unique(t1, u1, t1);
    }
}

proof fn lemma_same_first(t: Seq<CachedEntry>, u: Seq<CachedEntry>, s: Seq<CachedEntry>)
    requires
        is_stable_sort(t, s),
        is_stable_sort(u, s),
        t.len() > 0,
    ensures
        u.len() > 0,
        u[0] == t[0],
{
    let p = listed_as(t[0].source, t[0].repo);
    assert(t.filter(p) == u.filter(p));
    t.lemma_filter_contains(p, 0);
    assert(u.filter(p).len() > 0);
    u.lemma_filter_len(p);
    assert(u.len() > 0);
    let q = listed_as(u[0].source, u[0].repo);
    assert(t.filter(q) == u.filter(q));
    u.lemma_filter_contains(q, 0);
    lemma_filtered_stands(t, q, 0);
    lemma_filtered_stands(u, p, 0);
    let i = choose|i: int| 0 <= i < t.len() && t[i] == t.filter(q)[0] && q(t[i]);
    let j = choose|j: int| 0 <= j < u.len() && u[j] == u.filter(p)[0] && p(u[j]);
    // t[0] comes no later than t[i], which is listed as u[0] is, and the other way round.
    law_text_order(t[0].repo, u[0].repo, u[0].repo);
    assert(t[0].source == u[0].source && t[0].repo == u[0].repo);
    lemma_filter_first(t, p);
    lemma_filter_first(u, p);
}

pub(crate) proof fn lemma_filtered_stands(s: Seq<CachedEntry>, p: spec_fn(CachedEntry) -> bool, k: int)
    requires
        0 <= k < s.filter(p).len(),
    ensures
        exists|i: int| 0 <= i < s.len() && s[i] == s.filter(p)[k] && p(s[i]),
    decreases s.len(),
{
    reveal(Seq::filter);
    if s.len() > 0 {
        if k < s.drop_last().filter(p).len() {
            lemma_filtered_stands(s.drop_last(), p, k);
            let i = choose|i: int|
                0 <= i < s.drop_last().len() && s.drop_last()[i] == s.drop_last().filter(p)[k] && p(
                    s.drop_last()[i],
                );
            assert(s[i] == s.filter(p)[k] && p(s[i]));
        } else {
            assert(s[s.len() - 1] == s.filter(p)[k]);
        }
    }
}

proof fn lemma_filter_first(s: Seq<CachedEntry>, p: spec_fn(CachedEntry) -> bool)
    requires
        s.len() > 0,
        p(s[0]),
    ensures
        s.filter(p).len() > 0,
        s.filter(p)[0] == s[0],
{
    assert(s =~= seq![s[0]] + s.drop_first());
    Seq::filter_distributes_over_add(seq![s[0]], s.drop_first(), p);
    reveal_with_fuel(Seq::filter, 2);
    assert(seq![s[0]].drop_last() =~= Seq::empty());
    assert(seq![s[0]].filter(p) =~= seq![s[0]]);
}

/// `e` put into `t` before index `at`.
spec fn put(t: Seq<CachedEntry>, at: int, e: CachedEntry) -> Seq<CachedEntry> {
    t.take(at) + seq![e] + t.skip(at)
}

pub(crate) proof fn lemma_filter_none(s: Seq<CachedEntry>, p: spec_fn(CachedEntry) -> bool)
    requires
        forall|i: int| 0 <= i < s.len() ==> !p(#[trigger] s[i]),
    ensures
        s.filter(p) == Seq::<CachedEntry>::empty(),
    decreases s.len(),
{
    reveal(Seq::filter);
    if s.len() > 0 {
        assert forall|i: int| 0 <= i < s.drop_last().len() implies !p(#[trigger] s.drop_last()[i]) by {
            assert(!p(s[i]));
        }
        lemma_filter_none(s.drop_last(), p);
    }
    assert(s.filter(p) =~= Seq::empty());
}

pub(crate) proof fn lemma_filter_at(s: Seq<CachedEntry>, p: spec_fn(CachedEntry) -> bool, i: int)
    requires
        0 <= i < s.len(),
        p(s[i]),
    ensures
        s.filter(p) == s.take(i).filter(p) + seq![s[i]] + s.skip(i + 1).filter(p),
{
    assert(s =~= s.take(i) + seq![s[i]] + s.skip(i + 1));
    Seq::filter_distributes_over_add(s.take(i) + seq![s[i]], s.skip(i + 1), p);
    Seq::filter_distributes_over_add(s.take(i), seq![s[i]], p);
    assert(seq![s[i]].filter(p) =~= seq![s[i]]) by {
        reveal_with_fuel(Seq::filter, 2);
        assert(seq![s[i]].drop_last() =~= Seq::empty());
    }
}

pub(crate) proof fn lemma_filter_sole(s: Seq<CachedEntry>, p: spec_fn(CachedEntry) -> bool, i: int)
    requires
        0 <= i < s.len(),
        p(s[i]),
        forall|j: int| 0 <= j < s.len() && p(#[trigger] s[j]) ==> j == i,
    ensures
        s.filter(p) == seq![s[i]],
{
    lemma_filter_at(s, p, i);
    assert forall|j: int| 0 <= j < s.take(i).len() implies !p(#[trigger] s.take(i)[j]) by {
        assert(s.take(i)[j] == s[j]);
    }
    assert forall|j: int| 0 <= j < s.skip(i + 1).len() implies !p(#[trigger] s.skip(i + 1)[j]) by {
        assert(s.skip(i + 1)[j] == s[j + i + 1]);
    }
    lemma_filter_none(s.take(i), p);
    lemma_filter_none(s.skip(i + 1), p);
    assert(s.filter(p) =~= seq![s[i]]);
}

pub(crate) proof fn lemma_two_filtered(s: Seq<CachedEntry>, p: spec_fn(CachedEntry) -> bool, i: int, j: int)
    requires
        0 <= i < j < s.len(),
        p(s[i]),
        p(s[j]),
    ensures
        s.filter(p).len() >= 2,
{
    lemma_filter_at(s, p, i);
    let rest = s.skip(i + 1);
    assert(rest[j - i - 1] == s[j]);
    lemma_filter_at(rest, p, j - i - 1);
}

proof fn lemma_put_keeps_stable_sort(
    t: Seq<CachedEntry>,
    s: Seq<CachedEntry>,
    at: int,
    e: CachedEntry,
)
    requires
        is_stable_sort(t, s),
        0 <= at <= t.len(),
        forall|i: int| 0 <= i < at ==> !entry_le(e, #[trigger] t[i]),
        at < t.len() ==> entry_le(e, t[at]),
    ensures
        is_stable_sort(put(t, at, e), seq![e] + s),
{
    let u = put(t, at, e);
    assert forall|i: int| 0 <= i < at implies entry_le(#[trigger] t[i], e) by {
        law_text_order(t[i].repo, e.repo, e.repo);
    }
    assert forall|i: int| at <= i < t.len() implies entry_le(e, #[trigger] t[i]) by {
        law_text_order(e.repo, t[at].repo, t[i].repo);
    }
    assert(is_ordered(u)) by {
        assert forall|i: int, j: int| 0 <= i < j < u.len() implies entry_le(
            #[trigger] u[i],
            #[trigger] u[j],
        ) by {
            let x = if i < at { i } else { i - 1 };
            let y = if j < at { j } else { j - 1 };
            if i == at {
                assert(u[j] == t[y]);
            } else if j == at {
                assert(u[i] == t[x]);
            } else {
                assert(u[i] == t[x] && u[j] == t[y]);
            }
        }
    }
    assert forall|source: CacheSource, repo: Seq<char>|
        #![trigger listed_as(source, repo)]
        u.filter(listed_as(source, repo)) == (seq![e] + s).filter(listed_as(source, repo)) by {
        let p = listed_as(source, repo);
        Seq::filter_distributes_over_add(t.take(at) + seq![e], t.skip(at), p);
        Seq::filter_distributes_over_add(t.take(at), seq![e], p);
        Seq::filter_distributes_over_add(t.take(at), t.skip(at), p);
        Seq::filter_distributes_over_add(seq![e], s, p);
        assert(t.take(at) + t.skip(at) =~= t);
        if p(e) {
            assert forall|i: int| 0 <= i < t.take(at).len() implies !p(
                #[trigger] t.take(at)[i],
            ) by {
                law_text_order(e.repo, t[i].repo, e.repo);
                assert(!entry_le(e, t[i]));
            }
            lemma_filter_none(t.take(at), p);
        } else {
            lemma_filter_none(seq![e], p);
        }
        assert(u.filter(p) =~= (seq![e] + s).filter(p));
    }
}

proof fn lemma_place(t: Seq<CachedEntry>, e: CachedEntry, from: int) -> (at: int)
    requires
        0 <= from <= t.len(),
        forall|i: int| 0 <= i < from ==> !entry_le(e, #[trigger] t[i]),
    ensures
        0 <= at <= t.len(),
        forall|i: int| 0 <= i < at ==> !entry_le(e, #[trigger] t[i]),
        at < t.len() ==> entry_le(e, t[at]),
    decreases t.len() - from,
{
    if from == t.len() || entry_le(e, t[from]) {
        from
    } else {
        lemma_place(t, e, from + 1)
    }
}

/// Every sequence has a stable sort, and [`stable_sort`] is it.
pub proof fn law_stable_sort_exists(s: Seq<CachedEntry>)
    ensures
        is_stable_sort(stable_sort(s), s),
    decreases s.len(),
{
    if s.len() == 0 {
        assert(is_stable_sort(s, s));
    } else {
        let rest = s.drop_first();
        law_stable_sort_exists(rest);
        let t = stable_sort(rest);
        let at = lemma_place(t, s.first(), 0);
        lemma_put_keeps_stable_sort(t, rest, at, s.first());
        assert(seq![s.first()] + rest =~= s);
        assert(is_stable_sort(put(t, at, s.first()), s));
    }
}

/// Sorting neither adds nor drops an entry.
pub proof fn law_stable_sort_keeps_entries(s: Seq<CachedEntry>)
    ensures
        stable_sort(s).to_multiset() == s.to_multiset(),
{
    law_stable_sort_exists(s);
    let t = stable_sort(s);
    assert forall|e: CachedEntry| #[trigger]
        t.to_multiset().count(e) == s.to_multiset().count(e) by {
        let p = listed_as(e.source, e.repo);
        lemma_filter_keeps_count(t, p, e);
        lemma_filter_keeps_count(s, p, e);
    }
    assert(t.to_multiset() =~= s.to_multiset());
}

pub(crate) proof fn lemma_filter_keeps_count(
    s: Seq<CachedEntry>,
    p: spec_fn(CachedEntry) -> bool,
    e: CachedEntry,
)
    requires
        p(e),
    ensures
        s.filter(p).to_multiset().count(e) == s.to_multiset().count(e),
    decreases s.len(),
{
    broadcast use vstd::seq_lib::group_to_multiset_ensures;

    reveal(Seq::filter);
    if s.len() > 0 {
        lemma_filter_keeps_count(s.drop_last(), p, e);
        assert(s =~= s.drop_last().push(s.last()));
    }
}

/// An ordered sequence is its own stable sort.
pub proof fn law_ordered_is_sorted(s: Seq<CachedEntry>)
    requires
        is_ordered(s),
    ensures
        stable_sort(s) == s,
{
    law_stable_sort_exists(s);
    assert(is_stable_sort(s, s));
    law_stable_sort_unique(stable_sort(s), s, s);
}

fn entry_at_most(a: &CachedVindex, b: &CachedVindex) -> (r: bool)
    ensures
        r == entry_le(a@, b@),
{
    match (a.source, b.source) {
        (CacheSource::HuggingFace, CacheSource::Local) => true,
        (CacheSource::Local, CacheSource::HuggingFace) => false,
        _ => at_most(a.repo.as_str(), b.repo.as_str()),
    }
}

/// Sorts by cache, then by name, and leaves what is listed under one name as it
/// stood.
pub fn sort_entries(list: Vec<CachedVindex>) -> (sorted: Vec<CachedVindex>)
    ensures
        entries(sorted@) == stable_sort(entries(list@)),
{
    let mut rest: Vec<CachedVindex> = list;
    let mut sorted: Vec<CachedVindex> = Vec::new();
    let ghost all = entries(rest@);
    assert(entries(sorted@) =~= Seq::empty());
    assert(all.skip(all.len() as int) =~= Seq::empty());
    assert(is_stable_sort(entries(sorted@), all.skip(all.len() as int)));
    while rest.len() > 0
        invariant
            rest.len() <= all.len(),
            entries(rest@) == all.take(rest@.len() as int),
            is_stable_sort(entries(sorted@), all.skip(rest@.len() as int)),
        decreases rest.len(),
    {
        let ghost before = rest@;
        match rest.pop() {
            Some(last) => {
                let ghost done = entries(sorted@);
                let mut at: usize = 0;
                while at < sorted.len() && !entry_at_most(&last, &sorted[at])
                    invariant
                        at <= sorted.len(),
                        done == entries(sorted@),
                        forall|i: int| 0 <= i < at ==> !entry_le(last@, #[trigger] done[i]),
                    ensures
                        at < sorted.len() ==> entry_le(last@, done[at as int]),
                    decreases sorted.len() - at,
                {
                    at = at + 1;
                }
                proof {
                    let n = before.len() as int;
                    assert(entries(before)[n - 1] == last@);
                    lemma_put_keeps_stable_sort(done, all.skip(n), at as int, last@);
                    assert(seq![last@] + all.skip(n) =~= all.skip(n - 1));
                    assert(entries(sorted@.insert(at as int, last)) =~= put(
                        done,
                        at as int,
                        last@,
                    ));
                    assert(entries(rest@) =~= all.take(n - 1)) by {
                        assert forall|i: int| 0 <= i < n - 1 implies entries(rest@)[i]
                            == all[i] by {
                            assert(entries(before)[i] == before[i]@);
                        }
                    }
                }
                sorted.insert(at, last);
            },
            None => {},
        }
    }
    proof {
        assert(all.skip(0) =~= all);
        law_stable_sort_exists(all);
        law_stable_sort_unique(entries(sorted@), stable_sort(all), all);
    }
    sorted
}

/// In a sorted list a hub entry stands before every local one, of two entries of
/// one cache the one whose name comes first stands first, and entries of one
/// cache and name stand as they stood.
pub proof fn law_sorted_by_cache_then_name(s: Seq<CachedEntry>, source: CacheSource, repo: Seq<char>)
    ensures
        forall|i: int, j: int|
            0 <= i < j < stable_sort(s).len() ==> {
                let a = #[trigger] stable_sort(s)[i];
                let b = #[trigger] stable_sort(s)[j];
                &&& a.source is Local ==> b.source is Local
                &&& a.source == b.source ==> text_le(a.repo, b.repo)
            },
        stable_sort(s).filter(|e: CachedEntry| e.source == source && e.repo == repo) == s.filter(
            |e: CachedEntry| e.source == source && e.repo == repo,
        ),
        stable_sort(s).to_multiset() == s.to_multiset(),
{
    law_stable_sort_exists(s);
    law_stable_sort_keeps_entries(s);
    let t = stable_sort(s);
    assert forall|i: int, j: int| 0 <= i < j < t.len() implies {
        let a = #[trigger] t[i];
        let b = #[trigger] t[j];
        &&& a.source is Local ==> b.source is Local
        &&& a.source == b.source ==> text_le(a.repo, b.repo)
    } by {
        assert(entry_le(t[i], t[j]));
    }
    let p = |e: CachedEntry| e.source == source && e.repo == repo;
    assert(p =~= listed_as(source, repo));
}

} // verus!

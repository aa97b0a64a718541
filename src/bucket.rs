//! Grouping of the entries of one source into date buckets.

use crate::entry::Entry;
use crate::merge_diff::keys_ascending;
use crate::reconcile::{bucket_views, Bucket, BucketV};
use crate::sequence::{lemma_reverse_skip, reversed};
use crate::sorting::{normalized, sort_dedup_directives};
use vstd::prelude::*;

verus! {

/// The key of the date of an entry.
pub open spec fn date_key(e: Entry) -> u32 {
    e.date.ordinal() as u32
}

/// The entries of `s` dated with key `k`, in their order in `s`.
pub open spec fn select_date(s: Seq<Entry>, k: int) -> Seq<Entry>
    decreases s.len(),
{
    if s.len() == 0 {
        seq![]
    } else {
        let rest = select_date(s.drop_last(), k);
        if s.last().date.ordinal() == k {
            rest.push(s.last())
        } else {
            rest
        }
    }
}

/// How many keys of `ks` are below `k`.
pub open spec fn count_below(ks: Seq<u32>, k: u32) -> nat
    decreases ks.len(),
{
    if ks.len() == 0 {
        0
    } else {
        count_below(ks.drop_last(), k) + if ks.last() < k {
            1nat
        } else {
            0nat
        }
    }
}

/// The ascending keys `ks` with `k` added.
pub open spec fn keys_insert(ks: Seq<u32>, k: u32) -> Seq<u32> {
    if ks.contains(k) {
        ks
    } else {
        ks.insert(count_below(ks, k) as int, k)
    }
}

/// The distinct date keys of `s`, ascending.
pub open spec fn date_keys(s: Seq<Entry>) -> Seq<u32>
    decreases s.len(),
{
    if s.len() == 0 {
        seq![]
    } else {
        keys_insert(date_keys(s.drop_last()), date_key(s.last()))
    }
}

/// The date buckets of `s`: one per date, ascending, each holding the entries
/// of its date in normal form.
pub open spec fn date_buckets(s: Seq<Entry>) -> Seq<BucketV> {
    date_keys(s).map_values(|k: u32| (k, normalized(select_date(s, k as int))))
}

pub open spec fn bucket_keys(r: Seq<Bucket>) -> Seq<u32> {
    r.map_values(|b: Bucket| b.0)
}

proof fn lemma_count_below(ks: Seq<u32>, k: u32, p: int)
    requires
        0 <= p <= ks.len(),
        forall|j: int| 0 <= j < p ==> ks[j] < k,
        forall|j: int| p <= j < ks.len() ==> ks[j] >= k,
    ensures
        count_below(ks, k) == p,
    decreases ks.len(),
{
    if ks.len() > 0 {
        if p == ks.len() {
            lemma_count_below(ks.drop_last(), k, p - 1);
        } else {
            lemma_count_below(ks.drop_last(), k, p);
        }
    }
}

/// The first position whose key is not below `k`.
fn key_position(r: &Vec<Bucket>, k: u32) -> (p: usize)
    ensures
        p <= r@.len(),
        forall|j: int| 0 <= j < p ==> r@[j].0 < k,
        p < r@.len() ==> r@[p as int].0 >= k,
{
    let mut p: usize = 0;
    while p < r.len() && r[p].0 < k
        invariant
            p <= r@.len(),
            forall|j: int| 0 <= j < p ==> r@[j].0 < k,
        decreases r@.len() - p,
    {
        p = p + 1;
    }
    p
}

/// Groups the entries of one source by date: one bucket per date, in date
/// order, each holding the entries of that date in the order of arrival.
fn group_by_date(entries: Vec<Entry>) -> (r: Vec<Bucket>)
    ensures
        bucket_keys(r@) == date_keys(entries@),
        forall|j: int| 0 <= j < r@.len() ==> (#[trigger] r@[j]).1@ == select_date(entries@, r@[j].0 as int),
{
    let ghost s = entries@;
    let total = entries.len();
    let mut rest = reversed(entries);
    let mut r: Vec<Bucket> = Vec::new();
    let mut i: usize = 0;
    while rest.len() > 0
        invariant
            i <= s.len(),
            s.len() == total,
            rest@ == s.skip(i as int).reverse(),
            rest@.len() == s.len() - i,
            keys_ascending(r@),
            bucket_keys(r@) == date_keys(s.take(i as int)),
            forall|j: int| 0 <= j < r@.len() ==> (#[trigger] r@[j]).1@ == select_date(s.take(i as int), r@[j].0 as int),
        decreases rest@.len(),
    {
        let ghost p0 = s.take(i as int);
        let ghost r0 = r@;
        let ghost ks = bucket_keys(r0);
        proof {
            lemma_reverse_skip(s, i as int);
            assert(s.take(i + 1).drop_last() =~= p0);
        }
        let e = rest.pop().unwrap();
        let k = e.date.key();
        let ghost p1 = s.take(i + 1);
        assert(p1.last() == e);
        let p = key_position(&r, k);
        proof {
            assert forall|j: int| p <= j < ks.len() implies ks[j] >= k by {
                if j > p {
                    assert(r0[p as int].0 < r0[j].0);
                }
            }
            lemma_count_below(ks, k, p as int);
        }
        if p < r.len() && r[p].0 == k {
            let (kk, mut v) = r.remove(p);
            v.push(e);
            r.insert(p, (kk, v));
            proof {
                assert(ks[p as int] == k);
                assert(ks.contains(k));
                assert(r@ =~= r0.update(p as int, (kk, v)));
                assert(bucket_keys(r@) =~= ks);
            }
        } else {
            let mut v: Vec<Entry> = Vec::new();
            v.push(e);
            r.insert(p, (k, v));
            proof {
                assert(!ks.contains(k)) by {
                    if ks.contains(k) {
                        let j = choose|j: int| 0 <= j < ks.len() && ks[j] == k;
                        if j > p {
                            assert(r0[p as int].0 < r0[j].0);
                        }
                    }
                }
                assert(bucket_keys(r@) =~= ks.insert(p as int, k));
                assert(select_date(p0, k as int).len() == 0) by {
                    if select_date(p0, k as int).len() > 0 {
                        lemma_select_nonempty(p0, k as int);
                        let l = choose|l: int| 0 <= l < p0.len() && p0[l].date.ordinal() == k as int;
                        lemma_key_present(p0, l);
                    }
                }
                assert(select_date(p1, k as int) =~= seq![e]);
            }
        }
        i = i + 1;
    }
    proof {
        assert(s.take(i as int) =~= s);
    }
    r
}

/// A date with entries is the date of one of them.
proof fn lemma_select_nonempty(s: Seq<Entry>, k: int)
    requires
        select_date(s, k).len() > 0,
    ensures
        exists|l: int| 0 <= l < s.len() && s[l].date.ordinal() == k,
    decreases s.len(),
{
    if s.last().date.ordinal() != k {
        lemma_select_nonempty(s.drop_last(), k);
        let l = choose|l: int| 0 <= l < s.drop_last().len() && s.drop_last()[l].date.ordinal() == k;
        assert(s[l] == s.drop_last()[l]);
    }
}

/// The date of every entry is among the keys.
proof fn lemma_key_present(s: Seq<Entry>, l: int)
    requires
        0 <= l < s.len(),
    ensures
        date_keys(s).contains(date_key(s[l])),
    decreases s.len(),
{
    let ks = date_keys(s.drop_last());
    let k = date_key(s.last());
    if l < s.len() - 1 {
        lemma_key_present(s.drop_last(), l);
        assert(s.drop_last()[l] == s[l]);
        let x = date_key(s[l]);
        if !ks.contains(k) {
            let j = choose|j: int| 0 <= j < ks.len() && ks[j] == x;
            lemma_count_below_bound(ks, k);
            let c = count_below(ks, k) as int;
            if j < c {
                assert(ks.insert(c, k)[j] == x);
            } else {
                assert(ks.insert(c, k)[j + 1] == x);
            }
        }
    } else {
        if !ks.contains(k) {
            lemma_count_below_bound(ks, k);
            assert(ks.insert(count_below(ks, k) as int, k)[count_below(ks, k) as int] == k);
        }
    }
}

proof fn lemma_count_below_bound(ks: Seq<u32>, k: u32)
    ensures
        count_below(ks, k) <= ks.len(),
    decreases ks.len(),
{
    if ks.len() > 0 {
        lemma_count_below_bound(ks.drop_last(), k);
    }
}

/// Groups the entries of one source into date buckets: one per date, in date
/// order, each in normal form.
pub fn bucket_by_date(entries: Vec<Entry>) -> (r: Vec<Bucket>)
    ensures
        bucket_views(r@) == date_buckets(entries@),
        keys_ascending(r@),
{
    let ghost s = entries@;
    let raw = group_by_date(entries);
    let ghost g = raw@;
    let total = raw.len();
    let mut rest = reversed(raw);
    let mut out: Vec<Bucket> = Vec::new();
    let mut i: usize = 0;
    while rest.len() > 0
        invariant
            i <= g.len(),
            g.len() == total,
            rest@ == g.skip(i as int).reverse(),
            rest@.len() == g.len() - i,
            out@.len() == i,
            forall|j: int| 0 <= j < i ==> (#[trigger] out@[j]).0 == g[j].0 && out@[j].1@ == normalized(g[j].1@),
        decreases rest@.len(),
    {
        proof {
            lemma_reverse_skip(g, i as int);
        }
        let (k, mut v) = rest.pop().unwrap();
        sort_dedup_directives(&mut v);
        out.push((k, v));
        i = i + 1;
    }
    proof {
        let ks = date_keys(s);
        assert(bucket_keys(g).len() == g.len());
        assert forall|j: int| 0 <= j < g.len() implies g[j].0 == ks[j] by {
            assert(bucket_keys(g)[j] == g[j].0);
        }
        assert(bucket_views(out@) =~= date_buckets(s));
        lemma_date_keys_ascending(s);
        assert forall|a: int, b: int| 0 <= a < b < out@.len() implies out@[a].0 < out@[b].0 by {
            assert(out@[a].0 == ks[a] && out@[b].0 == ks[b]);
        }
    }
    out
}

/// The date keys are strictly ascending.
proof fn lemma_date_keys_ascending(s: Seq<Entry>)
    ensures
        forall|a: int, b: int| 0 <= a < b < date_keys(s).len() ==> date_keys(s)[a] < date_keys(s)[b],
    decreases s.len(),
{
    if s.len() > 0 {
        let ks = date_keys(s.drop_last());
        let k = date_key(s.last());
        lemma_date_keys_ascending(s.drop_last());
        if !ks.contains(k) {
            lemma_count_below_bound(ks, k);
            let c = count_below(ks, k) as int;
            lemma_count_below_split(ks, k);
            let n = ks.insert(c, k);
            assert forall|a: int, b: int| 0 <= a < b < n.len() implies n[a] < n[b] by {
                if b < c {
                    assert(n[a] == ks[a] && n[b] == ks[b]);
                } else if b == c {
                    assert(n[a] == ks[a]);
                } else if a < c {
                    assert(n[a] == ks[a] && n[b] == ks[b - 1]);
                    assert(ks[b - 1] != k);
                } else if a == c {
                    assert(n[b] == ks[b - 1]);
                    assert(ks[b - 1] != k);
                } else {
                    assert(n[a] == ks[a - 1] && n[b] == ks[b - 1]);
                }
            }
        }
    }
}

/// In ascending keys, those counted below `k` come first.
proof fn lemma_count_below_split(ks: Seq<u32>, k: u32)
    requires
        forall|a: int, b: int| 0 <= a < b < ks.len() ==> ks[a] < ks[b],
    ensures
        forall|j: int| 0 <= j < count_below(ks, k) ==> ks[j] < k,
        forall|j: int| count_below(ks, k) <= j < ks.len() ==> ks[j] >= k,
    decreases ks.len(),
{
    if ks.len() > 0 {
        let d = ks.drop_last();
        lemma_count_below_split(d, k);
        lemma_count_below_bound(d, k);
        let c = count_below(d, k) as int;
        if ks.last() < k {
            assert(c == d.len()) by {
                if c < d.len() {
                    assert(d[c] >= k);
                    assert(ks[c] < ks[ks.len() - 1]);
                }
            }
            assert(count_below(ks, k) == ks.len());
            assert forall|j: int| 0 <= j < count_below(ks, k) implies ks[j] < k by {
                if j < ks.len() - 1 {
                    assert(ks[j] < ks[ks.len() - 1]);
                }
            }
        } else {
            assert(count_below(ks, k) == c);
            assert forall|j: int| 0 <= j < count_below(ks, k) implies ks[j] < k by {
                assert(ks[j] == d[j]);
            }
            assert forall|j: int| count_below(ks, k) <= j < ks.len() implies ks[j] >= k by {
                if j < ks.len() - 1 {
                    assert(ks[j] == d[j]);
                }
            }
        }
    }
}

} // verus!

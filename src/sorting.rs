//! Normalisation of the entries of one source: a fixed order of directive kinds
//! within a day, and removal of repeated balance assertions.

use crate::entry::{kind_rank, plain_content_same, Entry, EntryContent, EntryContentV, EntryV};
use crate::metadata::metadata_same;
use crate::sequence::reversed;
use vstd::prelude::*;

verus! {

/// The order key of an entry: its date first, then the rank of its kind.
pub open spec fn order_key(e: Entry) -> int {
    e.date.ordinal() * 8 + kind_rank(e@.content)
}

/// How many entries of `s` have an order key not above `k`.
pub open spec fn count_not_above(s: Seq<Entry>, k: int) -> nat
    decreases s.len(),
{
    if s.len() == 0 {
        0
    } else {
        count_not_above(s.drop_last(), k) + if order_key(s.last()) <= k {
            1nat
        } else {
            0nat
        }
    }
}

/// The order keys of `s` do not decrease.
pub open spec fn keys_sorted(s: Seq<Entry>) -> bool {
    forall|i: int, j: int| 0 <= i < j < s.len() ==> order_key(s[i]) <= order_key(s[j])
}

/// The stable sort of `s` by date, then kind: each entry goes after every
/// earlier entry whose key is not above its own.
pub open spec fn sorted_by_key(s: Seq<Entry>) -> Seq<Entry>
    decreases s.len(),
{
    if s.len() == 0 {
        seq![]
    } else {
        let r = sorted_by_key(s.drop_last());
        r.insert(count_not_above(r, order_key(s.last())) as int, s.last())
    }
}

/// Two entries that are the same balance assertion: same date, metadata and content.
pub open spec fn identical_entries(a: EntryV, b: EntryV) -> bool {
    match (a.content, b.content) {
        (EntryContentV::Balance { .. }, EntryContentV::Balance { .. }) => a.date == b.date
            && metadata_same(a.metadata, b.metadata) && plain_content_same(a.content, b.content),
        _ => false,
    }
}

/// `s` without each entry that is identical to the last entry kept before it.
pub open spec fn dedup_identical(s: Seq<Entry>) -> Seq<Entry>
    decreases s.len(),
{
    if s.len() == 0 {
        seq![]
    } else {
        let kept = dedup_identical(s.drop_last());
        if kept.len() > 0 && identical_entries(kept.last()@, s.last()@) {
            kept
        } else {
            kept.push(s.last())
        }
    }
}

/// The normal form of the entries of one source: sorted by date, then kind,
/// without repeated identical balance assertions.
pub open spec fn normalized(s: Seq<Entry>) -> Seq<Entry> {
    dedup_identical(sorted_by_key(s))
}

proof fn lemma_take_next<T>(s: Seq<T>, i: int)
    requires
        0 <= i < s.len(),
    ensures
        s.take(i + 1).drop_last() == s.take(i),
        s.take(i + 1).last() == s[i],
        s.take(i + 1).len() > 0,
{
    assert(s.take(i + 1).drop_last() =~= s.take(i));
}

/// Whether two entries are the same balance assertion.
pub fn is_identical(a: &Entry, b: &Entry) -> (r: bool)
    ensures
        r == identical_entries(a@, b@),
{
    match (&a.content, &b.content) {
        (EntryContent::Balance(_), EntryContent::Balance(_)) => a.date == b.date
            && a.metadata.same_as(&b.metadata) && a.content.plain_equals(&b.content),
        _ => false,
    }
}

proof fn lemma_count_not_above(s: Seq<Entry>, k: int, p: int)
    requires
        0 <= p <= s.len(),
        forall|j: int| 0 <= j < p ==> order_key(s[j]) <= k,
        forall|j: int| p <= j < s.len() ==> order_key(s[j]) > k,
    ensures
        count_not_above(s, k) == p,
    decreases s.len(),
{
    if s.len() > 0 {
        if p == s.len() {
            lemma_count_not_above(s.drop_last(), k, p - 1);
        } else {
            lemma_count_not_above(s.drop_last(), k, p);
        }
    }
}

/// The order key of an entry, as computed.
fn entry_key(e: &Entry) -> (r: u64)
    ensures
        r as int == order_key(*e),
{
    e.date.key() as u64 * 8 + e.content.rank() as u64
}

/// The stable sort of `v` by date, then kind.
pub fn sort_by_key(v: Vec<Entry>) -> (r: Vec<Entry>)
    ensures
        r@ == sorted_by_key(v@),
        keys_sorted(r@),
{
    let ghost s = v@;
    let total = v.len();
    let mut rest = reversed(v);
    let mut out: Vec<Entry> = Vec::new();
    let mut i: usize = 0;
    while rest.len() > 0
        invariant
            i <= s.len(),
            s.len() == total,
            rest@ == s.skip(i as int).reverse(),
            rest@.len() == s.len() - i,
            out@ == sorted_by_key(s.take(i as int)),
            keys_sorted(out@),
        decreases rest@.len(),
    {
        proof {
            crate::sequence::lemma_reverse_skip(s, i as int);
            lemma_take_next(s, i as int);
        }
        let e = rest.pop().unwrap();
        let k = entry_key(&e);
        let ghost o = out@;
        let mut p: usize = 0;
        while p < out.len() && entry_key(&out[p]) <= k
            invariant
                p <= out@.len(),
                out@ == o,
                k == order_key(e),
                forall|j: int| 0 <= j < p ==> order_key(o[j]) <= k,
            decreases out@.len() - p,
        {
            p = p + 1;
        }
        proof {
            assert forall|j: int| p <= j < o.len() implies order_key(o[j]) > k by {
                if j > p {
                    assert(order_key(o[p as int]) <= order_key(o[j]));
                }
            }
            lemma_count_not_above(o, k as int, p as int);
        }
        out.insert(p, e);
        proof {
            let n = out@;
            assert(n == o.insert(p as int, e));
            assert forall|a: int, b: int| 0 <= a < b < n.len() implies order_key(n[a]) <= order_key(n[b]) by {
                if b < p {
                    assert(n[a] == o[a] && n[b] == o[b]);
                } else if b == p {
                    assert(n[a] == o[a]);
                } else if a < p {
                    assert(n[a] == o[a] && n[b] == o[b - 1]);
                } else if a == p {
                    assert(n[b] == o[b - 1]);
                } else {
                    assert(n[a] == o[a - 1] && n[b] == o[b - 1]);
                }
            }
        }
        i = i + 1;
    }
    proof {
        assert(s.take(i as int) =~= s);
    }
    out
}

/// `v` without each entry that is identical to the last entry kept before it.
pub fn dedup_entries(v: Vec<Entry>) -> (r: Vec<Entry>)
    ensures
        r@ == dedup_identical(v@),
{
    let ghost s = v@;
    let total = v.len();
    let mut rest = reversed(v);
    let mut kept: Vec<Entry> = Vec::new();
    let mut i: usize = 0;
    while rest.len() > 0
        invariant
            i <= s.len(),
            rest@ == s.skip(i as int).reverse(),
            rest@.len() == s.len() - i,
            s.len() == total,
            kept@ == dedup_identical(s.take(i as int)),
        decreases rest@.len(),
    {
        proof {
            crate::sequence::lemma_reverse_skip(s, i as int);
            lemma_take_next(s, i as int);
        }
        let e = rest.pop().unwrap();
        let n = kept.len();
        if n > 0 && is_identical(&kept[n - 1], &e) {
        } else {
            kept.push(e);
        }
        i = i + 1;
    }
    proof {
        assert(s.take(i as int) =~= s);
    }
    kept
}

/// Puts the entries of one source in their normal form: sorted by date, then by
/// kind (open, pad, commodity, transaction, balance, price, close, event),
/// keeping the order among entries with the same date and kind, and without
/// repeated identical balance assertions.
pub fn sort_dedup_directives(entries: &mut Vec<Entry>)
    ensures
        final(entries)@ == normalized(old(entries)@),
        keys_sorted(final(entries)@),
{
    let mut all: Vec<Entry> = Vec::new();
    all.append(entries);
    let sorted = sort_by_key(all);
    let ghost sv = sorted@;
    let r = dedup_entries(sorted);
    proof {
        lemma_dedup_sorted(sv);
    }
    *entries = r;
}

/// Removing repeated entries keeps the order of keys.
proof fn lemma_dedup_sorted(s: Seq<Entry>)
    requires
        keys_sorted(s),
    ensures
        keys_sorted(dedup_identical(s)),
        forall|i: int| 0 <= i < dedup_identical(s).len() ==> s.contains(#[trigger] dedup_identical(s)[i]),
    decreases s.len(),
{
    if s.len() > 0 {
        let d = s.drop_last();
        assert(keys_sorted(d));
        lemma_dedup_sorted(d);
        let kept = dedup_identical(d);
        assert forall|i: int| 0 <= i < kept.len() implies s.contains(#[trigger] kept[i]) by {
            let j = choose|j: int| 0 <= j < d.len() && d[j] == kept[i];
            assert(s[j] == kept[i]);
        }
        if !(kept.len() > 0 && identical_entries(kept.last()@, s.last()@)) {
            let n = kept.push(s.last());
            assert forall|a: int, b: int| 0 <= a < b < n.len() implies order_key(n[a]) <= order_key(n[b]) by {
                if b == n.len() - 1 {
                    let j = choose|j: int| 0 <= j < d.len() && d[j] == kept[a];
                    assert(order_key(s[j]) <= order_key(s[s.len() - 1]));
                } else {
                    assert(n[a] == kept[a] && n[b] == kept[b]);
                }
            }
            assert forall|i: int| 0 <= i < n.len() implies s.contains(#[trigger] n[i]) by {
                if i == n.len() - 1 {
                    assert(s[s.len() - 1] == n[i]);
                } else {
                    assert(n[i] == kept[i]);
                }
            }
        }
    }
}

} // verus!

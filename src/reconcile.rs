//! Reconciliation of a journal against staging entries, bucket by bucket.

use crate::entry::Entry;
use crate::matching::{entry_matches, journal_matches_staging};
use crate::merge_diff::{merge_spec, sort_merge_diff, JoinResult};
use crate::sequence::{lemma_reverse_skip, reversed};
use vstd::prelude::*;

verus! {

/// One difference between the journal and the staging entries.
#[derive(Debug)]
pub enum ReconcileItem {
    OnlyInJournal(Entry),
    OnlyInStaging(Entry),
}

/// The entries of one date, with the date's key.
pub type Bucket = (u32, Vec<Entry>);

/// A bucket as a key and a sequence of entries.
pub type BucketV = (u32, Seq<Entry>);

pub open spec fn bucket_views(s: Seq<Bucket>) -> Seq<BucketV> {
    s.map_values(|b: Bucket| (b.0, b.1@))
}

pub open spec fn join_view(r: JoinResult<Bucket>) -> JoinResult<BucketV> {
    match r {
        JoinResult::OnlyInFirst(b) => JoinResult::OnlyInFirst((b.0, b.1@)),
        JoinResult::OnlyInSecond(b) => JoinResult::OnlyInSecond((b.0, b.1@)),
        JoinResult::InBoth(x, y) => JoinResult::InBoth((x.0, x.1@), (y.0, y.1@)),
    }
}

/// Merging buckets and then viewing them is viewing them and then merging.
pub proof fn lemma_merge_views(a: Seq<Bucket>, b: Seq<Bucket>)
    ensures
        merge_spec(bucket_views(a), bucket_views(b)) == merge_spec(a, b).map_values(
            |r: JoinResult<Bucket>| join_view(r),
        ),
    decreases a.len() + b.len(),
{
    let va = bucket_views(a);
    let vb = bucket_views(b);
    let f = |r: JoinResult<Bucket>| join_view(r);
    let m = merge_spec(a, b);
    assert(va.len() == a.len() && vb.len() == b.len());
    if a.len() == 0 && b.len() == 0 {
        assert(m.map_values(f) =~= Seq::<JoinResult<BucketV>>::empty());
    } else if b.len() == 0 || (a.len() > 0 && a.last().0 > b.last().0) {
        lemma_merge_views(a.drop_last(), b);
        assert(bucket_views(a.drop_last()) =~= va.drop_last());
        assert(va.last() == (a.last().0, a.last().1@));
        assert(m.map_values(f) =~= merge_spec(a.drop_last(), b).map_values(f).push(
            f(JoinResult::OnlyInFirst(a.last())),
        ));
    } else if a.len() == 0 || a.last().0 < b.last().0 {
        lemma_merge_views(a, b.drop_last());
        assert(bucket_views(b.drop_last()) =~= vb.drop_last());
        assert(vb.last() == (b.last().0, b.last().1@));
        assert(m.map_values(f) =~= merge_spec(a, b.drop_last()).map_values(f).push(
            f(JoinResult::OnlyInSecond(b.last())),
        ));
    } else {
        lemma_merge_views(a.drop_last(), b.drop_last());
        assert(bucket_views(a.drop_last()) =~= va.drop_last());
        assert(bucket_views(b.drop_last()) =~= vb.drop_last());
        assert(va.last() == (a.last().0, a.last().1@));
        assert(vb.last() == (b.last().0, b.last().1@));
        assert(m.map_values(f) =~= merge_spec(a.drop_last(), b.drop_last()).map_values(f).push(
            f(JoinResult::InBoth(a.last(), b.last())),
        ));
    }
}

pub open spec fn as_journal(s: Seq<Entry>) -> Seq<ReconcileItem> {
    s.map_values(|e: Entry| ReconcileItem::OnlyInJournal(e))
}

pub open spec fn as_staging(s: Seq<Entry>) -> Seq<ReconcileItem> {
    s.map_values(|e: Entry| ReconcileItem::OnlyInStaging(e))
}

/// The position of the first journal entry that matches `s`; the length of
/// `j` when none does.
pub open spec fn match_index(j: Seq<Entry>, s: Entry) -> int
    decreases j.len(),
{
    if j.len() == 0 {
        0
    } else if entry_matches(j[0]@, s@) {
        0
    } else {
        1 + match_index(j.skip(1), s)
    }
}

/// The differences within one date. Staging entries are taken last first; each
/// consumes the first journal entry that matches it, or else is only in staging.
/// The journal entries left over follow, in their order.
pub open spec fn bucket_items(j: Seq<Entry>, s: Seq<Entry>) -> Seq<ReconcileItem>
    decreases s.len(),
{
    if s.len() == 0 {
        as_journal(j)
    } else {
        let k = match_index(j, s.last());
        if k < j.len() {
            bucket_items(j.remove(k), s.drop_last())
        } else {
            seq![ReconcileItem::OnlyInStaging(s.last())] + bucket_items(j, s.drop_last())
        }
    }
}

/// The number of pairs matched within one date.
pub open spec fn bucket_matched(j: Seq<Entry>, s: Seq<Entry>) -> nat
    decreases s.len(),
{
    if s.len() == 0 {
        0
    } else {
        let k = match_index(j, s.last());
        if k < j.len() {
            1 + bucket_matched(j.remove(k), s.drop_last())
        } else {
            bucket_matched(j, s.drop_last())
        }
    }
}

/// The differences that one merged date contributes.
pub open spec fn join_items(r: JoinResult<BucketV>) -> Seq<ReconcileItem> {
    match r {
        JoinResult::OnlyInFirst(b) => as_journal(b.1),
        JoinResult::OnlyInSecond(b) => as_staging(b.1),
        JoinResult::InBoth(jb, sb) => bucket_items(jb.1, sb.1),
    }
}

/// The differences of all merged dates, in date order.
pub open spec fn items_of(rs: Seq<JoinResult<BucketV>>) -> Seq<ReconcileItem>
    decreases rs.len(),
{
    if rs.len() == 0 {
        seq![]
    } else {
        items_of(rs.drop_last()) + join_items(rs.last())
    }
}

/// The result of reconciling journal buckets with staging buckets.
pub open spec fn reconcile_spec(journal: Seq<BucketV>, staging: Seq<BucketV>) -> Seq<ReconcileItem> {
    items_of(merge_spec(journal, staging))
}

proof fn lemma_match_index(j: Seq<Entry>, s: Entry, i: int)
    requires
        0 <= i <= j.len(),
        forall|l: int| 0 <= l < i ==> !entry_matches(#[trigger] j[l]@, s@),
        i == j.len() || entry_matches(j[i]@, s@),
    ensures
        match_index(j, s) == i,
    decreases i,
{
    if i > 0 {
        assert(!entry_matches(j[0]@, s@));
        assert forall|l: int| 0 <= l < i - 1 implies !entry_matches(#[trigger] j.skip(1)[l]@, s@) by {
            assert(j.skip(1)[l] == j[l + 1]);
        }
        lemma_match_index(j.skip(1), s, i - 1);
    }
}

/// The position of the first journal entry that matches `staging`.
fn find_match(journal: &Vec<Entry>, staging: &Entry) -> (r: usize)
    ensures
        r == match_index(journal@, *staging),
{
    let mut i: usize = 0;
    while i < journal.len()
        invariant
            i <= journal@.len(),
            forall|l: int| 0 <= l < i ==> !entry_matches(#[trigger] journal@[l]@, staging@),
        decreases journal@.len() - i,
    {
        if journal_matches_staging(&journal[i], staging) {
            proof {
                lemma_match_index(journal@, *staging, i as int);
            }
            return i;
        }
        i = i + 1;
    }
    proof {
        lemma_match_index(journal@, *staging, i as int);
    }
    i
}

/// Appends `entries`, each as only in the journal or each as only in staging.
fn push_all(results: &mut Vec<ReconcileItem>, entries: Vec<Entry>, in_journal: bool)
    ensures
        final(results)@ == old(results)@ + if in_journal {
            as_journal(entries@)
        } else {
            as_staging(entries@)
        },
{
    let ghost s = entries@;
    let ghost r0 = results@;
    let ghost tagged = if in_journal {
        as_journal(s)
    } else {
        as_staging(s)
    };
    let total = entries.len();
    let mut rest = reversed(entries);
    let mut i: usize = 0;
    while rest.len() > 0
        invariant
            i <= s.len(),
            s.len() == total,
            rest@ == s.skip(i as int).reverse(),
            rest@.len() == s.len() - i,
            tagged.len() == s.len(),
            forall|l: int| 0 <= l < s.len() ==> #[trigger] tagged[l] == if in_journal {
                ReconcileItem::OnlyInJournal(s[l])
            } else {
                ReconcileItem::OnlyInStaging(s[l])
            },
            results@ == r0 + tagged.take(i as int),
        decreases rest@.len(),
    {
        proof {
            lemma_reverse_skip(s, i as int);
        }
        let e = rest.pop().unwrap();
        if in_journal {
            results.push(ReconcileItem::OnlyInJournal(e));
        } else {
            results.push(ReconcileItem::OnlyInStaging(e));
        }
        proof {
            assert(results@ =~= r0 + tagged.take(i + 1));
        }
        i = i + 1;
    }
    proof {
        assert(tagged.take(i as int) =~= tagged);
    }
}

/// Reconciles the entries of one date: appends the staging entries that no
/// journal entry matches (last first), then the journal entries left over.
pub fn reconcile_bucket(results: &mut Vec<ReconcileItem>, journal: Vec<Entry>, staging: Vec<Entry>)
    ensures
        final(results)@ == old(results)@ + bucket_items(journal@, staging@),
{
    let ghost r0 = results@;
    let ghost whole = bucket_items(journal@, staging@);
    let mut journal = journal;
    let mut staging = staging;
    while staging.len() > 0
        invariant
            r0 + whole == results@ + bucket_items(journal@, staging@),
        decreases staging@.len(),
    {
        let ghost (s0, res0) = (staging@, results@);
        let item = staging.pop().unwrap();
        let at = find_match(&journal, &item);
        if at < journal.len() {
            journal.remove(at);
        } else {
            results.push(ReconcileItem::OnlyInStaging(item));
            proof {
                assert(res0 + (seq![ReconcileItem::OnlyInStaging(s0.last())] + bucket_items(
                    journal@,
                    staging@,
                )) =~= results@ + bucket_items(journal@, staging@));
            }
        }
    }
    push_all(results, journal, true);
    proof {
        assert(r0 + whole =~= results@);
    }
}

/// Reconciles journal buckets with staging buckets, each sorted by date key:
/// a date only in the journal gives its entries as only in the journal, a date
/// only in staging gives its entries as only in staging, and a date in both is
/// reconciled entry by entry.
pub fn reconcile(journal: Vec<Bucket>, staging: Vec<Bucket>) -> (r: Vec<ReconcileItem>)
    ensures
        r@ == reconcile_spec(bucket_views(journal@), bucket_views(staging@)),
{
    proof {
        lemma_merge_views(journal@, staging@);
    }
    let merged = sort_merge_diff(journal, staging);
    let ghost m = merged@;
    let ghost mv = m.map_values(|r: JoinResult<Bucket>| join_view(r));
    let total = merged.len();
    let mut rest = reversed(merged);
    let mut results: Vec<ReconcileItem> = Vec::new();
    let mut i: usize = 0;
    while rest.len() > 0
        invariant
            i <= m.len(),
            m.len() == total,
            rest@ == m.skip(i as int).reverse(),
            rest@.len() == m.len() - i,
            mv == m.map_values(|r: JoinResult<Bucket>| join_view(r)),
            results@ == items_of(mv.take(i as int)),
        decreases rest@.len(),
    {
        proof {
            lemma_reverse_skip(m, i as int);
            assert(mv.take(i + 1).drop_last() =~= mv.take(i as int));
            assert(mv.take(i + 1).last() == join_view(m[i as int]));
        }
        let bucket = rest.pop().unwrap();
        match bucket {
            JoinResult::OnlyInFirst((_, items)) => push_all(&mut results, items, true),
            JoinResult::OnlyInSecond((_, items)) => push_all(&mut results, items, false),
            JoinResult::InBoth((_, journal_items), (_, staging_items)) => reconcile_bucket(
                &mut results,
                journal_items,
                staging_items,
            ),
        }
        i = i + 1;
    }
    proof {
        assert(mv.take(i as int) =~= mv);
    }
    results
}

} // verus!

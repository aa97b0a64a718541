//! Laws of reconciliation, matching and commit, proved over the specifications.

use crate::commit::{commit_outcome, committed_entry, with_provenance, CommitError};
use crate::entry::{Entry, EntryContentV, EntryV, TransactionV};
use crate::matching::{SOURCE_DESC, SOURCE_PAYEE};
use crate::metadata::lemma_lookup_after_insert;
use crate::pending::{reloaded, PendingStateV};
use crate::matching::entry_matches;
use crate::merge_diff::{firsts, lemma_merge_empty_second, lemma_merge_sides, merge_spec, seconds, JoinResult};
use crate::reconcile::{
    as_journal, as_staging, bucket_items, bucket_matched, items_of, join_items, match_index,
    reconcile_spec, BucketV, ReconcileItem,
};
use vstd::prelude::*;

verus! {

/// How many items are only in the journal.
pub open spec fn n_journal(items: Seq<ReconcileItem>) -> nat
    decreases items.len(),
{
    if items.len() == 0 {
        0
    } else {
        n_journal(items.drop_last()) + if items.last() is OnlyInJournal {
            1nat
        } else {
            0nat
        }
    }
}

/// How many items are only in staging.
pub open spec fn n_staging(items: Seq<ReconcileItem>) -> nat
    decreases items.len(),
{
    if items.len() == 0 {
        0
    } else {
        n_staging(items.drop_last()) + if items.last() is OnlyInStaging {
            1nat
        } else {
            0nat
        }
    }
}

/// How many entries the buckets hold.
pub open spec fn n_entries(buckets: Seq<BucketV>) -> nat
    decreases buckets.len(),
{
    if buckets.len() == 0 {
        0
    } else {
        n_entries(buckets.drop_last()) + buckets.last().1.len()
    }
}

/// All entries of the buckets, bucket after bucket.
pub open spec fn all_entries(buckets: Seq<BucketV>) -> Seq<Entry>
    decreases buckets.len(),
{
    if buckets.len() == 0 {
        seq![]
    } else {
        all_entries(buckets.drop_last()) + buckets.last().1
    }
}

/// How many pairs a merged reconciliation matches.
pub open spec fn n_matched(rs: Seq<JoinResult<BucketV>>) -> nat
    decreases rs.len(),
{
    if rs.len() == 0 {
        0
    } else {
        n_matched(rs.drop_last()) + match rs.last() {
            JoinResult::InBoth(j, s) => bucket_matched(j.1, s.1),
            _ => 0,
        }
    }
}

/// The number of matched pairs of a reconciliation.
pub open spec fn matched_pairs(journal: Seq<BucketV>, staging: Seq<BucketV>) -> nat {
    n_matched(merge_spec(journal, staging))
}

proof fn lemma_counts_add(a: Seq<ReconcileItem>, b: Seq<ReconcileItem>)
    ensures
        n_journal(a + b) == n_journal(a) + n_journal(b),
        n_staging(a + b) == n_staging(a) + n_staging(b),
    decreases b.len(),
{
    if b.len() == 0 {
        assert(a + b =~= a);
    } else {
        lemma_counts_add(a, b.drop_last());
        assert((a + b).drop_last() =~= a + b.drop_last());
        assert((a + b).last() == b.last());
    }
}

proof fn lemma_counts_tagged(v: Seq<Entry>)
    ensures
        n_journal(as_journal(v)) == v.len(),
        n_staging(as_journal(v)) == 0,
        n_journal(as_staging(v)) == 0,
        n_staging(as_staging(v)) == v.len(),
    decreases v.len(),
{
    if v.len() > 0 {
        lemma_counts_tagged(v.drop_last());
        assert(as_journal(v).drop_last() =~= as_journal(v.drop_last()));
        assert(as_staging(v).drop_last() =~= as_staging(v.drop_last()));
    }
}

proof fn lemma_match_index_bound(j: Seq<Entry>, s: Entry)
    ensures
        0 <= match_index(j, s) <= j.len(),
    decreases j.len(),
{
    if j.len() > 0 && !entry_matches(j[0]@, s@) {
        lemma_match_index_bound(j.skip(1), s);
    }
}

/// Within one date, every journal entry and every staging entry is either in a
/// matched pair or in exactly one item.
pub proof fn lemma_bucket_partition(j: Seq<Entry>, s: Seq<Entry>)
    ensures
        j.len() == n_journal(bucket_items(j, s)) + bucket_matched(j, s),
        s.len() == n_staging(bucket_items(j, s)) + bucket_matched(j, s),
    decreases s.len(),
{
    if s.len() == 0 {
        lemma_counts_tagged(j);
    } else {
        let k = match_index(j, s.last());
        lemma_match_index_bound(j, s.last());
        if k < j.len() {
            lemma_bucket_partition(j.remove(k), s.drop_last());
            assert(bucket_items(j, s) == bucket_items(j.remove(k), s.drop_last()));
            assert(bucket_matched(j, s) == 1 + bucket_matched(j.remove(k), s.drop_last()));
        } else {
            lemma_bucket_partition(j, s.drop_last());
            let head = seq![ReconcileItem::OnlyInStaging(s.last())];
            lemma_counts_add(head, bucket_items(j, s.drop_last()));
            assert(head.drop_last() =~= Seq::<ReconcileItem>::empty());
            assert(n_journal(Seq::<ReconcileItem>::empty()) == 0);
            assert(n_staging(Seq::<ReconcileItem>::empty()) == 0);
            assert(n_journal(head) == 0);
            assert(n_staging(head) == 1);
            assert(bucket_items(j, s) == head + bucket_items(j, s.drop_last()));
            assert(bucket_matched(j, s) == bucket_matched(j, s.drop_last()));
        }
    }
}

proof fn lemma_items_partition(rs: Seq<JoinResult<BucketV>>)
    ensures
        n_entries(firsts(rs)) == n_journal(items_of(rs)) + n_matched(rs),
        n_entries(seconds(rs)) == n_staging(items_of(rs)) + n_matched(rs),
    decreases rs.len(),
{
    if rs.len() > 0 {
        let rest = rs.drop_last();
        lemma_items_partition(rest);
        lemma_counts_add(items_of(rest), join_items(rs.last()));
        assert(items_of(rs) == items_of(rest) + join_items(rs.last()));
        let f = firsts(rest);
        let g = seconds(rest);
        match rs.last() {
            JoinResult::OnlyInFirst(b) => {
                lemma_counts_tagged(b.1);
                assert(firsts(rs) == f.push(b));
                assert(f.push(b).drop_last() =~= f);
                assert(seconds(rs) == g);
            },
            JoinResult::OnlyInSecond(b) => {
                lemma_counts_tagged(b.1);
                assert(seconds(rs) == g.push(b));
                assert(g.push(b).drop_last() =~= g);
                assert(firsts(rs) == f);
            },
            JoinResult::InBoth(x, y) => {
                lemma_bucket_partition(x.1, y.1);
                assert(firsts(rs) == f.push(x));
                assert(f.push(x).drop_last() =~= f);
                assert(seconds(rs) == g.push(y));
                assert(g.push(y).drop_last() =~= g);
            },
        }
    }
}

/// Reconciliation partitions both sources: every journal entry is either only
/// in the journal or in a matched pair, and every staging entry is either only
/// in staging or in a matched pair.
pub proof fn lemma_reconcile_partition(journal: Seq<BucketV>, staging: Seq<BucketV>)
    ensures
        n_entries(journal) == n_journal(reconcile_spec(journal, staging)) + matched_pairs(journal, staging),
        n_entries(staging) == n_staging(reconcile_spec(journal, staging)) + matched_pairs(journal, staging),
{
    lemma_merge_sides(journal, staging);
    lemma_items_partition(merge_spec(journal, staging));
}

proof fn lemma_items_only_first(bs: Seq<BucketV>)
    ensures
        items_of(bs.map_values(|b: BucketV| JoinResult::OnlyInFirst(b))) == as_journal(all_entries(bs)),
    decreases bs.len(),
{
    let rs = bs.map_values(|b: BucketV| JoinResult::OnlyInFirst(b));
    if bs.len() == 0 {
        assert(rs =~= Seq::<JoinResult<BucketV>>::empty());
        assert(as_journal(all_entries(bs)) =~= Seq::<ReconcileItem>::empty());
    } else {
        lemma_items_only_first(bs.drop_last());
        assert(rs.drop_last() =~= bs.drop_last().map_values(|b: BucketV| JoinResult::OnlyInFirst(b)));
        assert(as_journal(all_entries(bs.drop_last()) + bs.last().1) =~= as_journal(all_entries(bs.drop_last())) + as_journal(bs.last().1));
    }
}

/// With no staging entries, every journal entry is only in the journal, in
/// date order, and nothing is only in staging.
pub proof fn lemma_reconcile_without_staging(journal: Seq<BucketV>)
    ensures
        reconcile_spec(journal, Seq::<BucketV>::empty()) == as_journal(all_entries(journal)),
        n_staging(reconcile_spec(journal, Seq::<BucketV>::empty())) == 0,
{
    lemma_merge_empty_second(journal);
    lemma_items_only_first(journal);
    lemma_counts_tagged(all_entries(journal));
}


/// The entry with the flag, tags and links of a transaction replaced.
pub open spec fn with_marks(
    e: EntryV,
    flag: Option<char>,
    tags: Seq<Seq<char>>,
    links: Seq<Seq<char>>,
) -> EntryV {
    match e.content {
        EntryContentV::Transaction(t) => EntryV {
            content: EntryContentV::Transaction(TransactionV { flag, tags, links, ..t }),
            ..e
        },
        _ => e,
    }
}

/// Matching ignores flags, tags and links, on either side.
pub proof fn lemma_match_ignores_marks(
    journal: EntryV,
    staging: EntryV,
    flag: Option<char>,
    tags: Seq<Seq<char>>,
    links: Seq<Seq<char>>,
)
    ensures
        entry_matches(journal, with_marks(staging, flag, tags, links)) == entry_matches(journal, staging),
        entry_matches(with_marks(journal, flag, tags, links), staging) == entry_matches(journal, staging),
{
}

proof fn lemma_provenance_kept(
    m: crate::metadata::MetadataV,
    payee_old: Option<Seq<char>>,
    payee_new: Option<Seq<char>>,
    narration_old: Option<Seq<char>>,
    narration_new: Option<Seq<char>>,
)
    ensures
        ({
            let m2 = with_provenance(
                with_provenance(m, SOURCE_PAYEE@, payee_old, payee_new),
                SOURCE_DESC@,
                narration_old,
                narration_new,
            );
            &&& crate::matching::provenance_text(m2, SOURCE_PAYEE@) == match (payee_old, payee_new) {
                (Some(o), Some(n)) => if o != n {
                    Some(o)
                } else {
                    crate::matching::provenance_text(m, SOURCE_PAYEE@)
                },
                _ => crate::matching::provenance_text(m, SOURCE_PAYEE@),
            }
            &&& crate::matching::provenance_text(m2, SOURCE_DESC@) == match (narration_old, narration_new) {
                (Some(o), Some(n)) => if o != n {
                    Some(o)
                } else {
                    crate::matching::provenance_text(m, SOURCE_DESC@)
                },
                _ => crate::matching::provenance_text(m, SOURCE_DESC@),
            }
        }),
{
    reveal_strlit("source_payee");
    reveal_strlit("source_desc");
    assert(SOURCE_PAYEE@ != SOURCE_DESC@) by {
        assert(SOURCE_PAYEE@.len() != SOURCE_DESC@.len());
    }
    let m1 = with_provenance(m, SOURCE_PAYEE@, payee_old, payee_new);
    if let (Some(o), Some(n)) = (payee_old, payee_new) {
        if o != n {
            lemma_lookup_after_insert(m, SOURCE_PAYEE@, crate::model::MetaValueV::Text(o), SOURCE_PAYEE@);
            lemma_lookup_after_insert(m, SOURCE_PAYEE@, crate::model::MetaValueV::Text(o), SOURCE_DESC@);
        }
    }
    if let (Some(o), Some(n)) = (narration_old, narration_new) {
        if o != n {
            lemma_lookup_after_insert(m1, SOURCE_DESC@, crate::model::MetaValueV::Text(o), SOURCE_PAYEE@);
            lemma_lookup_after_insert(m1, SOURCE_DESC@, crate::model::MetaValueV::Text(o), SOURCE_DESC@);
        }
    }
}

/// A staging transaction that matches itself, committed with edits of a payee
/// or narration that it has, still matches the original: the commit succeeds,
/// and reconciling the committed entry against the original staging entry
/// leaves nothing over.
pub proof fn lemma_commit_rematches(
    staging: Entry,
    committed: Entry,
    account: Seq<char>,
    payee: Option<Seq<char>>,
    narration: Option<Seq<char>>,
)
    requires
        staging@.content is Transaction,
        entry_matches(staging@, staging@),
        payee is Some ==> staging@.content->Transaction_0.payee is Some,
        narration is Some ==> staging@.content->Transaction_0.narration is Some,
        committed@ == committed_entry(staging@, account, payee, narration),
    ensures
        commit_outcome(staging@, true, account, payee, narration) == Ok::<EntryV, CommitError>(committed@),
        bucket_items(seq![committed], seq![staging]) == Seq::<ReconcileItem>::empty(),
{
    let t = staging@.content->Transaction_0;
    let p0 = t.postings[0];
    lemma_provenance_kept(p0.metadata, t.payee, payee, t.narration, narration);
    let c = committed@.content->Transaction_0;
    assert(c.postings[0] == crate::entry::PostingV {
        metadata: with_provenance(
            with_provenance(p0.metadata, SOURCE_PAYEE@, t.payee, payee),
            SOURCE_DESC@,
            t.narration,
            narration,
        ),
        ..p0
    });
    assert(entry_matches(committed@, staging@));
    let j = seq![committed];
    let s = seq![staging];
    assert(j[0] == committed);
    assert(match_index(j, s.last()) == 0);
    assert(j.remove(0) =~= Seq::<Entry>::empty());
    assert(s.drop_last() =~= Seq::<Entry>::empty());
    assert(as_journal(Seq::<Entry>::empty()) =~= Seq::<ReconcileItem>::empty());
    assert(bucket_items(j, s) == bucket_items(j.remove(0), s.drop_last()));
    assert(bucket_items(Seq::<Entry>::empty(), Seq::<Entry>::empty()) == as_journal(Seq::<Entry>::empty()));
}

/// Reloading is idempotent: the state after a reload is fixed by the entries
/// read alone, so a second reload from unchanged files gives the same state,
/// whatever the state held before either reload.
pub proof fn lemma_reload_idempotent(
    journal: Seq<Entry>,
    staging: Seq<Entry>,
    after_first: PendingStateV,
    after_second: PendingStateV,
)
    requires
        after_first == reloaded(journal, staging),
        after_second == reloaded(journal, staging),
    ensures
        after_first == after_second,
{
}


proof fn lemma_match_index_found(j: Seq<Entry>, s: Entry, k: int)
    requires
        0 <= k < j.len(),
        entry_matches(j[k]@, s@),
    ensures
        match_index(j, s) < j.len(),
        entry_matches(j[match_index(j, s)]@, s@),
    decreases j.len(),
{
    if !entry_matches(j[0]@, s@) {
        assert(j.skip(1)[k - 1] == j[k]);
        lemma_match_index_found(j.skip(1), s, k - 1);
        lemma_match_index_bound(j.skip(1), s);
        let x = match_index(j.skip(1), s);
        assert(match_index(j, s) == 1 + x);
        assert(j[1 + x] == j.skip(1)[x]);
    }
}

/// A staging entry that some journal entry of its date matches (such as the
/// journal form that a commit made of it) is never reported as pending: alone in
/// its staging bucket, it leaves no item only in staging.
pub proof fn lemma_matched_entry_not_pending(journal: Seq<Entry>, staging: Entry, k: int)
    requires
        0 <= k < journal.len(),
        entry_matches(journal[k]@, staging@),
    ensures
        n_staging(bucket_items(journal, seq![staging])) == 0,
        n_journal(bucket_items(journal, seq![staging])) == journal.len() - 1,
{
    let s = seq![staging];
    lemma_match_index_found(journal, staging, k);
    lemma_match_index_bound(journal, staging);
    let m = match_index(journal, staging);
    assert(s.last() == staging);
    assert(s.drop_last() =~= Seq::<Entry>::empty());
    assert(0 <= m < journal.len());
    let rest = journal.remove(m);
    assert(bucket_items(journal, s) == bucket_items(rest, s.drop_last()));
    assert(bucket_items(rest, Seq::<Entry>::empty()) == as_journal(rest));
    lemma_counts_tagged(rest);
}

/// A staging entry that no journal entry of its date matches, alone in its
/// staging bucket, is reported exactly once, as only in staging, ahead of the
/// journal entries of that date.
pub proof fn lemma_unmatched_entry_pending(journal: Seq<Entry>, staging: Entry)
    requires
        forall|k: int| 0 <= k < journal.len() ==> !entry_matches(#[trigger] journal[k]@, staging@),
    ensures
        bucket_items(journal, seq![staging]) == seq![ReconcileItem::OnlyInStaging(staging)] + as_journal(journal),
{
    let s = seq![staging];
    lemma_match_index_bound(journal, staging);
    if match_index(journal, staging) < journal.len() {
        lemma_match_index_matches(journal, staging);
    }
    assert(s.last() == staging);
    assert(s.drop_last() =~= Seq::<Entry>::empty());
    assert(bucket_items(journal, s) == seq![ReconcileItem::OnlyInStaging(staging)] + bucket_items(journal, s.drop_last()));
}

proof fn lemma_match_index_matches(j: Seq<Entry>, s: Entry)
    requires
        match_index(j, s) < j.len(),
    ensures
        entry_matches(j[match_index(j, s)]@, s@),
    decreases j.len(),
{
    if j.len() > 0 && !entry_matches(j[0]@, s@) {
        lemma_match_index_bound(j.skip(1), s);
        let x = match_index(j.skip(1), s);
        assert(match_index(j, s) == 1 + x);
        assert(x < j.skip(1).len());
        lemma_match_index_matches(j.skip(1), s);
        assert(j[1 + x] == j.skip(1)[x]);
    }
}

/// With staging buckets that hold no entries, every journal entry is only in
/// the journal and nothing is only in staging.
pub proof fn lemma_reconcile_empty_staging_buckets(journal: Seq<BucketV>, staging: Seq<BucketV>)
    requires
        n_entries(staging) == 0,
    ensures
        n_staging(reconcile_spec(journal, staging)) == 0,
        n_journal(reconcile_spec(journal, staging)) == n_entries(journal),
        matched_pairs(journal, staging) == 0,
{
    lemma_reconcile_partition(journal, staging);
}


/// The entries of the items that are only in the journal, in order.
pub open spec fn journal_side(items: Seq<ReconcileItem>) -> Seq<Entry>
    decreases items.len(),
{
    if items.len() == 0 {
        seq![]
    } else {
        match items.last() {
            ReconcileItem::OnlyInJournal(e) => journal_side(items.drop_last()).push(e),
            ReconcileItem::OnlyInStaging(_) => journal_side(items.drop_last()),
        }
    }
}

/// The entries of the items that are only in staging, in order.
pub open spec fn staging_side(items: Seq<ReconcileItem>) -> Seq<Entry>
    decreases items.len(),
{
    if items.len() == 0 {
        seq![]
    } else {
        match items.last() {
            ReconcileItem::OnlyInStaging(e) => staging_side(items.drop_last()).push(e),
            ReconcileItem::OnlyInJournal(_) => staging_side(items.drop_last()),
        }
    }
}

proof fn lemma_sides_add(a: Seq<ReconcileItem>, b: Seq<ReconcileItem>)
    ensures
        journal_side(a + b) == journal_side(a) + journal_side(b),
        staging_side(a + b) == staging_side(a) + staging_side(b),
    decreases b.len(),
{
    if b.len() == 0 {
        assert(a + b =~= a);
        assert(journal_side(a) + journal_side(b) =~= journal_side(a));
        assert(staging_side(a) + staging_side(b) =~= staging_side(a));
    } else {
        lemma_sides_add(a, b.drop_last());
        assert((a + b).drop_last() =~= a + b.drop_last());
        assert((a + b).last() == b.last());
        match b.last() {
            ReconcileItem::OnlyInJournal(e) => {
                assert(journal_side(a) + journal_side(b.drop_last()).push(e) =~= (journal_side(a)
                    + journal_side(b.drop_last())).push(e));
            },
            ReconcileItem::OnlyInStaging(e) => {
                assert(staging_side(a) + staging_side(b.drop_last()).push(e) =~= (staging_side(a)
                    + staging_side(b.drop_last())).push(e));
            },
        }
    }
}

proof fn lemma_sides_tagged(v: Seq<Entry>)
    ensures
        journal_side(as_journal(v)) == v,
        staging_side(as_journal(v)) == Seq::<Entry>::empty(),
        journal_side(as_staging(v)) == Seq::<Entry>::empty(),
        staging_side(as_staging(v)) == v,
    decreases v.len(),
{
    if v.len() > 0 {
        lemma_sides_tagged(v.drop_last());
        assert(as_journal(v).drop_last() =~= as_journal(v.drop_last()));
        assert(as_staging(v).drop_last() =~= as_staging(v.drop_last()));
        assert(v.drop_last().push(v.last()) =~= v);
    } else {
        assert(as_journal(v) =~= Seq::<ReconcileItem>::empty());
        assert(as_staging(v) =~= Seq::<ReconcileItem>::empty());
        assert(v =~= Seq::<Entry>::empty());
    }
}

/// Within one date, the entries reported only in the journal are drawn from
/// the journal entries, and those reported only in staging from the staging
/// entries, each at most as often as it occurs there.
pub proof fn lemma_bucket_sides(j: Seq<Entry>, s: Seq<Entry>)
    ensures
        journal_side(bucket_items(j, s)).to_multiset().subset_of(j.to_multiset()),
        staging_side(bucket_items(j, s)).to_multiset().subset_of(s.to_multiset()),
    decreases s.len(),
{
    broadcast use vstd::seq_lib::group_to_multiset_ensures;
    if s.len() == 0 {
        lemma_sides_tagged(j);
    } else {
        let k = match_index(j, s.last());
        lemma_match_index_bound(j, s.last());
        let s1 = s.drop_last();
        assert(s1.push(s.last()) =~= s);
        if k < j.len() {
            lemma_bucket_sides(j.remove(k), s1);
            assert(bucket_items(j, s) == bucket_items(j.remove(k), s1));
        } else {
            lemma_bucket_sides(j, s1);
            let head = seq![ReconcileItem::OnlyInStaging(s.last())];
            lemma_sides_add(head, bucket_items(j, s1));
            assert(head.drop_last() =~= Seq::<ReconcileItem>::empty());
            assert(head.last() == ReconcileItem::OnlyInStaging(s.last()));
            assert(journal_side(Seq::<ReconcileItem>::empty()) == Seq::<Entry>::empty());
            assert(staging_side(Seq::<ReconcileItem>::empty()) == Seq::<Entry>::empty());
            assert(journal_side(head) == journal_side(head.drop_last()));
            assert(staging_side(head) == staging_side(head.drop_last()).push(s.last()));
            assert(journal_side(head) =~= Seq::<Entry>::empty());
            assert(staging_side(head) =~= seq![s.last()]);
            assert(bucket_items(j, s) == head + bucket_items(j, s1));
            assert(journal_side(head) + journal_side(bucket_items(j, s1)) =~= journal_side(bucket_items(j, s1)));
            let rest = staging_side(bucket_items(j, s1));
            assert(seq![s.last()] + rest =~= rest.insert(0, s.last()));
        }
    }
}

proof fn lemma_items_sides(rs: Seq<JoinResult<BucketV>>)
    ensures
        journal_side(items_of(rs)).to_multiset().subset_of(all_entries(firsts(rs)).to_multiset()),
        staging_side(items_of(rs)).to_multiset().subset_of(all_entries(seconds(rs)).to_multiset()),
    decreases rs.len(),
{
    broadcast use vstd::seq_lib::group_to_multiset_ensures;
    if rs.len() > 0 {
        let rest = rs.drop_last();
        lemma_items_sides(rest);
        lemma_sides_add(items_of(rest), join_items(rs.last()));
        assert(items_of(rs) == items_of(rest) + join_items(rs.last()));
        let f = firsts(rest);
        let g = seconds(rest);
        let ji = journal_side(items_of(rest));
        let si = staging_side(items_of(rest));
        vstd::seq_lib::lemma_multiset_commutative(ji, journal_side(join_items(rs.last())));
        vstd::seq_lib::lemma_multiset_commutative(si, staging_side(join_items(rs.last())));
        match rs.last() {
            JoinResult::OnlyInFirst(b) => {
                lemma_sides_tagged(b.1);
                assert(firsts(rs) == f.push(b));
                assert(f.push(b).drop_last() =~= f);
                assert(all_entries(firsts(rs)) == all_entries(f) + b.1);
                vstd::seq_lib::lemma_multiset_commutative(all_entries(f), b.1);
                assert(seconds(rs) == g);
                assert(si + Seq::<Entry>::empty() =~= si);
            },
            JoinResult::OnlyInSecond(b) => {
                lemma_sides_tagged(b.1);
                assert(seconds(rs) == g.push(b));
                assert(g.push(b).drop_last() =~= g);
                assert(all_entries(seconds(rs)) == all_entries(g) + b.1);
                vstd::seq_lib::lemma_multiset_commutative(all_entries(g), b.1);
                assert(firsts(rs) == f);
                assert(ji + Seq::<Entry>::empty() =~= ji);
            },
            JoinResult::InBoth(x, y) => {
                lemma_bucket_sides(x.1, y.1);
                assert(firsts(rs) == f.push(x));
                assert(f.push(x).drop_last() =~= f);
                assert(seconds(rs) == g.push(y));
                assert(g.push(y).drop_last() =~= g);
                assert(all_entries(firsts(rs)) == all_entries(f) + x.1);
                assert(all_entries(seconds(rs)) == all_entries(g) + y.1);
                vstd::seq_lib::lemma_multiset_commutative(all_entries(f), x.1);
                vstd::seq_lib::lemma_multiset_commutative(all_entries(g), y.1);
            },
        }
    }
}

/// Reconciliation reports each entry at most once, and only under its own
/// source: the entries only in the journal form a sub-multiset of the journal
/// entries, and those only in staging a sub-multiset of the staging entries.
pub proof fn lemma_reconcile_sides(journal: Seq<BucketV>, staging: Seq<BucketV>)
    ensures
        journal_side(reconcile_spec(journal, staging)).to_multiset().subset_of(
            all_entries(journal).to_multiset(),
        ),
        staging_side(reconcile_spec(journal, staging)).to_multiset().subset_of(
            all_entries(staging).to_multiset(),
        ),
{
    lemma_merge_sides(journal, staging);
    lemma_items_sides(merge_spec(journal, staging));
}


/// The pairs that reconciling one date matches: each staging entry, taken last
/// first, with the journal entry it consumes.
pub open spec fn bucket_pairs(j: Seq<Entry>, s: Seq<Entry>) -> Seq<(Entry, Entry)>
    decreases s.len(),
{
    if s.len() == 0 {
        seq![]
    } else {
        let k = match_index(j, s.last());
        if k < j.len() {
            bucket_pairs(j.remove(k), s.drop_last()).push((j[k], s.last()))
        } else {
            bucket_pairs(j, s.drop_last())
        }
    }
}

/// Within one date, the consumed entries pair up one to one, each journal
/// entry with a staging entry that it matches; with the items reported, they
/// make up the journal entries and the staging entries exactly.
pub proof fn lemma_bucket_pairs(j: Seq<Entry>, s: Seq<Entry>)
    ensures
        forall|i: int|
            0 <= i < bucket_pairs(j, s).len() ==> entry_matches(
                (#[trigger] bucket_pairs(j, s)[i]).0@,
                bucket_pairs(j, s)[i].1@,
            ),
        j.to_multiset() == journal_side(bucket_items(j, s)).to_multiset().add(
            bucket_pairs(j, s).map_values(|p: (Entry, Entry)| p.0).to_multiset(),
        ),
        s.to_multiset() == staging_side(bucket_items(j, s)).to_multiset().add(
            bucket_pairs(j, s).map_values(|p: (Entry, Entry)| p.1).to_multiset(),
        ),
    decreases s.len(),
{
    broadcast use vstd::seq_lib::group_to_multiset_ensures;
    let fst = |p: (Entry, Entry)| p.0;
    let snd = |p: (Entry, Entry)| p.1;
    if s.len() == 0 {
        lemma_sides_tagged(j);
        assert(bucket_pairs(j, s).map_values(fst) =~= Seq::<Entry>::empty());
        assert(bucket_pairs(j, s).map_values(snd) =~= Seq::<Entry>::empty());
        assert(s =~= Seq::<Entry>::empty());
        assert(j.to_multiset() =~= j.to_multiset().add(Seq::<Entry>::empty().to_multiset()));
        assert(Seq::<Entry>::empty().to_multiset() =~= Seq::<Entry>::empty().to_multiset().add(Seq::<Entry>::empty().to_multiset()));
    } else {
        let k = match_index(j, s.last());
        lemma_match_index_bound(j, s.last());
        let s1 = s.drop_last();
        assert(s1.push(s.last()) =~= s);
        if k < j.len() {
            lemma_match_index_matches(j, s.last());
            let j1 = j.remove(k);
            lemma_bucket_pairs(j1, s1);
            let p1 = bucket_pairs(j1, s1);
            let p = p1.push((j[k], s.last()));
            assert(bucket_pairs(j, s) == p);
            assert(bucket_items(j, s) == bucket_items(j1, s1));
            assert(p.map_values(fst) =~= p1.map_values(fst).push(j[k]));
            assert(p.map_values(snd) =~= p1.map_values(snd).push(s.last()));
            assert forall|i: int| 0 <= i < p.len() implies entry_matches((#[trigger] p[i]).0@, p[i].1@) by {
                if i < p1.len() {
                    assert(p[i] == p1[i]);
                }
            }
            assert(j.to_multiset() =~= j1.to_multiset().insert(j[k]));
            assert(j.to_multiset() =~= journal_side(bucket_items(j, s)).to_multiset().add(
                p.map_values(fst).to_multiset()));
            assert(s.to_multiset() =~= staging_side(bucket_items(j, s)).to_multiset().add(
                p.map_values(snd).to_multiset()));
        } else {
            lemma_bucket_pairs(j, s1);
            let head = seq![ReconcileItem::OnlyInStaging(s.last())];
            lemma_sides_add(head, bucket_items(j, s1));
            assert(head.drop_last() =~= Seq::<ReconcileItem>::empty());
            assert(head.last() == ReconcileItem::OnlyInStaging(s.last()));
            assert(journal_side(Seq::<ReconcileItem>::empty()) == Seq::<Entry>::empty());
            assert(staging_side(Seq::<ReconcileItem>::empty()) == Seq::<Entry>::empty());
            assert(journal_side(head) == journal_side(head.drop_last()));
            assert(staging_side(head) == staging_side(head.drop_last()).push(s.last()));
            assert(bucket_items(j, s) == head + bucket_items(j, s1));
            assert(bucket_pairs(j, s) == bucket_pairs(j, s1));
            let rest = staging_side(bucket_items(j, s1));
            assert(journal_side(head) + journal_side(bucket_items(j, s1)) =~= journal_side(bucket_items(j, s1)));
            assert(staging_side(head) + rest =~= rest.insert(0, s.last()));
            assert(s.to_multiset() =~= staging_side(bucket_items(j, s)).to_multiset().add(
                bucket_pairs(j, s).map_values(snd).to_multiset()));
        }
    }
}

} // verus!

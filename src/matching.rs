//! The match predicate between a journal entry and a staging entry.

use crate::entry::{plain_content_same, Entry, EntryContent, EntryContentV, EntryV, PostingV, Transaction, TransactionV};
use crate::metadata::{meta_lookup, Metadata, MetadataV};
use crate::model::{
    opt_amount_equals, opt_amount_same, opt_cost_equals, opt_cost_same, opt_price_equals,
    opt_price_same, MetaValue, MetaValueV,
};
use vstd::prelude::*;

verus! {

/// Metadata key under which a commit keeps the payee that the staging entry had.
pub const SOURCE_PAYEE: &'static str = "source_payee";

/// Metadata key under which a commit keeps the narration that the staging entry had.
pub const SOURCE_DESC: &'static str = "source_desc";

/// The text stored under `key`, when the value there is text.
pub open spec fn provenance_text(m: MetadataV, key: Seq<char>) -> Option<Seq<char>> {
    match meta_lookup(m, key) {
        Some(MetaValueV::Text(t)) => Some(t),
        _ => None,
    }
}

/// The recorded provenance under `key` on the first posting, else the live value.
pub open spec fn expected_text(j: TransactionV, key: Seq<char>, live: Option<Seq<char>>) -> Option<Seq<char>>
    recommends
        j.postings.len() > 0,
{
    match provenance_text(j.postings[0].metadata, key) {
        Some(t) => Some(t),
        None => live,
    }
}

/// The payee that a staging entry must carry to match the journal transaction.
pub open spec fn expected_payee(j: TransactionV) -> Option<Seq<char>> {
    expected_text(j, SOURCE_PAYEE@, j.payee)
}

/// The narration that a staging entry must carry to match the journal transaction.
pub open spec fn expected_narration(j: TransactionV) -> Option<Seq<char>> {
    expected_text(j, SOURCE_DESC@, j.narration)
}

/// Account, amount, cost and price are the same.
pub open spec fn posting_core_same(p: PostingV, q: PostingV) -> bool {
    &&& p.account == q.account
    &&& opt_amount_same(p.amount, q.amount)
    &&& opt_cost_same(p.cost, q.cost)
    &&& opt_price_same(p.price, q.price)
}

/// A journal transaction matches a staging transaction: the staging side has
/// exactly one posting, which agrees with the journal's first posting, and the
/// payee and narration are those the journal expects. Flags, tags and links
/// play no part.
pub open spec fn transaction_matches(j: TransactionV, s: TransactionV) -> bool {
    &&& s.postings.len() == 1
    &&& j.postings.len() >= 1
    &&& posting_core_same(j.postings[0], s.postings[0])
    &&& expected_payee(j) == s.payee
    &&& expected_narration(j) == s.narration
}

/// The match predicate: transactions match as above; entries of another kind
/// match when they are of the same kind, on the same date, with the same content.
pub open spec fn entry_matches(j: EntryV, s: EntryV) -> bool {
    match (j.content, s.content) {
        (EntryContentV::Transaction(jt), EntryContentV::Transaction(st)) => transaction_matches(
            jt,
            st,
        ),
        _ => j.date == s.date && plain_content_same(j.content, s.content),
    }
}

fn lookup_text<'a>(m: &'a Metadata, key: &str) -> (r: Option<&'a String>)
    ensures
        match r {
            Some(t) => provenance_text(m@, key@) == Some(t@),
            None => provenance_text(m@, key@) is None,
        },
{
    match m.get(key) {
        Some(MetaValue::Text(t)) => Some(t),
        _ => None,
    }
}

/// Whether `expected` (provenance, else `live`) equals `actual`.
fn text_agrees(provenance: Option<&String>, live: &Option<String>, actual: &Option<String>) -> (r: bool)
    ensures
        r == ((match provenance {
            Some(t) => Some(t@),
            None => match *live {
                Some(l) => Some(l@),
                None => None,
            },
        }) == match *actual {
            Some(a) => Some(a@),
            None => None,
        }),
{
    let expected: Option<&String> = match provenance {
        Some(t) => Some(t),
        None => live.as_ref(),
    };
    match (expected, actual) {
        (Some(e), Some(a)) => *e == *a,
        (None, None) => true,
        _ => false,
    }
}

fn transaction_matches_staging(journal: &Transaction, staging: &Transaction) -> (r: bool)
    ensures
        r == transaction_matches(journal@, staging@),
{
    if staging.postings.len() != 1 || journal.postings.len() == 0 {
        return false;
    }
    let j0 = &journal.postings[0];
    let s0 = &staging.postings[0];
    let postings_match = j0.account == s0.account && opt_amount_equals(&j0.amount, &s0.amount)
        && opt_cost_equals(&j0.cost, &s0.cost) && opt_price_equals(&j0.price, &s0.price);
    if !postings_match {
        return false;
    }
    let payee_ok = text_agrees(lookup_text(&j0.metadata, SOURCE_PAYEE), &journal.payee, &staging.payee);
    let narration_ok = text_agrees(
        lookup_text(&j0.metadata, SOURCE_DESC),
        &journal.narration,
        &staging.narration,
    );
    payee_ok && narration_ok
}

/// Whether the staging entry is already recorded by the journal entry.
pub fn journal_matches_staging(journal: &Entry, staging: &Entry) -> (r: bool)
    ensures
        r == entry_matches(journal@, staging@),
{
    match (&journal.content, &staging.content) {
        (EntryContent::Transaction(j), EntryContent::Transaction(s)) => transaction_matches_staging(j, s),
        _ => journal.date == staging.date && journal.content.plain_equals(&staging.content),
    }
}

} // verus!

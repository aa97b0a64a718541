//! Commit of a staging entry into the form in which it joins the journal.

use crate::entry::{
    bare_posting, copy_postings, postings_view, Entry, EntryContent, EntryContentV, EntryV, Posting,
    PostingV, Transaction, TransactionV,
};
use crate::matching::{entry_matches, journal_matches_staging, SOURCE_DESC, SOURCE_PAYEE};
use crate::metadata::{meta_insert, Metadata, MetadataV};
use crate::model::{copy_opt_string, copy_strings, opt_string_view, MetaValue, MetaValueV};
use vstd::prelude::*;
use vstd::string::StringExecFns;

verus! {

/// Whether a text is an account name in ledger syntax.
pub uninterp spec fn account_syntax_ok(s: Seq<char>) -> bool;

/// Relies on `FromStr for beancount_parser::Account`, which accepts exactly the
/// account names of the ledger grammar; the empty text is not one.
#[verifier::external_body]
fn account_is_valid(s: &str) -> (r: bool)
    ensures
        r == account_syntax_ok(s@),
        s@.len() == 0 ==> !r,
{
    s.parse::<beancount_parser::Account>().is_ok()
}

/// Why a commit was refused.
#[derive(Clone, Copy, Debug, PartialEq, Eq, Structural)]
pub enum CommitError {
    /// The target account is not an account name.
    InvalidAccount,
    /// The committed entry would no longer match the staging entry it came from.
    Inconsistent,
}

pub open spec fn opt_str_view(s: Option<&str>) -> Option<Seq<char>> {
    match s {
        Some(t) => Some(t@),
        None => None,
    }
}

/// The metadata after an edit of one text from `former` to `new`: the former text is
/// kept under `key` when the edit changes it.
pub open spec fn with_provenance(
    m: MetadataV,
    key: Seq<char>,
    former: Option<Seq<char>>,
    new: Option<Seq<char>>,
) -> MetadataV {
    match (former, new) {
        (Some(o), Some(n)) => if o != n {
            meta_insert(m, key, MetaValueV::Text(o))
        } else {
            m
        },
        _ => m,
    }
}

/// A text after an optional edit.
pub open spec fn edited(former: Option<Seq<char>>, new: Option<Seq<char>>) -> Option<Seq<char>> {
    if new is Some {
        new
    } else {
        former
    }
}

/// The transaction as committed: posted flag, edited payee and narration with
/// their former values kept on the first posting, and a new posting on
/// `account` with no amount.
pub open spec fn committed_transaction(
    t: TransactionV,
    account: Seq<char>,
    payee: Option<Seq<char>>,
    narration: Option<Seq<char>>,
) -> TransactionV {
    let postings = if t.postings.len() > 0 {
        let p0 = t.postings[0];
        let m = with_provenance(
            with_provenance(p0.metadata, SOURCE_PAYEE@, t.payee, payee),
            SOURCE_DESC@,
            t.narration,
            narration,
        );
        t.postings.update(0, PostingV { metadata: m, ..p0 })
    } else {
        t.postings
    };
    TransactionV {
        flag: Some('*'),
        payee: edited(t.payee, payee),
        narration: edited(t.narration, narration),
        postings: postings.push(bare_posting(account)),
        ..t
    }
}

/// The entry as committed; an entry that is not a transaction is unchanged.
pub open spec fn committed_entry(
    e: EntryV,
    account: Seq<char>,
    payee: Option<Seq<char>>,
    narration: Option<Seq<char>>,
) -> EntryV {
    match e.content {
        EntryContentV::Transaction(t) => EntryV {
            content: EntryContentV::Transaction(committed_transaction(t, account, payee, narration)),
            ..e
        },
        _ => e,
    }
}

/// What a commit gives, given whether the account name is valid.
pub open spec fn commit_outcome(
    e: EntryV,
    account_ok: bool,
    account: Seq<char>,
    payee: Option<Seq<char>>,
    narration: Option<Seq<char>>,
) -> Result<EntryV, CommitError> {
    if !account_ok {
        Err(CommitError::InvalidAccount)
    } else {
        let c = committed_entry(e, account, payee, narration);
        if entry_matches(c, e) {
            Ok(c)
        } else {
            Err(CommitError::Inconsistent)
        }
    }
}

pub open spec fn entry_result_view(r: Result<Entry, CommitError>) -> Result<EntryV, CommitError> {
    match r {
        Ok(e) => Ok(e@),
        Err(x) => Err(x),
    }
}

fn record_provenance(m: &mut Metadata, key: &str, former: &Option<String>, new: Option<&str>)
    ensures
        final(m)@ == with_provenance(old(m)@, key@, opt_string_view(*former), opt_str_view(new)),
{
    match (former, new) {
        (Some(o), Some(n)) => {
            let n = String::from_str(n);
            if *o != n {
                m.insert(key, MetaValue::Text(o.clone()));
            }
        },
        _ => {},
    }
}

fn edit_text(former: &Option<String>, new: Option<&str>) -> (r: Option<String>)
    ensures
        opt_string_view(r) == edited(opt_string_view(*former), opt_str_view(new)),
{
    match new {
        Some(n) => Some(String::from_str(n)),
        None => copy_opt_string(former),
    }
}

fn commit_posting_list(t: &Transaction, account: &str, payee: Option<&str>, narration: Option<&str>) -> (r: Vec<Posting>)
    ensures
        postings_view(r@) == committed_transaction(
            t@,
            account@,
            opt_str_view(payee),
            opt_str_view(narration),
        ).postings,
{
    let mut postings = copy_postings(&t.postings);
    if postings.len() > 0 {
        let ghost before = postings@;
        let mut first = postings.remove(0);
        record_provenance(&mut first.metadata, SOURCE_PAYEE, &t.payee, payee);
        record_provenance(&mut first.metadata, SOURCE_DESC, &t.narration, narration);
        postings.insert(0, first);
        proof {
            assert(postings@ =~= before.update(0, first));
        }
    }
    postings.push(Posting::on_account(String::from_str(account)));
    proof {
        let spec_t = committed_transaction(t@, account@, opt_str_view(payee), opt_str_view(narration));
        assert(postings_view(postings@) =~= spec_t.postings);
    }
    postings
}

/// Commits `staging` to `account`, given whether `account` is an account name:
/// the entry as committed, provided it still matches `staging`.
pub fn commit_checked(
    staging: &Entry,
    account: &str,
    account_ok: bool,
    payee: Option<&str>,
    narration: Option<&str>,
) -> (r: Result<Entry, CommitError>)
    ensures
        entry_result_view(r) == commit_outcome(
            staging@,
            account_ok,
            account@,
            opt_str_view(payee),
            opt_str_view(narration),
        ),
{
    if !account_ok {
        return Err(CommitError::InvalidAccount);
    }
    let committed = match &staging.content {
        EntryContent::Transaction(t) => {
            let postings = commit_posting_list(t, account, payee, narration);
            let txn = Transaction {
                flag: Some('*'),
                payee: edit_text(&t.payee, payee),
                narration: edit_text(&t.narration, narration),
                tags: copy_strings(&t.tags),
                links: copy_strings(&t.links),
                postings,
            };
            Entry {
                date: staging.date,
                content: EntryContent::Transaction(txn),
                metadata: staging.metadata.duplicate(),
            }
        },
        _ => staging.duplicate(),
    };
    if journal_matches_staging(&committed, staging) {
        Ok(committed)
    } else {
        Err(CommitError::Inconsistent)
    }
}

/// Commits `staging` to `account`: the entry to append to the journal, or why
/// the commit is refused. The staging entry itself is left as it is.
pub fn commit_transaction(
    staging: &Entry,
    account: &str,
    payee: Option<&str>,
    narration: Option<&str>,
) -> (r: Result<Entry, CommitError>)
    ensures
        entry_result_view(r) == commit_outcome(
            staging@,
            account_syntax_ok(account@),
            account@,
            opt_str_view(payee),
            opt_str_view(narration),
        ),
        account@.len() == 0 ==> r == Err::<Entry, CommitError>(CommitError::InvalidAccount),
{
    let ok = account_is_valid(account);
    commit_checked(staging, account, ok, payee, narration)
}

} // verus!

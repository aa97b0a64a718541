//! What the review interface shows of pending entries, and what it sends back.

use crate::entry::{Entry, EntryContent, EntryContentV, EntryV, Posting, PostingV};
use crate::model::{
    copy_opt_cost, copy_opt_price, copy_opt_string, copy_strings, opt_cost_view, opt_price_view,
    opt_string_view, strings_view, AmountV, Date, Decimal,
};
use crate::pending::{generate_directive_id, id_less, pending_id, PendingId, PendingState};
use vstd::prelude::*;

verus! {

/// An amount as shown.
pub struct SerializedAmount {
    pub value: Decimal,
    pub currency: String,
}

/// A posting as shown.
pub struct SerializedPosting {
    pub account: String,
    pub amount: Option<SerializedAmount>,
    pub cost: Option<crate::model::Cost>,
    pub price: Option<crate::model::PostingPrice>,
}

/// A transaction as shown; a transaction without a flag shows as posted.
pub struct SerializedTransaction {
    pub date: Date,
    pub flag: char,
    pub payee: Option<String>,
    pub narration: Option<String>,
    pub tags: Vec<String>,
    pub links: Vec<String>,
    pub postings: Vec<SerializedPosting>,
}

/// A balance assertion as shown.
pub struct SerializedBalance {
    pub date: Date,
    pub account: String,
    pub amount: SerializedAmount,
    pub tolerance: Option<Decimal>,
}

/// The kinds of entries that are shown.
pub enum SerializedDirectiveContent {
    Transaction(SerializedTransaction),
    Balance(SerializedBalance),
}

/// A pending entry as shown, with its identifier.
pub struct SerializedDirective {
    pub id: PendingId,
    pub content: SerializedDirectiveContent,
}

/// What the interface receives when it starts.
pub struct InitResponse {
    pub items: Vec<SerializedDirective>,
    pub current_index: usize,
    pub available_accounts: Vec<String>,
}

/// One pending entry, with an account suggested for it.
pub struct TransactionResponse {
    pub transaction: SerializedDirective,
    pub predicted_account: Option<String>,
}

/// A request to commit a pending entry.
pub struct CommitRequest {
    pub account: String,
    pub payee: Option<String>,
    pub narration: Option<String>,
}

/// The answer to a commit.
pub struct CommitResponse {
    pub ok: bool,
    pub remaining_count: usize,
}

pub open spec fn amount_shown(a: SerializedAmount) -> AmountV {
    AmountV { value: a.value, currency: a.currency@ }
}

/// A shown posting carries the account, amount, cost and price of `p`.
pub open spec fn posting_shown(s: SerializedPosting, p: PostingV) -> bool {
    &&& s.account@ == p.account
    &&& match (s.amount, p.amount) {
        (Some(x), Some(y)) => amount_shown(x) == y,
        (None, None) => true,
        _ => false,
    }
    &&& opt_cost_view(s.cost) == p.cost
    &&& opt_price_view(s.price) == p.price
}

/// `d` shows entry `e` under the identifier of `e`.
pub open spec fn shows(d: SerializedDirective, e: EntryV) -> bool {
    d.id == pending_id(e) && content_shown(d.content, e)
}

/// `c` shows what entry `e` records.
pub open spec fn content_shown(c: SerializedDirectiveContent, e: EntryV) -> bool {
    match (c, e.content) {
        (SerializedDirectiveContent::Transaction(s), EntryContentV::Transaction(t)) => {
            &&& s.date == e.date
            &&& s.flag == match t.flag {
                Some(f) => f,
                None => '*',
            }
            &&& opt_string_view(s.payee) == t.payee
            &&& opt_string_view(s.narration) == t.narration
            &&& strings_view(s.tags@) == t.tags
            &&& strings_view(s.links@) == t.links
            &&& s.postings@.len() == t.postings.len()
            &&& forall|i: int| 0 <= i < t.postings.len() ==> posting_shown(#[trigger] s.postings@[i], t.postings[i])
        },
        (
            SerializedDirectiveContent::Balance(s),
            EntryContentV::Balance { account, amount, tolerance },
        ) => s.date == e.date && s.account@ == account && amount_shown(s.amount) == amount
            && s.tolerance == tolerance,
        _ => false,
    }
}

/// The kinds of entries that are shown: transactions and balance assertions.
pub open spec fn shown_kind(e: EntryV) -> bool {
    e.content is Transaction || e.content is Balance
}

fn show_posting(p: &Posting) -> (r: SerializedPosting)
    ensures
        posting_shown(r, p@),
{
    SerializedPosting {
        account: p.account.clone(),
        amount: match &p.amount {
            Some(a) => Some(SerializedAmount { value: a.value, currency: a.currency.clone() }),
            None => None,
        },
        cost: copy_opt_cost(&p.cost),
        price: copy_opt_price(&p.price),
    }
}

/// How `entry` is shown, for a transaction or a balance assertion.
pub fn serialize_directive(entry: &Entry) -> (r: Option<SerializedDirective>)
    ensures
        r is Some <==> shown_kind(entry@),
        r matches Some(d) ==> shows(d, entry@),
{
    let id = generate_directive_id(entry);
    match &entry.content {
        EntryContent::Transaction(t) => {
            let mut postings: Vec<SerializedPosting> = Vec::new();
            let mut i: usize = 0;
            while i < t.postings.len()
                invariant
                    i <= t.postings@.len(),
                    postings@.len() == i,
                    forall|j: int| 0 <= j < i ==> posting_shown(#[trigger] postings@[j], t.postings@[j]@),
                decreases t.postings@.len() - i,
            {
                postings.push(show_posting(&t.postings[i]));
                i = i + 1;
            }
            let flag = match t.flag {
                Some(f) => f,
                None => '*',
            };
            let shown = SerializedTransaction {
                date: entry.date,
                flag,
                payee: copy_opt_string(&t.payee),
                narration: copy_opt_string(&t.narration),
                tags: copy_strings(&t.tags),
                links: copy_strings(&t.links),
                postings,
            };
            Some(SerializedDirective { id, content: SerializedDirectiveContent::Transaction(shown) })
        },
        EntryContent::Balance(b) => {
            let shown = SerializedBalance {
                date: entry.date,
                account: b.account.clone(),
                amount: SerializedAmount { value: b.amount.value, currency: b.amount.currency.clone() },
                tolerance: b.tolerance,
            };
            Some(SerializedDirective { id, content: SerializedDirectiveContent::Balance(shown) })
        },
        _ => None,
    }
}

impl PendingState {
    /// What the interface receives when it starts: every pending entry of a
    /// shown kind, each once, in order of identifier, and the accounts of the
    /// journal.
    pub fn init_response(&self) -> (r: InitResponse)
        requires
            self.wf(),
        ensures
            r.current_index == 0,
            strings_view(r.available_accounts@).to_set() == self@.accounts,
            forall|i: int| 0 <= i < r.items@.len() ==> self@.pending.contains_key(#[trigger] r.items@[i].id)
                && content_shown(r.items@[i].content, self@.pending[r.items@[i].id]),
            forall|id: PendingId|
                #[trigger] self@.pending.contains_key(id) && shown_kind(self@.pending[id]) ==> exists|i: int|
                    0 <= i < r.items@.len() && r.items@[i].id == id,
            forall|i: int, j: int| 0 <= i < j < r.items@.len() ==> id_less(r.items@[i].id, r.items@[j].id),
    {
        let ids = self.ids();
        let mut items: Vec<SerializedDirective> = Vec::new();
        let mut i: usize = 0;
        while i < ids.len()
            invariant
                self.wf(),
                i <= ids@.len(),
                ids@.to_set() == self@.pending.dom(),
                forall|a: int, b: int| 0 <= a < b < ids@.len() ==> id_less(ids@[a], ids@[b]),
                forall|j: int| 0 <= j < items@.len() ==> self@.pending.contains_key(#[trigger] items@[j].id)
                    && content_shown(items@[j].content, self@.pending[items@[j].id]),
                forall|j: int| 0 <= j < items@.len() ==> exists|a: int| 0 <= a < i && #[trigger] items@[j].id == ids@[a],
                forall|a: int, b: int| 0 <= a < b < items@.len() ==> id_less(items@[a].id, items@[b].id),
                forall|a: int|
                    0 <= a < i && #[trigger] shown_kind(self@.pending[ids@[a]]) ==> exists|j: int|
                        0 <= j < items@.len() && items@[j].id == ids@[a],
            decreases ids@.len() - i,
        {
            proof {
                assert(ids@.to_set().contains(ids@[i as int]));
            }
            let ghost before = items@;
            match self.get(ids[i]) {
                Some(entry) => {
                    match serialize_directive(entry) {
                        Some(d) => {
                            let shown = SerializedDirective { id: ids[i], content: d.content };
                            items.push(shown);
                        },
                        None => {},
                    }
                },
                None => {},
            }
            proof {
                assert forall|j: int| 0 <= j < items@.len() implies exists|a: int| 0 <= a < i + 1 && #[trigger] items@[j].id == ids@[a] by {
                    if j < before.len() {
                        assert(items@[j] == before[j]);
                        let a = choose|a: int| 0 <= a < i && #[trigger] before[j].id == ids@[a];
                    } else {
                        assert(items@[j].id == ids@[i as int]);
                    }
                }
                assert forall|x: int, y: int| 0 <= x < y < items@.len() implies id_less(items@[x].id, items@[y].id) by {
                    if y >= before.len() {
                        assert(items@[x] == before[x]);
                        let a = choose|a: int| 0 <= a < i && #[trigger] before[x].id == ids@[a];
                        assert(items@[y].id == ids@[i as int]);
                    } else {
                        assert(items@[x] == before[x] && items@[y] == before[y]);
                    }
                }
                assert forall|a: int| 0 <= a < i + 1 && #[trigger] shown_kind(self@.pending[ids@[a]]) implies exists|j: int|
                    0 <= j < items@.len() && items@[j].id == ids@[a] by {
                    if a < i {
                        let j = choose|j: int| 0 <= j < before.len() && before[j].id == ids@[a];
                        assert(items@[j] == before[j]);
                    } else {
                        assert(items@[items@.len() - 1].id == ids@[a]);
                    }
                }
            }
            i = i + 1;
        }
        proof {
            assert forall|id: PendingId|
                #[trigger] self@.pending.contains_key(id) && shown_kind(self@.pending[id]) implies exists|j: int|
                    0 <= j < items@.len() && items@[j].id == id by {
                assert(ids@.to_set().contains(id));
                let a = choose|a: int| 0 <= a < ids@.len() && ids@[a] == id;
                assert(shown_kind(self@.pending[ids@[a]]));
            }
        }
        InitResponse { items, current_index: 0, available_accounts: self.accounts() }
    }

    /// The answer to a commit that succeeded.
    pub fn commit_response(&self) -> (r: CommitResponse)
        requires
            self.wf(),
        ensures
            r.ok,
            r.remaining_count == self@.pending.len(),
    {
        CommitResponse { ok: true, remaining_count: self.len() }
    }
}

} // verus!

//! Ledger entries: postings, transactions and the other directive kinds.

use crate::metadata::{Metadata, MetadataV};
use crate::model::{
    copy_opt_amount, copy_opt_cost, copy_opt_price, copy_opt_string, copy_strings,
    amount_same, opt_amount_view, opt_cost_view, opt_decimal_equals, opt_decimal_same,
    opt_price_view, opt_string_equals, opt_string_view, strings_view, Amount, AmountV, Cost,
    CostV, Date, Decimal, PostingPrice, PostingPriceV,
};
use vstd::prelude::*;

verus! {

/// One account leg of a transaction.
#[derive(Clone, Debug)]
pub struct Posting {
    pub flag: Option<char>,
    pub account: String,
    pub amount: Option<Amount>,
    pub cost: Option<Cost>,
    pub price: Option<PostingPrice>,
    pub metadata: Metadata,
}

pub struct PostingV {
    pub flag: Option<char>,
    pub account: Seq<char>,
    pub amount: Option<AmountV>,
    pub cost: Option<CostV>,
    pub price: Option<PostingPriceV>,
    pub metadata: MetadataV,
}

impl View for Posting {
    type V = PostingV;

    open spec fn view(&self) -> PostingV {
        PostingV {
            flag: self.flag,
            account: self.account@,
            amount: opt_amount_view(self.amount),
            cost: opt_cost_view(self.cost),
            price: opt_price_view(self.price),
            metadata: self.metadata@,
        }
    }
}

pub open spec fn postings_view(v: Seq<Posting>) -> Seq<PostingV> {
    v.map_values(|p: Posting| p@)
}

/// A transaction: a flag, an optional payee and narration, tags, links and postings.
#[derive(Clone, Debug)]
pub struct Transaction {
    pub flag: Option<char>,
    pub payee: Option<String>,
    pub narration: Option<String>,
    pub tags: Vec<String>,
    pub links: Vec<String>,
    pub postings: Vec<Posting>,
}

pub struct TransactionV {
    pub flag: Option<char>,
    pub payee: Option<Seq<char>>,
    pub narration: Option<Seq<char>>,
    pub tags: Seq<Seq<char>>,
    pub links: Seq<Seq<char>>,
    pub postings: Seq<PostingV>,
}

impl View for Transaction {
    type V = TransactionV;

    open spec fn view(&self) -> TransactionV {
        TransactionV {
            flag: self.flag,
            payee: opt_string_view(self.payee),
            narration: opt_string_view(self.narration),
            tags: strings_view(self.tags@),
            links: strings_view(self.links@),
            postings: postings_view(self.postings@),
        }
    }
}

/// The opening of an account, with its allowed currencies.
#[derive(Clone, Debug)]
pub struct Open {
    pub account: String,
    pub currencies: Vec<String>,
    pub booking_method: Option<String>,
}

/// A balance assertion.
#[derive(Clone, Debug)]
pub struct Balance {
    pub account: String,
    pub amount: Amount,
    pub tolerance: Option<Decimal>,
}

/// A padding between two accounts.
#[derive(Clone, Debug)]
pub struct Pad {
    pub account: String,
    pub source_account: String,
}

/// The price of a currency in another.
#[derive(Clone, Debug)]
pub struct Price {
    pub currency: String,
    pub amount: Amount,
}

/// A named event with its value.
#[derive(Clone, Debug)]
pub struct Event {
    pub name: String,
    pub value: String,
}

/// What an entry records, one variant per directive kind.
#[derive(Clone, Debug)]
pub enum EntryContent {
    Transaction(Transaction),
    Price(Price),
    Balance(Balance),
    Open(Open),
    Close(String),
    Pad(Pad),
    Commodity(String),
    Event(Event),
}

pub enum EntryContentV {
    Transaction(TransactionV),
    Price { currency: Seq<char>, amount: AmountV },
    Balance { account: Seq<char>, amount: AmountV, tolerance: Option<Decimal> },
    Open { account: Seq<char>, currencies: Seq<Seq<char>>, booking_method: Option<Seq<char>> },
    Close(Seq<char>),
    Pad { account: Seq<char>, source_account: Seq<char> },
    Commodity(Seq<char>),
    Event { name: Seq<char>, value: Seq<char> },
}

impl View for EntryContent {
    type V = EntryContentV;

    open spec fn view(&self) -> EntryContentV {
        match self {
            EntryContent::Transaction(t) => EntryContentV::Transaction(t@),
            EntryContent::Price(p) => EntryContentV::Price {
                currency: p.currency@,
                amount: p.amount@,
            },
            EntryContent::Balance(b) => EntryContentV::Balance {
                account: b.account@,
                amount: b.amount@,
                tolerance: b.tolerance,
            },
            EntryContent::Open(o) => EntryContentV::Open {
                account: o.account@,
                currencies: strings_view(o.currencies@),
                booking_method: opt_string_view(o.booking_method),
            },
            EntryContent::Close(a) => EntryContentV::Close(a@),
            EntryContent::Pad(p) => EntryContentV::Pad {
                account: p.account@,
                source_account: p.source_account@,
            },
            EntryContent::Commodity(c) => EntryContentV::Commodity(c@),
            EntryContent::Event(e) => EntryContentV::Event { name: e.name@, value: e.value@ },
        }
    }
}

/// One dated ledger record with its metadata.
#[derive(Clone, Debug)]
pub struct Entry {
    pub date: Date,
    pub content: EntryContent,
    pub metadata: Metadata,
}

pub struct EntryV {
    pub date: Date,
    pub content: EntryContentV,
    pub metadata: MetadataV,
}

impl View for Entry {
    type V = EntryV;

    open spec fn view(&self) -> EntryV {
        EntryV { date: self.date, content: self.content@, metadata: self.metadata@ }
    }
}

pub open spec fn entries_view(v: Seq<Entry>) -> Seq<EntryV> {
    v.map_values(|e: Entry| e@)
}

/// The rank of a directive kind in the order of a day:
/// open, pad, commodity, transaction, balance, price, close, event.
pub open spec fn kind_rank(c: EntryContentV) -> nat {
    match c {
        EntryContentV::Open { .. } => 0,
        EntryContentV::Pad { .. } => 1,
        EntryContentV::Commodity(_) => 2,
        EntryContentV::Transaction(_) => 3,
        EntryContentV::Balance { .. } => 4,
        EntryContentV::Price { .. } => 5,
        EntryContentV::Close(_) => 6,
        EntryContentV::Event { .. } => 7,
    }
}

/// The number of directive kinds.
pub const KIND_COUNT: u8 = 8;

impl EntryContent {
    pub fn rank(&self) -> (r: u8)
        ensures
            r as nat == kind_rank(self@),
            r < KIND_COUNT,
    {
        match self {
            EntryContent::Open(_) => 0,
            EntryContent::Pad(_) => 1,
            EntryContent::Commodity(_) => 2,
            EntryContent::Transaction(_) => 3,
            EntryContent::Balance(_) => 4,
            EntryContent::Price(_) => 5,
            EntryContent::Close(_) => 6,
            EntryContent::Event(_) => 7,
        }
    }
}

/// Two contents of the same kind other than a transaction that record the same
/// thing: equal strings, numerically equal amounts, and for an opening the same
/// set of currencies.
pub open spec fn plain_content_same(a: EntryContentV, b: EntryContentV) -> bool {
    match (a, b) {
        (
            EntryContentV::Price { currency: c1, amount: a1 },
            EntryContentV::Price { currency: c2, amount: a2 },
        ) => c1 == c2 && amount_same(a1, a2),
        (
            EntryContentV::Balance { account: x1, amount: a1, tolerance: t1 },
            EntryContentV::Balance { account: x2, amount: a2, tolerance: t2 },
        ) => x1 == x2 && amount_same(a1, a2) && opt_decimal_same(t1, t2),
        (
            EntryContentV::Open { account: x1, currencies: c1, booking_method: b1 },
            EntryContentV::Open { account: x2, currencies: c2, booking_method: b2 },
        ) => x1 == x2 && c1.to_set() == c2.to_set() && b1 == b2,
        (EntryContentV::Close(x1), EntryContentV::Close(x2)) => x1 == x2,
        (
            EntryContentV::Pad { account: x1, source_account: s1 },
            EntryContentV::Pad { account: x2, source_account: s2 },
        ) => x1 == x2 && s1 == s2,
        (EntryContentV::Commodity(c1), EntryContentV::Commodity(c2)) => c1 == c2,
        (EntryContentV::Event { name: n1, value: v1 }, EntryContentV::Event { name: n2, value: v2 }) =>
            n1 == n2 && v1 == v2,
        _ => false,
    }
}

/// Every string of `a` is in `b`.
fn strings_within(a: &Vec<String>, b: &Vec<String>) -> (r: bool)
    ensures
        r == strings_view(a@).to_set().subset_of(strings_view(b@).to_set()),
{
    let mut i: usize = 0;
    while i < a.len()
        invariant
            i <= a@.len(),
            forall|j: int| 0 <= j < i ==> strings_view(b@).contains(#[trigger] strings_view(a@)[j]),
        decreases a@.len() - i,
    {
        let mut found = false;
        let mut k: usize = 0;
        while k < b.len()
            invariant
                i < a@.len(),
                k <= b@.len(),
                forall|j: int| 0 <= j < i ==> strings_view(b@).contains(#[trigger] strings_view(a@)[j]),
                found ==> strings_view(b@).contains(strings_view(a@)[i as int]),
                !found ==> forall|l: int| 0 <= l < k ==> strings_view(b@)[l] != strings_view(a@)[i as int],
            decreases b@.len() - k,
        {
            if a[i] == b[k] {
                found = true;
                assert(strings_view(b@)[k as int] == strings_view(a@)[i as int]);
            }
            k = k + 1;
        }
        if !found {
            assert(strings_view(a@).to_set().contains(strings_view(a@)[i as int]));
            assert(!strings_view(b@).to_set().contains(strings_view(a@)[i as int]));
            return false;
        }
        i = i + 1;
    }
    proof {
        assert forall|x: Seq<char>| strings_view(a@).to_set().contains(x) implies strings_view(
            b@,
        ).to_set().contains(x) by {
            let j = choose|j: int| 0 <= j < strings_view(a@).len() && strings_view(a@)[j] == x;
            assert(strings_view(b@).contains(strings_view(a@)[j]));
        }
    }
    true
}

fn string_sets_equal(a: &Vec<String>, b: &Vec<String>) -> (r: bool)
    ensures
        r == (strings_view(a@).to_set() == strings_view(b@).to_set()),
{
    let r = strings_within(a, b) && strings_within(b, a);
    proof {
        if r {
            assert(strings_view(a@).to_set() =~= strings_view(b@).to_set());
        }
    }
    r
}

impl EntryContent {
    /// Whether two contents of a kind other than a transaction record the same thing.
    pub fn plain_equals(&self, other: &EntryContent) -> (r: bool)
        ensures
            r == plain_content_same(self@, other@),
    {
        match (self, other) {
            (EntryContent::Price(a), EntryContent::Price(b)) => a.currency == b.currency
                && a.amount.equals(&b.amount),
            (EntryContent::Balance(a), EntryContent::Balance(b)) => a.account == b.account
                && a.amount.equals(&b.amount) && opt_decimal_equals(&a.tolerance, &b.tolerance),
            (EntryContent::Open(a), EntryContent::Open(b)) => a.account == b.account
                && string_sets_equal(&a.currencies, &b.currencies) && opt_string_equals(
                &a.booking_method,
                &b.booking_method,
            ),
            (EntryContent::Close(a), EntryContent::Close(b)) => *a == *b,
            (EntryContent::Pad(a), EntryContent::Pad(b)) => a.account == b.account
                && a.source_account == b.source_account,
            (EntryContent::Commodity(a), EntryContent::Commodity(b)) => *a == *b,
            (EntryContent::Event(a), EntryContent::Event(b)) => a.name == b.name && a.value
                == b.value,
            _ => false,
        }
    }
}


impl Posting {
    pub fn duplicate(&self) -> (r: Posting)
        ensures
            r@ == self@,
    {
        Posting {
            flag: self.flag,
            account: self.account.clone(),
            amount: copy_opt_amount(&self.amount),
            cost: copy_opt_cost(&self.cost),
            price: copy_opt_price(&self.price),
            metadata: self.metadata.duplicate(),
        }
    }

    /// A posting on `account` with no amount, cost, price or metadata.
    pub fn on_account(account: String) -> (r: Posting)
        ensures
            r@ == bare_posting(account@),
    {
        Posting {
            flag: None,
            account,
            amount: None,
            cost: None,
            price: None,
            metadata: Metadata::new(),
        }
    }
}

/// A posting on `account` with no amount, cost, price or metadata.
pub open spec fn bare_posting(account: Seq<char>) -> PostingV {
    PostingV {
        flag: None,
        account,
        amount: None,
        cost: None,
        price: None,
        metadata: Seq::empty(),
    }
}

pub fn copy_postings(v: &Vec<Posting>) -> (r: Vec<Posting>)
    ensures
        postings_view(r@) == postings_view(v@),
{
    let mut r: Vec<Posting> = Vec::new();
    let mut i: usize = 0;
    while i < v.len()
        invariant
            i <= v@.len(),
            r@.len() == i,
            forall|j: int| 0 <= j < i ==> (#[trigger] r@[j])@ == v@[j]@,
        decreases v@.len() - i,
    {
        r.push(v[i].duplicate());
        i = i + 1;
    }
    assert(postings_view(r@) =~= postings_view(v@));
    r
}

impl Transaction {
    pub fn duplicate(&self) -> (r: Transaction)
        ensures
            r@ == self@,
    {
        Transaction {
            flag: self.flag,
            payee: copy_opt_string(&self.payee),
            narration: copy_opt_string(&self.narration),
            tags: copy_strings(&self.tags),
            links: copy_strings(&self.links),
            postings: copy_postings(&self.postings),
        }
    }
}

impl EntryContent {
    pub fn duplicate(&self) -> (r: EntryContent)
        ensures
            r@ == self@,
    {
        match self {
            EntryContent::Transaction(t) => EntryContent::Transaction(t.duplicate()),
            EntryContent::Price(p) => EntryContent::Price(
                Price { currency: p.currency.clone(), amount: p.amount.duplicate() },
            ),
            EntryContent::Balance(b) => EntryContent::Balance(
                Balance {
                    account: b.account.clone(),
                    amount: b.amount.duplicate(),
                    tolerance: b.tolerance,
                },
            ),
            EntryContent::Open(o) => EntryContent::Open(
                Open {
                    account: o.account.clone(),
                    currencies: copy_strings(&o.currencies),
                    booking_method: copy_opt_string(&o.booking_method),
                },
            ),
            EntryContent::Close(a) => EntryContent::Close(a.clone()),
            EntryContent::Pad(p) => EntryContent::Pad(
                Pad { account: p.account.clone(), source_account: p.source_account.clone() },
            ),
            EntryContent::Commodity(c) => EntryContent::Commodity(c.clone()),
            EntryContent::Event(e) => EntryContent::Event(
                Event { name: e.name.clone(), value: e.value.clone() },
            ),
        }
    }
}

impl Entry {
    pub fn duplicate(&self) -> (r: Entry)
        ensures
            r@ == self@,
    {
        Entry { date: self.date, content: self.content.duplicate(), metadata: self.metadata.duplicate() }
    }
}

} // verus!

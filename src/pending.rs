//! The live set of pending staging entries, keyed by a content-derived identifier.

use crate::bucket::{bucket_by_date, date_buckets};
use crate::commit::{commit_outcome, commit_transaction, opt_str_view, CommitError};
use crate::commit::account_syntax_ok;
use crate::entry::{Entry, EntryContent, EntryContentV, EntryV, PostingV};
use crate::model::{opt_string_view, AmountV, Date, Decimal};
use crate::reconcile::{reconcile, reconcile_spec, ReconcileItem};
use crate::sequence::{lemma_reverse_skip, reversed};
use std::collections::hash_map::DefaultHasher;
use std::hash::Hasher;
use vstd::prelude::*;
use vstd::std_specs::hash::DefaultHasherAdditionalSpecFns;
use vstd::utf8::encode_utf8;

verus! {

/// The identifier of a pending entry: its date and a digest of its content.
#[derive(Clone, Copy, Debug, PartialEq, Eq, Structural)]
pub struct PendingId {
    pub date: Date,
    pub digest: u32,
}

/// Identifiers in order of date, then digest.
pub open spec fn id_less(a: PendingId, b: PendingId) -> bool {
    a.date.ordinal() < b.date.ordinal() || (a.date.ordinal() == b.date.ordinal() && a.digest < b.digest)
}

/// `n` bytes of `x`, least significant first.
pub open spec fn le_bytes(x: nat, n: nat) -> Seq<u8>
    decreases n,
{
    if n == 0 {
        seq![]
    } else {
        seq![(x % 256) as u8] + le_bytes(x / 256, (n - 1) as nat)
    }
}

pub open spec fn text_part(t: Option<Seq<char>>) -> Seq<Seq<u8>> {
    match t {
        Some(s) => seq![seq![1u8], encode_utf8(s)],
        None => seq![seq![0u8]],
    }
}

pub open spec fn magnitude(m: int) -> nat {
    if m < 0 {
        (-m) as nat
    } else {
        m as nat
    }
}

pub open spec fn amount_part(a: Option<AmountV>) -> Seq<Seq<u8>> {
    match a {
        Some(x) => seq![
            seq![if x.value.spec_mantissa() < 0 { 1u8 } else { 0u8 }],
            le_bytes(magnitude(x.value.spec_mantissa()), 12),
            seq![x.value.spec_scale() as u8],
            encode_utf8(x.currency),
        ],
        None => seq![],
    }
}

pub open spec fn amounts_part(ps: Seq<PostingV>) -> Seq<Seq<u8>>
    decreases ps.len(),
{
    if ps.len() == 0 {
        seq![]
    } else {
        amounts_part(ps.drop_last()) + amount_part(ps.last().amount)
    }
}

/// What the digest of an entry is computed from: the date, and for a
/// transaction its payee, narration and the amounts of its postings.
pub open spec fn id_parts(e: EntryV) -> Seq<Seq<u8>> {
    let date = seq![le_bytes(e.date.ordinal() as nat, 4)];
    match e.content {
        EntryContentV::Transaction(t) => date + text_part(t.payee) + text_part(t.narration)
            + amounts_part(t.postings),
        _ => date,
    }
}

/// The identifier of an entry.
pub open spec fn pending_id(e: EntryV) -> PendingId {
    PendingId { date: e.date, digest: (DefaultHasher::spec_finish(id_parts(e)) % 4294967296) as u32 }
}

fn le_bytes_of(x: u128, n: usize) -> (r: Vec<u8>)
    ensures
        r@ == le_bytes(x as nat, n as nat),
{
    let mut r: Vec<u8> = Vec::new();
    let mut v = x;
    let mut i: usize = 0;
    while i < n
        invariant
            i <= n,
            r@ + le_bytes(v as nat, (n - i) as nat) == le_bytes(x as nat, n as nat),
        decreases n - i,
    {
        let ghost before = r@;
        r.push((v % 256) as u8);
        proof {
            assert(le_bytes(v as nat, (n - i) as nat) == seq![(v % 256) as u8] + le_bytes(
                (v / 256) as nat,
                (n - i - 1) as nat,
            ));
            assert(r@ + le_bytes((v / 256) as nat, (n - i - 1) as nat) =~= before + le_bytes(
                v as nat,
                (n - i) as nat,
            ));
        }
        v = v / 256;
        i = i + 1;
    }
    assert(r@ =~= r@ + le_bytes(v as nat, 0));
    r
}

fn write_text(h: &mut DefaultHasher, t: &Option<String>)
    ensures
        final(h)@ == old(h)@ + text_part(opt_string_view(*t)),
{
    match t {
        Some(s) => {
            let tag: Vec<u8> = vec![1u8];
            assert(tag@ =~= seq![1u8]);
            h.write(tag.as_slice());
            h.write(s.as_str().as_bytes());
            assert(h@ =~= old(h)@ + seq![seq![1u8], encode_utf8(s@)]);
        },
        None => {
            let tag: Vec<u8> = vec![0u8];
            assert(tag@ =~= seq![0u8]);
            h.write(tag.as_slice());
            assert(h@ =~= old(h)@ + seq![seq![0u8]]);
        },
    }
}

fn write_amount(h: &mut DefaultHasher, value: &Decimal, currency: &String)
    ensures
        final(h)@ == old(h)@ + amount_part(Some(AmountV { value: *value, currency: currency@ })),
{
    let m = value.mantissa();
    let sign: Vec<u8> = if m < 0 {
        vec![1u8]
    } else {
        vec![0u8]
    };
    let mag: u128 = if m < 0 {
        (-m) as u128
    } else {
        m as u128
    };
    let digits = le_bytes_of(mag, 12);
    let scale: Vec<u8> = vec![value.scale() as u8];
    assert(sign@ =~= seq![if m < 0 { 1u8 } else { 0u8 }]);
    assert(scale@ =~= seq![value.spec_scale() as u8]);
    h.write(sign.as_slice());
    h.write(digits.as_slice());
    h.write(scale.as_slice());
    h.write(currency.as_str().as_bytes());
    proof {
        assert(h@ =~= old(h)@ + seq![sign@, digits@, scale@, encode_utf8(currency@)]);
    }
}

/// The identifier of an entry, stable across reloads while its date, payee,
/// narration and posting amounts stay the same.
pub fn generate_directive_id(entry: &Entry) -> (r: PendingId)
    ensures
        r == pending_id(entry@),
{
    let mut h = DefaultHasher::new();
    let date = le_bytes_of(entry.date.key() as u128, 4);
    h.write(date.as_slice());
    match &entry.content {
        EntryContent::Transaction(t) => {
            write_text(&mut h, &t.payee);
            write_text(&mut h, &t.narration);
            let ghost base = h@;
            let mut i: usize = 0;
            while i < t.postings.len()
                invariant
                    i <= t.postings@.len(),
                    h@ == base + amounts_part(entry@.content->Transaction_0.postings.take(i as int)),
                    entry@.content == EntryContentV::Transaction(t@),
                decreases t.postings@.len() - i,
            {
                let ghost ps = t@.postings;
                proof {
                    assert(ps.take(i + 1).drop_last() =~= ps.take(i as int));
                }
                match &t.postings[i].amount {
                    Some(a) => write_amount(&mut h, &a.value, &a.currency),
                    None => {},
                }
                proof {
                    assert(h@ =~= base + amounts_part(ps.take(i + 1)));
                }
                i = i + 1;
            }
            proof {
                assert(t@.postings.take(i as int) =~= t@.postings);
                assert(h@ =~= id_parts(entry@));
            }
        },
        _ => {
            proof {
                assert(h@ =~= id_parts(entry@));
            }
        },
    }
    let digest = (h.finish() % 4294967296) as u32;
    PendingId { date: entry.date, digest }
}


/// The identifiers of `s` in strictly ascending order.
pub open spec fn ids_ascending(s: Seq<(PendingId, Entry)>) -> bool {
    forall|i: int, j: int| 0 <= i < j < s.len() ==> id_less(s[i].0, s[j].0)
}

/// The mapping that an ordered list of pending entries stands for.
pub open spec fn pending_map(s: Seq<(PendingId, Entry)>) -> Map<PendingId, EntryV>
    decreases s.len(),
{
    if s.len() == 0 {
        Map::empty()
    } else {
        pending_map(s.drop_last()).insert(s.last().0, s.last().1@)
    }
}

/// An identifier is mapped exactly when some entry of the list carries it.
proof fn lemma_map_dom(s: Seq<(PendingId, Entry)>)
    ensures
        forall|k: PendingId|
            #[trigger] pending_map(s).contains_key(k) <==> exists|i: int| 0 <= i < s.len() && s[i].0 == k,
    decreases s.len(),
{
    if s.len() > 0 {
        lemma_map_dom(s.drop_last());
        assert forall|k: PendingId| #[trigger] pending_map(s).contains_key(k) implies exists|i: int|
            0 <= i < s.len() && s[i].0 == k by {
            if k != s.last().0 {
                assert(pending_map(s) == pending_map(s.drop_last()).insert(s.last().0, s.last().1@));
                assert(pending_map(s.drop_last()).contains_key(k));
                let i = choose|i: int| 0 <= i < s.drop_last().len() && s.drop_last()[i].0 == k;
                assert(s[i].0 == k);
            } else {
                assert(s[s.len() - 1].0 == k);
            }
        }
        assert forall|k: PendingId| (exists|i: int| 0 <= i < s.len() && s[i].0 == k) implies #[trigger] pending_map(s).contains_key(k) by {
            let i = choose|i: int| 0 <= i < s.len() && s[i].0 == k;
            if i < s.len() - 1 {
                assert(s.drop_last()[i].0 == k);
            }
        }
    }
}

/// The pending entries that a reconciliation leaves: each entry only in
/// staging under its identifier; of two with one identifier the later stays.
pub open spec fn staging_map(items: Seq<ReconcileItem>) -> Map<PendingId, EntryV>
    decreases items.len(),
{
    if items.len() == 0 {
        Map::empty()
    } else {
        let m = staging_map(items.drop_last());
        match items.last() {
            ReconcileItem::OnlyInStaging(e) => m.insert(pending_id(e@), e@),
            ReconcileItem::OnlyInJournal(_) => m,
        }
    }
}

/// The entry opens account `a`.
pub open spec fn opens(e: EntryV, a: Seq<char>) -> bool {
    match e.content {
        EntryContentV::Open { account, .. } => account == a,
        _ => false,
    }
}

/// The accounts that the opening entries among `journal` name.
pub open spec fn opened_accounts(journal: Seq<Entry>) -> Set<Seq<char>> {
    Set::new(
        |a: Seq<char>|
            exists|i: int| 0 <= i < journal.len() && opens(#[trigger] journal[i]@, a),
    )
}

/// What the live state holds.
pub struct PendingStateV {
    pub pending: Map<PendingId, EntryV>,
    pub accounts: Set<Seq<char>>,
}

/// The state that a reload from `journal` and `staging` entries gives.
pub open spec fn reloaded(journal: Seq<Entry>, staging: Seq<Entry>) -> PendingStateV {
    PendingStateV {
        pending: staging_map(reconcile_spec(date_buckets(journal), date_buckets(staging))),
        accounts: opened_accounts(journal),
    }
}

/// The live reconciliation state: the entries still pending review, ordered by
/// identifier, and the accounts that the journal opens.
pub struct PendingState {
    items: Vec<(PendingId, Entry)>,
    accounts: Vec<String>,
}

impl View for PendingState {
    type V = PendingStateV;

    closed spec fn view(&self) -> PendingStateV {
        PendingStateV {
            pending: pending_map(self.items@),
            accounts: crate::model::strings_view(self.accounts@).to_set(),
        }
    }
}

/// Why a pending entry could not be committed.
#[derive(Clone, Copy, Debug, PartialEq, Eq, Structural)]
pub enum PendingError {
    /// No pending entry has the identifier.
    UnknownId,
    /// The commit itself was refused.
    Commit(CommitError),
}

proof fn lemma_ids_unique(s: Seq<(PendingId, Entry)>, i: int, j: int)
    requires
        ids_ascending(s),
        0 <= i < s.len(),
        0 <= j < s.len(),
        s[i].0 == s[j].0,
    ensures
        i == j,
{
    if i < j {
        assert(id_less(s[i].0, s[j].0));
    } else if j < i {
        assert(id_less(s[j].0, s[i].0));
    }
}

proof fn lemma_map_at(s: Seq<(PendingId, Entry)>, i: int)
    requires
        ids_ascending(s),
        0 <= i < s.len(),
    ensures
        pending_map(s).contains_key(s[i].0),
        pending_map(s)[s[i].0] == s[i].1@,
    decreases s.len(),
{
    if i < s.len() - 1 {
        assert(id_less(s[i].0, s[s.len() - 1].0));
        assert(s.drop_last()[i] == s[i]);
        lemma_map_at(s.drop_last(), i);
    }
}

proof fn lemma_map_insert(s: Seq<(PendingId, Entry)>, t: Seq<(PendingId, Entry)>, k: PendingId, e: Entry, p: int)
    requires
        ids_ascending(s),
        ids_ascending(t),
        0 <= p <= s.len(),
        (p < s.len() && s[p].0 == k && t == s.update(p, (k, e))) || (!pending_map(s).contains_key(k)
            && t == s.insert(p, (k, e))),
    ensures
        pending_map(t) == pending_map(s).insert(k, e@),
{
    let ms = pending_map(s);
    let mt = pending_map(t);
    lemma_map_dom(s);
    lemma_map_dom(t);
    let replaced = p < s.len() && s[p].0 == k && t == s.update(p, (k, e));
    assert forall|x: PendingId| #[trigger] mt.contains_key(x) == ms.insert(k, e@).contains_key(x) by {
        if mt.contains_key(x) {
            let i = choose|i: int| 0 <= i < t.len() && t[i].0 == x;
            if x != k {
                if replaced {
                    assert(s[i].0 == x);
                } else if i < p {
                    assert(s[i].0 == x);
                } else {
                    assert(s[i - 1].0 == x);
                }
            }
        }
        if ms.insert(k, e@).contains_key(x) {
            if x == k {
                assert(t[p].0 == k);
            } else {
                let i = choose|i: int| 0 <= i < s.len() && s[i].0 == x;
                if replaced || i < p {
                    assert(t[i].0 == x);
                } else {
                    assert(t[i + 1].0 == x);
                }
            }
        }
    }
    assert forall|x: PendingId| #[trigger] mt.contains_key(x) implies mt[x] == ms.insert(k, e@)[x] by {
        let i = choose|i: int| 0 <= i < t.len() && t[i].0 == x;
        lemma_map_at(t, i);
        if x == k {
            assert(t[p].0 == k);
            lemma_ids_unique(t, i, p);
        } else {
            if replaced || i < p {
                assert(s[i] == t[i]);
                lemma_map_at(s, i);
            } else {
                assert(s[i - 1] == t[i]);
                lemma_map_at(s, i - 1);
            }
        }
    }
    assert(mt =~= ms.insert(k, e@));
}

/// The first position whose identifier is not below `id`.
fn id_position(items: &Vec<(PendingId, Entry)>, id: PendingId) -> (p: usize)
    ensures
        p <= items@.len(),
        forall|j: int| 0 <= j < p ==> id_less(items@[j].0, id),
        p < items@.len() ==> !id_less(items@[p as int].0, id),
{
    let key = id.date.key();
    let mut p: usize = 0;
    while p < items.len() && (items[p].0.date.key() < key || (items[p].0.date.key() == key
        && items[p].0.digest < id.digest))
        invariant
            p <= items@.len(),
            key == id.date.ordinal(),
            forall|j: int| 0 <= j < p ==> id_less(items@[j].0, id),
        decreases items@.len() - p,
    {
        p = p + 1;
    }
    p
}

/// Stores `entry` under `id` in the ordered list, replacing what was there.
fn insert_sorted(items: &mut Vec<(PendingId, Entry)>, id: PendingId, entry: Entry)
    requires
        ids_ascending(old(items)@),
    ensures
        ids_ascending(final(items)@),
        pending_map(final(items)@) == pending_map(old(items)@).insert(id, entry@),
{
    let ghost s = items@;
    let p = id_position(items, id);
    if p < items.len() && items[p].0 == id {
        items.set(p, (id, entry));
        proof {
            assert(items@ =~= s.update(p as int, (id, entry)));
            lemma_map_insert(s, items@, id, entry, p as int);
        }
    } else {
        items.insert(p, (id, entry));
        proof {
            let t = items@;
            assert(t =~= s.insert(p as int, (id, entry)));
            assert forall|i: int, j: int| 0 <= i < j < t.len() implies id_less(t[i].0, t[j].0) by {
                if j < p {
                    assert(t[i] == s[i] && t[j] == s[j]);
                } else if j == p {
                    assert(t[i] == s[i]);
                } else if i < p {
                    assert(t[i] == s[i] && t[j] == s[j - 1]);
                    assert(!id_less(s[p as int].0, id));
                    if j - 1 > p {
                        assert(id_less(s[p as int].0, s[j - 1].0));
                    }
                } else if i == p {
                    assert(t[j] == s[j - 1]);
                    assert(!id_less(s[p as int].0, id));
                    assert(s[p as int].0 != id);
                    if j - 1 > p {
                        assert(id_less(s[p as int].0, s[j - 1].0));
                    }
                } else {
                    assert(t[i] == s[i - 1] && t[j] == s[j - 1]);
                }
            }
            lemma_map_dom(s);
            assert(!pending_map(s).contains_key(id)) by {
                if pending_map(s).contains_key(id) {
                    let i = choose|i: int| 0 <= i < s.len() && s[i].0 == id;
                    if i > p {
                        assert(id_less(s[p as int].0, s[i].0));
                    }
                }
            }
            lemma_map_insert(s, t, id, entry, p as int);
        }
    }
}

/// The distinct accounts that the opening entries among `journal` name.
fn collect_accounts(journal: &Vec<Entry>) -> (r: Vec<String>)
    ensures
        crate::model::strings_view(r@).to_set() == opened_accounts(journal@),
{
    let mut r: Vec<String> = Vec::new();
    let mut i: usize = 0;
    while i < journal.len()
        invariant
            i <= journal@.len(),
            crate::model::strings_view(r@).to_set() == opened_accounts(journal@.take(i as int)),
        decreases journal@.len() - i,
    {
        let ghost before = r@;
        proof {
            assert(journal@.take(i + 1).drop_last() =~= journal@.take(i as int));
        }
        match &journal[i].content {
            EntryContent::Open(o) => {
                r.push(o.account.clone());
            },
            _ => {},
        }
        proof {
            let prev = journal@.take(i as int);
            let next = journal@.take(i + 1);
            let sv0 = crate::model::strings_view(before);
            let sv1 = crate::model::strings_view(r@);
            let last = next[i as int]@;
            assert(next[i as int] == journal@[i as int]);
            if last.content is Open {
                assert(sv1 =~= sv0.push(last.content->Open_account));
            } else {
                assert(sv1 =~= sv0);
            }
            assert forall|a: Seq<char>| #[trigger] sv1.to_set().contains(a) == opened_accounts(next).contains(a) by {
                if sv1.to_set().contains(a) {
                    let k = choose|k: int| 0 <= k < sv1.len() && sv1[k] == a;
                    if k < sv0.len() {
                        assert(sv0[k] == a);
                        assert(sv0.to_set().contains(a));
                        let j = choose|j: int| 0 <= j < prev.len() && opens(#[trigger] prev[j]@, a);
                        assert(next[j] == prev[j]);
                    } else {
                        assert(opens(next[i as int]@, a));
                    }
                }
                if opened_accounts(next).contains(a) {
                    let j = choose|j: int| 0 <= j < next.len() && opens(#[trigger] next[j]@, a);
                    if j < i {
                        assert(prev[j] == next[j]);
                        assert(opened_accounts(prev).contains(a));
                        assert(sv0.to_set().contains(a));
                        let k = choose|k: int| 0 <= k < sv0.len() && sv0[k] == a;
                        assert(sv1[k] == a);
                    } else {
                        assert(sv1[sv1.len() - 1] == a);
                    }
                }
            }
            assert(sv1.to_set() =~= opened_accounts(next));
        }
        i = i + 1;
    }
    proof {
        assert(journal@.take(i as int) =~= journal@);
    }
    r
}

impl PendingState {
    /// The pending entries are held in strictly ascending order of identifier.
    pub closed spec fn wf(&self) -> bool {
        ids_ascending(self.items@)
    }

    /// A state with nothing pending and no accounts.
    pub fn new() -> (r: PendingState)
        ensures
            r.wf(),
            r@.pending == Map::<PendingId, EntryV>::empty(),
            r@.accounts == Set::<Seq<char>>::empty(),
    {
        let r = PendingState { items: Vec::new(), accounts: Vec::new() };
        assert(r@.pending =~= Map::<PendingId, EntryV>::empty());
        assert(r@.accounts =~= Set::<Seq<char>>::empty());
        r
    }

    /// Replaces the whole state by the reconciliation of `journal` against
    /// `staging`: the entries only in staging become the pending entries, and
    /// the accounts are those the journal opens.
    pub fn reload(&mut self, journal: Vec<Entry>, staging: Vec<Entry>)
        ensures
            final(self).wf(),
            final(self)@ == reloaded(journal@, staging@),
    {
        let accounts = collect_accounts(&journal);
        let results = reconcile(bucket_by_date(journal), bucket_by_date(staging));
        let ghost rs = results@;
        let total = results.len();
        let mut rest = reversed(results);
        let mut items: Vec<(PendingId, Entry)> = Vec::new();
        let mut i: usize = 0;
        while rest.len() > 0
            invariant
                i <= rs.len(),
                rs.len() == total,
                rest@ == rs.skip(i as int).reverse(),
                rest@.len() == rs.len() - i,
                ids_ascending(items@),
                pending_map(items@) == staging_map(rs.take(i as int)),
            decreases rest@.len(),
        {
            proof {
                lemma_reverse_skip(rs, i as int);
                assert(rs.take(i + 1).drop_last() =~= rs.take(i as int));
            }
            let item = rest.pop().unwrap();
            match item {
                ReconcileItem::OnlyInStaging(e) => {
                    let id = generate_directive_id(&e);
                    insert_sorted(&mut items, id, e);
                },
                ReconcileItem::OnlyInJournal(_) => {},
            }
            i = i + 1;
        }
        proof {
            assert(rs.take(i as int) =~= rs);
        }
        self.items = items;
        self.accounts = accounts;
    }

    /// The number of pending entries.
    pub fn len(&self) -> (r: usize)
        requires
            self.wf(),
        ensures
            r == self@.pending.len(),
    {
        proof {
            lemma_map_len(self.items@);
        }
        self.items.len()
    }

    /// The pending entry with identifier `id`.
    pub fn get(&self, id: PendingId) -> (r: Option<&Entry>)
        requires
            self.wf(),
        ensures
            match r {
                Some(e) => self@.pending.contains_key(id) && self@.pending[id] == e@,
                None => !self@.pending.contains_key(id),
            },
    {
        let p = id_position(&self.items, id);
        if p < self.items.len() && self.items[p].0 == id {
            proof {
                lemma_map_at(self.items@, p as int);
            }
            Some(&self.items[p].1)
        } else {
            proof {
                lemma_map_dom(self.items@);
                if self@.pending.contains_key(id) {
                    let i = choose|i: int| 0 <= i < self.items@.len() && self.items@[i].0 == id;
                    if i > p {
                        assert(id_less(self.items@[p as int].0, self.items@[i].0));
                    }
                }
            }
            None
        }
    }

    /// Takes the pending entry with identifier `id` out of the state.
    pub fn remove(&mut self, id: PendingId) -> (r: Option<Entry>)
        requires
            old(self).wf(),
        ensures
            final(self).wf(),
            final(self)@.pending == old(self)@.pending.remove(id),
            final(self)@.accounts == old(self)@.accounts,
            match r {
                Some(e) => old(self)@.pending.contains_key(id) && old(self)@.pending[id] == e@,
                None => !old(self)@.pending.contains_key(id),
            },
    {
        let ghost s = self.items@;
        let p = id_position(&self.items, id);
        if p < self.items.len() && self.items[p].0 == id {
            let (_, e) = self.items.remove(p);
            proof {
                let t = self.items@;
                lemma_map_dom(s);
                lemma_map_dom(t);
                lemma_map_at(s, p as int);
                assert(t =~= s.remove(p as int));
                assert forall|x: PendingId| #[trigger] pending_map(t).contains_key(x) == pending_map(s).remove(id).contains_key(x) by {
                    if pending_map(t).contains_key(x) {
                        let i = choose|i: int| 0 <= i < t.len() && t[i].0 == x;
                        if i < p {
                            assert(s[i] == t[i]);
                            if x == id {
                                lemma_ids_unique(s, i, p as int);
                            }
                        } else {
                            assert(s[i + 1] == t[i]);
                            if x == id {
                                lemma_ids_unique(s, i + 1, p as int);
                            }
                        }
                    }
                    if pending_map(s).remove(id).contains_key(x) {
                        let i = choose|i: int| 0 <= i < s.len() && s[i].0 == x;
                        if i < p {
                            assert(t[i] == s[i]);
                        } else {
                            assert(i != p);
                            assert(t[i - 1] == s[i]);
                        }
                    }
                }
                assert forall|x: PendingId| #[trigger] pending_map(t).contains_key(x) implies pending_map(t)[x] == pending_map(s)[x] by {
                    let i = choose|i: int| 0 <= i < t.len() && t[i].0 == x;
                    lemma_map_at(t, i);
                    if i < p {
                        lemma_map_at(s, i);
                    } else {
                        lemma_map_at(s, i + 1);
                    }
                }
                assert(pending_map(t) =~= pending_map(s).remove(id));
            }
            Some(e)
        } else {
            proof {
                lemma_map_dom(s);
                if pending_map(s).contains_key(id) {
                    let i = choose|i: int| 0 <= i < s.len() && s[i].0 == id;
                    if i > p {
                        assert(id_less(s[p as int].0, s[i].0));
                    }
                }
                assert(pending_map(s) =~= pending_map(s).remove(id));
            }
            None
        }
    }

    /// The identifiers of the pending entries, ascending.
    pub fn ids(&self) -> (r: Vec<PendingId>)
        requires
            self.wf(),
        ensures
            r@.to_set() == self@.pending.dom(),
            forall|i: int, j: int| 0 <= i < j < r@.len() ==> id_less(r@[i], r@[j]),
    {
        let mut r: Vec<PendingId> = Vec::new();
        let mut i: usize = 0;
        while i < self.items.len()
            invariant
                i <= self.items@.len(),
                ids_ascending(self.items@),
                r@.len() == i,
                forall|j: int| 0 <= j < i ==> r@[j] == self.items@[j].0,
            decreases self.items@.len() - i,
        {
            r.push(self.items[i].0);
            i = i + 1;
        }
        proof {
            lemma_map_dom(self.items@);
            assert(r@.to_set() =~= self@.pending.dom()) by {
                assert forall|x: PendingId| r@.to_set().contains(x) implies self@.pending.dom().contains(x) by {
                    let j = choose|j: int| 0 <= j < r@.len() && r@[j] == x;
                    assert(self.items@[j].0 == x);
                }
                assert forall|x: PendingId| self@.pending.dom().contains(x) implies r@.to_set().contains(x) by {
                    let j = choose|j: int| 0 <= j < self.items@.len() && self.items@[j].0 == x;
                    assert(r@[j] == x);
                }
            }
        }
        r
    }

    /// The accounts that the journal opens.
    pub fn accounts(&self) -> (r: Vec<String>)
        ensures
            crate::model::strings_view(r@).to_set() == self@.accounts,
    {
        crate::model::copy_strings(&self.accounts)
    }

    /// The journal form of the pending entry `id` committed to `account`, with
    /// an optional new payee and narration. The state is left unchanged; the
    /// caller removes the entry once the journal holds it.
    pub fn commit(&self, id: PendingId, account: &str, payee: Option<&str>, narration: Option<&str>) -> (r: Result<Entry, PendingError>)
        requires
            self.wf(),
        ensures
            !self@.pending.contains_key(id) ==> r == Err::<Entry, PendingError>(PendingError::UnknownId),
            self@.pending.contains_key(id) && account@.len() == 0 ==> r == Err::<Entry, PendingError>(
                PendingError::Commit(CommitError::InvalidAccount),
            ),
            self@.pending.contains_key(id) ==> match r {
                Ok(e) => commit_outcome(self@.pending[id], account_syntax_ok(account@), account@, opt_str_view(payee), opt_str_view(narration)) == Ok::<EntryV, CommitError>(e@),
                Err(PendingError::Commit(c)) => commit_outcome(self@.pending[id], account_syntax_ok(account@), account@, opt_str_view(payee), opt_str_view(narration)) == Err::<EntryV, CommitError>(c),
                Err(PendingError::UnknownId) => false,
            },
    {
        match self.get(id) {
            None => Err(PendingError::UnknownId),
            Some(entry) => match commit_transaction(entry, account, payee, narration) {
                Ok(e) => Ok(e),
                Err(c) => Err(PendingError::Commit(c)),
            },
        }
    }
}

proof fn lemma_map_len(s: Seq<(PendingId, Entry)>)
    requires
        ids_ascending(s),
    ensures
        pending_map(s).len() == s.len(),
{
    let ids = s.map_values(|x: (PendingId, Entry)| x.0);
    assert forall|i: int, j: int| 0 <= i < j < ids.len() implies ids[i] != ids[j] by {
        assert(id_less(s[i].0, s[j].0));
    }
    ids.unique_seq_to_set();
    lemma_map_dom(s);
    assert(pending_map(s).dom() =~= ids.to_set()) by {
        assert forall|x: PendingId| pending_map(s).dom().contains(x) implies ids.to_set().contains(x) by {
            let i = choose|i: int| 0 <= i < s.len() && s[i].0 == x;
            assert(ids[i] == x);
        }
        assert forall|x: PendingId| ids.to_set().contains(x) implies pending_map(s).dom().contains(x) by {
            let i = choose|i: int| 0 <= i < ids.len() && ids[i] == x;
            assert(s[i].0 == x);
        }
    }
}

} // verus!

//! Key/value metadata attached to entries and postings.

use crate::model::{meta_value_same, MetaValue, MetaValueV};
use vstd::prelude::*;
use vstd::string::StringExecFns;

verus! {

/// Metadata: a list of keys with their values. A lookup finds the first entry
/// with the key; `insert` replaces that entry or appends a new one.
#[derive(Clone, Debug)]
pub struct Metadata {
    pub entries: Vec<(String, MetaValue)>,
}

pub type MetadataV = Seq<(Seq<char>, MetaValueV)>;

impl View for Metadata {
    type V = MetadataV;

    open spec fn view(&self) -> MetadataV {
        self.entries@.map_values(|e: (String, MetaValue)| (e.0@, e.1@))
    }
}

/// The value stored under `key`, if any.
pub open spec fn meta_lookup(m: MetadataV, key: Seq<char>) -> Option<MetaValueV>
    decreases m.len(),
{
    if m.len() == 0 {
        None
    } else if m[0].0 == key {
        Some(m[0].1)
    } else {
        meta_lookup(m.skip(1), key)
    }
}

/// The metadata after storing `value` under `key`.
pub open spec fn meta_insert(m: MetadataV, key: Seq<char>, value: MetaValueV) -> MetadataV
    decreases m.len(),
{
    if m.len() == 0 {
        seq![(key, value)]
    } else if m[0].0 == key {
        m.update(0, (key, value))
    } else {
        seq![m[0]] + meta_insert(m.skip(1), key, value)
    }
}

pub open spec fn opt_meta_value_same(a: Option<MetaValueV>, b: Option<MetaValueV>) -> bool {
    match (a, b) {
        (Some(x), Some(y)) => meta_value_same(x, y),
        (None, None) => true,
        _ => false,
    }
}

/// Two metadata hold the same keys, with values that denote the same thing.
pub open spec fn metadata_same(a: MetadataV, b: MetadataV) -> bool {
    forall|k: Seq<char>| #[trigger] opt_meta_value_same(meta_lookup(a, k), meta_lookup(b, k))
}

pub proof fn lemma_lookup_after_insert(m: MetadataV, key: Seq<char>, value: MetaValueV, k: Seq<char>)
    ensures
        meta_lookup(meta_insert(m, key, value), k) == if k == key {
            Some(value)
        } else {
            meta_lookup(m, k)
        },
    decreases m.len(),
{
    let ins = meta_insert(m, key, value);
    if m.len() == 0 {
        assert(ins.skip(1) =~= Seq::<(Seq<char>, MetaValueV)>::empty());
        assert(meta_lookup(ins.skip(1), k) is None);
    } else if m[0].0 == key {
        assert(ins.skip(1) =~= m.skip(1));
        assert(ins[0] == (key, value));
    } else {
        let rest = meta_insert(m.skip(1), key, value);
        lemma_lookup_after_insert(m.skip(1), key, value, k);
        assert(ins == seq![m[0]] + rest);
        assert(ins.skip(1) =~= rest);
        assert(ins[0] == m[0]);
    }
}

/// A key that is stored is the key of some entry.
proof fn lemma_lookup_found(m: MetadataV, k: Seq<char>)
    ensures
        meta_lookup(m, k) is Some ==> exists|i: int| 0 <= i < m.len() && m[i].0 == k,
    decreases m.len(),
{
    if m.len() > 0 && m[0].0 != k {
        lemma_lookup_found(m.skip(1), k);
        if meta_lookup(m, k) is Some {
            let i = choose|i: int| 0 <= i < m.skip(1).len() && m.skip(1)[i].0 == k;
            assert(m[i + 1].0 == k);
        }
    }
}

/// Looking up from position `i` when no earlier entry holds the key.
proof fn lemma_lookup_skip(m: MetadataV, k: Seq<char>, i: int)
    requires
        0 <= i < m.len(),
        forall|j: int| 0 <= j < i ==> m[j].0 != k,
    ensures
        meta_lookup(m, k) == meta_lookup(m.skip(i), k),
    decreases i,
{
    if i > 0 {
        assert(m[0].0 != k);
        lemma_lookup_skip(m.skip(1), k, i - 1);
        assert(m.skip(1).skip(i - 1) =~= m.skip(i));
    } else {
        assert(m.skip(0) =~= m);
    }
}

impl Metadata {
    pub fn new() -> (r: Metadata)
        ensures
            r@ == Seq::<(Seq<char>, MetaValueV)>::empty(),
    {
        Metadata { entries: Vec::new() }
    }

    /// The position of the first entry with `key`, if any.
    fn position(&self, key: &str) -> (r: Option<usize>)
        ensures
            match r {
                Some(i) => i < self@.len() && self@[i as int].0 == key@ && forall|j: int|
                    0 <= j < i ==> self@[j].0 != key@,
                None => forall|j: int| 0 <= j < self@.len() ==> self@[j].0 != key@,
            },
    {
        let wanted = String::from_str(key);
        let mut i: usize = 0;
        while i < self.entries.len()
            invariant
                i <= self.entries@.len(),
                wanted@ == key@,
                forall|j: int| 0 <= j < i ==> self@[j].0 != key@,
            decreases self.entries@.len() - i,
        {
            if self.entries[i].0 == wanted {
                return Some(i);
            }
            i = i + 1;
        }
        None
    }

    /// The value stored under `key`.
    pub fn get(&self, key: &str) -> (r: Option<&MetaValue>)
        ensures
            match r {
                Some(v) => meta_lookup(self@, key@) == Some(v@),
                None => meta_lookup(self@, key@) is None,
            },
    {
        match self.position(key) {
            Some(i) => {
                proof {
                    lemma_lookup_skip(self@, key@, i as int);
                }
                Some(&self.entries[i].1)
            },
            None => {
                proof {
                    lemma_lookup_found(self@, key@);
                }
                None
            },
        }
    }

    pub fn duplicate(&self) -> (r: Metadata)
        ensures
            r@ == self@,
    {
        let mut entries: Vec<(String, MetaValue)> = Vec::new();
        let mut i: usize = 0;
        while i < self.entries.len()
            invariant
                i <= self.entries@.len(),
                entries@.len() == i,
                forall|j: int| 0 <= j < i ==> (#[trigger] entries@[j]).0@ == self.entries@[j].0@
                    && entries@[j].1@ == self.entries@[j].1@,
            decreases self.entries@.len() - i,
        {
            let e = &self.entries[i];
            entries.push((e.0.clone(), e.1.duplicate()));
            i = i + 1;
        }
        let r = Metadata { entries };
        assert(r@ =~= self@);
        r
    }

    /// Whether both hold the same keys with values that denote the same thing.
    pub fn same_as(&self, other: &Metadata) -> (r: bool)
        ensures
            r == metadata_same(self@, other@),
    {
        if !self.covered_by(other) {
            return false;
        }
        if !other.covered_by(self) {
            proof {
                let k = choose|k: Seq<char>|
                    !opt_meta_value_same(meta_lookup(other@, k), meta_lookup(self@, k));
                assert(!opt_meta_value_same(meta_lookup(self@, k), meta_lookup(other@, k)));
            }
            return false;
        }
        proof {
            assert forall|k: Seq<char>|
                #[trigger] opt_meta_value_same(meta_lookup(self@, k), meta_lookup(other@, k)) by {
                lemma_lookup_found(self@, k);
                lemma_lookup_found(other@, k);
                if meta_lookup(other@, k) is Some {
                    let i = choose|i: int| 0 <= i < other@.len() && other@[i].0 == k;
                    assert(opt_meta_value_same(meta_lookup(other@, other@[i].0), meta_lookup(self@, other@[i].0)));
                }
            }
        }
        true
    }

    /// Every key of `self` is held by `other` with a value that denotes the same
    /// thing; when this fails, some key tells them apart.
    fn covered_by(&self, other: &Metadata) -> (r: bool)
        ensures
            r ==> forall|i: int|
                0 <= i < self@.len() ==> opt_meta_value_same(
                    #[trigger] meta_lookup(self@, self@[i].0),
                    meta_lookup(other@, self@[i].0),
                ),
            !r ==> exists|k: Seq<char>|
                !opt_meta_value_same(#[trigger] meta_lookup(self@, k), meta_lookup(other@, k)),
    {
        let mut i: usize = 0;
        while i < self.entries.len()
            invariant
                i <= self.entries@.len(),
                forall|j: int|
                    0 <= j < i ==> opt_meta_value_same(
                        #[trigger] meta_lookup(self@, self@[j].0),
                        meta_lookup(other@, self@[j].0),
                    ),
            decreases self.entries@.len() - i,
        {
            let key = self.entries[i].0.as_str();
            let same = match (self.get(key), other.get(key)) {
                (Some(a), Some(b)) => a.equals(b),
                (None, None) => true,
                _ => false,
            };
            if !same {
                return false;
            }
            i = i + 1;
        }
        proof {
            assert forall|k: Seq<char>|
                #[trigger] meta_lookup(self@, k) is Some implies opt_meta_value_same(
                meta_lookup(self@, k),
                meta_lookup(other@, k),
            ) by {
                lemma_lookup_found(self@, k);
            }
        }
        true
    }

    /// Stores `value` under `key`, replacing the value held before.
    pub fn insert(&mut self, key: &str, value: MetaValue)
        ensures
            final(self)@ == meta_insert(old(self)@, key@, value@),
    {
        let ghost m0 = self@;
        match self.position(key) {
            Some(i) => {
                self.entries.set(i, (String::from_str(key), value));
                proof {
                    lemma_insert_at(m0, key@, value@, i as int);
                    assert(self@ =~= m0.update(i as int, (key@, value@)));
                }
            },
            None => {
                self.entries.push((String::from_str(key), value));
                proof {
                    lemma_insert_absent(m0, key@, value@);
                    assert(self@ =~= m0.push((key@, value@)));
                }
            },
        }
    }
}

proof fn lemma_insert_at(m: MetadataV, key: Seq<char>, value: MetaValueV, i: int)
    requires
        0 <= i < m.len(),
        m[i].0 == key,
        forall|j: int| 0 <= j < i ==> m[j].0 != key,
    ensures
        meta_insert(m, key, value) == m.update(i, (key, value)),
    decreases i,
{
    if i > 0 {
        lemma_insert_at(m.skip(1), key, value, i - 1);
        assert(seq![m[0]] + m.skip(1).update(i - 1, (key, value)) =~= m.update(i, (key, value)));
    }
}

proof fn lemma_insert_absent(m: MetadataV, key: Seq<char>, value: MetaValueV)
    requires
        forall|j: int| 0 <= j < m.len() ==> m[j].0 != key,
    ensures
        meta_insert(m, key, value) == m.push((key, value)),
    decreases m.len(),
{
    if m.len() > 0 {
        lemma_insert_absent(m.skip(1), key, value);
        assert(seq![m[0]] + m.skip(1).push((key, value)) =~= m.push((key, value)));
    }
}

} // verus!

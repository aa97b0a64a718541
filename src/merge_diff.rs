//! A two-way merge of key-ordered sequences that tells, for each key, whether it
//! occurs in the first sequence, in the second, or in both.

use crate::sequence::{lemma_reverse_push, reversed};
use vstd::prelude::*;

verus! {

/// Where a key of the merge was found.
#[derive(Debug)]
pub enum JoinResult<V> {
    OnlyInFirst(V),
    OnlyInSecond(V),
    InBoth(V, V),
}

/// The merge of two sequences sorted by key, stated from the largest key down:
/// the larger last key goes last; equal last keys go last together.
pub open spec fn merge_spec<V>(a: Seq<(u32, V)>, b: Seq<(u32, V)>) -> Seq<JoinResult<(u32, V)>>
    decreases a.len() + b.len(),
{
    if a.len() == 0 && b.len() == 0 {
        seq![]
    } else if b.len() == 0 || (a.len() > 0 && a.last().0 > b.last().0) {
        merge_spec(a.drop_last(), b).push(JoinResult::OnlyInFirst(a.last()))
    } else if a.len() == 0 || a.last().0 < b.last().0 {
        merge_spec(a, b.drop_last()).push(JoinResult::OnlyInSecond(b.last()))
    } else {
        merge_spec(a.drop_last(), b.drop_last()).push(JoinResult::InBoth(a.last(), b.last()))
    }
}

/// The values of the first sequence that a merge result carries, in order.
pub open spec fn firsts<V>(r: Seq<JoinResult<V>>) -> Seq<V>
    decreases r.len(),
{
    if r.len() == 0 {
        seq![]
    } else {
        match r.last() {
            JoinResult::OnlyInFirst(x) => firsts(r.drop_last()).push(x),
            JoinResult::InBoth(x, _) => firsts(r.drop_last()).push(x),
            JoinResult::OnlyInSecond(_) => firsts(r.drop_last()),
        }
    }
}

/// The values of the second sequence that a merge result carries, in order.
pub open spec fn seconds<V>(r: Seq<JoinResult<V>>) -> Seq<V>
    decreases r.len(),
{
    if r.len() == 0 {
        seq![]
    } else {
        match r.last() {
            JoinResult::OnlyInSecond(y) => seconds(r.drop_last()).push(y),
            JoinResult::InBoth(_, y) => seconds(r.drop_last()).push(y),
            JoinResult::OnlyInFirst(_) => seconds(r.drop_last()),
        }
    }
}

/// Keys in strictly ascending order.
pub open spec fn keys_ascending<V>(s: Seq<(u32, V)>) -> bool {
    forall|i: int, j: int| 0 <= i < j < s.len() ==> s[i].0 < s[j].0
}

/// A merge loses and adds nothing: it carries all of the first sequence and all
/// of the second, each in its order, and pairs only equal keys.
pub proof fn lemma_merge_sides<V>(a: Seq<(u32, V)>, b: Seq<(u32, V)>)
    ensures
        firsts(merge_spec(a, b)) == a,
        seconds(merge_spec(a, b)) == b,
        forall|i: int|
            0 <= i < merge_spec(a, b).len() ==> (#[trigger] merge_spec(a, b)[i] matches JoinResult::InBoth(x, y)
                ==> x.0 == y.0),
    decreases a.len() + b.len(),
{
    let m = merge_spec(a, b);
    if a.len() == 0 && b.len() == 0 {
    } else if b.len() == 0 || (a.len() > 0 && a.last().0 > b.last().0) {
        lemma_merge_sides(a.drop_last(), b);
        assert(m.drop_last() == merge_spec(a.drop_last(), b));
        assert(a.drop_last().push(a.last()) =~= a);
    } else if a.len() == 0 || a.last().0 < b.last().0 {
        lemma_merge_sides(a, b.drop_last());
        assert(m.drop_last() == merge_spec(a, b.drop_last()));
        assert(b.drop_last().push(b.last()) =~= b);
    } else {
        lemma_merge_sides(a.drop_last(), b.drop_last());
        assert(m.drop_last() == merge_spec(a.drop_last(), b.drop_last()));
        assert(a.drop_last().push(a.last()) =~= a);
        assert(b.drop_last().push(b.last()) =~= b);
    }
}

/// Some element of `s` has key `k`.
pub open spec fn has_key<V>(s: Seq<(u32, V)>, k: u32) -> bool {
    exists|i: int| 0 <= i < s.len() && s[i].0 == k
}

/// Every value that a merge carries comes from the side it is reported for.
proof fn lemma_merge_members<V>(a: Seq<(u32, V)>, b: Seq<(u32, V)>)
    ensures
        forall|i: int|
            0 <= i < merge_spec(a, b).len() ==> match #[trigger] merge_spec(a, b)[i] {
                JoinResult::OnlyInFirst(x) => a.contains(x),
                JoinResult::OnlyInSecond(y) => b.contains(y),
                JoinResult::InBoth(x, y) => a.contains(x) && b.contains(y),
            },
    decreases a.len() + b.len(),
{
    let m = merge_spec(a, b);
    if a.len() == 0 && b.len() == 0 {
    } else if b.len() == 0 || (a.len() > 0 && a.last().0 > b.last().0) {
        lemma_merge_members(a.drop_last(), b);
        assert forall|i: int| 0 <= i < m.len() implies match #[trigger] m[i] {
            JoinResult::OnlyInFirst(x) => a.contains(x),
            JoinResult::OnlyInSecond(y) => b.contains(y),
            JoinResult::InBoth(x, y) => a.contains(x) && b.contains(y),
        } by {
            if i < m.len() - 1 {
                assert(m[i] == merge_spec(a.drop_last(), b)[i]);
                lemma_contains_drop_last(a);
            } else {
                assert(a[a.len() - 1] == a.last());
            }
        }
    } else if a.len() == 0 || a.last().0 < b.last().0 {
        lemma_merge_members(a, b.drop_last());
        assert forall|i: int| 0 <= i < m.len() implies match #[trigger] m[i] {
            JoinResult::OnlyInFirst(x) => a.contains(x),
            JoinResult::OnlyInSecond(y) => b.contains(y),
            JoinResult::InBoth(x, y) => a.contains(x) && b.contains(y),
        } by {
            if i < m.len() - 1 {
                assert(m[i] == merge_spec(a, b.drop_last())[i]);
                lemma_contains_drop_last(b);
            } else {
                assert(b[b.len() - 1] == b.last());
            }
        }
    } else {
        lemma_merge_members(a.drop_last(), b.drop_last());
        assert forall|i: int| 0 <= i < m.len() implies match #[trigger] m[i] {
            JoinResult::OnlyInFirst(x) => a.contains(x),
            JoinResult::OnlyInSecond(y) => b.contains(y),
            JoinResult::InBoth(x, y) => a.contains(x) && b.contains(y),
        } by {
            if i < m.len() - 1 {
                assert(m[i] == merge_spec(a.drop_last(), b.drop_last())[i]);
                lemma_contains_drop_last(a);
                lemma_contains_drop_last(b);
            } else {
                assert(a[a.len() - 1] == a.last());
                assert(b[b.len() - 1] == b.last());
            }
        }
    }
}

proof fn lemma_contains_drop_last<T>(s: Seq<T>)
    requires
        s.len() > 0,
    ensures
        forall|x: T| s.drop_last().contains(x) ==> s.contains(x),
{
    assert forall|x: T| s.drop_last().contains(x) implies s.contains(x) by {
        let i = choose|i: int| 0 <= i < s.drop_last().len() && s.drop_last()[i] == x;
        assert(s[i] == x);
    }
}

/// On keys in strictly ascending order on each side, a merge classifies each
/// key rightly: a key reported only in one sequence is absent from the other,
/// and a key reported in both pairs equal keys.
pub proof fn lemma_merge_classifies<V>(a: Seq<(u32, V)>, b: Seq<(u32, V)>)
    requires
        keys_ascending(a),
        keys_ascending(b),
    ensures
        forall|i: int|
            0 <= i < merge_spec(a, b).len() ==> match #[trigger] merge_spec(a, b)[i] {
                JoinResult::OnlyInFirst(x) => !has_key(b, x.0),
                JoinResult::OnlyInSecond(y) => !has_key(a, y.0),
                JoinResult::InBoth(x, y) => x.0 == y.0,
            },
    decreases a.len() + b.len(),
{
    let m = merge_spec(a, b);
    if a.len() == 0 && b.len() == 0 {
    } else if b.len() == 0 || (a.len() > 0 && a.last().0 > b.last().0) {
        let a1 = a.drop_last();
        lemma_merge_classifies(a1, b);
        lemma_merge_members(a1, b);
        assert forall|i: int| 0 <= i < m.len() implies match #[trigger] m[i] {
            JoinResult::OnlyInFirst(x) => !has_key(b, x.0),
            JoinResult::OnlyInSecond(y) => !has_key(a, y.0),
            JoinResult::InBoth(x, y) => x.0 == y.0,
        } by {
            if i < m.len() - 1 {
                assert(m[i] == merge_spec(a1, b)[i]);
                if let JoinResult::OnlyInSecond(y) = m[i] {
                    let j = choose|j: int| 0 <= j < b.len() && b[j] == y;
                    if j < b.len() - 1 {
                        assert(b[j].0 < b[b.len() - 1].0);
                    }
                    if has_key(a, y.0) {
                        let k = choose|k: int| 0 <= k < a.len() && a[k].0 == y.0;
                        if k < a.len() - 1 {
                            assert(a1[k].0 == y.0);
                        }
                    }
                }
            } else if b.len() > 0 {
                if has_key(b, a.last().0) {
                    let k = choose|k: int| 0 <= k < b.len() && b[k].0 == a.last().0;
                    if k < b.len() - 1 {
                        assert(b[k].0 < b[b.len() - 1].0);
                    }
                }
            }
        }
    } else if a.len() == 0 || a.last().0 < b.last().0 {
        let b1 = b.drop_last();
        lemma_merge_classifies(a, b1);
        lemma_merge_members(a, b1);
        assert forall|i: int| 0 <= i < m.len() implies match #[trigger] m[i] {
            JoinResult::OnlyInFirst(x) => !has_key(b, x.0),
            JoinResult::OnlyInSecond(y) => !has_key(a, y.0),
            JoinResult::InBoth(x, y) => x.0 == y.0,
        } by {
            if i < m.len() - 1 {
                assert(m[i] == merge_spec(a, b1)[i]);
                if let JoinResult::OnlyInFirst(x) = m[i] {
                    let j = choose|j: int| 0 <= j < a.len() && a[j] == x;
                    if j < a.len() - 1 {
                        assert(a[j].0 < a[a.len() - 1].0);
                    }
                    if has_key(b, x.0) {
                        let k = choose|k: int| 0 <= k < b.len() && b[k].0 == x.0;
                        if k < b.len() - 1 {
                            assert(b1[k].0 == x.0);
                        }
                    }
                }
            } else if a.len() > 0 {
                if has_key(a, b.last().0) {
                    let k = choose|k: int| 0 <= k < a.len() && a[k].0 == b.last().0;
                    if k < a.len() - 1 {
                        assert(a[k].0 < a[a.len() - 1].0);
                    }
                }
            }
        }
    } else {
        let a1 = a.drop_last();
        let b1 = b.drop_last();
        lemma_merge_classifies(a1, b1);
        lemma_merge_members(a1, b1);
        assert forall|i: int| 0 <= i < m.len() implies match #[trigger] m[i] {
            JoinResult::OnlyInFirst(x) => !has_key(b, x.0),
            JoinResult::OnlyInSecond(y) => !has_key(a, y.0),
            JoinResult::InBoth(x, y) => x.0 == y.0,
        } by {
            if i < m.len() - 1 {
                assert(m[i] == merge_spec(a1, b1)[i]);
                if let JoinResult::OnlyInFirst(x) = m[i] {
                    let j = choose|j: int| 0 <= j < a1.len() && a1[j] == x;
                    assert(a[j].0 < a[a.len() - 1].0);
                    if has_key(b, x.0) {
                        let k = choose|k: int| 0 <= k < b.len() && b[k].0 == x.0;
                        if k < b.len() - 1 {
                            assert(b1[k].0 == x.0);
                        }
                    }
                }
                if let JoinResult::OnlyInSecond(y) = m[i] {
                    let j = choose|j: int| 0 <= j < b1.len() && b1[j] == y;
                    assert(b[j].0 < b[b.len() - 1].0);
                    if has_key(a, y.0) {
                        let k = choose|k: int| 0 <= k < a.len() && a[k].0 == y.0;
                        if k < a.len() - 1 {
                            assert(a1[k].0 == y.0);
                        }
                    }
                }
            }
        }
    }
}

/// With an empty second sequence every key is only in the first.
pub proof fn lemma_merge_empty_second<V>(a: Seq<(u32, V)>)
    ensures
        merge_spec(a, Seq::<(u32, V)>::empty()) == a.map_values(|x: (u32, V)| JoinResult::OnlyInFirst(x)),
    decreases a.len(),
{
    if a.len() > 0 {
        lemma_merge_empty_second(a.drop_last());
        assert(a.drop_last().map_values(|x: (u32, V)| JoinResult::OnlyInFirst(x)).push(
            JoinResult::OnlyInFirst(a.last()),
        ) =~= a.map_values(|x: (u32, V)| JoinResult::OnlyInFirst(x)));
    } else {
        assert(a.map_values(|x: (u32, V)| JoinResult::OnlyInFirst(x)) =~= Seq::<JoinResult<(u32, V)>>::empty());
    }
}

/// Merges two sequences by key, in key order.
pub fn sort_merge_diff<V>(first: Vec<(u32, V)>, second: Vec<(u32, V)>) -> (r: Vec<JoinResult<(u32, V)>>)
    ensures
        r@ == merge_spec(first@, second@),
{
    let ghost whole = merge_spec(first@, second@);
    let mut a = first;
    let mut b = second;
    let mut out: Vec<JoinResult<(u32, V)>> = Vec::new();
    while a.len() > 0 || b.len() > 0
        invariant
            whole == merge_spec(a@, b@) + out@.reverse(),
        decreases a@.len() + b@.len(),
    {
        let ghost (a0, b0, out0) = (a@, b@, out@);
        let take_first = b.len() == 0 || (a.len() > 0 && a[a.len() - 1].0 > b[b.len() - 1].0);
        let take_second = !take_first && (a.len() == 0 || a[a.len() - 1].0 < b[b.len() - 1].0);
        let item = if take_first {
            JoinResult::OnlyInFirst(a.pop().unwrap())
        } else if take_second {
            JoinResult::OnlyInSecond(b.pop().unwrap())
        } else {
            let x = a.pop().unwrap();
            let y = b.pop().unwrap();
            JoinResult::InBoth(x, y)
        };
        proof {
            assert(merge_spec(a0, b0) == merge_spec(a@, b@).push(item));
            lemma_reverse_push(out0, item);
            assert(merge_spec(a@, b@).push(item) + out0.reverse() =~= merge_spec(a@, b@) + (seq![item] + out0.reverse()));
        }
        out.push(item);
    }
    proof {
        assert(merge_spec(a@, b@) =~= Seq::<JoinResult<(u32, V)>>::empty());
        assert(whole =~= out@.reverse());
    }
    reversed(out)
}

} // verus!

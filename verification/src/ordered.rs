//! The keys of ordered maps and sets, in order.

use std::collections::{BTreeMap, BTreeSet};
use vstd::prelude::*;

verus! {

/// Whether `s` lists numbers in strictly increasing order.
pub open spec fn increasing_u32(s: Seq<u32>) -> bool {
    forall|i: int, j: int| 0 <= i < j < s.len() ==> s[i] < s[j]
}

proof fn references_are_ordered_u32(s: Seq<&u32>)
    requires
        vstd::std_specs::btree::increasing_seq(s),
    ensures
        increasing_u32(s.unref()),
{
    reveal(vstd::laws_eq::obeys_eq_spec_properties);
    reveal(vstd::laws_cmp::obeys_cmp_partial_ord);
    reveal(vstd::laws_cmp::obeys_cmp_ord);
    reveal(vstd::laws_cmp::obeys_partial_cmp_spec_properties);
    assert(vstd::laws_cmp::obeys_cmp::<&u32>());
    assert forall|i: int, j: int| 0 <= i < j < s.len() implies s.unref()[i] < s.unref()[j] by {
        assert(vstd::std_specs::cmp::OrdSpec::cmp_spec(&s[i], &s[j]) is Less);
    }
}

/// Whether `s` lists numbers in strictly increasing order.
pub open spec fn increasing_u64(s: Seq<u64>) -> bool {
    forall|i: int, j: int| 0 <= i < j < s.len() ==> s[i] < s[j]
}

proof fn references_are_ordered_u64(s: Seq<&u64>)
    requires
        vstd::std_specs::btree::increasing_seq(s),
    ensures
        increasing_u64(s.unref()),
{
    reveal(vstd::laws_eq::obeys_eq_spec_properties);
    reveal(vstd::laws_cmp::obeys_cmp_partial_ord);
    reveal(vstd::laws_cmp::obeys_cmp_ord);
    reveal(vstd::laws_cmp::obeys_partial_cmp_spec_properties);
    assert(vstd::laws_cmp::obeys_cmp::<&u64>());
    assert forall|i: int, j: int| 0 <= i < j < s.len() implies s.unref()[i] < s.unref()[j] by {
        assert(vstd::std_specs::cmp::OrdSpec::cmp_spec(&s[i], &s[j]) is Less);
    }
}

/// Whether `s` lists numbers in strictly increasing order.
pub open spec fn increasing_u128(s: Seq<u128>) -> bool {
    forall|i: int, j: int| 0 <= i < j < s.len() ==> s[i] < s[j]
}

proof fn references_are_ordered_u128(s: Seq<&u128>)
    requires
        vstd::std_specs::btree::increasing_seq(s),
    ensures
        increasing_u128(s.unref()),
{
    reveal(vstd::laws_eq::obeys_eq_spec_properties);
    reveal(vstd::laws_cmp::obeys_cmp_partial_ord);
    reveal(vstd::laws_cmp::obeys_cmp_ord);
    reveal(vstd::laws_cmp::obeys_partial_cmp_spec_properties);
    assert(vstd::laws_cmp::obeys_cmp::<&u128>());
    assert forall|i: int, j: int| 0 <= i < j < s.len() implies s.unref()[i] < s.unref()[j] by {
        assert(vstd::std_specs::cmp::OrdSpec::cmp_spec(&s[i], &s[j]) is Less);
    }
}

/// The keys of `m`, in increasing order.
pub fn sorted_keys_u32<V>(m: &BTreeMap<u32, V>) -> (keys: Vec<u32>)
    ensures
        increasing_u32(keys@),
        forall|k: u32| #[trigger] m@.contains_key(k) <==> keys@.contains(k),
        keys@.len() == m@.len(),
        m@.dom().finite(),
{
    let mut keys: Vec<u32> = Vec::new();
    let ghost all = vstd::std_specs::iter::IteratorSpec::remaining(&m.keys());
    for k in it: m.keys()
        invariant
            it.seq() == all,
            keys@.len() == it.index(),
            forall|i: int| 0 <= i < keys@.len() ==> keys@[i] == *all[i],
    {
        keys.push(*k);
    }
    proof {
        references_are_ordered_u32(all);
        assert(keys@ =~= all.unref());
        assert forall|k: u32| #[trigger] m@.contains_key(k) <==> keys@.contains(k) by {
            assert(keys@.to_set().contains(k) <==> keys@.contains(k));
        }
    }
    keys
}

/// The keys of `m`, in increasing order.
pub fn sorted_keys_u64<V>(m: &BTreeMap<u64, V>) -> (keys: Vec<u64>)
    ensures
        increasing_u64(keys@),
        forall|k: u64| #[trigger] m@.contains_key(k) <==> keys@.contains(k),
        keys@.len() == m@.len(),
        m@.dom().finite(),
{
    let mut keys: Vec<u64> = Vec::new();
    let ghost all = vstd::std_specs::iter::IteratorSpec::remaining(&m.keys());
    for k in it: m.keys()
        invariant
            it.seq() == all,
            keys@.len() == it.index(),
            forall|i: int| 0 <= i < keys@.len() ==> keys@[i] == *all[i],
    {
        keys.push(*k);
    }
    proof {
        references_are_ordered_u64(all);
        assert(keys@ =~= all.unref());
        assert forall|k: u64| #[trigger] m@.contains_key(k) <==> keys@.contains(k) by {
            assert(keys@.to_set().contains(k) <==> keys@.contains(k));
        }
    }
    keys
}

/// The keys of `m`, in increasing order.
pub fn sorted_keys_u128<V>(m: &BTreeMap<u128, V>) -> (keys: Vec<u128>)
    ensures
        increasing_u128(keys@),
        forall|k: u128| #[trigger] m@.contains_key(k) <==> keys@.contains(k),
        keys@.len() == m@.len(),
        m@.dom().finite(),
{
    let mut keys: Vec<u128> = Vec::new();
    let ghost all = vstd::std_specs::iter::IteratorSpec::remaining(&m.keys());
    for k in it: m.keys()
        invariant
            it.seq() == all,
            keys@.len() == it.index(),
            forall|i: int| 0 <= i < keys@.len() ==> keys@[i] == *all[i],
    {
        keys.push(*k);
    }
    proof {
        references_are_ordered_u128(all);
        assert(keys@ =~= all.unref());
        assert forall|k: u128| #[trigger] m@.contains_key(k) <==> keys@.contains(k) by {
            assert(keys@.to_set().contains(k) <==> keys@.contains(k));
        }
    }
    keys
}

/// The members of `m`, in increasing order.
pub fn sorted_members_u32(m: &BTreeSet<u32>) -> (keys: Vec<u32>)
    ensures
        increasing_u32(keys@),
        forall|k: u32| #[trigger] m@.contains(k) <==> keys@.contains(k),
        keys@.len() == m@.len(),
        m@.finite(),
{
    let mut keys: Vec<u32> = Vec::new();
    let ghost all = vstd::std_specs::iter::IteratorSpec::remaining(&m.iter());
    for k in it: m.iter()
        invariant
            it.seq() == all,
            keys@.len() == it.index(),
            forall|i: int| 0 <= i < keys@.len() ==> keys@[i] == *all[i],
    {
        keys.push(*k);
    }
    proof {
        references_are_ordered_u32(all);
        assert(keys@ =~= all.unref());
        assert forall|k: u32| #[trigger] m@.contains(k) <==> keys@.contains(k) by {
            assert(keys@.to_set().contains(k) <==> keys@.contains(k));
        }
        vstd::seq_lib::seq_to_set_is_finite(keys@);
    }
    keys
}

/// Two increasing lists of the same numbers are the same list.
pub proof fn increasing_is_unique_u32(a: Seq<u32>, b: Seq<u32>)
    requires
        increasing_u32(a),
        increasing_u32(b),
        forall|k: u32| #[trigger] a.contains(k) <==> b.contains(k),
    ensures
        a == b,
    decreases a.len(),
{
    if a.len() == 0 {
        if b.len() > 0 {
            assert(b.contains(b[0]));
            assert(a.contains(b[0]));
        }
        assert(a =~= b);
    } else {
        let x = a.last();
        assert(a.contains(x));
        assert(b.contains(x));
        let y = b.last();
        assert(b.contains(y));
        assert(a.contains(y));
        let i = choose|i: int| 0 <= i < a.len() && a[i] == y;
        let j = choose|j: int| 0 <= j < b.len() && b[j] == x;
        assert(x == y);
        let c = a.drop_last();
        let d = b.drop_last();
        assert forall|k: u32| #[trigger] c.contains(k) <==> d.contains(k) by {
            if c.contains(k) {
                let n = choose|n: int| 0 <= n < c.len() && c[n] == k;
                assert(a[n] == k);
                assert(a.contains(k));
                assert(b.contains(k));
                let o = choose|o: int| 0 <= o < b.len() && b[o] == k;
                assert(d[o] == k);
            }
            if d.contains(k) {
                let n = choose|n: int| 0 <= n < d.len() && d[n] == k;
                assert(b[n] == k);
                assert(b.contains(k));
                assert(a.contains(k));
                let o = choose|o: int| 0 <= o < a.len() && a[o] == k;
                assert(c[o] == k);
            }
        }
        increasing_is_unique_u32(c, d);
        assert(a =~= c.push(x));
        assert(b =~= d.push(x));
    }
}

/// The members of a finite set, in increasing order.
pub open spec fn ascending_u32(s: Set<u32>) -> Seq<u32> {
    choose|list: Seq<u32>| #[trigger]
        increasing_u32(list) && forall|k: u32| #[trigger] list.contains(k) <==> s.contains(k)
}

/// The ascending list of a finite set increases and holds its members and nothing else.
pub proof fn ascending_lists_u32(s: Set<u32>)
    requires
        s.finite(),
    ensures
        increasing_u32(ascending_u32(s)),
        forall|k: u32| #[trigger] ascending_u32(s).contains(k) <==> s.contains(k),
{
    ascending_exists_u32(s);
}

proof fn ascending_exists_u32(s: Set<u32>)
    requires
        s.finite(),
    ensures
        exists|list: Seq<u32>| #[trigger]
            increasing_u32(list) && forall|k: u32| #[trigger] list.contains(k) <==> s.contains(k),
    decreases s.len(),
{
    if s.len() == 0 {
        assert(s =~= Set::empty());
        let list = Seq::<u32>::empty();
        assert(increasing_u32(list) && forall|k: u32| #[trigger] list.contains(k) <==> s.contains(k));
    } else {
        let greatest = greatest_u32(s);
        ascending_exists_u32(s.remove(greatest));
        let shorter = choose|list: Seq<u32>| #[trigger]
            increasing_u32(list) && forall|k: u32| #[trigger]
                list.contains(k) <==> s.remove(greatest).contains(k);
        let list = shorter.push(greatest);
        assert forall|i: int, j: int| 0 <= i < j < list.len() implies list[i] < list[j] by {
            assert(shorter.contains(shorter[i]));
        }
        assert forall|k: u32| #[trigger] list.contains(k) <==> s.contains(k) by {
            if list.contains(k) {
                let i = choose|i: int| 0 <= i < list.len() && list[i] == k;
                if i < shorter.len() {
                    assert(shorter.contains(k));
                }
            }
            if s.contains(k) {
                if k == greatest {
                    assert(list[shorter.len() as int] == k);
                } else {
                    assert(s.remove(greatest).contains(k));
                    assert(shorter.contains(k));
                    let i = choose|i: int| 0 <= i < shorter.len() && shorter[i] == k;
                    assert(list[i] == k);
                }
            }
        }
        assert(increasing_u32(list));
    }
}

proof fn greatest_u32(s: Set<u32>) -> (greatest: u32)
    requires
        s.finite(),
        s.len() > 0,
    ensures
        s.contains(greatest),
        forall|k: u32| #[trigger] s.contains(k) ==> k <= greatest,
    decreases s.len(),
{
    let one = s.choose();
    let rest = s.remove(one);
    if rest.len() == 0 {
        assert(rest =~= Set::empty());
        assert forall|k: u32| #[trigger] s.contains(k) implies k <= one by {
            assert(k != one ==> rest.contains(k));
        }
        one
    } else {
        let other = greatest_u32(rest);
        let greatest = if one > other {
            one
        } else {
            other
        };
        assert forall|k: u32| #[trigger] s.contains(k) implies k <= greatest by {
            assert(k != one ==> rest.contains(k));
        }
        greatest
    }
}

/// An increasing list of the members of a set is its ascending list.
pub proof fn ascending_is_u32(s: Set<u32>, list: Seq<u32>)
    requires
        increasing_u32(list),
        forall|k: u32| #[trigger] list.contains(k) <==> s.contains(k),
    ensures
        ascending_u32(s) == list,
{
    let other = ascending_u32(s);
    assert(increasing_u32(other) && forall|k: u32| #[trigger]
        other.contains(k) <==> s.contains(k));
    assert forall|k: u32| #[trigger] other.contains(k) <==> list.contains(k) by {
        assert(list.contains(k) <==> s.contains(k));
    }
    increasing_is_unique_u32(other, list);
}

/// Two increasing lists of the same numbers are the same list.
pub proof fn increasing_is_unique_u64(a: Seq<u64>, b: Seq<u64>)
    requires
        increasing_u64(a),
        increasing_u64(b),
        forall|k: u64| #[trigger] a.contains(k) <==> b.contains(k),
    ensures
        a == b,
    decreases a.len(),
{
    if a.len() == 0 {
        if b.len() > 0 {
            assert(b.contains(b[0]));
            assert(a.contains(b[0]));
        }
        assert(a =~= b);
    } else {
        let x = a.last();
        assert(a.contains(x));
        assert(b.contains(x));
        let y = b.last();
        assert(b.contains(y));
        assert(a.contains(y));
        let i = choose|i: int| 0 <= i < a.len() && a[i] == y;
        let j = choose|j: int| 0 <= j < b.len() && b[j] == x;
        assert(x == y);
        let c = a.drop_last();
        let d = b.drop_last();
        assert forall|k: u64| #[trigger] c.contains(k) <==> d.contains(k) by {
            if c.contains(k) {
                let n = choose|n: int| 0 <= n < c.len() && c[n] == k;
                assert(a[n] == k);
                assert(a.contains(k));
                assert(b.contains(k));
                let o = choose|o: int| 0 <= o < b.len() && b[o] == k;
                assert(d[o] == k);
            }
            if d.contains(k) {
                let n = choose|n: int| 0 <= n < d.len() && d[n] == k;
                assert(b[n] == k);
                assert(b.contains(k));
                assert(a.contains(k));
                let o = choose|o: int| 0 <= o < a.len() && a[o] == k;
                assert(c[o] == k);
            }
        }
        increasing_is_unique_u64(c, d);
        assert(a =~= c.push(x));
        assert(b =~= d.push(x));
    }
}

/// The members of a finite set, in increasing order.
pub open spec fn ascending_u64(s: Set<u64>) -> Seq<u64> {
    choose|list: Seq<u64>| #[trigger]
        increasing_u64(list) && forall|k: u64| #[trigger] list.contains(k) <==> s.contains(k)
}

/// An increasing list of the members of a set is its ascending list.
pub proof fn ascending_is_u64(s: Set<u64>, list: Seq<u64>)
    requires
        increasing_u64(list),
        forall|k: u64| #[trigger] list.contains(k) <==> s.contains(k),
    ensures
        ascending_u64(s) == list,
{
    let other = ascending_u64(s);
    assert(increasing_u64(other) && forall|k: u64| #[trigger]
        other.contains(k) <==> s.contains(k));
    assert forall|k: u64| #[trigger] other.contains(k) <==> list.contains(k) by {
        assert(list.contains(k) <==> s.contains(k));
    }
    increasing_is_unique_u64(other, list);
}

/// Two increasing lists of the same numbers are the same list.
pub proof fn increasing_is_unique_u128(a: Seq<u128>, b: Seq<u128>)
    requires
        increasing_u128(a),
        increasing_u128(b),
        forall|k: u128| #[trigger] a.contains(k) <==> b.contains(k),
    ensures
        a == b,
    decreases a.len(),
{
    if a.len() == 0 {
        if b.len() > 0 {
            assert(b.contains(b[0]));
            assert(a.contains(b[0]));
        }
        assert(a =~= b);
    } else {
        let x = a.last();
        assert(a.contains(x));
        assert(b.contains(x));
        let y = b.last();
        assert(b.contains(y));
        assert(a.contains(y));
        let i = choose|i: int| 0 <= i < a.len() && a[i] == y;
        let j = choose|j: int| 0 <= j < b.len() && b[j] == x;
        assert(x == y);
        let c = a.drop_last();
        let d = b.drop_last();
        assert forall|k: u128| #[trigger] c.contains(k) <==> d.contains(k) by {
            if c.contains(k) {
                let n = choose|n: int| 0 <= n < c.len() && c[n] == k;
                assert(a[n] == k);
                assert(a.contains(k));
                assert(b.contains(k));
                let o = choose|o: int| 0 <= o < b.len() && b[o] == k;
                assert(d[o] == k);
            }
            if d.contains(k) {
                let n = choose|n: int| 0 <= n < d.len() && d[n] == k;
                assert(b[n] == k);
                assert(b.contains(k));
                assert(a.contains(k));
                let o = choose|o: int| 0 <= o < a.len() && a[o] == k;
                assert(c[o] == k);
            }
        }
        increasing_is_unique_u128(c, d);
        assert(a =~= c.push(x));
        assert(b =~= d.push(x));
    }
}

/// The members of a finite set, in increasing order.
pub open spec fn ascending_u128(s: Set<u128>) -> Seq<u128> {
    choose|list: Seq<u128>| #[trigger]
        increasing_u128(list) && forall|k: u128| #[trigger] list.contains(k) <==> s.contains(k)
}

/// An increasing list of the members of a set is its ascending list.
pub proof fn ascending_is_u128(s: Set<u128>, list: Seq<u128>)
    requires
        increasing_u128(list),
        forall|k: u128| #[trigger] list.contains(k) <==> s.contains(k),
    ensures
        ascending_u128(s) == list,
{
    let other = ascending_u128(s);
    assert(increasing_u128(other) && forall|k: u128| #[trigger]
        other.contains(k) <==> s.contains(k));
    assert forall|k: u128| #[trigger] other.contains(k) <==> list.contains(k) by {
        assert(list.contains(k) <==> s.contains(k));
    }
    increasing_is_unique_u128(other, list);
}

/// The ascending list of a finite set increases and holds its members and nothing else.
pub proof fn ascending_lists_u64(s: Set<u64>)
    requires
        s.finite(),
    ensures
        increasing_u64(ascending_u64(s)),
        forall|k: u64| #[trigger] ascending_u64(s).contains(k) <==> s.contains(k),
{
    ascending_exists_u64(s);
}

proof fn ascending_exists_u64(s: Set<u64>)
    requires
        s.finite(),
    ensures
        exists|list: Seq<u64>| #[trigger]
            increasing_u64(list) && forall|k: u64| #[trigger] list.contains(k) <==> s.contains(k),
    decreases s.len(),
{
    if s.len() == 0 {
        assert(s =~= Set::empty());
        let list = Seq::<u64>::empty();
        assert(increasing_u64(list) && forall|k: u64| #[trigger] list.contains(k) <==> s.contains(k));
    } else {
        let greatest = greatest_u64(s);
        ascending_exists_u64(s.remove(greatest));
        let shorter = choose|list: Seq<u64>| #[trigger]
            increasing_u64(list) && forall|k: u64| #[trigger]
                list.contains(k) <==> s.remove(greatest).contains(k);
        let list = shorter.push(greatest);
        assert forall|i: int, j: int| 0 <= i < j < list.len() implies list[i] < list[j] by {
            assert(shorter.contains(shorter[i]));
        }
        assert forall|k: u64| #[trigger] list.contains(k) <==> s.contains(k) by {
            if list.contains(k) {
                let i = choose|i: int| 0 <= i < list.len() && list[i] == k;
                if i < shorter.len() {
                    assert(shorter.contains(k));
                }
            }
            if s.contains(k) {
                if k == greatest {
                    assert(list[shorter.len() as int] == k);
                } else {
                    assert(s.remove(greatest).contains(k));
                    assert(shorter.contains(k));
                    let i = choose|i: int| 0 <= i < shorter.len() && shorter[i] == k;
                    assert(list[i] == k);
                }
            }
        }
        assert(increasing_u64(list));
    }
}

proof fn greatest_u64(s: Set<u64>) -> (greatest: u64)
    requires
        s.finite(),
        s.len() > 0,
    ensures
        s.contains(greatest),
        forall|k: u64| #[trigger] s.contains(k) ==> k <= greatest,
    decreases s.len(),
{
    let one = s.choose();
    let rest = s.remove(one);
    if rest.len() == 0 {
        assert(rest =~= Set::empty());
        assert forall|k: u64| #[trigger] s.contains(k) implies k <= one by {
            assert(k != one ==> rest.contains(k));
        }
        one
    } else {
        let other = greatest_u64(rest);
        let greatest = if one > other {
            one
        } else {
            other
        };
        assert forall|k: u64| #[trigger] s.contains(k) implies k <= greatest by {
            assert(k != one ==> rest.contains(k));
        }
        greatest
    }
}

/// The ascending list of a finite set increases and holds its members and nothing else.
pub proof fn ascending_lists_u128(s: Set<u128>)
    requires
        s.finite(),
    ensures
        increasing_u128(ascending_u128(s)),
        forall|k: u128| #[trigger] ascending_u128(s).contains(k) <==> s.contains(k),
{
    ascending_exists_u128(s);
}

proof fn ascending_exists_u128(s: Set<u128>)
    requires
        s.finite(),
    ensures
        exists|list: Seq<u128>| #[trigger]
            increasing_u128(list) && forall|k: u128| #[trigger] list.contains(k) <==> s.contains(k),
    decreases s.len(),
{
    if s.len() == 0 {
        assert(s =~= Set::empty());
        let list = Seq::<u128>::empty();
        assert(increasing_u128(list) && forall|k: u128| #[trigger] list.contains(k) <==> s.contains(k));
    } else {
        let greatest = greatest_u128(s);
        ascending_exists_u128(s.remove(greatest));
        let shorter = choose|list: Seq<u128>| #[trigger]
            increasing_u128(list) && forall|k: u128| #[trigger]
                list.contains(k) <==> s.remove(greatest).contains(k);
        let list = shorter.push(greatest);
        assert forall|i: int, j: int| 0 <= i < j < list.len() implies list[i] < list[j] by {
            assert(shorter.contains(shorter[i]));
        }
        assert forall|k: u128| #[trigger] list.contains(k) <==> s.contains(k) by {
            if list.contains(k) {
                let i = choose|i: int| 0 <= i < list.len() && list[i] == k;
                if i < shorter.len() {
                    assert(shorter.contains(k));
                }
            }
            if s.contains(k) {
                if k == greatest {
                    assert(list[shorter.len() as int] == k);
                } else {
                    assert(s.remove(greatest).contains(k));
                    assert(shorter.contains(k));
                    let i = choose|i: int| 0 <= i < shorter.len() && shorter[i] == k;
                    assert(list[i] == k);
                }
            }
        }
        assert(increasing_u128(list));
    }
}

proof fn greatest_u128(s: Set<u128>) -> (greatest: u128)
    requires
        s.finite(),
        s.len() > 0,
    ensures
        s.contains(greatest),
        forall|k: u128| #[trigger] s.contains(k) ==> k <= greatest,
    decreases s.len(),
{
    let one = s.choose();
    let rest = s.remove(one);
    if rest.len() == 0 {
        assert(rest =~= Set::empty());
        assert forall|k: u128| #[trigger] s.contains(k) implies k <= one by {
            assert(k != one ==> rest.contains(k));
        }
        one
    } else {
        let other = greatest_u128(rest);
        let greatest = if one > other {
            one
        } else {
            other
        };
        assert forall|k: u128| #[trigger] s.contains(k) implies k <= greatest by {
            assert(k != one ==> rest.contains(k));
        }
        greatest
    }
}


/// Leaving numbers out of an increasing list leaves an increasing list.
pub(crate) proof fn filter_increases_u32(s: Seq<u32>, keep: spec_fn(u32) -> bool)
    requires
        increasing_u32(s),
    ensures
        increasing_u32(s.filter(keep)),
    decreases s.len(),
{
    reveal(Seq::filter);
    if s.len() > 0 {
        let shorter = s.drop_last();
        filter_increases_u32(shorter, keep);
        assert forall|k: int| 0 <= k < shorter.filter(keep).len() implies #[trigger] shorter.filter(
            keep,
        )[k] < s.last() by {
            shorter.lemma_filter_contains_rev(keep, shorter.filter(keep)[k]);
            let j = choose|j: int| 0 <= j < shorter.len() && shorter[j] == shorter.filter(keep)[k];
            assert(s[j] < s[s.len() - 1]);
        }
    }
}

/// What is left is what was there and is wanted.
pub(crate) proof fn filter_holds_u32(s: Seq<u32>, keep: spec_fn(u32) -> bool, x: u32)
    ensures
        s.filter(keep).contains(x) <==> s.contains(x) && keep(x),
{
    if s.filter(keep).contains(x) {
        let k = choose|k: int| 0 <= k < s.filter(keep).len() && s.filter(keep)[k] == x;
        s.lemma_filter_contains_rev(keep, x);
        s.lemma_filter_pred(keep, k);
    }
    if s.contains(x) && keep(x) {
        let j = choose|j: int| 0 <= j < s.len() && s[j] == x;
        s.lemma_filter_contains(keep, j);
    }
}

/// Leaving numbers out of an increasing list leaves an increasing list.
pub(crate) proof fn filter_increases_u64(s: Seq<u64>, keep: spec_fn(u64) -> bool)
    requires
        increasing_u64(s),
    ensures
        increasing_u64(s.filter(keep)),
    decreases s.len(),
{
    reveal(Seq::filter);
    if s.len() > 0 {
        let shorter = s.drop_last();
        filter_increases_u64(shorter, keep);
        assert forall|k: int| 0 <= k < shorter.filter(keep).len() implies #[trigger] shorter.filter(
            keep,
        )[k] < s.last() by {
            shorter.lemma_filter_contains_rev(keep, shorter.filter(keep)[k]);
            let j = choose|j: int| 0 <= j < shorter.len() && shorter[j] == shorter.filter(keep)[k];
            assert(s[j] < s[s.len() - 1]);
        }
    }
}

/// What is left is what was there and is wanted.
pub(crate) proof fn filter_holds_u64(s: Seq<u64>, keep: spec_fn(u64) -> bool, x: u64)
    ensures
        s.filter(keep).contains(x) <==> s.contains(x) && keep(x),
{
    if s.filter(keep).contains(x) {
        let k = choose|k: int| 0 <= k < s.filter(keep).len() && s.filter(keep)[k] == x;
        s.lemma_filter_contains_rev(keep, x);
        s.lemma_filter_pred(keep, k);
    }
    if s.contains(x) && keep(x) {
        let j = choose|j: int| 0 <= j < s.len() && s[j] == x;
        s.lemma_filter_contains(keep, j);
    }
}

/// Leaving numbers out of an increasing list leaves an increasing list.
pub(crate) proof fn filter_increases_u128(s: Seq<u128>, keep: spec_fn(u128) -> bool)
    requires
        increasing_u128(s),
    ensures
        increasing_u128(s.filter(keep)),
    decreases s.len(),
{
    reveal(Seq::filter);
    if s.len() > 0 {
        let shorter = s.drop_last();
        filter_increases_u128(shorter, keep);
        assert forall|k: int| 0 <= k < shorter.filter(keep).len() implies #[trigger] shorter.filter(
            keep,
        )[k] < s.last() by {
            shorter.lemma_filter_contains_rev(keep, shorter.filter(keep)[k]);
            let j = choose|j: int| 0 <= j < shorter.len() && shorter[j] == shorter.filter(keep)[k];
            assert(s[j] < s[s.len() - 1]);
        }
    }
}

/// What is left is what was there and is wanted.
pub(crate) proof fn filter_holds_u128(s: Seq<u128>, keep: spec_fn(u128) -> bool, x: u128)
    ensures
        s.filter(keep).contains(x) <==> s.contains(x) && keep(x),
{
    if s.filter(keep).contains(x) {
        let k = choose|k: int| 0 <= k < s.filter(keep).len() && s.filter(keep)[k] == x;
        s.lemma_filter_contains_rev(keep, x);
        s.lemma_filter_pred(keep, k);
    }
    if s.contains(x) && keep(x) {
        let j = choose|j: int| 0 <= j < s.len() && s[j] == x;
        s.lemma_filter_contains(keep, j);
    }
}

} // verus!

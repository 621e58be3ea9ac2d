//! Price keys in order: what "best first" means for one side of a book, and
//! how the keys of an ordered map are read in that order.

use std::collections::BTreeMap;
use vstd::prelude::*;
use vstd::std_specs::cmp::OrdSpec;
use vstd::std_specs::iter::IteratorSpec;

verus! {

/// Each key of `s` is below the next one.
pub open spec fn ascending(s: Seq<u64>) -> bool {
    forall|i: int, j: int| 0 <= i < j < s.len() ==> s[i] < s[j]
}

/// Each key of `s` is above the next one.
pub open spec fn descending(s: Seq<u64>) -> bool {
    forall|i: int, j: int| 0 <= i < j < s.len() ==> s[i] > s[j]
}

/// `s` holds exactly the keys of `dom`, smallest first.
pub open spec fn lists_keys(s: Seq<u64>, dom: Set<u64>) -> bool {
    &&& ascending(s)
    &&& forall|k: u64| dom.contains(k) <==> s.contains(k)
}

/// The keys of `dom`, smallest first.
pub open spec fn ascending_keys(dom: Set<u64>) -> Seq<u64> {
    choose|s: Seq<u64>| lists_keys(s, dom)
}

/// The keys of `dom`, largest first.
pub open spec fn descending_keys(dom: Set<u64>) -> Seq<u64> {
    ascending_keys(dom).reverse()
}

/// `k` is the smallest key of `dom`.
pub open spec fn is_min_key(dom: Set<u64>, k: u64) -> bool {
    &&& dom.contains(k)
    &&& forall|x: u64| dom.contains(x) ==> k <= x
}

/// `k` is the largest key of `dom`.
pub open spec fn is_max_key(dom: Set<u64>, k: u64) -> bool {
    &&& dom.contains(k)
    &&& forall|x: u64| dom.contains(x) ==> x <= k
}

/// The smallest key of a set that has one.
pub open spec fn min_key(dom: Set<u64>) -> u64 {
    choose|k: u64| is_min_key(dom, k)
}

/// The largest key of a set that has one.
pub open spec fn max_key(dom: Set<u64>) -> u64 {
    choose|k: u64| is_max_key(dom, k)
}

/// `dom` has no key.
pub open spec fn no_keys(dom: Set<u64>) -> bool {
    forall|k: u64| !dom.contains(k)
}

/// The first `n` items of `s`, or all of them where it has fewer.
pub open spec fn first_n<A>(s: Seq<A>, n: nat) -> Seq<A> {
    if n <= s.len() {
        s.take(n as int)
    } else {
        s
    }
}

/// Only one sequence lists the keys of a set in ascending order.
pub proof fn lemma_lists_keys_unique(a: Seq<u64>, b: Seq<u64>, dom: Set<u64>)
    requires
        lists_keys(a, dom),
        lists_keys(b, dom),
    ensures
        a == b,
    decreases a.len(),
{
    if a.len() == 0 {
        if b.len() > 0 {
            assert(b.contains(b[0]));
            assert(a.contains(b[0]));
        }
        assert(a =~= b);
    } else {
        let top = a.last();
        assert(a.contains(top));
        assert(b.contains(top));
        let at = choose|i: int| 0 <= i < b.len() && b[i] == top;
        if at < b.len() - 1 {
            assert(b.contains(b.last()));
            assert(a.contains(b.last()));
            let i = choose|i: int| 0 <= i < a.len() && a[i] == b.last();
            assert(a[i] <= top);
        }
        let rest = dom.remove(top);
        let a0 = a.drop_last();
        let b0 = b.drop_last();
        assert forall|k: u64| rest.contains(k) <==> a0.contains(k) by {
            if rest.contains(k) {
                assert(a.contains(k));
                let i = choose|i: int| 0 <= i < a.len() && a[i] == k;
                assert(a0[i] == k);
            }
            if a0.contains(k) {
                let i = choose|i: int| 0 <= i < a0.len() && a0[i] == k;
                assert(a[i] == k);
                assert(a.contains(k));
            }
        }
        assert forall|k: u64| rest.contains(k) <==> b0.contains(k) by {
            if rest.contains(k) {
                assert(b.contains(k));
                let i = choose|i: int| 0 <= i < b.len() && b[i] == k;
                assert(b0[i] == k);
            }
            if b0.contains(k) {
                let i = choose|i: int| 0 <= i < b0.len() && b0[i] == k;
                assert(b[i] == k);
                assert(b.contains(k));
            }
        }
        lemma_lists_keys_unique(a0, b0, rest);
        assert(a =~= a0.push(top));
        assert(b =~= b0.push(top));
    }
}

/// A sequence that lists the keys of a set in ascending order is the set's
/// ascending keys; its ends are the set's smallest and largest key.
pub proof fn lemma_ascending_keys_are(s: Seq<u64>, dom: Set<u64>)
    requires
        lists_keys(s, dom),
    ensures
        ascending_keys(dom) == s,
        s.len() == 0 ==> no_keys(dom),
        s.len() > 0 ==> is_min_key(dom, s.first()) && min_key(dom) == s.first(),
        s.len() > 0 ==> is_max_key(dom, s.last()) && max_key(dom) == s.last(),
{
    lemma_lists_keys_unique(ascending_keys(dom), s, dom);
    if s.len() > 0 {
        assert(s.contains(s.first()));
        assert(s.contains(s.last()));
        assert forall|x: u64| dom.contains(x) implies s.first() <= x && x <= s.last() by {
            assert(s.contains(x));
            let i = choose|i: int| 0 <= i < s.len() && s[i] == x;
            assert(s[0] <= s[i]);
            assert(s[i] <= s[s.len() - 1]);
        }
        lemma_min_unique(dom, s.first());
        lemma_max_unique(dom, s.last());
    } else {
        assert forall|k: u64| !dom.contains(k) by {
            if dom.contains(k) {
                assert(s.contains(k));
            }
        }
    }
}

/// A set has at most one smallest key.
pub proof fn lemma_min_unique(dom: Set<u64>, lo: u64)
    requires
        is_min_key(dom, lo),
    ensures
        min_key(dom) == lo,
        !no_keys(dom),
{
    let a = min_key(dom);
    assert(is_min_key(dom, a));
}

/// A set has at most one largest key.
pub proof fn lemma_max_unique(dom: Set<u64>, hi: u64)
    requires
        is_max_key(dom, hi),
    ensures
        max_key(dom) == hi,
        !no_keys(dom),
{
    let b = max_key(dom);
    assert(is_max_key(dom, b));
}

/// A finite set with a key has a largest key.
pub proof fn lemma_max_exists(dom: Set<u64>)
    requires
        dom.finite(),
        dom.len() > 0,
    ensures
        is_max_key(dom, max_key(dom)),
    decreases dom.len(),
{
    let x = dom.choose();
    let rest = dom.remove(x);
    if rest.len() == 0 {
        assert forall|k: u64| dom.contains(k) implies k <= x by {
            if k != x {
                assert(rest.contains(k));
            }
        }
        lemma_max_unique(dom, x);
    } else {
        lemma_max_exists(rest);
        let m = max_key(rest);
        let top = if x > m {
            x
        } else {
            m
        };
        assert forall|k: u64| dom.contains(k) implies k <= top by {
            if k != x {
                assert(rest.contains(k));
            }
        }
        lemma_max_unique(dom, top);
    }
}

/// The keys of a finite set can be listed in ascending order: its ascending
/// keys are that listing.
pub proof fn lemma_keys_listed(dom: Set<u64>)
    requires
        dom.finite(),
    ensures
        lists_keys(ascending_keys(dom), dom),
    decreases dom.len(),
{
    if dom.len() == 0 {
        let none = Seq::<u64>::empty();
        assert forall|k: u64| dom.contains(k) <==> none.contains(k) by {
            if dom.contains(k) {
                assert(dom.len() > 0);
            }
        }
        assert(lists_keys(none, dom));
    } else {
        lemma_max_exists(dom);
        let m = max_key(dom);
        let rest = dom.remove(m);
        lemma_keys_listed(rest);
        let head = ascending_keys(rest);
        let all = head.push(m);
        assert forall|i: int, j: int| 0 <= i < j < all.len() implies all[i] < all[j] by {
            assert(head.contains(head[i]));
            assert(rest.contains(head[i]));
            if j < head.len() {
                assert(all[i] == head[i] && all[j] == head[j]);
            }
        }
        assert forall|k: u64| dom.contains(k) <==> all.contains(k) by {
            if dom.contains(k) {
                if k == m {
                    assert(all[all.len() - 1] == k);
                } else {
                    assert(rest.contains(k));
                    assert(head.contains(k));
                    let i = choose|i: int| 0 <= i < head.len() && head[i] == k;
                    assert(all[i] == k);
                }
            }
            if all.contains(k) {
                let i = choose|i: int| 0 <= i < all.len() && all[i] == k;
                if i < head.len() {
                    assert(head[i] == k);
                    assert(head.contains(k));
                }
            }
        }
        assert(lists_keys(all, dom));
    }
}

/// Reversing an ascending sequence gives a descending one.
pub proof fn lemma_reverse_descends(s: Seq<u64>)
    requires
        ascending(s),
    ensures
        descending(s.reverse()),
{
    let r = s.reverse();
    assert forall|i: int, j: int| 0 <= i < j < r.len() implies r[i] > r[j] by {
        assert(r[i] == s[s.len() - 1 - i]);
        assert(r[j] == s[s.len() - 1 - j]);
    }
}

/// The first keys of a sequence are in order as the sequence is.
pub proof fn lemma_first_n_in_order(s: Seq<u64>, n: nat)
    ensures
        ascending(s) ==> ascending(first_n(s, n)),
        descending(s) ==> descending(first_n(s, n)),
{
}

/// What the map's iterator promises of its keys, in terms of `<`.
proof fn lemma_increasing(s: Seq<u64>)
    requires
        vstd::std_specs::btree::increasing_seq(s),
    ensures
        ascending(s),
{
    broadcast use vstd::std_specs::btree::axiom_increasing_seq_meaning;
    broadcast use vstd::laws_cmp::group_laws_cmp;

    assert(vstd::laws_cmp::obeys_cmp::<u64>());
    assert forall|i: int, j: int| 0 <= i < j < s.len() implies s[i] < s[j] by {
        assert(s[i].cmp_spec(&s[j]) is Less);
    }
}

/// The keys of `m`, smallest first.
pub fn sorted_keys<V>(m: &BTreeMap<u64, V>) -> (out: Vec<u64>)
    ensures
        lists_keys(out@, m@.dom()),
        out@ == ascending_keys(m@.dom()),
{
    let mut out: Vec<u64> = Vec::new();
    for kv in it: m.iter()
        invariant
            out@.len() == it.index(),
            forall|i: int| 0 <= i < out@.len() ==> out@[i] == *it.seq()[i].0,
            it.seq() == m.iter().remaining(),
            vstd::std_specs::btree::increasing_seq(it.seq().map_values(|kv: (&u64, &V)| *kv.0)),
    {
        out.push(*kv.0);
    }
    proof {
        let r = m.iter().remaining();
        let ks = r.map_values(|kv: (&u64, &V)| *kv.0);
        assert(out@ =~= ks);
        lemma_increasing(ks);
        assert forall|k: u64| m@.dom().contains(k) <==> out@.contains(k) by {
            if out@.contains(k) {
                let i = choose|i: int| 0 <= i < out@.len() && out@[i] == k;
                assert(m@.contains_key(*r[i].0));
            }
            if m@.dom().contains(k) {
                assert(m@.contains_key(k));
                assert(r.contains((&k, &m@[k])));
                let i = choose|i: int| 0 <= i < r.len() && r[i] == (&k, &m@[k]);
                assert(out@[i] == k);
            }
        }
        lemma_ascending_keys_are(out@, m@.dom());
    }
    out
}

/// The first `n` keys of `keys`, or all of them where it has fewer.
pub fn leading_keys(keys: &Vec<u64>, n: usize) -> (out: Vec<u64>)
    ensures
        out@ == first_n(keys@, n as nat),
{
    let count = if n <= keys.len() {
        n
    } else {
        keys.len()
    };
    let mut out: Vec<u64> = Vec::new();
    let mut i: usize = 0;
    while i < count
        invariant
            0 <= i <= count <= keys.len(),
            out@ == keys@.take(i as int),
        decreases count - i,
    {
        out.push(keys[i]);
        assert(keys@.take(i + 1) =~= keys@.take(i as int).push(keys@[i as int]));
        i = i + 1;
    }
    assert(keys@.take(keys.len() as int) =~= keys@);
    out
}

/// The last `n` keys of `keys`, or all of them where it has fewer, last
/// first.
pub fn trailing_keys(keys: &Vec<u64>, n: usize) -> (out: Vec<u64>)
    ensures
        out@ == first_n(keys@.reverse(), n as nat),
{
    let len = keys.len();
    let count = if n <= len {
        n
    } else {
        len
    };
    let mut out: Vec<u64> = Vec::new();
    let mut i: usize = 0;
    while i < count
        invariant
            0 <= i <= count <= len,
            len == keys.len(),
            out@ == keys@.reverse().take(i as int),
        decreases count - i,
    {
        out.push(keys[len - 1 - i]);
        assert(keys@.reverse().take(i + 1) =~= keys@.reverse().take(i as int).push(
            keys@[len - 1 - i],
        ));
        i = i + 1;
    }
    assert(keys@.reverse().take(len as int) =~= keys@.reverse());
    out
}

/// The smallest key of `m`, if it has any.
pub fn first_key<V>(m: &BTreeMap<u64, V>) -> (r: Option<u64>)
    ensures
        match r {
            Some(k) => is_min_key(m@.dom(), k) && k == min_key(m@.dom()),
            None => no_keys(m@.dom()),
        },
{
    for kv in it: m.iter()
        invariant
            it.index() == 0,
            it.seq() == m.iter().remaining(),
            vstd::std_specs::btree::increasing_seq(it.seq().map_values(|kv: (&u64, &V)| *kv.0)),
    {
        proof {
            let r0 = it.seq();
            let ks = r0.map_values(|kv: (&u64, &V)| *kv.0);
            lemma_increasing(ks);
            assert(m@.contains_key(*r0[0].0));
            assert forall|x: u64| m@.dom().contains(x) implies *r0[0].0 <= x by {
                assert(m@.contains_key(x));
                assert(r0.contains((&x, &m@[x])));
                let i = choose|i: int| 0 <= i < r0.len() && r0[i] == (&x, &m@[x]);
                assert(ks[i] == x);
                assert(ks[0] == *r0[0].0);
            }
            let found = *kv.0;
            assert(is_min_key(m@.dom(), found));
            assert(is_min_key(m@.dom(), min_key(m@.dom())));
        }
        return Some(*kv.0);
    }
    proof {
        let r0 = m.iter().remaining();
        assert forall|x: u64| !m@.dom().contains(x) by {
            if m@.dom().contains(x) {
                assert(m@.contains_key(x));
                assert(r0.contains((&x, &m@[x])));
            }
        }
    }
    None
}

/// The largest key of `m`, if it has any.
///
/// Calls `BTreeMap::last_key_value` of the standard library, which is
/// documented to return the pair with the maximum key of the map, and `None`
/// for an empty map. The contract says that and nothing else; it is taken on
/// trust.
#[verifier::external_body]
pub(crate) fn last_key<V>(m: &BTreeMap<u64, V>) -> (r: Option<u64>)
    ensures
        match r {
            Some(k) => is_max_key(m@.dom(), k),
            None => no_keys(m@.dom()),
        },
{
    match m.last_key_value() {
        Some((k, _)) => Some(*k),
        None => None,
    }
}

} // verus!

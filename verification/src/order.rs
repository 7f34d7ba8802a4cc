//! The ordering of texts, and a stable sort by key.
//!
//! A key is a flag and a text: keys with the flag clear come first, and within
//! one flag the texts are in lexicographic order of their characters.

use vstd::prelude::*;

use crate::text::chars_of;

verus! {

/// Does the text `a` come before the text `b`?
pub open spec fn text_before(a: Seq<char>, b: Seq<char>) -> bool
    decreases a.len(),
{
    if b.len() == 0 {
        false
    } else if a.len() == 0 {
        true
    } else if a[0] != b[0] {
        a[0] < b[0]
    } else {
        text_before(a.drop_first(), b.drop_first())
    }
}

/// What a list is sorted by.
pub type Key = (bool, Seq<char>);

/// Does the key `a` come before the key `b`?
pub open spec fn key_before(a: Key, b: Key) -> bool {
    (!a.0 && b.0) || (a.0 == b.0 && text_before(a.1, b.1))
}

/// The views of a list of keys.
pub open spec fn key_views(keys: Seq<(bool, String)>) -> Seq<Key> {
    Seq::new(keys.len(), |i: int| (keys[i].0, keys[i].1@))
}

/// Where `k` belongs in a sorted list: before the first key that it does not
/// come after.
pub open spec fn slot(keys: Seq<Key>, k: Key) -> nat
    decreases keys.len(),
{
    if keys.len() == 0 || !key_before(keys[0], k) {
        0
    } else {
        1 + slot(keys.drop_first(), k)
    }
}

/// The keys in order.
pub open spec fn sorted_keys(keys: Seq<Key>) -> Seq<Key>
    decreases keys.len(),
{
    if keys.len() == 0 {
        keys
    } else {
        let rest = sorted_keys(keys.drop_first());
        rest.insert(slot(rest, keys[0]) as int, keys[0])
    }
}

/// The items in the order of their keys; items with equal keys stay in the
/// order that they had.
pub open spec fn arranged<T>(items: Seq<T>, keys: Seq<Key>) -> Seq<T>
    decreases items.len(),
{
    if items.len() == 0 {
        items
    } else {
        let at = slot(sorted_keys(keys.drop_first()), keys[0]);
        arranged(items.drop_first(), keys.drop_first()).insert(at as int, items[0])
    }
}

// ---------------------------------------------------------------------------
// The ordering is total
// ---------------------------------------------------------------------------

/// No text comes before itself, and of two texts neither of which comes before
/// the other, both are the same.
pub proof fn text_order_is_total(a: Seq<char>, b: Seq<char>)
    ensures
        !text_before(a, a),
        !(text_before(a, b) && text_before(b, a)),
        !text_before(a, b) && !text_before(b, a) ==> a == b,
    decreases a.len(),
{
    if a.len() > 0 && b.len() > 0 {
        text_order_is_total(a.drop_first(), b.drop_first());
        if !text_before(a, b) && !text_before(b, a) {
            assert(a[0] == b[0]);
            assert(a =~= seq![a[0]] + a.drop_first());
            assert(b =~= seq![b[0]] + b.drop_first());
        }
    } else if a.len() > 0 {
        text_order_is_total(a.drop_first(), a.drop_first());
    } else if b.len() == 0 {
        assert(a =~= b);
    }
}

/// The ordering of texts is transitive.
pub proof fn text_order_is_transitive(a: Seq<char>, b: Seq<char>, c: Seq<char>)
    ensures
        text_before(a, b) && text_before(b, c) ==> text_before(a, c),
        !text_before(b, a) && !text_before(c, b) ==> !text_before(c, a),
    decreases a.len(),
{
    if a.len() > 0 && b.len() > 0 && c.len() > 0 {
        text_order_is_transitive(a.drop_first(), b.drop_first(), c.drop_first());
    }
}

proof fn lemma_key_order(a: Key, b: Key, c: Key)
    ensures
        !key_before(a, a),
        !(key_before(a, b) && key_before(b, a)),
        !key_before(a, b) && !key_before(b, a) ==> a == b,
        !key_before(b, a) && !key_before(c, b) ==> !key_before(c, a),
{
    text_order_is_total(a.1, b.1);
    text_order_is_transitive(a.1, b.1, c.1);
}

// ---------------------------------------------------------------------------
// What the sort gives
// ---------------------------------------------------------------------------

proof fn lemma_sorted_len(keys: Seq<Key>)
    ensures
        sorted_keys(keys).len() == keys.len(),
        keys.len() > 0 ==> slot(sorted_keys(keys.drop_first()), keys[0]) <= keys.len() - 1,
    decreases keys.len(),
{
    if keys.len() > 0 {
        lemma_sorted_len(keys.drop_first());
        lemma_slot(sorted_keys(keys.drop_first()), keys[0]);
    }
}

proof fn lemma_arranged_len<T>(items: Seq<T>, keys: Seq<Key>)
    requires
        items.len() == keys.len(),
    ensures
        arranged(items, keys).len() == items.len(),
    decreases items.len(),
{
    if items.len() > 0 {
        lemma_arranged_len(items.drop_first(), keys.drop_first());
        lemma_sorted_len(keys);
    }
}

proof fn lemma_slot(keys: Seq<Key>, k: Key)
    ensures
        slot(keys, k) <= keys.len(),
        forall|i: int| 0 <= i < slot(keys, k) ==> key_before(#[trigger] keys[i], k),
        slot(keys, k) < keys.len() ==> !key_before(keys[slot(keys, k) as int], k),
    decreases keys.len(),
{
    if keys.len() > 0 && key_before(keys[0], k) {
        let t = keys.drop_first();
        lemma_slot(t, k);
        assert forall|i: int| 0 <= i < slot(keys, k) implies key_before(#[trigger] keys[i], k) by {
            if i > 0 {
                assert(keys[i] == t[i - 1]);
            }
        }
    }
}

/// Is no key of the list before one that stands in front of it?
pub open spec fn in_order(keys: Seq<Key>) -> bool {
    forall|i: int, j: int| 0 <= i < j < keys.len() ==> !key_before(#[trigger] keys[j], #[trigger] keys[i])
}

/// The sorted keys are in order.
pub proof fn arranged_is_in_order(keys: Seq<Key>)
    ensures
        in_order(sorted_keys(keys)),
    decreases keys.len(),
{
    if keys.len() > 0 {
        let t = keys.drop_first();
        let rest = sorted_keys(t);
        let k = keys[0];
        arranged_is_in_order(t);
        lemma_sorted_len(keys);
        lemma_slot(rest, k);
        let at = slot(rest, k) as int;
        let out = rest.insert(at, k);
        assert forall|i: int, j: int| 0 <= i < j < out.len() implies !key_before(
            #[trigger] out[j],
            #[trigger] out[i],
        ) by {
            let x = if i < at {
                rest[i]
            } else if i == at {
                k
            } else {
                rest[i - 1]
            };
            let y = if j < at {
                rest[j]
            } else if j == at {
                k
            } else {
                rest[j - 1]
            };
            assert(out[i] == x && out[j] == y);
            if i == at {
                lemma_key_order(k, rest[at], y);
            } else if j == at {
                lemma_key_order(x, k, k);
            } else if i < at && at < j {
            }
        }
    }
}

/// Items that carry their keys end up where their keys do.
pub proof fn arranged_follows_the_keys<T>(items: Seq<T>, keys: Seq<Key>, key: spec_fn(T) -> Key)
    requires
        items.len() == keys.len(),
        forall|i: int| 0 <= i < items.len() ==> keys[i] == key(#[trigger] items[i]),
    ensures
        arranged(items, keys).map_values(key) == sorted_keys(keys),
    decreases items.len(),
{
    lemma_arranged_len(items, keys);
    lemma_sorted_len(keys);
    if items.len() > 0 {
        let t = items.drop_first();
        let kt = keys.drop_first();
        assert forall|i: int| 0 <= i < t.len() implies kt[i] == key(#[trigger] t[i]) by {
            assert(t[i] == items[i + 1]);
        }
        arranged_follows_the_keys(t, kt, key);
        lemma_arranged_len(t, kt);
        let rest = arranged(t, kt);
        let at = slot(sorted_keys(kt), keys[0]) as int;
        assert(keys[0] == key(items[0]));
        assert(rest.insert(at, items[0]).map_values(key) =~= rest.map_values(key).insert(
            at,
            keys[0],
        ));
    } else {
        assert(arranged(items, keys).map_values(key) =~= sorted_keys(keys));
    }
}

/// Arranging what stands for the items gives what stands for the arranged items.
pub proof fn lemma_arranged_maps<T, U>(items: Seq<T>, keys: Seq<Key>, f: spec_fn(T) -> U)
    requires
        items.len() == keys.len(),
    ensures
        arranged(items, keys).map_values(f) == arranged(items.map_values(f), keys),
    decreases items.len(),
{
    lemma_arranged_len(items, keys);
    if items.len() > 0 {
        let t = items.drop_first();
        let kt = keys.drop_first();
        lemma_arranged_maps(t, kt, f);
        lemma_arranged_len(t, kt);
        lemma_sorted_len(keys);
        assert(items.map_values(f).drop_first() =~= t.map_values(f));
        let at = slot(sorted_keys(kt), keys[0]) as int;
        assert(arranged(t, kt).insert(at, items[0]).map_values(f) =~= arranged(t, kt).map_values(
            f,
        ).insert(at, f(items[0])));
    } else {
        assert(arranged(items, keys).map_values(f) =~= arranged(items.map_values(f), keys));
    }
}

/// Sorting neither adds nor drops an item.
pub proof fn arranged_is_a_permutation<T>(items: Seq<T>, keys: Seq<Key>)
    requires
        items.len() == keys.len(),
    ensures
        arranged(items, keys).len() == items.len(),
        arranged(items, keys).to_multiset() == items.to_multiset(),
    decreases items.len(),
{
    broadcast use vstd::seq_lib::group_to_multiset_ensures;

    lemma_arranged_len(items, keys);
    if items.len() > 0 {
        lemma_sorted_len(keys);
        lemma_arranged_len(items.drop_first(), keys.drop_first());
        let t = items.drop_first();
        let rest = arranged(t, keys.drop_first());
        let at = slot(sorted_keys(keys.drop_first()), keys[0]) as int;
        arranged_is_a_permutation(t, keys.drop_first());
        vstd::seq_lib::to_multiset_insert(rest, at, items[0]);
        vstd::seq_lib::to_multiset_insert(t, 0, items[0]);
        assert(t.insert(0, items[0]) =~= items);
    }
}

/// Items with equal keys stay in the order that they had: where the items are
/// numbered upwards, the numbers of two that share a key still go upwards.
pub proof fn arranged_is_stable(items: Seq<int>, keys: Seq<Key>)
    requires
        items.len() == keys.len(),
        forall|i: int, j: int| 0 <= i < j < items.len() ==> items[i] < items[j],
    ensures
        forall|i: int, j: int|
            0 <= i < j < items.len() && sorted_keys(keys)[i] == sorted_keys(keys)[j]
                ==> #[trigger] arranged(items, keys)[i] < #[trigger] arranged(items, keys)[j],
        forall|i: int|
            0 <= i < items.len() && items.len() > 0 ==> items[0] <= #[trigger] arranged(
                items,
                keys,
            )[i],
    decreases items.len(),
{
    if items.len() > 0 {
        let t = items.drop_first();
        let kt = keys.drop_first();
        let rest = arranged(t, kt);
        let rk = sorted_keys(kt);
        assert forall|i: int, j: int| 0 <= i < j < t.len() implies t[i] < t[j] by {
            assert(t[i] == items[i + 1] && t[j] == items[j + 1]);
        }
        arranged_is_stable(t, kt);
        lemma_arranged_len(items, keys);
        lemma_sorted_len(keys);
        lemma_arranged_len(t, kt);
        lemma_sorted_len(kt);
        lemma_slot(rk, keys[0]);
        let at = slot(rk, keys[0]) as int;
        let out = rest.insert(at, items[0]);
        let ok = rk.insert(at, keys[0]);
        assert(t.len() > 0 ==> items[0] < t[0]);
        assert forall|i: int| 0 <= i < rest.len() implies items[0] < #[trigger] rest[i] by {}
        assert forall|i: int, j: int| 0 <= i < j < out.len() && ok[i] == ok[j] implies
            #[trigger] out[i] < #[trigger] out[j] by {
            if j == at {
                assert(ok[i] == rk[i]);
                lemma_key_order(keys[0], keys[0], keys[0]);
                assert(key_before(rk[i], keys[0]));
            } else if i == at {
                assert(out[j] == rest[j - 1]);
            } else {
                let a = if i < at { i } else { i - 1 };
                let b = if j < at { j } else { j - 1 };
                assert(out[i] == rest[a] && out[j] == rest[b]);
                assert(ok[i] == rk[a] && ok[j] == rk[b]);
            }
        }
    }
}

// ---------------------------------------------------------------------------
// The sort
// ---------------------------------------------------------------------------

/// Does the text `a` come before the text `b`?
pub fn text_less(a: &str, b: &str) -> (r: bool)
    ensures
        r == text_before(a@, b@),
{
    let x = chars_of(a);
    let y = chars_of(b);
    let mut i: usize = 0;
    assert(x@.skip(0) =~= a@);
    assert(y@.skip(0) =~= b@);
    loop
        invariant
            i <= x@.len(),
            i <= y@.len(),
            text_before(a@, b@) == text_before(x@.skip(i as int), y@.skip(i as int)),
        decreases x.len() - i,
    {
        if i == y.len() {
            return false;
        }
        if i == x.len() {
            return true;
        }
        if x[i] != y[i] {
            return x[i] < y[i];
        }
        assert(x@.skip(i as int).drop_first() =~= x@.skip(i + 1));
        assert(y@.skip(i as int).drop_first() =~= y@.skip(i + 1));
        i = i + 1;
    }
}

/// Does the key `a` come before the key `b`?
fn key_less(a: &(bool, String), b: &(bool, String)) -> (r: bool)
    ensures
        r == key_before((a.0, a.1@), (b.0, b.1@)),
{
    if a.0 != b.0 {
        b.0
    } else {
        text_less(a.1.as_str(), b.1.as_str())
    }
}

/// Where the key belongs among sorted ones.
fn find_slot(keys: &Vec<(bool, String)>, key: &(bool, String)) -> (r: usize)
    requires
        in_order(key_views(keys@)),
    ensures
        r == slot(key_views(keys@), (key.0, key.1@)),
{
    let ghost kv = key_views(keys@);
    let ghost k = (key.0, key.1@);
    let mut lo: usize = 0;
    let mut hi: usize = keys.len();
    while lo < hi
        invariant
            lo <= hi <= keys@.len(),
            kv == key_views(keys@),
            k == (key.0, key.1@),
            in_order(kv),
            forall|i: int| 0 <= i < lo ==> key_before(#[trigger] kv[i], k),
            forall|i: int| hi <= i < kv.len() ==> !key_before(#[trigger] kv[i], k),
        decreases hi - lo,
    {
        let mid: usize = lo + (hi - lo) / 2;
        let less = key_less(&keys[mid], key);
        assert(less == key_before(kv[mid as int], k));
        if less {
            assert forall|i: int| 0 <= i < mid + 1 implies key_before(#[trigger] kv[i], k) by {
                if i < mid {
                    assert(!key_before(kv[mid as int], kv[i]));
                    lemma_key_order(k, kv[i], kv[mid as int]);
                }
            }
            lo = mid + 1;
        } else {
            assert forall|i: int| mid <= i < kv.len() implies !key_before(#[trigger] kv[i], k) by {
                if i > mid {
                    assert(!key_before(kv[i], kv[mid as int]));
                    lemma_key_order(k, kv[mid as int], kv[i]);
                }
            }
            hi = mid;
        }
    }
    proof {
        lemma_slot(kv, k);
        let at = slot(kv, k) as int;
        if at < lo {
            assert(key_before(kv[at], k));
        } else if lo < at {
            assert(key_before(kv[lo as int], k));
        }
    }
    lo
}

/// Sorts the items by their keys. The sort is stable.
pub fn sort_by_key<T>(items: Vec<T>, keys: Vec<(bool, String)>) -> (r: Vec<T>)
    requires
        items@.len() == keys@.len(),
    ensures
        r@ == arranged(items@, key_views(keys@)),
{
    let ghost all = items@;
    let ghost kv = key_views(keys@);
    let mut items = items;
    let mut keys = keys;
    let mut out: Vec<T> = Vec::new();
    let mut out_keys: Vec<(bool, String)> = Vec::new();
    assert(all.skip(all.len() as int) =~= Seq::<T>::empty());
    assert(kv.skip(all.len() as int) =~= Seq::<Key>::empty());
    assert(key_views(out_keys@) =~= Seq::<Key>::empty());
    while items.len() > 0
        invariant
            all.len() == kv.len(),
            items@.len() == keys@.len() <= all.len(),
            items@ == all.take(items@.len() as int),
            key_views(keys@) == kv.take(items@.len() as int),
            out@ == arranged(all.skip(items@.len() as int), kv.skip(items@.len() as int)),
            key_views(out_keys@) == sorted_keys(kv.skip(items@.len() as int)),
        decreases items@.len(),
    {
        let ghost n = items@.len() as int;
        let ghost okv = key_views(out_keys@);
        let ghost kv_now = key_views(keys@);
        match (items.pop(), keys.pop()) {
            (Some(item), Some(key)) => {
                let ghost k = (key.0, key.1@);
                proof {
                    assert(k == kv_now[n - 1]);
                    assert(k == kv[n - 1]);
                    assert(item == all[n - 1]);
                    assert(all.skip(n - 1).drop_first() =~= all.skip(n));
                    assert(kv.skip(n - 1).drop_first() =~= kv.skip(n));
                    lemma_arranged_len(all.skip(n), kv.skip(n));
                    lemma_sorted_len(kv.skip(n));
                    lemma_slot(okv, k);
                    arranged_is_in_order(kv.skip(n));
                }
                let at: usize = find_slot(&out_keys, &key);
                out.insert(at, item);
                out_keys.insert(at, key);
                assert(key_views(out_keys@) =~= okv.insert(at as int, k));
                assert(all.take(n).drop_last() =~= all.take(n - 1));
                assert(key_views(keys@) =~= kv.take(n - 1));
            },
            _ => {
                return out;
            },
        }
    }
    assert(all.skip(0) =~= all);
    assert(kv.skip(0) =~= kv);
    out
}

/// Which of two texts comes first is decided at the first character in which
/// they differ; where one is the beginning of the other, the shorter is first.
pub proof fn the_first_difference_decides(
    same: Seq<char>,
    x: char,
    a: Seq<char>,
    y: char,
    b: Seq<char>,
)
    ensures
        x != y ==> text_before(same + seq![x] + a, same + seq![y] + b) == (x < y),
        text_before(same, same + seq![x] + a),
        !text_before(same + seq![x] + a, same),
    decreases same.len(),
{
    let p = same + seq![x] + a;
    let q = same + seq![y] + b;
    if same.len() > 0 {
        the_first_difference_decides(same.drop_first(), x, a, y, b);
        assert(p.drop_first() =~= same.drop_first() + seq![x] + a);
        assert(q.drop_first() =~= same.drop_first() + seq![y] + b);
        assert(p[0] == same[0] && q[0] == same[0]);
    } else {
        assert(p[0] == x && q[0] == y);
    }
}

/// Keys with the flag clear come first, whatever their texts; within one flag the
/// texts decide.
pub proof fn the_flag_decides_before_the_text(a: Seq<char>, b: Seq<char>, flag: bool)
    ensures
        key_before((false, a), (true, b)),
        !key_before((true, a), (false, b)),
        key_before((flag, a), (flag, b)) == text_before(a, b),
{
}

} // verus!

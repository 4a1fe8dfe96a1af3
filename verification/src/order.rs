//! Stable orderings of indexed items by an integer key.
use vstd::prelude::*;

verus! {

/// Item `a` comes before item `b` when items are listed by descending key, items with
/// equal keys in their original order.
pub open spec fn ranked_before(keys: Seq<i128>, a: int, b: int) -> bool {
    keys[a] > keys[b] || (keys[a] == keys[b] && a < b)
}

/// `order` lists the indices of `keys` by descending key, items with equal keys in
/// their original order: the order a stable sort by descending key gives. Its length
/// and the strict ranking make it list every index exactly once.
pub open spec fn is_stable_descending(keys: Seq<i128>, order: Seq<usize>) -> bool {
    &&& order.len() == keys.len()
    &&& forall|j: int| 0 <= j < order.len() ==> (#[trigger] order[j]) < keys.len()
    &&& forall|a: int, b: int|
        0 <= a < b < order.len() ==> ranked_before(keys, order[a] as int, order[b] as int)
}

/// The indices of `keys`, stably ordered by descending key.
pub fn stable_descending(keys: &Vec<i128>) -> (order: Vec<usize>)
    ensures
        is_stable_descending(keys@, order@),
{
    let mut order: Vec<usize> = Vec::new();
    let mut i: usize = 0;
    while i < keys.len()
        invariant
            i <= keys.len(),
            order.len() == i,
            forall|j: int| 0 <= j < order.len() ==> (#[trigger] order@[j]) < i,
            forall|a: int, b: int|
                0 <= a < b < order.len() ==> ranked_before(
                    keys@,
                    order@[a] as int,
                    order@[b] as int,
                ),
        decreases keys.len() - i,
    {
        let k = keys[i];
        let mut p: usize = 0;
        while p < order.len() && keys[order[p]] >= k
            invariant
                p <= order.len(),
                order.len() == i,
                i < keys.len(),
                k == keys@[i as int],
                forall|j: int| 0 <= j < order.len() ==> (#[trigger] order@[j]) < i,
                forall|j: int| 0 <= j < p ==> keys@[(#[trigger] order@[j]) as int] >= k,
            decreases order.len() - p,
        {
            p = p + 1;
        }
        let ghost old_order = order@;
        proof {
            assert forall|q: int| p <= q < old_order.len() implies keys@[(
            #[trigger] old_order[q]) as int] < k by {
                if q > p {
                    assert(ranked_before(keys@, old_order[p as int] as int, old_order[q] as int));
                }
            }
        }
        order.insert(p, i);
        proof {
            let n = order@;
            assert(n == old_order.insert(p as int, i));
            assert forall|j: int| 0 <= j < n.len() implies (#[trigger] n[j]) < i + 1 by {
                if j < p {
                    assert(n[j] == old_order[j]);
                } else if j > p {
                    assert(n[j] == old_order[j - 1]);
                }
            }
            assert forall|a: int, b: int| 0 <= a < b < n.len() implies ranked_before(
                keys@,
                n[a] as int,
                n[b] as int,
            ) by {
                if b < p {
                    assert(n[a] == old_order[a] && n[b] == old_order[b]);
                } else if b == p {
                    assert(n[a] == old_order[a]);
                } else if a < p {
                    assert(n[a] == old_order[a] && n[b] == old_order[b - 1]);
                } else if a == p {
                    assert(n[b] == old_order[b - 1]);
                } else {
                    assert(n[a] == old_order[a - 1] && n[b] == old_order[b - 1]);
                }
            }
        }
        i = i + 1;
    }
    order
}

/// `a` sorts before `b` character by character, a proper prefix first: the order in
/// which Rust compares strings (by UTF-8 bytes, which follows the characters).
pub open spec fn text_lt(a: Seq<char>, b: Seq<char>) -> bool
    decreases a.len(),
{
    if a.len() == 0 {
        b.len() > 0
    } else if b.len() == 0 {
        false
    } else if a[0] != b[0] {
        a[0] < b[0]
    } else {
        text_lt(a.skip(1), b.skip(1))
    }
}

pub proof fn lemma_text_lt_irreflexive(a: Seq<char>)
    ensures
        !text_lt(a, a),
    decreases a.len(),
{
    if a.len() > 0 {
        lemma_text_lt_irreflexive(a.skip(1));
    }
}

pub proof fn lemma_text_lt_total(a: Seq<char>, b: Seq<char>)
    ensures
        text_lt(a, b) || text_lt(b, a) || a == b,
    decreases a.len(),
{
    if a.len() > 0 && b.len() > 0 && a[0] == b[0] {
        lemma_text_lt_total(a.skip(1), b.skip(1));
        if a.skip(1) == b.skip(1) {
            assert(a =~= seq![a[0]] + a.skip(1));
            assert(b =~= seq![b[0]] + b.skip(1));
        }
    } else if a.len() == 0 && b.len() == 0 {
        assert(a =~= b);
    }
}

pub proof fn lemma_text_lt_transitive(a: Seq<char>, b: Seq<char>, c: Seq<char>)
    requires
        text_lt(a, b),
        text_lt(b, c),
    ensures
        text_lt(a, c),
    decreases a.len(),
{
    if a.len() > 0 && b.len() > 0 && c.len() > 0 && a[0] == b[0] && b[0] == c[0] {
        lemma_text_lt_transitive(a.skip(1), b.skip(1), c.skip(1));
    }
}

/// Item `a` comes before item `b` when items are listed by descending text key,
/// items with equal keys in their original order.
pub open spec fn text_ranked_before(keys: Seq<Seq<char>>, a: int, b: int) -> bool {
    text_lt(keys[b], keys[a]) || (keys[a] == keys[b] && a < b)
}

/// `order` lists the indices of `keys` by descending key, equal keys in their
/// original order: the order a stable sort by descending key gives.
pub open spec fn is_stable_descending_text(keys: Seq<Seq<char>>, order: Seq<usize>) -> bool {
    &&& order.len() == keys.len()
    &&& forall|j: int| 0 <= j < order.len() ==> (#[trigger] order[j]) < keys.len()
    &&& forall|a: int, b: int|
        0 <= a < b < order.len() ==> text_ranked_before(keys, order[a] as int, order[b] as int)
}

/// Whether `a` sorts before `b`.
pub fn text_less(a: &[char], b: &[char]) -> (r: bool)
    ensures
        r == text_lt(a@, b@),
{
    let mut i: usize = 0;
    assert(a@.skip(0) =~= a@);
    assert(b@.skip(0) =~= b@);
    while i < a.len() && i < b.len() && a[i] == b[i]
        invariant
            i <= a.len(),
            i <= b.len(),
            text_lt(a@, b@) == text_lt(a@.skip(i as int), b@.skip(i as int)),
        decreases a.len() - i,
    {
        assert(a@.skip(i as int).skip(1) =~= a@.skip(i + 1));
        assert(b@.skip(i as int).skip(1) =~= b@.skip(i + 1));
        i = i + 1;
    }
    if i == a.len() {
        i < b.len()
    } else if i == b.len() {
        false
    } else {
        a[i] < b[i]
    }
}

/// The indices of `keys`, stably ordered by descending text key.
pub fn stable_descending_text(keys: &Vec<Vec<char>>) -> (order: Vec<usize>)
    ensures
        is_stable_descending_text(keys@.map_values(|k: Vec<char>| k@), order@),
{
    let ghost kv = keys@.map_values(|k: Vec<char>| k@);
    let mut order: Vec<usize> = Vec::new();
    let mut i: usize = 0;
    while i < keys.len()
        invariant
            i <= keys.len(),
            kv == keys@.map_values(|k: Vec<char>| k@),
            order.len() == i,
            forall|j: int| 0 <= j < order.len() ==> (#[trigger] order@[j]) < i,
            forall|a: int, b: int|
                0 <= a < b < order.len() ==> text_ranked_before(
                    kv,
                    order@[a] as int,
                    order@[b] as int,
                ),
        decreases keys.len() - i,
    {
        let mut p: usize = 0;
        while p < order.len() && !text_less(&keys[order[p]], &keys[i])
            invariant
                p <= order.len(),
                order.len() == i,
                i < keys.len(),
                kv == keys@.map_values(|k: Vec<char>| k@),
                forall|j: int| 0 <= j < order.len() ==> (#[trigger] order@[j]) < i,
                forall|j: int| 0 <= j < p ==> !text_lt(kv[(#[trigger] order@[j]) as int], kv[i as int]),
            decreases order.len() - p,
        {
            p = p + 1;
        }
        let ghost old_order = order@;
        proof {
            assert forall|q: int| p <= q < old_order.len() implies text_lt(
                kv[(#[trigger] old_order[q]) as int],
                kv[i as int],
            ) by {
                if q > p {
                    let x = old_order[p as int] as int;
                    let y = old_order[q] as int;
                    assert(text_ranked_before(kv, x, y));
                    if kv[x] == kv[y] {
                    } else {
                        lemma_text_lt_transitive(kv[y], kv[x], kv[i as int]);
                    }
                }
            }
        }
        order.insert(p, i);
        proof {
            let n = order@;
            assert(n == old_order.insert(p as int, i));
            assert forall|j: int| 0 <= j < n.len() implies (#[trigger] n[j]) < i + 1 by {
                if j < p {
                    assert(n[j] == old_order[j]);
                } else if j > p {
                    assert(n[j] == old_order[j - 1]);
                }
            }
            assert forall|a: int, b: int| 0 <= a < b < n.len() implies text_ranked_before(
                kv,
                n[a] as int,
                n[b] as int,
            ) by {
                if b < p {
                    assert(n[a] == old_order[a] && n[b] == old_order[b]);
                } else if b == p {
                    assert(n[a] == old_order[a]);
                    let x = old_order[a] as int;
                    lemma_text_lt_total(kv[x], kv[i as int]);
                } else if a < p {
                    assert(n[a] == old_order[a] && n[b] == old_order[b - 1]);
                } else if a == p {
                    assert(n[b] == old_order[b - 1]);
                } else {
                    assert(n[a] == old_order[a - 1] && n[b] == old_order[b - 1]);
                }
            }
        }
        i = i + 1;
    }
    order
}

// ---------------------------------------------------------------------------
// The stable order is unique
// ---------------------------------------------------------------------------
/// Indices listed without repetition, all below `n`, `n` of them, cover every index
/// below `n`.
proof fn lemma_covers(order: Seq<usize>, n: nat, x: int)
    requires
        order.len() == n,
        forall|j: int| 0 <= j < order.len() ==> (#[trigger] order[j]) < n,
        forall|a: int, b: int| 0 <= a < b < order.len() ==> order[a] != order[b],
        0 <= x < n,
    ensures
        exists|j: int| 0 <= j < order.len() && order[j] == x,
{
    let m = order.map_values(|v: usize| v as int);
    assert(m.no_duplicates()) by {
        assert forall|a: int, b: int| 0 <= a < m.len() && 0 <= b < m.len() && a != b implies m[a]
            != m[b] by {
            if a < b {
                assert(order[a] != order[b]);
            } else {
                assert(order[b] != order[a]);
            }
        }
    }
    m.unique_seq_to_set();
    let range = vstd::set_lib::set_int_range(0, n as int);
    vstd::set_lib::lemma_int_range(0, n as int);
    assert(m.to_set().subset_of(range)) by {
        assert forall|v: int| m.to_set().contains(v) implies range.contains(v) by {
            let j = choose|j: int| 0 <= j < m.len() && m[j] == v;
            assert(order[j] < n);
        }
    }
    m.lemma_cardinality_of_set();
    vstd::set_lib::lemma_subset_equality(m.to_set(), range);
    assert(range.contains(x));
    assert(m.to_set().contains(x));
    let j = choose|j: int| 0 <= j < m.len() && m[j] == x;
    assert(order[j] == x);
}

proof fn lemma_unique_prefix(keys: Seq<i128>, o1: Seq<usize>, o2: Seq<usize>, k: int)
    requires
        is_stable_descending(keys, o1),
        is_stable_descending(keys, o2),
        0 <= k <= keys.len(),
    ensures
        forall|j: int| 0 <= j < k ==> o1[j] == o2[j],
    decreases k,
{
    if k > 0 {
        lemma_unique_prefix(keys, o1, o2, k - 1);
        let p = k - 1;
        if o1[p] != o2[p] {
            let x = o1[p] as int;
            let y = o2[p] as int;
            assert forall|a: int, b: int| 0 <= a < b < o1.len() implies o1[a] != o1[b] by {
                assert(ranked_before(keys, o1[a] as int, o1[b] as int));
            }
            assert forall|a: int, b: int| 0 <= a < b < o2.len() implies o2[a] != o2[b] by {
                assert(ranked_before(keys, o2[a] as int, o2[b] as int));
            }
            lemma_covers(o1, keys.len(), y);
            lemma_covers(o2, keys.len(), x);
            let q = choose|j: int| 0 <= j < o1.len() && o1[j] == y;
            let r = choose|j: int| 0 <= j < o2.len() && o2[j] == x;
            if q < p {
                assert(o2[q] == y);
                assert(ranked_before(keys, o2[q] as int, o2[p] as int));
            }
            if r < p {
                assert(o1[r] == x);
                assert(ranked_before(keys, o1[r] as int, o1[p] as int));
            }
            assert(q > p && r > p);
            assert(ranked_before(keys, o1[p] as int, o1[q] as int));
            assert(ranked_before(keys, o2[p] as int, o2[r] as int));
        }
    }
}

/// A stable sort by descending key has exactly one outcome: two orders that both list
/// the items by descending key, ties in original order, are the same order.
pub proof fn law_stable_order_is_unique(keys: Seq<i128>, o1: Seq<usize>, o2: Seq<usize>)
    requires
        is_stable_descending(keys, o1),
        is_stable_descending(keys, o2),
    ensures
        o1 == o2,
{
    lemma_unique_prefix(keys, o1, o2, keys.len() as int);
    assert(o1 =~= o2);
}

proof fn lemma_unique_prefix_text(keys: Seq<Seq<char>>, o1: Seq<usize>, o2: Seq<usize>, k: int)
    requires
        is_stable_descending_text(keys, o1),
        is_stable_descending_text(keys, o2),
        0 <= k <= keys.len(),
    ensures
        forall|j: int| 0 <= j < k ==> o1[j] == o2[j],
    decreases k,
{
    if k > 0 {
        lemma_unique_prefix_text(keys, o1, o2, k - 1);
        let p = k - 1;
        if o1[p] != o2[p] {
            let x = o1[p] as int;
            let y = o2[p] as int;
            assert forall|a: int, b: int| 0 <= a < b < o1.len() implies o1[a] != o1[b] by {
                assert(text_ranked_before(keys, o1[a] as int, o1[b] as int));
                if o1[a] == o1[b] {
                    lemma_text_lt_irreflexive(keys[o1[a] as int]);
                }
            }
            assert forall|a: int, b: int| 0 <= a < b < o2.len() implies o2[a] != o2[b] by {
                assert(text_ranked_before(keys, o2[a] as int, o2[b] as int));
                if o2[a] == o2[b] {
                    lemma_text_lt_irreflexive(keys[o2[a] as int]);
                }
            }
            lemma_covers(o1, keys.len(), y);
            lemma_covers(o2, keys.len(), x);
            let q = choose|j: int| 0 <= j < o1.len() && o1[j] == y;
            let r = choose|j: int| 0 <= j < o2.len() && o2[j] == x;
            assert(q != p);
            assert(r != p);
            if q < p {
                assert(o2[q] == y);
            }
            if r < p {
                assert(o1[r] == x);
            }
            assert(q > p && r > p);
            assert(text_ranked_before(keys, x, y));
            assert(text_ranked_before(keys, y, x));
            lemma_text_lt_irreflexive(keys[x]);
            lemma_text_lt_irreflexive(keys[y]);
            if keys[x] != keys[y] {
                lemma_text_lt_transitive(keys[y], keys[x], keys[y]);
            }
            assert(false);
        }
    }
}

/// A stable sort by descending text key has exactly one outcome.
pub proof fn law_stable_text_order_is_unique(keys: Seq<Seq<char>>, o1: Seq<usize>, o2: Seq<usize>)
    requires
        is_stable_descending_text(keys, o1),
        is_stable_descending_text(keys, o2),
    ensures
        o1 == o2,
{
    lemma_unique_prefix_text(keys, o1, o2, keys.len() as int);
    assert(o1 =~= o2);
}

/// A stable order lists every item exactly once: nothing is lost or repeated when
/// items are reordered.
pub proof fn law_stable_order_lists_every_item_once(keys: Seq<i128>, order: Seq<usize>, x: int)
    requires
        is_stable_descending(keys, order),
        0 <= x < keys.len(),
    ensures
        exists|j: int| 0 <= j < order.len() && order[j] == x,
        forall|a: int, b: int| 0 <= a < b < order.len() ==> order[a] != order[b],
{
    assert forall|a: int, b: int| 0 <= a < b < order.len() implies order[a] != order[b] by {
        assert(ranked_before(keys, order[a] as int, order[b] as int));
    }
    lemma_covers(order, keys.len(), x);
}

/// A stable text order lists every item exactly once.
pub proof fn law_stable_text_order_lists_every_item_once(
    keys: Seq<Seq<char>>,
    order: Seq<usize>,
    x: int,
)
    requires
        is_stable_descending_text(keys, order),
        0 <= x < keys.len(),
    ensures
        exists|j: int| 0 <= j < order.len() && order[j] == x,
        forall|a: int, b: int| 0 <= a < b < order.len() ==> order[a] != order[b],
{
    assert forall|a: int, b: int| 0 <= a < b < order.len() implies order[a] != order[b] by {
        assert(text_ranked_before(keys, order[a] as int, order[b] as int));
        if order[a] == order[b] {
            lemma_text_lt_irreflexive(keys[order[a] as int]);
        }
    }
    lemma_covers(order, keys.len(), x);
}

} // verus!

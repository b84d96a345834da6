//! The order of strings (`Ord` for `String`: byte-wise on UTF-8, which is the
//! order of code points) and a stable sort by string keys.

use vstd::prelude::*;
use crate::text::views;

verus! {

/// `a <= b` in the order of `String`.
pub open spec fn lex_le(a: Seq<char>, b: Seq<char>) -> bool
    decreases a.len(),
{
    if a.len() == 0 {
        true
    } else if b.len() == 0 {
        false
    } else if a[0] < b[0] {
        true
    } else if a[0] > b[0] {
        false
    } else {
        lex_le(a.drop_first(), b.drop_first())
    }
}

pub proof fn lemma_lex_total(a: Seq<char>, b: Seq<char>)
    ensures
        lex_le(a, b) || lex_le(b, a),
    decreases a.len(),
{
    if a.len() > 0 && b.len() > 0 && a[0] == b[0] {
        lemma_lex_total(a.drop_first(), b.drop_first());
    }
}

pub proof fn lemma_lex_trans(a: Seq<char>, b: Seq<char>, c: Seq<char>)
    requires
        lex_le(a, b),
        lex_le(b, c),
    ensures
        lex_le(a, c),
    decreases a.len(),
{
    if a.len() > 0 && b.len() > 0 && c.len() > 0 && a[0] == b[0] && b[0] == c[0] {
        lemma_lex_trans(a.drop_first(), b.drop_first(), c.drop_first());
    }
}

pub proof fn lemma_lex_antisym(a: Seq<char>, b: Seq<char>)
    requires
        lex_le(a, b),
        lex_le(b, a),
    ensures
        a == b,
    decreases a.len(),
{
    if a.len() > 0 && b.len() > 0 {
        lemma_lex_antisym(a.drop_first(), b.drop_first());
        assert(a[0] == b[0]);
        assert(a =~= seq![a[0]] + a.drop_first());
        assert(b =~= seq![b[0]] + b.drop_first());
    } else if a.len() == 0 && b.len() == 0 {
        assert(a =~= b);
    }
}

/// `a <= b` for strings.
pub fn chars_le(a: &Vec<char>, b: &Vec<char>) -> (r: bool)
    ensures
        r == lex_le(a@, b@),
{
    let mut i: usize = 0;
    assert(a@.skip(0) =~= a@);
    assert(b@.skip(0) =~= b@);
    while i < a.len() && i < b.len()
        invariant
            i <= a.len(),
            i <= b.len(),
            lex_le(a@, b@) == lex_le(a@.skip(i as int), b@.skip(i as int)),
        decreases a.len() - i,
    {
        let x = a[i];
        let y = b[i];
        assert(a@.skip(i as int)[0] == a@[i as int]);
        assert(b@.skip(i as int)[0] == b@[i as int]);
        if x < y {
            return true;
        }
        if x > y {
            return false;
        }
        assert(a@.skip(i as int).drop_first() =~= a@.skip(i + 1));
        assert(b@.skip(i as int).drop_first() =~= b@.skip(i + 1));
        i = i + 1;
    }
    i == a.len()
}

/// `ord` lists the positions of `keys` in a stable ascending order: every
/// position once, keys never decreasing, and positions with equal keys in
/// increasing order.
pub open spec fn stable_order(keys: Seq<Seq<char>>, ord: Seq<usize>) -> bool {
    &&& ord.len() == keys.len()
    &&& forall|i: int| 0 <= i < ord.len() ==> #[trigger] ord[i] < keys.len()
    &&& ord.no_duplicates()
    &&& forall|i: int, j: int|
        0 <= i < j < ord.len() ==> lex_le(keys[#[trigger] ord[i] as int], keys[#[trigger] ord[j] as int])
    &&& forall|i: int, j: int|
        0 <= i < j < ord.len() && keys[#[trigger] ord[i] as int] == keys[#[trigger] ord[j] as int]
            ==> ord[i] < ord[j]
}

/// Every position of `keys` occurs in an order that satisfies `stable_order`.
proof fn lemma_order_covers(keys: Seq<Seq<char>>, ord: Seq<usize>, v: int)
    requires
        stable_order(keys, ord),
        0 <= v < keys.len(),
    ensures
        exists|j: int| 0 <= j < ord.len() && ord[j] as int == v,
{
    let ints = ord.map_values(|x: usize| x as int);
    assert forall|a: int, b: int| 0 <= a < ints.len() && 0 <= b < ints.len() && a != b implies ints[a]
        != ints[b] by {
        assert(ord[a] != ord[b]);
    }
    ints.unique_seq_to_set();
    let range = vstd::set_lib::set_int_range(0, keys.len() as int);
    vstd::set_lib::lemma_int_range(0, keys.len() as int);
    assert forall|x: int| ints.to_set().contains(x) implies range.contains(x) by {
        let j = ints.index_of(x);
        assert(ord[j] < keys.len());
    }
    vstd::set_lib::lemma_subset_equality(ints.to_set(), range);
    assert(range.contains(v));
    assert(ints.to_set().contains(v));
    let j = ints.index_of(v);
    assert(ord[j] as int == v);
}

proof fn lemma_stable_prefix(keys: Seq<Seq<char>>, o1: Seq<usize>, o2: Seq<usize>, k: int)
    requires
        stable_order(keys, o1),
        stable_order(keys, o2),
        0 <= k <= o1.len(),
    ensures
        forall|i: int| 0 <= i < k ==> o1[i] == o2[i],
    decreases k,
{
    if k > 0 {
        lemma_stable_prefix(keys, o1, o2, k - 1);
        let i = k - 1;
        if o1[i] != o2[i] {
            let a = o1[i];
            let b = o2[i];
            lemma_order_covers(keys, o2, a as int);
            lemma_order_covers(keys, o1, b as int);
            let j2 = choose|j: int| 0 <= j < o2.len() && o2[j] as int == a as int;
            let j1 = choose|j: int| 0 <= j < o1.len() && o1[j] as int == b as int;
            if j2 < i {
                assert(o1[j2] == o2[j2]);
                assert(o1[j2] == o1[i]);
            }
            if j1 < i {
                assert(o1[j1] == o2[j1]);
                assert(o2[j1] == o2[i]);
            }
            assert(i < j1 && i < j2);
            assert(lex_le(keys[o1[i] as int], keys[o1[j1] as int]));
            assert(lex_le(keys[o2[i] as int], keys[o2[j2] as int]));
            lemma_lex_antisym(keys[a as int], keys[b as int]);
            assert(o1[i] < o1[j1]);
            assert(o2[i] < o2[j2]);
        }
    }
}

/// `stable_order` leaves no choice: two orders that satisfy it for the same
/// keys are equal.
pub proof fn lemma_stable_order_unique(keys: Seq<Seq<char>>, o1: Seq<usize>, o2: Seq<usize>)
    requires
        stable_order(keys, o1),
        stable_order(keys, o2),
    ensures
        o1 == o2,
{
    lemma_stable_prefix(keys, o1, o2, o1.len() as int);
    assert(o1 =~= o2);
}

/// The positions of `keys` in stable ascending order (an insertion sort).
pub fn stable_sort_order(keys: &Vec<Vec<char>>) -> (ord: Vec<usize>)
    ensures
        stable_order(views(keys@), ord@),
{
    let ghost ks = views(keys@);
    let mut ord: Vec<usize> = Vec::new();
    let mut n: usize = 0;
    while n < keys.len()
        invariant
            n <= keys.len(),
            ks == views(keys@),
            ord@.len() == n,
            forall|i: int| 0 <= i < ord@.len() ==> #[trigger] ord@[i] < n,
            ord@.no_duplicates(),
            forall|i: int, j: int|
                0 <= i < j < ord@.len() ==> lex_le(ks[#[trigger] ord@[i] as int], ks[#[trigger] ord@[j] as int]),
            forall|i: int, j: int|
                0 <= i < j < ord@.len() && ks[#[trigger] ord@[i] as int] == ks[#[trigger] ord@[j] as int]
                    ==> ord@[i] < ord@[j],
        decreases keys.len() - n,
    {
        // the first place whose key is greater than that of `n`
        let mut q: usize = 0;
        while q < ord.len() && chars_le(&keys[ord[q]], &keys[n])
            invariant
                q <= ord@.len(),
                n < keys.len(),
                ks == views(keys@),
                forall|i: int| 0 <= i < ord@.len() ==> #[trigger] ord@[i] < n,
                forall|i: int| 0 <= i < q ==> lex_le(ks[#[trigger] ord@[i] as int], ks[n as int]),
            decreases ord@.len() - q,
        {
            q = q + 1;
        }
        let ghost before = ord@;
        proof {
            assert forall|i: int| q <= i < before.len() implies !lex_le(ks[#[trigger] before[i] as int], ks[n as int]) by {
                if q < before.len() {
                    assert(!lex_le(ks[before[q as int] as int], ks[n as int]));
                    if i > q {
                        if lex_le(ks[before[i] as int], ks[n as int]) {
                            lemma_lex_trans(ks[before[q as int] as int], ks[before[i] as int], ks[n as int]);
                        }
                    }
                }
            }
        }
        ord.insert(q, n);
        proof {
            let after = ord@;
            assert(after == before.insert(q as int, n));
            assert forall|i: int| 0 <= i < after.len() implies #[trigger] after[i] < n + 1 by {
                if i < q { assert(after[i] == before[i]); }
                else if i > q { assert(after[i] == before[i - 1]); }
            }
            assert forall|i: int, j: int| 0 <= i < after.len() && 0 <= j < after.len() && i != j implies after[i] != after[j] by {
                if i != q && j != q {
                    let i2 = if i < q { i } else { i - 1 };
                    let j2 = if j < q { j } else { j - 1 };
                    assert(after[i] == before[i2]);
                    assert(after[j] == before[j2]);
                } else if i == q {
                    let j2 = if j < q { j } else { j - 1 };
                    assert(after[j] == before[j2]);
                } else {
                    let i2 = if i < q { i } else { i - 1 };
                    assert(after[i] == before[i2]);
                }
            }
            assert forall|i: int, j: int|
                0 <= i < j < after.len() implies lex_le(ks[#[trigger] after[i] as int], ks[#[trigger] after[j] as int]) by {
                if j < q {
                    assert(after[i] == before[i] && after[j] == before[j]);
                } else if j == q {
                    assert(after[i] == before[i]);
                } else if i == q {
                    assert(after[j] == before[j - 1]);
                    lemma_lex_total(ks[before[j - 1] as int], ks[n as int]);
                } else if i < q {
                    assert(after[i] == before[i] && after[j] == before[j - 1]);
                } else {
                    assert(after[i] == before[i - 1] && after[j] == before[j - 1]);
                }
            }
            assert forall|i: int, j: int|
                0 <= i < j < after.len() && ks[#[trigger] after[i] as int] == ks[#[trigger] after[j] as int]
                    implies after[i] < after[j] by {
                if j < q {
                    assert(after[i] == before[i] && after[j] == before[j]);
                } else if j == q {
                    assert(after[i] == before[i]);
                } else if i == q {
                    assert(after[j] == before[j - 1]);
                    assert(lex_le(ks[before[j - 1] as int], ks[n as int]));
                } else if i < q {
                    assert(after[i] == before[i] && after[j] == before[j - 1]);
                } else {
                    assert(after[i] == before[i - 1] && after[j] == before[j - 1]);
                }
            }
        }
        n = n + 1;
    }
    ord
}

} // verus!

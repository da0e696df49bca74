use vstd::prelude::*;

verus! {

/// Index `a` comes before index `b` when its key is larger, or the keys are
/// equal and `a` is the earlier index.
pub open spec fn comes_before(keys: Seq<i128>, a: int, b: int) -> bool {
    keys[a] > keys[b] || (keys[a] == keys[b] && a < b)
}

/// `ord` lists each index of `keys` exactly once.
pub open spec fn is_arrangement(ord: Seq<usize>, n: nat) -> bool {
    &&& ord.len() == n
    &&& forall|i: int| 0 <= i < ord.len() ==> #[trigger] ord[i] < n
    &&& forall|i: int, j: int| 0 <= i < j < ord.len() ==> ord[i] != ord[j]
}

/// `ord` lists the indices of `keys` from the largest key to the smallest,
/// equal keys in their original order: the order of a stable sort by
/// descending key.
pub open spec fn is_stable_descending(keys: Seq<i128>, ord: Seq<usize>) -> bool {
    &&& is_arrangement(ord, keys.len())
    &&& forall|i: int, j: int|
        0 <= i < j < ord.len() ==> comes_before(keys, #[trigger] ord[i] as int, #[trigger] ord[j] as int)
}

/// The indices of `keys` in the order of a stable sort by descending key.
pub fn stable_order_descending(keys: &Vec<i128>) -> (ord: Vec<usize>)
    ensures
        is_stable_descending(keys@, ord@),
{
    let n = keys.len();
    let mut ord: Vec<usize> = Vec::new();
    let mut i: usize = 0;
    while i < n
        invariant
            n == keys@.len(),
            i <= n,
            is_stable_descending(keys@.take(i as int), ord@),
            forall|k: int| 0 <= k < ord@.len() ==> #[trigger] ord@[k] < i,
        decreases n - i,
    {
        let ki = keys[i];
        let mut p: usize = 0;
        while p < ord.len() && keys[ord[p]] >= ki
            invariant
                n == keys@.len(),
                i < n,
                ki == keys@[i as int],
                p <= ord@.len(),
                forall|k: int| 0 <= k < ord@.len() ==> #[trigger] ord@[k] < i,
                forall|k: int| 0 <= k < p ==> keys@[#[trigger] ord@[k] as int] >= ki,
            decreases ord@.len() - p,
        {
            p = p + 1;
        }
        let ghost old_ord = ord@;
        ord.insert(p, i);
        proof {
            let pre = keys@.take(i as int);
            let post = keys@.take(i + 1);
            assert forall|k: int| 0 <= k < old_ord.len() implies pre[old_ord[k] as int] == post[old_ord[k] as int] by {
            }
            // keys after the insertion point are smaller than the new key
            assert forall|k: int| p <= k < old_ord.len() implies keys@[#[trigger] old_ord[k] as int] < ki by {
                if k > p {
                    assert(comes_before(pre, old_ord[p as int] as int, old_ord[k] as int));
                }
            }
            assert forall|a: int, b: int| 0 <= a < b < ord@.len() implies comes_before(
                post,
                #[trigger] ord@[a] as int,
                #[trigger] ord@[b] as int,
            ) by {
                if b < p {
                    assert(ord@[a] == old_ord[a] && ord@[b] == old_ord[b]);
                    assert(comes_before(pre, old_ord[a] as int, old_ord[b] as int));
                } else if b == p {
                    assert(ord@[a] == old_ord[a]);
                } else if a < p {
                    assert(ord@[a] == old_ord[a] && ord@[b] == old_ord[b - 1]);
                    assert(comes_before(pre, old_ord[a] as int, old_ord[b - 1] as int));
                } else if a == p {
                    assert(ord@[b] == old_ord[b - 1]);
                } else {
                    assert(ord@[a] == old_ord[a - 1] && ord@[b] == old_ord[b - 1]);
                    assert(comes_before(pre, old_ord[a - 1] as int, old_ord[b - 1] as int));
                }
            }
            assert forall|a: int, b: int| 0 <= a < b < ord@.len() implies ord@[a] != ord@[b] by {
                if b < p {
                    assert(ord@[a] == old_ord[a] && ord@[b] == old_ord[b]);
                } else if b == p {
                    assert(ord@[a] == old_ord[a]);
                } else if a < p {
                    assert(ord@[a] == old_ord[a] && ord@[b] == old_ord[b - 1]);
                } else if a == p {
                    assert(ord@[b] == old_ord[b - 1]);
                } else {
                    assert(ord@[a] == old_ord[a - 1] && ord@[b] == old_ord[b - 1]);
                }
            }
            assert forall|k: int| 0 <= k < ord@.len() implies #[trigger] ord@[k] < i + 1 by {
                if k < p {
                    assert(ord@[k] == old_ord[k]);
                } else if k > p {
                    assert(ord@[k] == old_ord[k - 1]);
                }
            }
        }
        i = i + 1;
    }
    proof {
        assert(keys@.take(n as int) =~= keys@);
    }
    ord
}


/// Every index below `n` stands somewhere in an arrangement of `n` indices.
pub proof fn lemma_arrangement_covers(ord: Seq<usize>, n: nat, x: int)
    requires
        is_arrangement(ord, n),
        0 <= x < n,
    ensures
        exists|i: int| 0 <= i < ord.len() && ord[i] as int == x,
{
    let o = ord.map_values(|v: usize| v as int);
    assert(o.no_duplicates()) by {
        assert forall|i: int, j: int| 0 <= i < o.len() && 0 <= j < o.len() && i != j implies o[i] != o[j] by {
            if i < j {
                assert(ord[i] != ord[j]);
            } else {
                assert(ord[j] != ord[i]);
            }
        }
    }
    o.unique_seq_to_set();
    vstd::seq_lib::seq_to_set_is_finite(o);
    vstd::set_lib::lemma_int_range(0, n as int);
    let range = vstd::set_lib::set_int_range(0, n as int);
    assert(o.to_set().subset_of(range)) by {
        assert forall|v: int| o.to_set().contains(v) implies range.contains(v) by {
            let i = choose|i: int| 0 <= i < o.len() && o[i] == v;
            assert(ord[i] < n);
        }
    }
    vstd::set_lib::lemma_subset_equality(o.to_set(), range);
    assert(range.contains(x));
    assert(o.to_set().contains(x));
    let i = choose|i: int| 0 <= i < o.len() && o[i] == x;
    assert(ord[i] as int == x);
}

proof fn lemma_stable_prefix_equal(keys: Seq<i128>, a: Seq<usize>, b: Seq<usize>, k: int)
    requires
        is_stable_descending(keys, a),
        is_stable_descending(keys, b),
        0 <= k <= keys.len(),
    ensures
        forall|j: int| 0 <= j < k ==> a[j] == b[j],
    decreases k,
{
    if k > 0 {
        lemma_stable_prefix_equal(keys, a, b, k - 1);
        let p = k - 1;
        let x = a[p];
        let y = b[p];
        if x != y {
            lemma_arrangement_covers(a, keys.len(), y as int);
            let j = choose|j: int| 0 <= j < a.len() && a[j] as int == y as int;
            if j < p {
                assert(b[j] == a[j]);
                assert(b[j] != b[p]);
            }
            assert(j > p);
            assert(comes_before(keys, a[p] as int, a[j] as int));
            lemma_arrangement_covers(b, keys.len(), x as int);
            let i = choose|i: int| 0 <= i < b.len() && b[i] as int == x as int;
            if i < p {
                assert(a[i] == b[i]);
                assert(a[i] != a[p]);
            }
            assert(i > p);
            assert(comes_before(keys, b[p] as int, b[i] as int));
            assert(false);
        }
    }
}

/// The order of a stable sort by descending key is unique: any two lists of
/// the indices that both satisfy it are the same list.
pub proof fn law_stable_order_unique(keys: Seq<i128>, a: Seq<usize>, b: Seq<usize>)
    requires
        is_stable_descending(keys, a),
        is_stable_descending(keys, b),
    ensures
        a == b,
{
    lemma_stable_prefix_equal(keys, a, b, keys.len() as int);
    assert(a =~= b);
}

} // verus!

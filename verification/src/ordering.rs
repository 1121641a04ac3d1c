use vstd::prelude::*;

verus! {

/// Whether position `p` comes before position `q` when positions are ordered
/// by their key, and positions with equal keys keep their order.
pub open spec fn key_before(keys: Seq<usize>, p: int, q: int) -> bool {
    keys[p] < keys[q] || (keys[p] == keys[q] && p < q)
}

/// Whether `order` lists every position of `keys` exactly once, in the order
/// of a stable sort by key.
pub open spec fn is_stable_key_order(keys: Seq<usize>, order: Seq<usize>) -> bool {
    &&& order.len() == keys.len()
    &&& forall|k: int| 0 <= k < order.len() ==> #[trigger] order[k] < keys.len()
    &&& forall|x: usize| x < keys.len() ==> #[trigger] order.contains(x)
    &&& forall|a: int, b: int| 0 <= a < b < order.len() ==>
        key_before(keys, #[trigger] order[a] as int, #[trigger] order[b] as int)
}

/// The positions of `keys` in the order of a stable sort by key: every
/// position appears once, keys never decrease along the result, and positions
/// with equal keys keep their original order. Rendered view zones arrive from
/// the worker threads in any order; this is the order they are drawn in.
pub fn order_by_key(keys: &Vec<usize>) -> (order: Vec<usize>)
    ensures
        is_stable_key_order(keys@, order@),
{
    let n: usize = keys.len();
    let mut order: Vec<usize> = Vec::new();
    let mut p: usize = 0;
    while p < n
        invariant
            n == keys@.len(),
            p <= n,
            order@.len() == p,
            forall|k: int| 0 <= k < order@.len() ==> #[trigger] order@[k] < p,
            forall|x: usize| x < p ==> #[trigger] order@.contains(x),
            forall|a: int, b: int| 0 <= a < b < order@.len() ==>
                key_before(keys@, #[trigger] order@[a] as int, #[trigger] order@[b] as int),
        decreases n - p,
    {
        let mut q: usize = 0;
        while q < order.len() && keys[order[q]] <= keys[p]
            invariant
                n == keys@.len(),
                p < n,
                q <= order@.len(),
                order@.len() == p,
                forall|k: int| 0 <= k < order@.len() ==> #[trigger] order@[k] < p,
                forall|k: int| 0 <= k < q ==> keys@[#[trigger] order@[k] as int] <= keys@[p as int],
            decreases order@.len() - q,
        {
            q = q + 1;
        }
        let ghost prev = order@;
        order.insert(q, p);
        assert forall|a: int, b: int| 0 <= a < b < order@.len() implies
            key_before(keys@, #[trigger] order@[a] as int, #[trigger] order@[b] as int) by {
            if b < q {
                assert(order@[a] == prev[a] && order@[b] == prev[b]);
            } else if b == q {
                assert(order@[a] == prev[a]);
            } else if a == q {
                assert(order@[b] == prev[b - 1]);
                assert(keys@[prev[q as int] as int] > keys@[p as int]);
                if b - 1 > q {
                    assert(key_before(keys@, prev[q as int] as int, prev[b - 1] as int));
                }
            } else if a < q {
                assert(order@[a] == prev[a] && order@[b] == prev[b - 1]);
            } else {
                assert(order@[a] == prev[a - 1] && order@[b] == prev[b - 1]);
            }
        }
        assert forall|x: usize| x < p + 1 implies #[trigger] order@.contains(x) by {
            if x < p {
                assert(prev.contains(x));
                let k: int = choose|k: int| 0 <= k < prev.len() && prev[k] == x;
                if k < q {
                    assert(order@[k] == x);
                } else {
                    assert(order@[k + 1] == x);
                }
            } else {
                assert(order@[q as int] == p);
            }
        }
        p = p + 1;
    }
    order
}

proof fn lemma_increasing_lower(s: Seq<int>, k: int)
    requires
        0 <= k < s.len(),
        forall|a: int, b: int| 0 <= a < b < s.len() ==> #[trigger] s[a] < #[trigger] s[b],
        forall|a: int| 0 <= a < s.len() ==> 0 <= #[trigger] s[a],
    ensures
        s[k] >= k,
    decreases k,
{
    if k > 0 {
        lemma_increasing_lower(s, k - 1);
        assert(s[k - 1] < s[k]);
    }
}

proof fn lemma_increasing_upper(s: Seq<int>, k: int)
    requires
        0 <= k < s.len(),
        forall|a: int, b: int| 0 <= a < b < s.len() ==> #[trigger] s[a] < #[trigger] s[b],
        forall|a: int| 0 <= a < s.len() ==> #[trigger] s[a] < s.len(),
    ensures
        s[k] <= k,
    decreases s.len() - k,
{
    if k < s.len() - 1 {
        lemma_increasing_upper(s, k + 1);
        assert(s[k] < s[k + 1]);
    }
}

/// When the keys are the indices `0..n` in some order, as the view indices of
/// the rendered zones are, the stable key order puts index `k` at place `k`.
pub proof fn lemma_index_keys_come_in_index_order(keys: Seq<usize>, order: Seq<usize>)
    requires
        is_stable_key_order(keys, order),
        forall|p: int| 0 <= p < keys.len() ==> #[trigger] keys[p] < keys.len(),
        forall|p: int, q: int| 0 <= p < q < keys.len() ==> #[trigger] keys[p] != #[trigger] keys[q],
    ensures
        forall|k: int| 0 <= k < order.len() ==> #[trigger] keys[order[k] as int] == k,
{
    let s = Seq::new(order.len(), |k: int| keys[order[k] as int] as int);
    assert forall|a: int, b: int| 0 <= a < b < s.len() implies #[trigger] s[a] < #[trigger] s[b] by {
        let pa: int = order[a] as int;
        let pb: int = order[b] as int;
        assert(key_before(keys, pa, pb));
        if keys[pa] == keys[pb] {
            assert(pa < pb);
        }
    }
    assert forall|k: int| 0 <= k < order.len() implies #[trigger] keys[order[k] as int] == k by {
        lemma_increasing_lower(s, k);
        lemma_increasing_upper(s, k);
    }
}

} // verus!

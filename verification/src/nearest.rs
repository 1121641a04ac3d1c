use vstd::prelude::*;

verus! {

// A hit along a ray is given by an order key of its distance: keys compare as
// the distances do, and `None` stands for no hit.

/// The key of a hit.
pub open spec fn key_of(h: Option<u64>) -> int {
    match h {
        Some(d) => d as int,
        None => 0,
    }
}

/// Whether `k` is the first of the nearest hits: a hit that no other hit is
/// nearer than, and that every hit before it is farther than.
pub open spec fn is_first_nearest(hits: Seq<Option<u64>>, k: int) -> bool {
    &&& 0 <= k < hits.len()
    &&& hits[k] is Some
    &&& forall|q: int| 0 <= q < hits.len() && (#[trigger] hits[q]) is Some ==> key_of(hits[k]) <= key_of(hits[q])
    &&& forall|q: int| 0 <= q < k && (#[trigger] hits[q]) is Some ==> key_of(hits[k]) < key_of(hits[q])
}

/// The object a ray meets first: the position of the nearest hit, the first
/// one among equally near hits, or `None` when the ray meets nothing.
pub fn nearest_hit(hits: &Vec<Option<u64>>) -> (r: Option<usize>)
    ensures
        r is None <==> forall|q: int| 0 <= q < hits@.len() ==> (#[trigger] hits@[q]) is None,
        r matches Some(k) ==> is_first_nearest(hits@, k as int),
{
    let mut best: Option<usize> = None;
    let mut best_key: u64 = 0;
    let mut i: usize = 0;
    while i < hits.len()
        invariant
            i <= hits@.len(),
            best is None <==> forall|q: int| 0 <= q < i ==> (#[trigger] hits@[q]) is None,
            best matches Some(k) ==> {
                &&& 0 <= k < i
                &&& hits@[k as int] == Some(best_key)
                &&& forall|q: int| 0 <= q < i && (#[trigger] hits@[q]) is Some ==> best_key <= key_of(hits@[q])
                &&& forall|q: int| 0 <= q < k && (#[trigger] hits@[q]) is Some ==> best_key < key_of(hits@[q])
            },
        decreases hits@.len() - i,
    {
        match hits[i] {
            Some(d) => {
                let nearer = match best {
                    None => true,
                    Some(_) => d < best_key,
                };
                if nearer {
                    best = Some(i);
                    best_key = d;
                }
            },
            None => {},
        }
        i = i + 1;
    }
    best
}

/// Whether a ray meets anything besides the object at position `skip`: the
/// shadow test towards a light.
pub fn any_hit_except(hits: &Vec<Option<u64>>, skip: usize) -> (r: bool)
    ensures
        r <==> exists|q: int| 0 <= q < hits@.len() && q != skip && (#[trigger] hits@[q]) is Some,
{
    let mut i: usize = 0;
    while i < hits.len()
        invariant
            i <= hits@.len(),
            forall|q: int| 0 <= q < i && q != skip ==> (#[trigger] hits@[q]) is None,
        decreases hits@.len() - i,
    {
        if i != skip && hits[i].is_some() {
            return true;
        }
        i = i + 1;
    }
    false
}

/// There is one first nearest hit at most, and a hit strictly nearer than
/// every other hit is it.
pub proof fn lemma_first_nearest_unique(hits: Seq<Option<u64>>, k1: int, k2: int)
    ensures
        is_first_nearest(hits, k1) && is_first_nearest(hits, k2) ==> k1 == k2,
        (0 <= k1 < hits.len() && hits[k1] is Some && forall|q: int| 0 <= q < hits.len() && q != k1
            && (#[trigger] hits[q]) is Some ==> key_of(hits[k1]) < key_of(hits[q]))
            ==> is_first_nearest(hits, k1),
{
    if is_first_nearest(hits, k1) && is_first_nearest(hits, k2) && k1 != k2 {
        if k1 < k2 {
            assert(key_of(hits[k2]) < key_of(hits[k1]));
            assert(key_of(hits[k1]) <= key_of(hits[k2]));
        } else {
            assert(key_of(hits[k1]) < key_of(hits[k2]));
            assert(key_of(hits[k2]) <= key_of(hits[k1]));
        }
    }
}

} // verus!

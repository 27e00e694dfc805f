use vstd::prelude::*;

verus! {

/// No primitive reports a hit.
pub open spec fn no_hit(keys: Seq<Option<u64>>) -> bool {
    forall|j: int| 0 <= j < keys.len() ==> #[trigger] keys[j] is None
}

/// Primitive `i` is the first of those whose hit lies nearest along the ray.
pub open spec fn is_nearest(keys: Seq<Option<u64>>, i: int) -> bool {
    &&& 0 <= i < keys.len()
    &&& keys[i] is Some
    &&& forall|j: int|
        0 <= j < keys.len() && #[trigger] keys[j] is Some ==> keys[i]->0 <= keys[j]->0
    &&& forall|j: int| 0 <= j < i && #[trigger] keys[j] is Some ==> keys[i]->0 < keys[j]->0
}

/// The primitive that a ray meets first.
///
/// `keys[j]` is `None` where primitive `j` is missed, and otherwise a key of
/// the distance along the ray at which it is hit, one that orders as the
/// distances do (the bit pattern of a non-negative IEEE-754 double is such a
/// key). Among equally near hits the one listed first wins.
pub fn nearest_hit(keys: &Vec<Option<u64>>) -> (r: Option<usize>)
    ensures
        r is None <==> no_hit(keys@),
        r matches Some(i) ==> is_nearest(keys@, i as int),
{
    let mut best: Option<usize> = None;
    let mut best_key: u64 = 0;
    let mut j: usize = 0;
    while j < keys.len()
        invariant
            j <= keys@.len(),
            best is None <==> forall|k: int| 0 <= k < j ==> #[trigger] keys@[k] is None,
            best matches Some(i) ==> {
                &&& i < j
                &&& keys@[i as int] == Some(best_key)
                &&& forall|k: int|
                    0 <= k < j && #[trigger] keys@[k] is Some ==> best_key <= keys@[k]->0
                &&& forall|k: int|
                    0 <= k < i && #[trigger] keys@[k] is Some ==> best_key < keys@[k]->0
            },
        decreases keys@.len() - j,
    {
        match keys[j] {
            Some(d) => {
                if best.is_none() || d < best_key {
                    best = Some(j);
                    best_key = d;
                }
            },
            None => {},
        }
        j = j + 1;
    }
    best
}

} // verus!

use vstd::prelude::*;

use crate::nearest::{is_nearest, nearest_hit, no_hit};

verus! {

/// The number of bounces a camera ray may take before it is absorbed.
pub const MAX_DEPTH: usize = 10;

/// What the colour resolver does with a ray.
#[derive(Clone, Copy, Debug, PartialEq, Eq, Structural)]
pub enum Step {
    /// The bounce budget is spent: the ray contributes black.
    Absorb,
    /// The ray meets `primitive` first: scatter it there and resolve the
    /// scattered ray with the bounce budget `depth`.
    Bounce { primitive: usize, depth: usize },
    /// The ray escapes: it contributes the sky gradient.
    Sky,
}

/// One step of the recursive colour resolver, for a ray with `depth` bounces
/// left whose hits on the scene's primitives are `keys` (see `nearest_hit`).
/// Each bounce lowers the budget by one, so the recursion ends after at most
/// `depth` bounces whatever the scene.
pub fn resolve_step(depth: usize, keys: &Vec<Option<u64>>) -> (r: Step)
    ensures
        depth == 0 ==> r == Step::Absorb,
        depth > 0 && keys@.len() == 0 ==> r == Step::Sky,
        depth > 0 && no_hit(keys@) ==> r == Step::Sky,
        depth > 0 && !no_hit(keys@) ==> (r matches Step::Bounce { primitive, depth: next } && {
            &&& is_nearest(keys@, primitive as int)
            &&& next == depth - 1
        }),
{
    if depth == 0 {
        return Step::Absorb;
    }
    match nearest_hit(keys) {
        Some(primitive) => Step::Bounce { primitive, depth: depth - 1 },
        None => Step::Sky,
    }
}

} // verus!

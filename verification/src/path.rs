//! The shape of an inclusion path. The tree neither makes nor reads one.

use vstd::prelude::*;

verus! {

/// The side on which a sibling digest stands when it is combined with the
/// digest that a path has reached.
#[derive(Debug, Clone, Copy, PartialEq)]
pub enum HashDirection {
    Left,
    Right,
}

/// The sibling digests along the way from one leaf to the root, each with
/// its side.
#[derive(Debug, Default)]
pub struct Proof<'a> {
    hashes: Vec<(HashDirection, &'a crate::Hash)>,
}

} // verus!

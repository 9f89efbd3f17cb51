//! The arithmetic that the mesh construction is given.
//!
//! Coordinates, lengths, masses and compliances are scalars of a type `S` that the library only
//! carries. What is computed with them is passed in as closures. A [`MeshModel`] says what values
//! the closures compute; contracts that speak of such values hold for every model of the closures.

use vstd::prelude::*;

use crate::mesh_prep::sort::ranks;

verus! {

/// The operations on scalars, and the scalars that have a role of their own.
pub struct MeshOps<S, D, W, A, M, T, L, F, N> {
    pub zero: S,
    /// The start value of a maximum.
    pub lowest: S,
    /// The distance of two points.
    pub dist: D,
    /// The inverse mass that a triangle gives to each of its corners.
    pub mass_share: W,
    pub plus: A,
    pub larger: M,
    /// Whether a height counts as the top, of which the second argument is the height.
    pub at_top: T,
    /// Orders coordinates.
    pub le: L,
    /// Whether two coordinates are on different grid lines.
    pub far: F,
    /// Whether a grid line, the first argument, runs through a coordinate.
    pub near: N,
}

/// What the operations compute.
#[verifier::reject_recursive_types(S)]
pub struct MeshModel<S> {
    pub dist: spec_fn([S; 3], [S; 3]) -> S,
    pub mass_share: spec_fn([S; 3], [S; 3], [S; 3]) -> S,
    pub plus: spec_fn(S, S) -> S,
    pub larger: spec_fn(S, S) -> S,
    pub at_top: spec_fn(S, S) -> bool,
    /// `le` compares the members of `ordered` by rank.
    pub rank: spec_fn(S) -> int,
    pub ordered: Set<S>,
    pub far: spec_fn(S, S) -> bool,
    pub near: spec_fn(S, S) -> bool,
}

impl<
    S,
    D: Fn([S; 3], [S; 3]) -> S,
    W: Fn([S; 3], [S; 3], [S; 3]) -> S,
    A: Fn(S, S) -> S,
    M: Fn(S, S) -> S,
    T: Fn(S, S) -> bool,
    L: Fn(S, S) -> bool,
    F: Fn(S, S) -> bool,
    N: Fn(S, S) -> bool,
> MeshOps<S, D, W, A, M, T, L, F, N> {
    /// The operations accept all arguments.
    pub open spec fn total(&self) -> bool {
        &&& forall|a: [S; 3], b: [S; 3]| #[trigger] self.dist.requires((a, b))
        &&& forall|a: [S; 3], b: [S; 3], c: [S; 3]| #[trigger] self.mass_share.requires((a, b, c))
        &&& forall|a: S, b: S| #[trigger] self.plus.requires((a, b))
        &&& forall|a: S, b: S| #[trigger] self.larger.requires((a, b))
        &&& forall|a: S, b: S| #[trigger] self.at_top.requires((a, b))
        &&& forall|a: S, b: S| #[trigger] self.le.requires((a, b))
        &&& forall|a: S, b: S| #[trigger] self.far.requires((a, b))
        &&& forall|a: S, b: S| #[trigger] self.near.requires((a, b))
    }

    /// The operations compute what the model says.
    pub open spec fn computes(&self, m: MeshModel<S>) -> bool {
        &&& forall|a: [S; 3], b: [S; 3], r: S| #[trigger]
            self.dist.ensures((a, b), r) ==> r == (m.dist)(a, b)
        &&& forall|a: [S; 3], b: [S; 3], c: [S; 3], r: S| #[trigger]
            self.mass_share.ensures((a, b, c), r) ==> r == (m.mass_share)(a, b, c)
        &&& forall|a: S, b: S, r: S| #[trigger]
            self.plus.ensures((a, b), r) ==> r == (m.plus)(a, b)
        &&& forall|a: S, b: S, r: S| #[trigger]
            self.larger.ensures((a, b), r) ==> r == (m.larger)(a, b)
        &&& forall|a: S, b: S, r: bool| #[trigger]
            self.at_top.ensures((a, b), r) ==> r == (m.at_top)(a, b)
        &&& ranks(self.le, m.rank, m.ordered)
        &&& forall|a: S, b: S, r: bool| #[trigger]
            self.far.ensures((a, b), r) ==> r == (m.far)(a, b)
        &&& forall|a: S, b: S, r: bool| #[trigger]
            self.near.ensures((a, b), r) ==> r == (m.near)(a, b)
    }
}

} // verus!

//! Photon mapping: the kinds of photons and what a material may do with one.
use vstd::prelude::*;

verus! {

/// What a photon stands for.
#[derive(Clone, Copy, Debug, PartialEq, Eq, Structural)]
pub enum PhotonType {
    /// Light that reached a surface.
    Colour,
    /// A point in shadow behind a lit surface.
    Shadow,
    /// Light focused through a reflecting or refracting surface.
    Caustic,
    /// A ray from the viewer, traced like a photon.
    Vueon,
}

/// What happens to a photon where it hits a material.
#[derive(Clone, Copy, Debug, PartialEq, Eq, Structural)]
pub enum PhotonBehaviour {
    Absorb,
    Diffuse,
    Specular,
    ReflectOrRefract,
}

/// The material that shows a surface's normal as its colour, a debugging aid.
#[derive(Clone, Copy, Debug, PartialEq, Eq, Structural)]
pub struct FalseColour {}

impl FalseColour {
    pub fn new() -> (r: Self)
        ensures
            r == (FalseColour {}),
    {
        FalseColour {}
    }
}

} // verus!

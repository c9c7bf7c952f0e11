//! Settings of a material description that decide how its textures are read.

use vstd::prelude::*;

verus! {

/// Which normal map a clearcoat layer uses.
#[derive(Clone, Copy, Debug, Default, Eq, Hash, PartialEq, Structural)]
pub enum MaterialTomlClearcoatMode {
    /// Use a separate normal map for clearcoat.
    #[default]
    CustomNormal,
    /// Use the base texture's normal map.
    BaseNormal,
}

/// Which way the green channel of a normal map points.
#[derive(Clone, Copy, Debug, Default, Eq, Hash, PartialEq, Structural)]
pub enum MaterialTomlNormalsYDir {
    /// Good to go.
    #[default]
    OpenGL,
    /// Needs flipping.
    DirectX,
}

impl MaterialTomlNormalsYDir {
    /// Whether the Y axis of the normal map must be flipped.
    pub fn should_flip(self) -> (r: bool)
        ensures
            r == (self == MaterialTomlNormalsYDir::DirectX),
    {
        match self {
            MaterialTomlNormalsYDir::OpenGL => false,
            MaterialTomlNormalsYDir::DirectX => true,
        }
    }
}

} // verus!

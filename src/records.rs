use vstd::prelude::*;
use crate::string::{MaterialPropertyStr, Str};
use crate::texel::Texel;

verus! {

/// One node of the hierarchy as the importer hands it over. The transform is
/// a 4x4 matrix of IEEE-754 single-precision bit patterns in row-major order
/// (a1..a4, b1..b4, c1..c4, d1..d4).
pub struct Node {
    pub name: Str,
    pub transform: [u32; 16],
    pub parent: Option<usize>,
    pub mesh_indices: Vec<usize>,
}

/// A mesh, with the index of its material.
pub struct Mesh {
    pub name: Str,
    pub material_index: usize,
}

/// One key/value entry of a material.
pub struct MaterialProperty {
    pub key: MaterialPropertyStr,
    pub data: Vec<u8>,
}

/// A material: a bag of properties.
pub struct Material {
    pub properties: Vec<MaterialProperty>,
}

/// An uncompressed texture.
pub struct Texture {
    pub width: u32,
    pub height: u32,
    pub texels: Vec<Texel>,
}

/// A camera, known by name.
pub struct Camera {
    pub name: Str,
}

/// A light source, known by name.
pub struct Light {
    pub name: Str,
}

} // verus!

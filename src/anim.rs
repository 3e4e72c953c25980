use vstd::prelude::*;
use crate::string::Str;

verus! {

/// Animation channel that drives one node, named by the node's name.
pub struct NodeAnim {
    pub node_name: Str,
}

/// Vertex-based animation channel that drives one mesh, named by the mesh's name.
pub struct MeshAnim {
    pub mesh_name: Str,
}

/// Morph-target animation channel that drives one mesh, named by the mesh's name.
pub struct MeshMorphAnim {
    pub mesh_name: Str,
}

/// One animation. Its channel counts are the lengths of its channel vectors,
/// so they cannot diverge from them. Durations are IEEE-754 bit patterns.
pub struct Animation {
    pub name: Str,
    pub duration_bits: u64,
    pub ticks_per_second_bits: Option<u64>,
    pub channels: Vec<NodeAnim>,
    pub mesh_channels: Vec<MeshAnim>,
    pub morph_mesh_channels: Vec<MeshMorphAnim>,
}

impl Animation {
    /// Number of node channels.
    pub fn num_channels(&self) -> (r: usize)
        ensures
            r == self.channels@.len(),
    {
        self.channels.len()
    }

    /// Number of mesh channels.
    pub fn num_mesh_channels(&self) -> (r: usize)
        ensures
            r == self.mesh_channels@.len(),
    {
        self.mesh_channels.len()
    }

    /// Number of morph-mesh channels.
    pub fn num_morph_mesh_channels(&self) -> (r: usize)
        ensures
            r == self.morph_mesh_channels@.len(),
    {
        self.morph_mesh_channels.len()
    }
}

} // verus!

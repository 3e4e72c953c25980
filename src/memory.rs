use vstd::prelude::*;

verus! {

/// Per-category element counts of a scene. The total is not stored: it is
/// computed on read, so it cannot disagree with the categories.
#[derive(Clone, Copy, Debug, PartialEq, Eq, Structural)]
pub struct MemoryInfo {
    pub textures: u32,
    pub materials: u32,
    pub meshes: u32,
    pub nodes: u32,
    pub animations: u32,
    pub cameras: u32,
    pub lights: u32,
}

impl MemoryInfo {
    /// Sum of all categories.
    pub open spec fn total_spec(&self) -> int {
        self.textures + self.materials + self.meshes + self.nodes + self.animations
            + self.cameras + self.lights
    }

    /// A snapshot from its category counts.
    pub fn new(
        textures_uint: u32,
        materials_uint: u32,
        meshes_uint: u32,
        nodes_uint: u32,
        animations_uint: u32,
        cameras_uint: u32,
        lights_uint: u32,
    ) -> (m: MemoryInfo)
        ensures
            m.textures == textures_uint,
            m.materials == materials_uint,
            m.meshes == meshes_uint,
            m.nodes == nodes_uint,
            m.animations == animations_uint,
            m.cameras == cameras_uint,
            m.lights == lights_uint,
    {
        MemoryInfo {
            textures: textures_uint,
            materials: materials_uint,
            meshes: meshes_uint,
            nodes: nodes_uint,
            animations: animations_uint,
            cameras: cameras_uint,
            lights: lights_uint,
        }
    }

    /// Sum of all categories.
    pub fn total(&self) -> (r: u64)
        ensures
            r == self.total_spec(),
    {
        self.textures as u64 + self.materials as u64 + self.meshes as u64 + self.nodes as u64
            + self.animations as u64 + self.cameras as u64 + self.lights as u64
    }
}

} // verus!

use vstd::prelude::*;
use crate::anim::Animation;
use crate::hierarchy::{
    build_children, check_hierarchy, children_match, climbs, hierarchy_valid, is_root, offends,
    preorder, unique_root,
};
use crate::memory::MemoryInfo;
use crate::records::{Camera, Light, Material, Mesh, Node, Texture};
use crate::resolve::{
    animation_resolved, channel_unresolved, index_meshes, index_nodes, names_only, node_names,
    resolvable, resolve_animation, target_name, targets_match, ChannelKind, ChannelTargets,
    NameIndex,
};
use crate::string::{Str, MAX_COUNTER};

verus! {

/// Every mesh's material index addresses an existing material.
pub open spec fn materials_resolved(meshes: Seq<Mesh>, n_materials: nat) -> bool {
    forall|m: int| 0 <= m < meshes.len() ==> #[trigger] meshes[m].material_index < n_materials
}

/// Mesh `m` is the first whose material index addresses no material.
pub open spec fn first_dangling_mesh(meshes: Seq<Mesh>, n_materials: nat, m: int) -> bool {
    &&& 0 <= m < meshes.len()
    &&& meshes[m].material_index >= n_materials
    &&& forall|j: int| 0 <= j < m ==> #[trigger] meshes[j].material_index < n_materials
}

/// Every mesh index of the node addresses an existing mesh.
pub open spec fn node_refs_ok(node: Node, n_meshes: nat) -> bool {
    forall|k: int| 0 <= k < node.mesh_indices@.len() ==> #[trigger] node.mesh_indices@[k] < n_meshes
}

/// Every node's mesh indices address existing meshes.
pub open spec fn node_meshes_resolved(nodes: Seq<Node>, n_meshes: nat) -> bool {
    forall|i: int| 0 <= i < nodes.len() ==> #[trigger] node_refs_ok(nodes[i], n_meshes)
}

/// Node `i` is the first with a mesh index that addresses no mesh.
pub open spec fn first_dangling_node(nodes: Seq<Node>, n_meshes: nat, i: int) -> bool {
    &&& 0 <= i < nodes.len()
    &&& !node_refs_ok(nodes[i], n_meshes)
    &&& forall|j: int| 0 <= j < i ==> #[trigger] node_refs_ok(nodes[j], n_meshes)
}

/// Every channel of every animation names exactly one node or mesh.
pub open spec fn targets_resolved(animations: Seq<Animation>, nodes: Seq<Node>, meshes: Seq<Mesh>) -> bool {
    forall|a: int| 0 <= a < animations.len() ==> #[trigger] animation_resolved(animations[a], nodes, meshes)
}

/// All that assembly checks of its input.
pub open spec fn assembly_valid(
    meshes: Seq<Mesh>,
    n_materials: nat,
    animations: Seq<Animation>,
    nodes: Seq<Node>,
) -> bool {
    &&& hierarchy_valid(nodes)
    &&& materials_resolved(meshes, n_materials)
    &&& node_meshes_resolved(nodes, meshes.len())
    &&& targets_resolved(animations, nodes, meshes)
}

/// The entity behind a dangling index.
#[derive(Clone, Copy, Debug, PartialEq, Eq, Structural)]
pub enum RefOwner {
    /// A mesh whose material index addresses no material.
    Mesh(usize),
    /// A node with a mesh index that addresses no mesh.
    Node(usize),
}

/// Why a scene could not be assembled.
#[derive(Debug)]
pub enum AssembleError {
    /// The nodes do not form one tree; `node` witnesses it (0 when there is no node).
    MalformedHierarchy { node: usize },
    /// An index addresses no element of its collection.
    DanglingReference { owner: RefOwner },
    /// A channel names no node or mesh, or more than one.
    UnresolvedTarget { animation: usize, kind: ChannelKind, channel: usize, name: String },
}

/// What an assembly error says of the input: each check before the one that
/// failed passed, and the entity that the error names fails its check.
pub open spec fn error_explained(
    e: AssembleError,
    meshes: Seq<Mesh>,
    n_materials: nat,
    animations: Seq<Animation>,
    nodes: Seq<Node>,
) -> bool {
    match e {
        AssembleError::MalformedHierarchy { node } => !hierarchy_valid(nodes) && (nodes.len() == 0
            || offends(nodes, node as int)),
        AssembleError::DanglingReference { owner } => hierarchy_valid(nodes) && match owner {
            RefOwner::Mesh(m) => first_dangling_mesh(meshes, n_materials, m as int),
            RefOwner::Node(i) => materials_resolved(meshes, n_materials) && first_dangling_node(
                nodes,
                meshes.len(),
                i as int,
            ),
        },
        AssembleError::UnresolvedTarget { animation, kind, channel, name } => {
            &&& hierarchy_valid(nodes)
            &&& materials_resolved(meshes, n_materials)
            &&& node_meshes_resolved(nodes, meshes.len())
            &&& animation < animations.len()
            &&& channel_unresolved(animations[animation as int], nodes, meshes, kind, channel as int)
            &&& name@ == target_name(animations[animation as int], kind, channel as int)
        },
    }
}

/// A validated scene: one tree of nodes, and collections that every index
/// and every resolved name inside the scene addresses.
pub struct Scene {
    nodes: Vec<Node>,
    root: usize,
    children: Vec<Vec<usize>>,
    node_index: NameIndex,
    meshes: Vec<Mesh>,
    materials: Vec<Material>,
    animations: Vec<Animation>,
    targets: Vec<ChannelTargets>,
    textures: Vec<Texture>,
    cameras: Vec<Camera>,
    lights: Vec<Light>,
    memory: MemoryInfo,
}

impl Scene {
    pub closed spec fn nodes_view(&self) -> Seq<Node> {
        self.nodes@
    }

    pub closed spec fn root_view(&self) -> int {
        self.root as int
    }

    pub closed spec fn children_view(&self, i: int) -> Seq<usize> {
        self.children@[i]@
    }

    pub closed spec fn meshes_view(&self) -> Seq<Mesh> {
        self.meshes@
    }

    pub closed spec fn materials_view(&self) -> Seq<Material> {
        self.materials@
    }

    pub closed spec fn animations_view(&self) -> Seq<Animation> {
        self.animations@
    }

    pub closed spec fn targets_view(&self) -> Seq<ChannelTargets> {
        self.targets@
    }

    pub closed spec fn textures_view(&self) -> Seq<Texture> {
        self.textures@
    }

    pub closed spec fn cameras_view(&self) -> Seq<Camera> {
        self.cameras@
    }

    pub closed spec fn lights_view(&self) -> Seq<Light> {
        self.lights@
    }

    pub closed spec fn memory_view(&self) -> MemoryInfo {
        self.memory
    }

    /// The scene's invariant: its input passed every check, the root is the
    /// only parentless node, the child table mirrors the parent links, each
    /// animation's channels carry the index of their target, and the memory
    /// snapshot counts the final collections.
    pub closed spec fn wf(&self) -> bool {
        &&& assembly_valid(self.meshes@, self.materials@.len(), self.animations@, self.nodes@)
        &&& unique_root(self.nodes@, self.root as int)
        &&& children_match(self.nodes@, self.children@)
        &&& self.node_index.wf()
        &&& self.node_index.names() == node_names(self.nodes@)
        &&& self.targets@.len() == self.animations@.len()
        &&& forall|a: int|
            0 <= a < self.animations@.len() ==> targets_match(
                #[trigger] self.targets@[a],
                self.animations@[a],
                self.nodes@,
                self.meshes@,
            )
        &&& self.memory.textures == self.textures@.len()
        &&& self.memory.materials == self.materials@.len()
        &&& self.memory.meshes == self.meshes@.len()
        &&& self.memory.nodes == self.nodes@.len()
        &&& self.memory.animations == self.animations@.len()
        &&& self.memory.cameras == self.cameras@.len()
        &&& self.memory.lights == self.lights@.len()
    }
}

impl Scene {
    /// Index of the root node.
    pub fn root_index(&self) -> (r: usize)
        ensures
            r == self.root_view(),
    {
        self.root
    }

    /// Number of nodes.
    pub fn node_count(&self) -> (r: usize)
        ensures
            r == self.nodes_view().len(),
    {
        self.nodes.len()
    }

    /// Node `i`.
    pub fn node(&self, i: usize) -> (r: &Node)
        requires
            i < self.nodes_view().len(),
        ensures
            *r == self.nodes_view()[i as int],
    {
        &self.nodes[i]
    }

    /// Children of node `i`, in ascending order of index.
    pub fn children(&self, i: usize) -> (r: &Vec<usize>)
        requires
            self.wf(),
            i < self.nodes_view().len(),
        ensures
            r@ == self.children_view(i as int),
    {
        &self.children[i]
    }

    /// Number of meshes.
    pub fn mesh_count(&self) -> (r: usize)
        ensures
            r == self.meshes_view().len(),
    {
        self.meshes.len()
    }

    /// Mesh `i`.
    pub fn mesh(&self, i: usize) -> (r: &Mesh)
        requires
            i < self.meshes_view().len(),
        ensures
            *r == self.meshes_view()[i as int],
    {
        &self.meshes[i]
    }

    /// Number of materials.
    pub fn material_count(&self) -> (r: usize)
        ensures
            r == self.materials_view().len(),
    {
        self.materials.len()
    }

    /// Material `i`.
    pub fn material(&self, i: usize) -> (r: &Material)
        requires
            i < self.materials_view().len(),
        ensures
            *r == self.materials_view()[i as int],
    {
        &self.materials[i]
    }

    /// Number of animations.
    pub fn animation_count(&self) -> (r: usize)
        ensures
            r == self.animations_view().len(),
    {
        self.animations.len()
    }

    /// Animation `i`.
    pub fn animation(&self, i: usize) -> (r: &Animation)
        requires
            i < self.animations_view().len(),
        ensures
            *r == self.animations_view()[i as int],
    {
        &self.animations[i]
    }

    /// Index of the node that node channel `c` of animation `a` drives.
    pub fn node_channel_target(&self, a: usize, c: usize) -> (r: usize)
        requires
            self.wf(),
            a < self.animations_view().len(),
            c < self.animations_view()[a as int].channels@.len(),
        ensures
            names_only(
                node_names(self.nodes_view()),
                self.animations_view()[a as int].channels@[c as int].node_name@,
                r as int,
            ),
    {
        proof {
            assert(targets_match(self.targets@[a as int], self.animations@[a as int], self.nodes@, self.meshes@));
            assert(target_name(self.animations@[a as int], ChannelKind::Node, c as int)
                == self.animations@[a as int].channels@[c as int].node_name@);
            assert(crate::resolve::targets_of(self.targets@[a as int], ChannelKind::Node)
                == self.targets@[a as int].nodes@);
        }
        self.targets[a].nodes[c]
    }

    /// Index of the mesh that mesh channel `c` of animation `a` drives.
    pub fn mesh_channel_target(&self, a: usize, c: usize) -> (r: usize)
        requires
            self.wf(),
            a < self.animations_view().len(),
            c < self.animations_view()[a as int].mesh_channels@.len(),
        ensures
            names_only(
                crate::resolve::mesh_names(self.meshes_view()),
                self.animations_view()[a as int].mesh_channels@[c as int].mesh_name@,
                r as int,
            ),
    {
        proof {
            assert(targets_match(self.targets@[a as int], self.animations@[a as int], self.nodes@, self.meshes@));
            assert(target_name(self.animations@[a as int], ChannelKind::Mesh, c as int)
                == self.animations@[a as int].mesh_channels@[c as int].mesh_name@);
            assert(crate::resolve::targets_of(self.targets@[a as int], ChannelKind::Mesh)
                == self.targets@[a as int].meshes@);
        }
        self.targets[a].meshes[c]
    }

    /// Index of the mesh that morph-mesh channel `c` of animation `a` drives.
    pub fn morph_channel_target(&self, a: usize, c: usize) -> (r: usize)
        requires
            self.wf(),
            a < self.animations_view().len(),
            c < self.animations_view()[a as int].morph_mesh_channels@.len(),
        ensures
            names_only(
                crate::resolve::mesh_names(self.meshes_view()),
                self.animations_view()[a as int].morph_mesh_channels@[c as int].mesh_name@,
                r as int,
            ),
    {
        proof {
            assert(targets_match(self.targets@[a as int], self.animations@[a as int], self.nodes@, self.meshes@));
            assert(target_name(self.animations@[a as int], ChannelKind::MorphMesh, c as int)
                == self.animations@[a as int].morph_mesh_channels@[c as int].mesh_name@);
            assert(crate::resolve::targets_of(self.targets@[a as int], ChannelKind::MorphMesh)
                == self.targets@[a as int].morph_meshes@);
        }
        self.targets[a].morph_meshes[c]
    }

    /// The textures.
    pub fn textures(&self) -> (r: &Vec<Texture>)
        ensures
            r@ == self.textures_view(),
    {
        &self.textures
    }

    /// The cameras.
    pub fn cameras(&self) -> (r: &Vec<Camera>)
        ensures
            r@ == self.cameras_view(),
    {
        &self.cameras
    }

    /// The lights.
    pub fn lights(&self) -> (r: &Vec<Light>)
        ensures
            r@ == self.lights_view(),
    {
        &self.lights
    }

    /// The per-category counts of the scene.
    pub fn memory_info(&self) -> (r: MemoryInfo)
        ensures
            r == self.memory_view(),
    {
        self.memory
    }

    /// The node that alone bears `name` (exact, case-sensitive match), if
    /// exactly one does; answered from the index built at assembly.
    pub fn find_node(&self, name: &Str) -> (r: Option<usize>)
        requires
            self.wf(),
        ensures
            r matches Some(i) ==> names_only(node_names(self.nodes_view()), name@, i as int),
            r is None ==> !resolvable(node_names(self.nodes_view()), name@),
    {
        self.node_index.lookup(name)
    }

    /// Depth-first pre-order walk from the root, children in order: every node
    /// exactly once, the root first, each other node after its parent. The root
    /// is the one node without a parent.
    pub fn traverse(&self) -> (r: Vec<usize>)
        requires
            self.wf(),
        ensures
            r@.no_duplicates(),
            forall|k: int| 0 <= k < r@.len() ==> #[trigger] r@[k] < self.nodes_view().len(),
            forall|i: usize| i < self.nodes_view().len() ==> #[trigger] r@.contains(i),
            r@.len() > 0,
            r@[0] == self.root_view(),
            self.nodes_view()[r@[0] as int].parent is None,
            forall|k: int|
                0 < k < r@.len() ==> (#[trigger] self.nodes_view()[r@[k] as int]).parent is Some,
            forall|k: int|
                0 < k < r@.len() ==> exists|j: int|
                    0 <= j < k && self.nodes_view()[#[trigger] r@[k] as int].parent == Some(r@[j]),
    {
        let r = preorder(&self.nodes, &self.children, self.root);
        proof {
            assert(is_root(self.nodes@, self.root as int));
            assert forall|k: int|
                0 < k < r@.len() implies (#[trigger] self.nodes@[r@[k] as int]).parent is Some by {
                if self.nodes@[r@[k] as int].parent is None {
                    assert(is_root(self.nodes@, r@[k] as int));
                }
            }
        }
        r
    }
}

/// Every scene counts its collections exactly: the memory total is the sum
/// of the categories, and each category is the size of its collection.
pub proof fn lemma_memory_total(s: Scene)
    requires
        s.wf(),
    ensures
        s.memory_view().total_spec() == s.textures_view().len() + s.materials_view().len()
            + s.meshes_view().len() + s.nodes_view().len() + s.animations_view().len()
            + s.cameras_view().len() + s.lights_view().len(),
        s.memory_view().total_spec() == s.memory_view().textures + s.memory_view().materials
            + s.memory_view().meshes + s.memory_view().nodes + s.memory_view().animations
            + s.memory_view().cameras + s.memory_view().lights,
{
}

/// Where the node tree, the nodes' mesh indices and the channel targets are
/// sound, assembly succeeds exactly when every mesh's material index is below
/// the number of materials.
pub proof fn lemma_material_indices_decide(
    meshes: Seq<Mesh>,
    n_materials: nat,
    animations: Seq<Animation>,
    nodes: Seq<Node>,
)
    requires
        hierarchy_valid(nodes),
        node_meshes_resolved(nodes, meshes.len()),
        targets_resolved(animations, nodes, meshes),
    ensures
        assembly_valid(meshes, n_materials, animations, nodes) <==> materials_resolved(
            meshes,
            n_materials,
        ),
        !materials_resolved(meshes, n_materials) ==> exists|m: int|
            first_dangling_mesh(meshes, n_materials, m),
{
    if !materials_resolved(meshes, n_materials) {
        let bad = choose|m: int| 0 <= m < meshes.len() && !(#[trigger] meshes[m].material_index
            < n_materials);
        lemma_first_dangling_exists(meshes, n_materials, bad);
    }
}

/// A node channel whose target name no node bears makes assembly fail; where
/// the earlier checks pass, the error is an unresolved target.
pub proof fn lemma_missing_node_target(
    meshes: Seq<Mesh>,
    n_materials: nat,
    animations: Seq<Animation>,
    nodes: Seq<Node>,
    a: int,
    c: int,
)
    requires
        0 <= a < animations.len(),
        0 <= c < animations[a].channels@.len(),
        !node_names(nodes).contains(animations[a].channels@[c].node_name@),
    ensures
        !assembly_valid(meshes, n_materials, animations, nodes),
        channel_unresolved(animations[a], nodes, meshes, ChannelKind::Node, c),
{
    let names = node_names(nodes);
    let name = animations[a].channels@[c].node_name@;
    assert(target_name(animations[a], ChannelKind::Node, c) == name);
    if resolvable(names, name) {
        let w = choose|w: int| names_only(names, name, w);
        assert(names[w] == name);
    }
    assert(!animation_resolved(animations[a], nodes, meshes));
}

proof fn lemma_first_dangling_exists(meshes: Seq<Mesh>, n_materials: nat, bad: int)
    requires
        0 <= bad < meshes.len(),
        meshes[bad].material_index >= n_materials,
    ensures
        exists|m: int| first_dangling_mesh(meshes, n_materials, m),
    decreases bad,
{
    if forall|j: int| 0 <= j < bad ==> #[trigger] meshes[j].material_index < n_materials {
        assert(first_dangling_mesh(meshes, n_materials, bad));
    } else {
        let j = choose|j: int| 0 <= j < bad && !(#[trigger] meshes[j].material_index < n_materials);
        lemma_first_dangling_exists(meshes, n_materials, j);
    }
}

/// The first mesh whose material index addresses no material, if any.
fn find_dangling_mesh(meshes: &Vec<Mesh>, n_materials: usize) -> (r: Option<usize>)
    ensures
        r is None <==> materials_resolved(meshes@, n_materials as nat),
        r matches Some(m) ==> first_dangling_mesh(meshes@, n_materials as nat, m as int),
{
    let mut m: usize = 0;
    while m < meshes.len()
        invariant
            m <= meshes@.len(),
            forall|j: int| 0 <= j < m ==> #[trigger] meshes@[j].material_index < n_materials,
        decreases meshes@.len() - m,
    {
        if meshes[m].material_index >= n_materials {
            return Some(m);
        }
        m = m + 1;
    }
    None
}

/// Whether every mesh index of the node addresses an existing mesh.
fn node_refs_exec(node: &Node, n_meshes: usize) -> (r: bool)
    ensures
        r == node_refs_ok(*node, n_meshes as nat),
{
    let mut k: usize = 0;
    while k < node.mesh_indices.len()
        invariant
            k <= node.mesh_indices@.len(),
            forall|j: int| 0 <= j < k ==> #[trigger] node.mesh_indices@[j] < n_meshes,
        decreases node.mesh_indices@.len() - k,
    {
        if node.mesh_indices[k] >= n_meshes {
            return false;
        }
        k = k + 1;
    }
    true
}

/// The first node with a mesh index that addresses no mesh, if any.
fn find_dangling_node(nodes: &Vec<Node>, n_meshes: usize) -> (r: Option<usize>)
    ensures
        r is None <==> node_meshes_resolved(nodes@, n_meshes as nat),
        r matches Some(i) ==> first_dangling_node(nodes@, n_meshes as nat, i as int),
{
    let mut i: usize = 0;
    while i < nodes.len()
        invariant
            i <= nodes@.len(),
            forall|j: int| 0 <= j < i ==> #[trigger] node_refs_ok(nodes@[j], n_meshes as nat),
        decreases nodes@.len() - i,
    {
        if !node_refs_exec(&nodes[i], n_meshes) {
            return Some(i);
        }
        i = i + 1;
    }
    None
}

/// Resolves the channels of every animation through name indexes built once,
/// or reports the first channel that names no target or an ambiguous one.
fn resolve_all(
    animations: &Vec<Animation>,
    nodes: &Vec<Node>,
    meshes: &Vec<Mesh>,
    node_index: &NameIndex,
) -> (r: Result<Vec<ChannelTargets>, (usize, ChannelKind, usize)>)
    requires
        node_index.wf(),
        node_index.names() == node_names(nodes@),
    ensures
        r is Ok <==> targets_resolved(animations@, nodes@, meshes@),
        r matches Ok(t) ==> t@.len() == animations@.len() && forall|a: int|
            0 <= a < animations@.len() ==> targets_match(
                #[trigger] t@[a],
                animations@[a],
                nodes@,
                meshes@,
            ),
        r matches Err((a, kind, c)) ==> a < animations@.len() && channel_unresolved(
            animations@[a as int],
            nodes@,
            meshes@,
            kind,
            c as int,
        ),
{
    let mesh_index = index_meshes(meshes);
    let mut all: Vec<ChannelTargets> = Vec::new();
    let mut a: usize = 0;
    while a < animations.len()
        invariant
            a <= animations@.len(),
            node_index.wf(),
            node_index.names() == node_names(nodes@),
            mesh_index.wf(),
            mesh_index.names() == crate::resolve::mesh_names(meshes@),
            all@.len() == a,
            forall|j: int| 0 <= j < a ==> #[trigger] animation_resolved(animations@[j], nodes@, meshes@),
            forall|j: int|
                0 <= j < a ==> targets_match(#[trigger] all@[j], animations@[j], nodes@, meshes@),
        decreases animations@.len() - a,
    {
        match resolve_animation(
            &animations[a],
            Ghost(nodes@),
            Ghost(meshes@),
            node_index,
            &mesh_index,
        ) {
            Ok(t) => {
                all.push(t);
            },
            Err((kind, c)) => {
                assert(!animation_resolved(animations@[a as int], nodes@, meshes@));
                return Err((a, kind, c));
            },
        }
        a = a + 1;
    }
    Ok(all)
}

/// Builds a validated scene from an importer's flat records. Checks, in this
/// order: the nodes form one tree; every mesh's material exists; every node's
/// meshes exist; every animation channel names exactly one node or mesh. The
/// first failed check decides the error, and no scene is produced.
pub fn assemble(
    meshes: Vec<Mesh>,
    materials: Vec<Material>,
    animations: Vec<Animation>,
    textures: Vec<Texture>,
    cameras: Vec<Camera>,
    lights: Vec<Light>,
    nodes: Vec<Node>,
) -> (r: Result<Scene, AssembleError>)
    requires
        meshes@.len() <= MAX_COUNTER,
        materials@.len() <= MAX_COUNTER,
        animations@.len() <= MAX_COUNTER,
        textures@.len() <= MAX_COUNTER,
        cameras@.len() <= MAX_COUNTER,
        lights@.len() <= MAX_COUNTER,
        nodes@.len() <= MAX_COUNTER,
    ensures
        r is Ok <==> assembly_valid(meshes@, materials@.len(), animations@, nodes@),
        r matches Err(e) ==> error_explained(e, meshes@, materials@.len(), animations@, nodes@),
        r matches Ok(s) ==> {
            &&& s.wf()
            &&& s.nodes_view() == nodes@
            &&& s.meshes_view() == meshes@
            &&& s.materials_view() == materials@
            &&& s.animations_view() == animations@
            &&& s.textures_view() == textures@
            &&& s.cameras_view() == cameras@
            &&& s.lights_view() == lights@
        },
{
    let root = match check_hierarchy(&nodes) {
        Ok(root) => root,
        Err(node) => {
            return Err(AssembleError::MalformedHierarchy { node });
        },
    };
    proof {
        assert forall|i: int|
            0 <= i < nodes@.len() && #[trigger] nodes@[i].parent is Some implies nodes@[i].parent->0
            < nodes@.len() by {
            assert(climbs(nodes@, i, nodes@.len()));
        }
    }
    let children = build_children(&nodes);
    if let Some(m) = find_dangling_mesh(&meshes, materials.len()) {
        return Err(AssembleError::DanglingReference { owner: RefOwner::Mesh(m) });
    }
    if let Some(i) = find_dangling_node(&nodes, meshes.len()) {
        return Err(AssembleError::DanglingReference { owner: RefOwner::Node(i) });
    }
    let node_index = index_nodes(&nodes);
    let targets = match resolve_all(&animations, &nodes, &meshes, &node_index) {
        Ok(t) => t,
        Err((a, kind, c)) => {
            let target = match kind {
                ChannelKind::Node => &animations[a].channels[c].node_name,
                ChannelKind::Mesh => &animations[a].mesh_channels[c].mesh_name,
                ChannelKind::MorphMesh => &animations[a].morph_mesh_channels[c].mesh_name,
            };
            let name = target.decode();
            return Err(
                AssembleError::UnresolvedTarget { animation: a, kind, channel: c, name },
            );
        },
    };
    let memory = MemoryInfo::new(
        textures.len() as u32,
        materials.len() as u32,
        meshes.len() as u32,
        nodes.len() as u32,
        animations.len() as u32,
        cameras.len() as u32,
        lights.len() as u32,
    );
    Ok(
        Scene {
            nodes,
            root,
            children,
            node_index,
            meshes,
            materials,
            animations,
            targets,
            textures,
            cameras,
            lights,
            memory,
        },
    )
}

} // verus!

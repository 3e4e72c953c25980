use assimp_rs::anim::{Animation, MeshAnim, MeshMorphAnim, NodeAnim};
use assimp_rs::records::{Camera, Light, Material, Mesh, Node, Texture};
use assimp_rs::resolve::ChannelKind;
use assimp_rs::scene::{assemble, AssembleError, RefOwner, Scene};
use assimp_rs::string::Str;
use assimp_rs::texel::Texel;

fn identity() -> [u32; 16] {
    let one = 1.0f32.to_bits();
    let mut m = [0u32; 16];
    m[0] = one;
    m[5] = one;
    m[10] = one;
    m[15] = one;
    m
}

fn node(name: &str, parent: Option<usize>, meshes: Vec<usize>) -> Node {
    Node { name: Str::encode(name), transform: identity(), parent, mesh_indices: meshes }
}

fn mesh(name: &str, material_index: usize) -> Mesh {
    Mesh { name: Str::encode(name), material_index }
}

fn material() -> Material {
    Material { properties: Vec::new() }
}

fn animation(nodes: &[&str], meshes: &[&str], morphs: &[&str]) -> Animation {
    Animation {
        name: Str::encode("take"),
        duration_bits: 2.5f64.to_bits(),
        ticks_per_second_bits: Some(24.0f64.to_bits()),
        channels: nodes.iter().map(|n| NodeAnim { node_name: Str::encode(n) }).collect(),
        mesh_channels: meshes.iter().map(|n| MeshAnim { mesh_name: Str::encode(n) }).collect(),
        morph_mesh_channels: morphs.iter().map(|n| MeshMorphAnim { mesh_name: Str::encode(n) }).collect(),
    }
}

fn simple(nodes: Vec<Node>) -> Result<Scene, AssembleError> {
    assemble(Vec::new(), Vec::new(), Vec::new(), Vec::new(), Vec::new(), Vec::new(), nodes)
}

fn sample_nodes() -> Vec<Node> {
    vec![
        node("body", Some(2), vec![0]),
        node("arm", Some(0), vec![1]),
        node("root", None, vec![]),
        node("leg", Some(0), vec![]),
        node("hand", Some(1), vec![1]),
    ]
}

fn sample_scene() -> Scene {
    let tex = Texture { width: 1, height: 1, texels: vec![Texel::new(0, 0, 255, 255)] };
    assemble(
        vec![mesh("torso", 0), mesh("fingers", 1)],
        vec![material(), material()],
        vec![animation(&["arm", "hand"], &["torso"], &["fingers"])],
        vec![tex],
        vec![Camera { name: Str::encode("cam") }],
        vec![Light { name: Str::encode("sun") }, Light { name: Str::encode("fill") }],
        sample_nodes(),
    )
    .unwrap()
}

#[test]
fn valid_scene_assembles() {
    let s = sample_scene();
    assert_eq!(s.root_index(), 2);
    assert_eq!(s.node_count(), 5);
    assert_eq!(s.mesh_count(), 2);
    assert_eq!(s.material_count(), 2);
    assert_eq!(s.animation_count(), 1);
    assert_eq!(s.textures().len(), 1);
    assert_eq!(s.cameras().len(), 1);
    assert_eq!(s.lights().len(), 2);
    assert_eq!(s.node(1).name.decode(), "arm");
}

#[test]
fn traversal_visits_every_node_once() {
    let s = sample_scene();
    let order = s.traverse();
    assert_eq!(order, vec![2, 0, 1, 4, 3]);
    let roots: Vec<usize> = order.iter().copied().filter(|&i| s.node(i).parent.is_none()).collect();
    assert_eq!(roots, vec![2]);
}

#[test]
fn children_follow_parent_links() {
    let s = sample_scene();
    assert_eq!(s.children(2), &vec![0]);
    assert_eq!(s.children(0), &vec![1, 3]);
    assert_eq!(s.children(1), &vec![4]);
    assert!(s.children(4).is_empty());
}

#[test]
fn single_node_scene() {
    let s = simple(vec![node("only", None, vec![])]).unwrap();
    assert_eq!(s.traverse(), vec![0]);
    assert_eq!(s.memory_info().total(), 1);
}

#[test]
fn two_cycle_is_malformed() {
    let r = simple(vec![node("root", None, vec![]), node("a", Some(2), vec![]), node("b", Some(1), vec![])]);
    assert!(matches!(r, Err(AssembleError::MalformedHierarchy { node: 1 })));
}

#[test]
fn two_cycle_without_root_is_malformed() {
    let r = simple(vec![node("a", Some(1), vec![]), node("b", Some(0), vec![])]);
    assert!(matches!(r, Err(AssembleError::MalformedHierarchy { .. })));
}

#[test]
fn two_roots_are_malformed() {
    let r = simple(vec![node("a", None, vec![]), node("b", None, vec![])]);
    assert!(matches!(r, Err(AssembleError::MalformedHierarchy { node: 1 })));
}

#[test]
fn no_nodes_is_malformed() {
    let r = simple(Vec::new());
    assert!(matches!(r, Err(AssembleError::MalformedHierarchy { node: 0 })));
}

#[test]
fn self_parent_is_malformed() {
    let r = simple(vec![node("root", None, vec![]), node("loop", Some(1), vec![])]);
    assert!(matches!(r, Err(AssembleError::MalformedHierarchy { node: 1 })));
}

#[test]
fn parent_out_of_range_is_malformed() {
    let r = simple(vec![node("root", None, vec![]), node("lost", Some(7), vec![])]);
    assert!(matches!(r, Err(AssembleError::MalformedHierarchy { node: 1 })));
}

#[test]
fn dangling_material_names_the_mesh() {
    let r = assemble(
        vec![mesh("ok", 0), mesh("bad", 1)],
        vec![material()],
        Vec::new(),
        Vec::new(),
        Vec::new(),
        Vec::new(),
        vec![node("root", None, vec![0, 1])],
    );
    assert!(matches!(r, Err(AssembleError::DanglingReference { owner: RefOwner::Mesh(1) })));
}

#[test]
fn in_range_materials_assemble() {
    let r = assemble(
        vec![mesh("a", 0), mesh("b", 1), mesh("c", 1)],
        vec![material(), material()],
        Vec::new(),
        Vec::new(),
        Vec::new(),
        Vec::new(),
        vec![node("root", None, vec![0, 1, 2])],
    );
    assert!(r.is_ok());
}

#[test]
fn hierarchy_is_checked_before_materials() {
    let r = assemble(
        vec![mesh("bad", 3)],
        Vec::new(),
        Vec::new(),
        Vec::new(),
        Vec::new(),
        Vec::new(),
        vec![node("a", None, vec![]), node("b", None, vec![])],
    );
    assert!(matches!(r, Err(AssembleError::MalformedHierarchy { .. })));
}

#[test]
fn dangling_node_mesh_index_names_the_node() {
    let r = assemble(
        vec![mesh("m", 0)],
        vec![material()],
        Vec::new(),
        Vec::new(),
        Vec::new(),
        Vec::new(),
        vec![node("root", None, vec![0]), node("child", Some(0), vec![0, 1])],
    );
    assert!(matches!(r, Err(AssembleError::DanglingReference { owner: RefOwner::Node(1) })));
}

#[test]
fn unknown_channel_target_is_unresolved() {
    let r = assemble(
        Vec::new(),
        Vec::new(),
        vec![animation(&["root", "Elbow"], &[], &[])],
        Vec::new(),
        Vec::new(),
        Vec::new(),
        vec![node("root", None, vec![]), node("elbow", Some(0), vec![])],
    );
    match r {
        Err(AssembleError::UnresolvedTarget { animation, kind, channel, name }) => {
            assert_eq!(animation, 0);
            assert_eq!(kind, ChannelKind::Node);
            assert_eq!(channel, 1);
            assert_eq!(name, "Elbow");
        }
        _ => panic!("expected an unresolved target"),
    }
}

#[test]
fn ambiguous_channel_target_is_unresolved() {
    let r = assemble(
        Vec::new(),
        Vec::new(),
        vec![animation(&["twin"], &[], &[])],
        Vec::new(),
        Vec::new(),
        Vec::new(),
        vec![node("root", None, vec![]), node("twin", Some(0), vec![]), node("twin", Some(0), vec![])],
    );
    assert!(matches!(r, Err(AssembleError::UnresolvedTarget { channel: 0, .. })));
}

#[test]
fn unknown_morph_target_is_unresolved() {
    let r = assemble(
        vec![mesh("face", 0)],
        vec![material()],
        vec![animation(&[], &["face"], &["face", "brow"])],
        Vec::new(),
        Vec::new(),
        Vec::new(),
        vec![node("root", None, vec![0])],
    );
    match r {
        Err(AssembleError::UnresolvedTarget { kind, channel, name, .. }) => {
            assert_eq!(kind, ChannelKind::MorphMesh);
            assert_eq!(channel, 1);
            assert_eq!(name, "brow");
        }
        _ => panic!("expected an unresolved target"),
    }
}

#[test]
fn channel_targets_resolve_to_indices() {
    let s = sample_scene();
    assert_eq!(s.node_channel_target(0, 0), 1);
    assert_eq!(s.node_channel_target(0, 1), 4);
    assert_eq!(s.mesh_channel_target(0, 0), 0);
    assert_eq!(s.morph_channel_target(0, 0), 1);
    assert_eq!(s.animation(0).num_channels(), 2);
    assert_eq!(s.animation(0).num_mesh_channels(), 1);
    assert_eq!(s.animation(0).num_morph_mesh_channels(), 1);
}

#[test]
fn find_node_by_exact_name() {
    let s = sample_scene();
    assert_eq!(s.find_node(&Str::encode("leg")), Some(3));
    assert_eq!(s.find_node(&Str::encode("Leg")), None);
    assert_eq!(s.find_node(&Str::encode("le")), None);
}

#[test]
fn memory_info_counts_collections() {
    let s = sample_scene();
    let m = s.memory_info();
    assert_eq!(m.textures, 1);
    assert_eq!(m.materials, 2);
    assert_eq!(m.meshes, 2);
    assert_eq!(m.nodes, 5);
    assert_eq!(m.animations, 1);
    assert_eq!(m.cameras, 1);
    assert_eq!(m.lights, 2);
    assert_eq!(m.total(), 14);
}

#[test]
fn mesh_and_material_lookup() {
    let s = sample_scene();
    assert_eq!(s.mesh(1).material_index, 1);
    assert_eq!(s.mesh(0).name.decode(), "torso");
    assert!(s.material(0).properties.is_empty());
}

#[test]
fn ambiguous_mesh_target_is_unresolved() {
    let r = assemble(
        vec![mesh("lod", 0), mesh("lod", 0)],
        vec![material()],
        vec![animation(&[], &["lod"], &[])],
        Vec::new(),
        Vec::new(),
        Vec::new(),
        vec![node("root", None, vec![0, 1])],
    );
    match r {
        Err(AssembleError::UnresolvedTarget { kind, channel, name, .. }) => {
            assert_eq!(kind, ChannelKind::Mesh);
            assert_eq!(channel, 0);
            assert_eq!(name, "lod");
        }
        _ => panic!("expected an unresolved target"),
    }
}

#[test]
fn find_node_with_shared_name_is_none() {
    let s = simple(vec![
        node("root", None, vec![]),
        node("twin", Some(0), vec![]),
        node("twin", Some(0), vec![]),
        node("third", Some(1), vec![]),
    ])
    .unwrap();
    assert_eq!(s.find_node(&Str::encode("twin")), None);
    assert_eq!(s.find_node(&Str::encode("third")), Some(3));
    assert_eq!(s.traverse(), vec![0, 1, 3, 2]);
}

#[test]
fn deep_chain_traverses_in_parent_order() {
    let mut nodes = vec![node("n0", None, vec![])];
    for i in 1..200 {
        nodes.push(node(&format!("n{}", i), Some(i - 1), vec![]));
    }
    let s = simple(nodes).unwrap();
    let order = s.traverse();
    assert_eq!(order, (0..200).collect::<Vec<usize>>());
    assert_eq!(s.find_node(&Str::encode("n150")), Some(150));
}

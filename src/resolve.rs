use vstd::prelude::*;
use crate::anim::Animation;
use crate::records::{Mesh, Node};
use crate::string::Str;
use vstd::hash_map::StringHashMap;

verus! {

/// Names of the nodes, in order.
pub open spec fn node_names(nodes: Seq<Node>) -> Seq<Seq<char>> {
    nodes.map_values(|n: Node| n.name@)
}

/// Names of the meshes, in order.
pub open spec fn mesh_names(meshes: Seq<Mesh>) -> Seq<Seq<char>> {
    meshes.map_values(|m: Mesh| m.name@)
}

/// Entry `i` is `name`, exactly, and no other entry is.
pub open spec fn names_only(names: Seq<Seq<char>>, name: Seq<char>, i: int) -> bool {
    &&& 0 <= i < names.len()
    &&& names[i] == name
    &&& forall|j: int| 0 <= j < names.len() && j != i ==> #[trigger] names[j] != name
}

/// Exactly one entry is `name`.
pub open spec fn resolvable(names: Seq<Seq<char>>, name: Seq<char>) -> bool {
    exists|i: int| names_only(names, name, i)
}

/// Which collection of an animation a channel belongs to.
#[derive(Clone, Copy, Debug, PartialEq, Eq, Structural)]
pub enum ChannelKind {
    Node,
    Mesh,
    MorphMesh,
}

/// Number of channels of the given kind.
pub open spec fn channel_count(a: Animation, kind: ChannelKind) -> nat {
    match kind {
        ChannelKind::Node => a.channels@.len(),
        ChannelKind::Mesh => a.mesh_channels@.len(),
        ChannelKind::MorphMesh => a.morph_mesh_channels@.len(),
    }
}

/// The name that channel `c` of the given kind targets.
pub open spec fn target_name(a: Animation, kind: ChannelKind, c: int) -> Seq<char> {
    match kind {
        ChannelKind::Node => a.channels@[c].node_name@,
        ChannelKind::Mesh => a.mesh_channels@[c].mesh_name@,
        ChannelKind::MorphMesh => a.morph_mesh_channels@[c].mesh_name@,
    }
}

/// The names among which channels of the given kind are looked up.
pub open spec fn target_names(nodes: Seq<Node>, meshes: Seq<Mesh>, kind: ChannelKind) -> Seq<
    Seq<char>,
> {
    match kind {
        ChannelKind::Node => node_names(nodes),
        _ => mesh_names(meshes),
    }
}

/// Channel `c` of the given kind names no target, or an ambiguous one.
pub open spec fn channel_unresolved(
    a: Animation,
    nodes: Seq<Node>,
    meshes: Seq<Mesh>,
    kind: ChannelKind,
    c: int,
) -> bool {
    &&& 0 <= c < channel_count(a, kind)
    &&& !resolvable(target_names(nodes, meshes, kind), target_name(a, kind, c))
}

/// Every channel of the animation names exactly one node or mesh.
pub open spec fn animation_resolved(a: Animation, nodes: Seq<Node>, meshes: Seq<Mesh>) -> bool {
    forall|kind: ChannelKind, c: int|
        0 <= c < channel_count(a, kind) ==> resolvable(
            target_names(nodes, meshes, kind),
            #[trigger] target_name(a, kind, c),
        )
}

/// The target indices of one animation, one per channel.
pub struct ChannelTargets {
    pub nodes: Vec<usize>,
    pub meshes: Vec<usize>,
    pub morph_meshes: Vec<usize>,
}

/// Target indices of the given kind.
pub open spec fn targets_of(t: ChannelTargets, kind: ChannelKind) -> Seq<usize> {
    match kind {
        ChannelKind::Node => t.nodes@,
        ChannelKind::Mesh => t.meshes@,
        ChannelKind::MorphMesh => t.morph_meshes@,
    }
}

/// Each channel's stored index is the one entry that bears its target's name.
pub open spec fn targets_match(
    t: ChannelTargets,
    a: Animation,
    nodes: Seq<Node>,
    meshes: Seq<Mesh>,
) -> bool {
    forall|kind: ChannelKind|
        {
            &&& (#[trigger] targets_of(t, kind)).len() == channel_count(a, kind)
            &&& forall|c: int|
                0 <= c < channel_count(a, kind) ==> names_only(
                    target_names(nodes, meshes, kind),
                    target_name(a, kind, c),
                    #[trigger] targets_of(t, kind)[c] as int,
                )
        }
}

/// Appending a name leaves what is said of every other name as it was.
proof fn lemma_push_other(ns: Seq<Seq<char>>, n: Seq<char>, s: Seq<char>)
    requires
        s != n,
    ensures
        forall|k: int| names_only(ns, s, k) ==> names_only(ns.push(n), s, k),
        !resolvable(ns, s) ==> !resolvable(ns.push(n), s),
        ns.contains(s) <==> ns.push(n).contains(s),
{
    let ns2 = ns.push(n);
    assert forall|k: int| names_only(ns, s, k) implies names_only(ns2, s, k) by {
        assert forall|j: int| 0 <= j < ns2.len() && j != k implies #[trigger] ns2[j] != s by {
            if j < ns.len() {
                assert(ns2[j] == ns[j]);
            }
        }
    }
    if !resolvable(ns, s) && resolvable(ns2, s) {
        let w = choose|w: int| names_only(ns2, s, w);
        assert(w != ns.len());
        assert forall|j: int| 0 <= j < ns.len() && j != w implies #[trigger] ns[j] != s by {
            assert(ns2[j] == ns[j]);
        }
        assert(names_only(ns, s, w));
    }
    if ns2.contains(s) {
        let w = choose|w: int| 0 <= w < ns2.len() && ns2[w] == s;
        assert(w != ns.len());
        assert(ns[w] == s);
    }
    if ns.contains(s) {
        let w = choose|w: int| 0 <= w < ns.len() && ns[w] == s;
        assert(ns2[w] == s);
    }
}

/// A name seen for the first time is borne by the new last position alone.
proof fn lemma_push_fresh(ns: Seq<Seq<char>>, n: Seq<char>)
    requires
        !ns.contains(n),
    ensures
        names_only(ns.push(n), n, ns.len() as int),
{
    let ns2 = ns.push(n);
    assert forall|j: int| 0 <= j < ns2.len() && j != ns.len() implies #[trigger] ns2[j] != n by {
        assert(ns2[j] == ns[j]);
    }
}

/// A name seen before is borne by two positions once appended again.
proof fn lemma_push_repeat(ns: Seq<Seq<char>>, n: Seq<char>)
    requires
        ns.contains(n),
    ensures
        !resolvable(ns.push(n), n),
{
    let ns2 = ns.push(n);
    let j = choose|j: int| 0 <= j < ns.len() && ns[j] == n;
    assert(ns2[j] == n);
    assert(ns2[ns.len() as int] == n);
    assert forall|w: int| !names_only(ns2, n, w) by {
        if names_only(ns2, n, w) {
            if w == j {
                assert(ns2[ns.len() as int] != n);
            } else {
                assert(ns2[j] != n);
            }
        }
    }
}

/// An index from name to position, built once: each name maps to the one
/// position that bears it, or to `None` where several do.
pub struct NameIndex {
    map: StringHashMap<Option<usize>>,
    names: Ghost<Seq<Seq<char>>>,
}

impl NameIndex {
    /// The names indexed, by position.
    pub closed spec fn names(&self) -> Seq<Seq<char>> {
        self.names@
    }

    /// Exactly the indexed names are keys, and each key's entry tells whether
    /// and where the name resolves.
    pub closed spec fn wf(&self) -> bool {
        &&& forall|s: Seq<char>| #[trigger] self.map@.contains_key(s) <==> self.names@.contains(s)
        &&& forall|s: Seq<char>|
            #[trigger] self.map@.contains_key(s) ==> match self.map@[s] {
                Some(k) => names_only(self.names@, s, k as int),
                None => !resolvable(self.names@, s),
            }
    }

    /// An index of no names.
    pub fn new() -> (r: NameIndex)
        ensures
            r.wf(),
            r.names() == Seq::<Seq<char>>::empty(),
    {
        NameIndex { map: StringHashMap::new(), names: Ghost(Seq::empty()) }
    }

    /// Records that position `i`, the next one, bears `name`.
    pub fn add(&mut self, name: &Str, i: usize)
        requires
            old(self).wf(),
            i == old(self).names().len(),
        ensures
            final(self).wf(),
            final(self).names() == old(self).names().push(name@),
    {
        let ghost ns = self.names@;
        let ghost n = name@;
        let ghost m0 = self.map@;
        let key = name.decode();
        let seen = self.map.contains_key(key.as_str());
        if seen {
            self.map.insert(key, None);
        } else {
            self.map.insert(key, Some(i));
        }
        self.names = Ghost(ns.push(n));
        proof {
            let ns2 = ns.push(n);
            assert(ns2[i as int] == n);
            if seen {
                lemma_push_repeat(ns, n);
            } else {
                lemma_push_fresh(ns, n);
            }
            assert forall|s: Seq<char>| #[trigger] self.map@.contains_key(s) <==> ns2.contains(s) by {
                if s != n {
                    lemma_push_other(ns, n, s);
                }
            }
            assert forall|s: Seq<char>|
                #[trigger] self.map@.contains_key(s) implies match self.map@[s] {
                    Some(k) => names_only(ns2, s, k as int),
                    None => !resolvable(ns2, s),
                } by {
                if s != n {
                    lemma_push_other(ns, n, s);
                    assert(m0.contains_key(s));
                    assert(self.map@[s] == m0[s]);
                }
            }
        }
    }

    /// The position that alone bears `name`, if exactly one does.
    pub fn lookup(&self, name: &Str) -> (r: Option<usize>)
        requires
            self.wf(),
        ensures
            r matches Some(k) ==> names_only(self.names(), name@, k as int),
            r is None ==> !resolvable(self.names(), name@),
    {
        let key = name.decode();
        match self.map.get(key.as_str()) {
            Some(v) => *v,
            None => {
                proof {
                    if resolvable(self.names@, name@) {
                        let w = choose|w: int| names_only(self.names@, name@, w);
                        assert(self.names@[w] == name@);
                        assert(self.names@.contains(name@));
                    }
                }
                None
            },
        }
    }
}

/// Indexes the nodes by name.
pub fn index_nodes(nodes: &Vec<Node>) -> (r: NameIndex)
    ensures
        r.wf(),
        r.names() == node_names(nodes@),
{
    let mut idx = NameIndex::new();
    let mut i: usize = 0;
    while i < nodes.len()
        invariant
            i <= nodes@.len(),
            idx.wf(),
            idx.names() == node_names(nodes@).take(i as int),
        decreases nodes@.len() - i,
    {
        idx.add(&nodes[i].name, i);
        i = i + 1;
        assert(idx.names() =~= node_names(nodes@).take(i as int));
    }
    assert(node_names(nodes@).take(i as int) =~= node_names(nodes@));
    idx
}

/// Indexes the meshes by name.
pub fn index_meshes(meshes: &Vec<Mesh>) -> (r: NameIndex)
    ensures
        r.wf(),
        r.names() == mesh_names(meshes@),
{
    let mut idx = NameIndex::new();
    let mut i: usize = 0;
    while i < meshes.len()
        invariant
            i <= meshes@.len(),
            idx.wf(),
            idx.names() == mesh_names(meshes@).take(i as int),
        decreases meshes@.len() - i,
    {
        idx.add(&meshes[i].name, i);
        i = i + 1;
        assert(idx.names() =~= mesh_names(meshes@).take(i as int));
    }
    assert(mesh_names(meshes@).take(i as int) =~= mesh_names(meshes@));
    idx
}

/// Resolves every channel of one animation to the index of the entry that
/// alone bears its target's name, or reports the first channel that cannot be.
pub fn resolve_animation(
    a: &Animation,
    nodes: Ghost<Seq<Node>>,
    meshes: Ghost<Seq<Mesh>>,
    node_index: &NameIndex,
    mesh_index: &NameIndex,
) -> (r: Result<ChannelTargets, (ChannelKind, usize)>)
    requires
        node_index.wf(),
        node_index.names() == node_names(nodes@),
        mesh_index.wf(),
        mesh_index.names() == mesh_names(meshes@),
    ensures
        r is Ok <==> animation_resolved(*a, nodes@, meshes@),
        r matches Ok(t) ==> targets_match(t, *a, nodes@, meshes@),
        r matches Err((kind, c)) ==> channel_unresolved(*a, nodes@, meshes@, kind, c as int),
{
    let mut tn: Vec<usize> = Vec::new();
    let mut c: usize = 0;
    while c < a.channels.len()
        invariant
            c <= a.channels@.len(),
            tn@.len() == c,
            node_index.wf(),
            node_index.names() == node_names(nodes@),
            mesh_index.wf(),
            mesh_index.names() == mesh_names(meshes@),
            forall|k: int|
                0 <= k < c ==> names_only(
                    node_names(nodes@),
                    target_name(*a, ChannelKind::Node, k),
                    #[trigger] tn@[k] as int,
                ),
        decreases a.channels@.len() - c,
    {
        match node_index.lookup(&a.channels[c].node_name) {
            Some(i) => {
                tn.push(i);
            },
            None => {
                assert(!resolvable(
                    target_names(nodes@, meshes@, ChannelKind::Node),
                    target_name(*a, ChannelKind::Node, c as int),
                ));
                return Err((ChannelKind::Node, c));
            },
        }
        c = c + 1;
    }
    let mut tm: Vec<usize> = Vec::new();
    let mut c: usize = 0;
    while c < a.mesh_channels.len()
        invariant
            c <= a.mesh_channels@.len(),
            tm@.len() == c,
            node_index.wf(),
            node_index.names() == node_names(nodes@),
            mesh_index.wf(),
            mesh_index.names() == mesh_names(meshes@),
            forall|k: int|
                0 <= k < c ==> names_only(
                    mesh_names(meshes@),
                    target_name(*a, ChannelKind::Mesh, k),
                    #[trigger] tm@[k] as int,
                ),
        decreases a.mesh_channels@.len() - c,
    {
        match mesh_index.lookup(&a.mesh_channels[c].mesh_name) {
            Some(i) => {
                tm.push(i);
            },
            None => {
                assert(!resolvable(
                    target_names(nodes@, meshes@, ChannelKind::Mesh),
                    target_name(*a, ChannelKind::Mesh, c as int),
                ));
                return Err((ChannelKind::Mesh, c));
            },
        }
        c = c + 1;
    }
    let mut tmm: Vec<usize> = Vec::new();
    let mut c: usize = 0;
    while c < a.morph_mesh_channels.len()
        invariant
            c <= a.morph_mesh_channels@.len(),
            tmm@.len() == c,
            node_index.wf(),
            node_index.names() == node_names(nodes@),
            mesh_index.wf(),
            mesh_index.names() == mesh_names(meshes@),
            forall|k: int|
                0 <= k < c ==> names_only(
                    mesh_names(meshes@),
                    target_name(*a, ChannelKind::MorphMesh, k),
                    #[trigger] tmm@[k] as int,
                ),
        decreases a.morph_mesh_channels@.len() - c,
    {
        match mesh_index.lookup(&a.morph_mesh_channels[c].mesh_name) {
            Some(i) => {
                tmm.push(i);
            },
            None => {
                assert(!resolvable(
                    target_names(nodes@, meshes@, ChannelKind::MorphMesh),
                    target_name(*a, ChannelKind::MorphMesh, c as int),
                ));
                return Err((ChannelKind::MorphMesh, c));
            },
        }
        c = c + 1;
    }
    let t = ChannelTargets { nodes: tn, meshes: tm, morph_meshes: tmm };
    assert forall|kind: ChannelKind, k: int|
        0 <= k < channel_count(*a, kind) implies resolvable(
        target_names(nodes@, meshes@, kind),
        #[trigger] target_name(*a, kind, k),
    ) by {
        assert(names_only(
            target_names(nodes@, meshes@, kind),
            target_name(*a, kind, k),
            targets_of(t, kind)[k] as int,
        ));
    }
    Ok(t)
}

} // verus!

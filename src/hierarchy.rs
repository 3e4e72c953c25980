use vstd::prelude::*;
use crate::records::Node;

verus! {

/// Node `i` exists and declares no parent.
pub open spec fn is_root(nodes: Seq<Node>, i: int) -> bool {
    0 <= i < nodes.len() && nodes[i].parent is None
}

/// `r` is a root and no other node is one.
pub open spec fn unique_root(nodes: Seq<Node>, r: int) -> bool {
    &&& is_root(nodes, r)
    &&& forall|j: int| #[trigger] is_root(nodes, j) ==> j == r
}

/// Following parent links from node `i` reaches a node without a parent in at
/// most `fuel` steps, never leaving the node list.
pub open spec fn climbs(nodes: Seq<Node>, i: int, fuel: nat) -> bool
    decreases fuel,
{
    match nodes[i].parent {
        None => true,
        Some(p) => fuel > 0 && p < nodes.len() && climbs(nodes, p as int, (fuel - 1) as nat),
    }
}

/// The nodes form one tree: exactly one root, and from every node the parent
/// links lead to it. A cycle never reaches a parentless node, and a path to the
/// root visits each node at most once, so `nodes.len()` steps suffice.
pub open spec fn hierarchy_valid(nodes: Seq<Node>) -> bool {
    &&& exists|r: int| unique_root(nodes, r)
    &&& forall|i: int| 0 <= i < nodes.len() ==> #[trigger] climbs(nodes, i, nodes.len())
}

/// Node `i` is a witness against the tree shape: it never reaches a root, or
/// it is a root and an earlier node is one too.
pub open spec fn offends(nodes: Seq<Node>, i: int) -> bool {
    &&& 0 <= i < nodes.len()
    &&& !climbs(nodes, i, nodes.len()) || (is_root(nodes, i) && exists|j: int|
        0 <= j < i && #[trigger] is_root(nodes, j))
}

/// A node that climbs reaches some root, so without a root nothing climbs.
pub proof fn lemma_climb_finds_root(nodes: Seq<Node>, i: int, fuel: nat)
    requires
        0 <= i < nodes.len(),
        climbs(nodes, i, fuel),
    ensures
        exists|r: int| is_root(nodes, r),
    decreases fuel,
{
    match nodes[i].parent {
        None => {
            assert(is_root(nodes, i));
        },
        Some(p) => {
            lemma_climb_finds_root(nodes, p as int, (fuel - 1) as nat);
        },
    }
}

/// Neither node of a 2-cycle ever climbs to a root.
proof fn lemma_two_cycle_never_climbs(nodes: Seq<Node>, a: usize, b: usize, fuel: nat)
    requires
        a < nodes.len(),
        b < nodes.len(),
        nodes[a as int].parent == Some(b),
        nodes[b as int].parent == Some(a),
    ensures
        !climbs(nodes, a as int, fuel),
        !climbs(nodes, b as int, fuel),
    decreases fuel,
{
    if fuel > 0 {
        lemma_two_cycle_never_climbs(nodes, a, b, (fuel - 1) as nat);
    }
}

/// A hierarchy in which two nodes are each other's parent is not a tree.
pub proof fn lemma_two_cycle_malformed(nodes: Seq<Node>, a: usize, b: usize)
    requires
        a < nodes.len(),
        b < nodes.len(),
        nodes[a as int].parent == Some(b),
        nodes[b as int].parent == Some(a),
    ensures
        !hierarchy_valid(nodes),
{
    lemma_two_cycle_never_climbs(nodes, a, b, nodes.len());
}

/// A hierarchy with two nodes that declare no parent is not a tree.
pub proof fn lemma_two_roots_malformed(nodes: Seq<Node>, a: int, b: int)
    requires
        a != b,
        is_root(nodes, a),
        is_root(nodes, b),
    ensures
        !hierarchy_valid(nodes),
{
    if hierarchy_valid(nodes) {
        let r = choose|r: int| unique_root(nodes, r);
        assert(a == r && b == r);
    }
}

/// Whether parent links from node `i` reach a parentless node within
/// `nodes.len()` steps.
fn climbs_exec(nodes: &Vec<Node>, i: usize) -> (r: bool)
    requires
        i < nodes@.len(),
    ensures
        r == climbs(nodes@, i as int, nodes@.len()),
{
    let n = nodes.len();
    let mut cur = i;
    let mut fuel = n;
    loop
        invariant
            n == nodes@.len(),
            cur < n,
            fuel <= n,
            climbs(nodes@, i as int, n as nat) == climbs(nodes@, cur as int, fuel as nat),
        decreases fuel,
    {
        match nodes[cur].parent {
            None => {
                return true;
            },
            Some(p) => {
                if fuel == 0 || p >= n {
                    return false;
                }
                cur = p;
                fuel = fuel - 1;
            },
        }
    }
}

/// Checks the tree shape. Returns the root, or a node that witnesses the
/// failure (node 0 when there is no root at all).
pub fn check_hierarchy(nodes: &Vec<Node>) -> (r: Result<usize, usize>)
    ensures
        r is Ok <==> hierarchy_valid(nodes@),
        r matches Ok(root) ==> unique_root(nodes@, root as int),
        r matches Err(i) ==> nodes@.len() == 0 || offends(nodes@, i as int),
{
    let n = nodes.len();
    let mut root: Option<usize> = None;
    let mut i: usize = 0;
    while i < n
        invariant
            n == nodes@.len(),
            i <= n,
            root matches Some(r) ==> r < i && is_root(nodes@, r as int) && forall|j: int|
                0 <= j < i && #[trigger] is_root(nodes@, j) ==> j == r,
            root is None ==> forall|j: int| 0 <= j < i ==> !#[trigger] is_root(nodes@, j),
        decreases n - i,
    {
        if nodes[i].parent.is_none() {
            match root {
                Some(r) => {
                    assert(is_root(nodes@, r as int));
                    proof {
                        if hierarchy_valid(nodes@) {
                            let w = choose|w: int| unique_root(nodes@, w);
                            assert(is_root(nodes@, i as int));
                        }
                    }
                    return Err(i);
                },
                None => {
                    root = Some(i);
                },
            }
        }
        i = i + 1;
    }
    let r = match root {
        None => {
            proof {
                if n > 0 && climbs(nodes@, 0, n as nat) {
                    lemma_climb_finds_root(nodes@, 0, n as nat);
                }
                if hierarchy_valid(nodes@) {
                    let w = choose|w: int| unique_root(nodes@, w);
                    assert(is_root(nodes@, w));
                }
            }
            return Err(0);
        },
        Some(r) => r,
    };
    let mut k: usize = 0;
    while k < n
        invariant
            n == nodes@.len(),
            k <= n,
            unique_root(nodes@, r as int),
            forall|j: int| 0 <= j < k ==> #[trigger] climbs(nodes@, j, n as nat),
        decreases n - k,
    {
        if !climbs_exec(nodes, k) {
            return Err(k);
        }
        k = k + 1;
    }
    Ok(r)
}

/// The child table of a node list: entry `p` lists, in ascending order, the
/// nodes whose parent is `p`.
pub open spec fn children_match(nodes: Seq<Node>, children: Seq<Vec<usize>>) -> bool {
    &&& children.len() == nodes.len()
    &&& forall|p: int, k: int|
        0 <= p < children.len() && 0 <= k < children[p]@.len() ==> {
            &&& (#[trigger] children[p]@[k]) < nodes.len()
            &&& nodes[children[p]@[k] as int].parent == Some(p as usize)
        }
    &&& forall|i: int|
        0 <= i < nodes.len() && #[trigger] nodes[i].parent is Some ==> {
            let p = nodes[i].parent->0 as int;
            0 <= p < children.len() && children[p]@.contains(i as usize)
        }
}

/// Builds the child table of a node list whose parent links stay in range.
pub fn build_children(nodes: &Vec<Node>) -> (r: Vec<Vec<usize>>)
    requires
        forall|i: int|
            0 <= i < nodes@.len() && #[trigger] nodes@[i].parent is Some ==> nodes@[i].parent->0
                < nodes@.len(),
    ensures
        children_match(nodes@, r@),
{
    let n = nodes.len();
    let mut r: Vec<Vec<usize>> = Vec::new();
    let mut j: usize = 0;
    while j < n
        invariant
            n == nodes@.len(),
            j <= n,
            r@.len() == j,
            forall|p: int| 0 <= p < j ==> (#[trigger] r@[p])@.len() == 0,
        decreases n - j,
    {
        r.push(Vec::new());
        j = j + 1;
    }
    let mut i: usize = 0;
    while i < n
        invariant
            n == nodes@.len(),
            i <= n,
            r@.len() == n,
            forall|j: int|
                0 <= j < nodes@.len() && #[trigger] nodes@[j].parent is Some ==> nodes@[j].parent->0
                    < nodes@.len(),
            forall|p: int, k: int|
                0 <= p < n && 0 <= k < r@[p]@.len() ==> {
                    &&& (#[trigger] r@[p]@[k]) < i
                    &&& nodes@[r@[p]@[k] as int].parent == Some(p as usize)
                },
            forall|j: int|
                0 <= j < i && #[trigger] nodes@[j].parent is Some ==> r@[nodes@[j].parent->0 as int]@.contains(
                    j as usize,
                ),
        decreases n - i,
    {
        match nodes[i].parent {
            None => {},
            Some(p) => {
                let ghost before = r@;
                r[p].push(i);
                assert(r@[p as int]@ == before[p as int]@.push(i));
                assert forall|j: int|
                    0 <= j <= i && #[trigger] nodes@[j].parent is Some implies r@[nodes@[j].parent->0 as int]@.contains(
                        j as usize,
                    ) by {
                    if j < i {
                        let q = nodes@[j].parent->0 as int;
                        assert(before[q]@.contains(j as usize));
                        if q == p {
                            let w = choose|w: int| 0 <= w < before[q]@.len() && before[q]@[w] == j as usize;
                            assert(r@[q]@[w] == j as usize);
                        }
                    } else {
                        assert(r@[p as int]@[before[p as int]@.len() as int] == i);
                    }
                }
                assert forall|q: int, k: int|
                    0 <= q < n && 0 <= k < r@[q]@.len() implies {
                        &&& (#[trigger] r@[q]@[k]) < i + 1
                        &&& nodes@[r@[q]@[k] as int].parent == Some(q as usize)
                    } by {
                    if q != p || k < before[q]@.len() {
                        assert(r@[q]@[k] == before[q]@[k]);
                    }
                }
            },
        }
        i = i + 1;
    }
    r
}

/// Number of nodes not yet visited.
pub open spec fn unvisited(s: Seq<bool>) -> nat
    decreases s.len(),
{
    if s.len() == 0 {
        0
    } else {
        unvisited(s.drop_last()) + if s.last() {
            0nat
        } else {
            1nat
        }
    }
}

/// Marking one unvisited node leaves one fewer.
proof fn lemma_mark_visited(s: Seq<bool>, i: int)
    requires
        0 <= i < s.len(),
        !s[i],
    ensures
        unvisited(s.update(i, true)) + 1 == unvisited(s),
    decreases s.len(),
{
    let t = s.update(i, true);
    if i == s.len() - 1 {
        assert(t.drop_last() =~= s.drop_last());
    } else {
        assert(t.drop_last() =~= s.drop_last().update(i, true));
        lemma_mark_visited(s.drop_last(), i);
    }
}

/// Once the visited set holds the root and is closed under the child table,
/// every node that climbs to the root is in it.
proof fn lemma_closed_covers(
    nodes: Seq<Node>,
    children: Seq<Vec<usize>>,
    root: int,
    visited: Seq<bool>,
    i: int,
    fuel: nat,
)
    requires
        unique_root(nodes, root),
        children_match(nodes, children),
        visited.len() == nodes.len(),
        nodes.len() <= usize::MAX,
        visited[root],
        forall|v: int, c: usize|
            0 <= v < nodes.len() && visited[v] && #[trigger] children[v]@.contains(c) ==> visited[c as int],
        0 <= i < nodes.len(),
        climbs(nodes, i, fuel),
    ensures
        visited[i],
    decreases fuel,
{
    match nodes[i].parent {
        None => {
            assert(is_root(nodes, i));
            assert(i == root);
        },
        Some(p) => {
            lemma_closed_covers(nodes, children, root, visited, p as int, (fuel - 1) as nat);
            assert(nodes[i].parent is Some);
            assert(children[p as int]@.contains(i as usize));
            assert(visited[(i as usize) as int]);
        },
    }
}

/// Depth-first pre-order walk of the tree from its root. Every node comes out
/// exactly once, the root first.
pub fn preorder(nodes: &Vec<Node>, children: &Vec<Vec<usize>>, root: usize) -> (r: Vec<usize>)
    requires
        hierarchy_valid(nodes@),
        unique_root(nodes@, root as int),
        children_match(nodes@, children@),
    ensures
        r@.no_duplicates(),
        forall|k: int| 0 <= k < r@.len() ==> #[trigger] r@[k] < nodes@.len(),
        forall|i: usize| i < nodes@.len() ==> #[trigger] r@.contains(i),
        r@.len() > 0 && r@[0] == root,
        forall|k: int|
            0 < k < r@.len() ==> exists|j: int|
                0 <= j < k && nodes@[#[trigger] r@[k] as int].parent == Some(r@[j]),
{
    let n = nodes.len();
    let mut visited: Vec<bool> = Vec::new();
    let mut j: usize = 0;
    while j < n
        invariant
            j <= n,
            visited@.len() == j,
            forall|v: int| 0 <= v < j ==> !#[trigger] visited@[v],
            unvisited(visited@) == j,
        decreases n - j,
    {
        let ghost before = visited@;
        visited.push(false);
        assert(visited@.drop_last() =~= before);
        j = j + 1;
    }
    let mut remaining: usize = n;
    let mut order: Vec<usize> = Vec::new();
    let mut stack: Vec<usize> = Vec::new();
    stack.push(root);
    assert(stack@[0] == root);
    while stack.len() > 0
        invariant
            n == nodes@.len(),
            hierarchy_valid(nodes@),
            unique_root(nodes@, root as int),
            children_match(nodes@, children@),
            visited@.len() == n,
            remaining == unvisited(visited@),
            forall|k: int| 0 <= k < stack@.len() ==> #[trigger] stack@[k] < n,
            forall|k: int| 0 <= k < order@.len() ==> #[trigger] order@[k] < n,
            order@.no_duplicates(),
            forall|v: int| 0 <= v < n ==> (#[trigger] visited@[v] <==> order@.contains(v as usize)),
            forall|v: int, c: usize|
                0 <= v < n && visited@[v] && #[trigger] children@[v]@.contains(c) ==> visited@[c as int]
                    || stack@.contains(c),
            visited@[root as int] || stack@.contains(root),
            order@.len() == 0 ==> stack@ == seq![root],
            order@.len() > 0 ==> order@[0] == root,
            forall|k: int|
                0 <= k < stack@.len() ==> #[trigger] stack@[k] == root || exists|p: usize|
                    nodes@[stack@[k] as int].parent == Some(p) && p < n && visited@[p as int],
            forall|k: int|
                0 < k < order@.len() ==> exists|j: int|
                    0 <= j < k && nodes@[#[trigger] order@[k] as int].parent == Some(order@[j]),
        decreases remaining, stack@.len(),
    {
        let ghost stack0 = stack@;
        let x = stack.pop().unwrap();
        assert(stack0 == stack@.push(x));
        if visited[x] {
            assert forall|k: int| 0 <= k < stack@.len() implies #[trigger] stack@[k] == root
                || exists|p: usize|
                nodes@[stack@[k] as int].parent == Some(p) && p < n && visited@[p as int] by {
                assert(stack0[k] == stack@[k]);
            }
            assert forall|v: int, c: usize|
                0 <= v < n && visited@[v] && #[trigger] children@[v]@.contains(c) implies visited@[c as int]
                    || stack@.contains(c) by {
                if !visited@[c as int] {
                    assert(stack0.contains(c));
                    let w = choose|w: int| 0 <= w < stack0.len() && stack0[w] == c;
                    if w < stack@.len() {
                        assert(stack@[w] == c);
                    }
                }
            }
            proof {
                if !visited@[root as int] {
                    let w = choose|w: int| 0 <= w < stack0.len() && stack0[w] == root;
                    if w < stack@.len() {
                        assert(stack@[w] == root);
                    }
                }
            }
        } else {
            proof {
                lemma_mark_visited(visited@, x as int);
            }
            let ghost visited0 = visited@;
            let ghost order0 = order@;
            visited.set(x, true);
            order.push(x);
            remaining = remaining - 1;
            assert forall|v: int| 0 <= v < n implies (#[trigger] visited@[v] <==> order@.contains(v as usize)) by {
                if v != x as int {
                    if order@.contains(v as usize) {
                        let w = choose|w: int| 0 <= w < order@.len() && order@[w] == v as usize;
                        assert(order0[w] == v as usize);
                    }
                    if order0.contains(v as usize) {
                        let w = choose|w: int| 0 <= w < order0.len() && order0[w] == v as usize;
                        assert(order@[w] == v as usize);
                    }
                } else {
                    assert(order@[order0.len() as int] == x);
                }
            }
            assert(!order0.contains(x));
            assert(order@.no_duplicates()) by {
                assert forall|a: int, b: int|
                    0 <= a < order@.len() && 0 <= b < order@.len() && a != b implies order@[a]
                    != order@[b] by {
                    if a == order0.len() as int {
                        assert(order0[b] == order@[b]);
                        if order0[b] == x {
                            assert(order0.contains(x));
                        }
                    } else if b == order0.len() as int {
                        assert(order0[a] == order@[a]);
                        if order0[a] == x {
                            assert(order0.contains(x));
                        }
                    }
                }
            }
            let ghost stack1 = stack@;
            let kids = &children[x];
            let ghost nk = kids@.len() as int;
            let mut k: usize = kids.len();
            while k > 0
                invariant
                    n == nodes@.len(),
                    children_match(nodes@, children@),
                    *kids == children@[x as int],
                    nk == kids@.len(),
                    x < n,
                    k <= kids@.len(),
                    stack@.len() == stack1.len() + (nk - k),
                    forall|m: int| 0 <= m < stack1.len() ==> #[trigger] stack@[m] == stack1[m],
                    forall|m: int|
                        0 <= m < nk - k ==> #[trigger] stack@[stack1.len() + m] == kids@[nk - 1 - m],
                    forall|m: int| 0 <= m < stack1.len() ==> #[trigger] stack1[m] < n,
                decreases k,
            {
                k = k - 1;
                assert(kids@[k as int] < n);
                stack.push(kids[k]);
            }
            assert forall|m: int| 0 <= m < stack@.len() implies #[trigger] stack@[m] < n by {
                if m >= stack1.len() {
                    assert(stack@[stack1.len() + (m - stack1.len())] == kids@[nk - 1 - (m - stack1.len())]);
                } else {
                    assert(stack@[m] == stack1[m]);
                }
            }
            assert forall|v: int, c: usize|
                0 <= v < n && visited@[v] && #[trigger] children@[v]@.contains(c) implies visited@[c as int]
                    || stack@.contains(c) by {
                if v == x as int {
                    let w = choose|w: int| 0 <= w < kids@.len() && kids@[w] == c;
                    assert(stack@[stack1.len() + (nk - 1 - w)] == kids@[nk - 1 - (nk - 1 - w)]);
                } else if !visited@[c as int] {
                    assert(visited0[v]);
                    assert(stack0.contains(c));
                    let w = choose|w: int| 0 <= w < stack0.len() && stack0[w] == c;
                    if w < stack1.len() {
                        assert(stack@[w] == stack1[w]);
                    }
                }
            }
            assert forall|k: int| 0 <= k < stack@.len() implies #[trigger] stack@[k] == root
                || exists|p: usize|
                nodes@[stack@[k] as int].parent == Some(p) && p < n && visited@[p as int] by {
                if k < stack1.len() {
                    assert(stack@[k] == stack1[k]);
                    assert(stack0[k] == stack1[k]);
                    if stack@[k] != root {
                        let p = choose|p: usize|
                            nodes@[stack0[k] as int].parent == Some(p) && p < n && visited0[p as int];
                        assert(visited@[p as int]);
                    }
                } else {
                    let m = k - stack1.len();
                    assert(stack@[stack1.len() + m] == kids@[nk - 1 - m]);
                    assert(children@[x as int]@[nk - 1 - m] == kids@[nk - 1 - m]);
                    assert(nodes@[stack@[k] as int].parent == Some(x));
                    assert(visited@[x as int]);
                }
            }
            assert forall|k: int| 0 < k < order@.len() implies exists|j: int|
                0 <= j < k && nodes@[#[trigger] order@[k] as int].parent == Some(order@[j]) by {
                if k < order0.len() {
                    assert(order@[k] == order0[k]);
                    let j = choose|j: int|
                        0 <= j < k && nodes@[order0[k] as int].parent == Some(order0[j]);
                    assert(order@[j] == order0[j]);
                } else {
                    assert(order@[k] == x);
                    assert(order0[0] == root);
                    assert(visited0[root as int]);
                    assert(x != root);
                    assert(stack0[stack0.len() - 1] == x);
                    let p = choose|p: usize|
                        nodes@[stack0[stack0.len() - 1] as int].parent == Some(p) && p < n
                            && visited0[p as int];
                    assert(order0.contains(p));
                    let j = choose|j: int| 0 <= j < order0.len() && order0[j] == p;
                    assert(order@[j] == p);
                }
            }
            proof {
                if !visited@[root as int] {
                    let w = choose|w: int| 0 <= w < stack0.len() && stack0[w] == root;
                    if w < stack1.len() {
                        assert(stack@[w] == stack1[w]);
                    }
                }
            }
        }
    }
    assert forall|i: usize| i < n implies #[trigger] order@.contains(i) by {
        lemma_closed_covers(nodes@, children@, root as int, visited@, i as int, n as nat);
    }
    order
}

} // verus!

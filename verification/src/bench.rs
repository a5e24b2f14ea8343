//! The benchmark's pre-registered rules and the wiring of its scenes'
//! documents.

use vstd::prelude::*;

verus! {

/// One row of a sweep: the count it ran with (pressure iterations, or
/// `max_substeps`), and whether it met the sweep's limits.
#[derive(Debug, Clone, Copy, PartialEq, Eq, Structural)]
pub struct SweepRow {
    pub count: u32,
    pub passes: bool,
}

/// The largest count among passing rows, or `None` when no row passes.
pub open spec fn spec_largest_passing(rows: Seq<SweepRow>) -> Option<u32>
    decreases rows.len(),
{
    if rows.len() == 0 {
        None
    } else {
        let rest = spec_largest_passing(rows.drop_last());
        let r = rows.last();
        if !r.passes {
            rest
        } else {
            match rest {
                None => Some(r.count),
                Some(m) => Some(if r.count > m { r.count } else { m }),
            }
        }
    }
}

proof fn lemma_largest_passing(rows: Seq<SweepRow>)
    ensures
        spec_largest_passing(rows) is None <==> forall|i: int| 0 <= i < rows.len() ==> !(#[trigger] rows[i]).passes,
        spec_largest_passing(rows) matches Some(m) ==> {
            &&& exists|i: int| 0 <= i < rows.len() && (#[trigger] rows[i]).passes && rows[i].count == m
            &&& forall|i: int| 0 <= i < rows.len() && (#[trigger] rows[i]).passes ==> rows[i].count <= m
        },
    decreases rows.len(),
{
    if rows.len() > 0 {
        let init = rows.drop_last();
        lemma_largest_passing(init);
        let last = rows.len() - 1;
        let r = rows[last];
        assert(r == rows.last());
        assert forall|i: int| 0 <= i < init.len() implies #[trigger] init[i] == rows[i] by {}
        if !r.passes {
            assert forall|i: int| 0 <= i < rows.len() && (#[trigger] rows[i]).passes implies i < last by {}
            if let Some(m) = spec_largest_passing(init) {
                let i0 = choose|i: int| 0 <= i < init.len() && (#[trigger] init[i]).passes && init[i].count == m;
                assert(rows[i0] == init[i0]);
                assert forall|i: int| 0 <= i < rows.len() && (#[trigger] rows[i]).passes implies rows[i].count <= m by {
                    assert(init[i] == rows[i]);
                }
            } else {
                assert forall|i: int| 0 <= i < rows.len() implies !(#[trigger] rows[i]).passes by {
                    if i < last { assert(init[i] == rows[i]); }
                }
            }
        } else {
            match spec_largest_passing(init) {
                None => {
                    assert forall|i: int| 0 <= i < rows.len() && (#[trigger] rows[i]).passes implies rows[i].count <= r.count by {
                        if i < last { assert(init[i] == rows[i]); assert(!init[i].passes); }
                    }
                }
                Some(m) => {
                    let i0 = choose|i: int| 0 <= i < init.len() && (#[trigger] init[i]).passes && init[i].count == m;
                    assert(rows[i0] == init[i0]);
                    let best: u32 = if r.count > m { r.count } else { m };
                    assert forall|i: int| 0 <= i < rows.len() && (#[trigger] rows[i]).passes implies rows[i].count <= best by {
                        if i < last { assert(init[i] == rows[i]); }
                    }
                }
            }
        }
    }
}

/// The largest count whose row passes, or `None` (FAIL) when no row
/// passes. The speed sweep picks its pressure iterations this way, and the
/// preview sweep its `max_substeps`.
pub fn largest_passing(rows: &[SweepRow]) -> (best: Option<u32>)
    ensures
        best == spec_largest_passing(rows@),
        best is None <==> forall|i: int| 0 <= i < rows.len() ==> !(#[trigger] rows@[i]).passes,
        best matches Some(m) ==> {
            &&& exists|i: int| 0 <= i < rows.len() && (#[trigger] rows@[i]).passes && rows@[i].count == m
            &&& forall|i: int| 0 <= i < rows.len() && (#[trigger] rows@[i]).passes ==> rows@[i].count <= m
        },
{
    let mut best: Option<u32> = None;
    let mut i: usize = 0;
    while i < rows.len()
        invariant
            i <= rows.len(),
            best == spec_largest_passing(rows@.take(i as int)),
        decreases rows.len() - i,
    {
        proof { assert(rows@.take(i + 1).drop_last() =~= rows@.take(i as int)); }
        let r = rows[i];
        if r.passes {
            best = match best {
                None => Some(r.count),
                Some(m) => Some(if r.count > m { r.count } else { m }),
            };
        }
        i = i + 1;
    }
    proof {
        assert(rows@.take(rows.len() as int) =~= rows@);
        lemma_largest_passing(rows@);
    }
    best
}

/// What a node of a scene's document does.
#[derive(Debug, Clone, Copy, PartialEq, Eq, Structural)]
pub enum NodeRole {
    /// The scene's emitter.
    Emitter,
    /// The smoke solver.
    Solver,
    /// The document's output.
    Output,
    /// The scene's `k`-th collider.
    Collider(u32),
    /// The union merging colliders 0..=k.
    ColliderUnion(u32),
}

/// The node kind a document names for each role.
pub open spec fn role_kind(r: NodeRole) -> Seq<char> {
    match r {
        NodeRole::Emitter => "ember.emitter"@,
        NodeRole::Solver => "ember.smoke_solver"@,
        NodeRole::Output => "core.output"@,
        NodeRole::Collider(_) => "ember.collider"@,
        NodeRole::ColliderUnion(_) => "ember.collider_union"@,
    }
}

impl NodeRole {
    /// The node kind a document names for this role.
    pub fn kind(self) -> (k: &'static str)
        ensures
            k@ == role_kind(self),
    {
        match self {
            NodeRole::Emitter => "ember.emitter",
            NodeRole::Solver => "ember.smoke_solver",
            NodeRole::Output => "core.output",
            NodeRole::Collider(_) => "ember.collider",
            NodeRole::ColliderUnion(_) => "ember.collider_union",
        }
    }
}

/// One node: its id and role.
#[derive(Debug, Clone, Copy, PartialEq, Eq, Structural)]
pub struct WiredNode {
    pub id: u32,
    pub role: NodeRole,
}

/// An edge from one node's output socket to another node's input socket.
#[derive(Debug, Clone, Copy, PartialEq, Eq, Structural)]
pub struct DocEdge {
    pub from_node: u32,
    pub from_index: u32,
    pub to_node: u32,
    pub to_index: u32,
}

pub open spec fn edge(from_node: int, from_index: int, to_node: int, to_index: int) -> DocEdge {
    DocEdge {
        from_node: from_node as u32,
        from_index: from_index as u32,
        to_node: to_node as u32,
        to_index: to_index as u32,
    }
}

/// The solver's node id in every scene document.
pub const SOLVER_NODE: u32 = 1;
/// The output node's id in every scene document.
pub const OUTPUT_NODE: u32 = 2;

/// Collider `k`'s id: 3 for the first, then each after a union, 2k + 2.
pub open spec fn collider_id(k: int) -> int {
    if k == 0 { 3 } else { 2 * k + 2 }
}

/// The id of the union that merges collider `k` (k ≥ 1) into the chain.
pub open spec fn union_id(k: int) -> int {
    2 * k + 3
}

/// The node carrying the merge of colliders 0..=k: the first collider
/// itself, else the union that took in collider k.
pub open spec fn merged_id(k: int) -> int {
    if k == 0 { 3 } else { union_id(k) }
}

/// The role of node `i` in a document with `n` colliders: emitter,
/// solver, output, then the first collider, then each further collider
/// followed by the union that merges it.
pub open spec fn role_at(i: int) -> NodeRole {
    if i == 0 {
        NodeRole::Emitter
    } else if i == 1 {
        NodeRole::Solver
    } else if i == 2 {
        NodeRole::Output
    } else if i == 3 {
        NodeRole::Collider(0)
    } else if (i - 4) % 2 == 0 {
        NodeRole::Collider(((i - 4) / 2 + 1) as u32)
    } else {
        NodeRole::ColliderUnion(((i - 5) / 2 + 1) as u32)
    }
}

/// How many nodes a document with `n` colliders has.
pub open spec fn node_count(n: int) -> int {
    if n == 0 { 3 } else { 2 * n + 2 }
}

/// Emitter density and temperature into the solver, solver density to the output.
pub open spec fn base_edges() -> Seq<DocEdge> {
    seq![edge(0, 0, 1, 0), edge(0, 1, 1, 1), edge(1, 0, 2, 0)]
}

/// The `j`-th of the four edges into the union that merges collider `k`:
/// the chain so far into its inputs 0 and 1, collider `k` into 2 and 3.
pub open spec fn union_edge(k: int, j: int) -> DocEdge {
    if j == 0 {
        edge(merged_id(k - 1), 0, union_id(k), 0)
    } else if j == 1 {
        edge(merged_id(k - 1), 1, union_id(k), 1)
    } else if j == 2 {
        edge(collider_id(k), 0, union_id(k), 2)
    } else {
        edge(collider_id(k), 1, union_id(k), 3)
    }
}

/// Every edge of a document with `n` colliders: the base edges, the four
/// into each union in order, then the merged collider's SDF and velocity
/// into the solver's inputs 4 and 5.
pub open spec fn scene_edges(n: int) -> Seq<DocEdge> {
    if n == 0 {
        base_edges()
    } else {
        base_edges() + Seq::new((4 * (n - 1)) as nat, |i: int| union_edge(i / 4 + 1, i % 4))
            + seq![edge(merged_id(n - 1), 0, 1, 4), edge(merged_id(n - 1), 1, 1, 5)]
    }
}

/// A scene document's nodes and edges for `colliders` static colliders.
#[derive(Debug, Clone, PartialEq, Eq)]
pub struct Wiring {
    pub nodes: Vec<WiredNode>,
    pub edges: Vec<DocEdge>,
}

/// The graph of a scene's document: emitter → solver → output, plus the
/// colliders, merged through a chain of collider unions when there is more
/// than one and wired into the solver's inputs 4 and 5. Every node's id is
/// its position.
pub fn scene_wiring(colliders: u32) -> (w: Wiring)
    requires
        2 * colliders + 2 <= u32::MAX,
    ensures
        w.nodes.len() == node_count(colliders as int),
        forall|i: int| 0 <= i < w.nodes.len() ==> (#[trigger] w.nodes@[i]).id == i && w.nodes@[i].role == role_at(i),
        w.edges@ == scene_edges(colliders as int),
        w.edges.len() == (if colliders == 0 { 3 } else { 4 * colliders + 1 }),
{
    let mut nodes: Vec<WiredNode> = Vec::new();
    nodes.push(WiredNode { id: 0, role: NodeRole::Emitter });
    nodes.push(WiredNode { id: 1, role: NodeRole::Solver });
    nodes.push(WiredNode { id: 2, role: NodeRole::Output });
    let mut edges: Vec<DocEdge> = Vec::new();
    edges.push(DocEdge { from_node: 0, from_index: 0, to_node: 1, to_index: 0 });
    edges.push(DocEdge { from_node: 0, from_index: 1, to_node: 1, to_index: 1 });
    edges.push(DocEdge { from_node: 1, from_index: 0, to_node: 2, to_index: 0 });
    let mut merged: Option<u32> = None;
    let mut next_id: u32 = 3;
    let mut k: u32 = 0;
    proof { assert(edges@ =~= base_edges()); }
    while k < colliders
        invariant
            2 * colliders + 2 <= u32::MAX,
            k <= colliders,
            nodes.len() == node_count(k as int),
            next_id == node_count(k as int),
            forall|i: int| 0 <= i < nodes.len() ==> (#[trigger] nodes@[i]).id == i && nodes@[i].role == role_at(i),
            k == 0 ==> merged is None && edges@ == base_edges(),
            k > 0 ==> merged == Some(merged_id(k - 1) as u32) && edges@ == base_edges()
                + Seq::new((4 * (k - 1)) as nat, |i: int| union_edge(i / 4 + 1, i % 4)),
        decreases colliders - k,
    {
        let id = next_id;
        next_id = next_id + 1;
        let ghost before = nodes@;
        nodes.push(WiredNode { id, role: NodeRole::Collider(k) });
        proof {
            assert(role_at(id as int) == NodeRole::Collider(k)) by {
                if k > 0 {
                    assert((id as int - 4) % 2 == 0);
                    assert((id as int - 4) / 2 + 1 == k);
                }
            }
        }
        match merged {
            None => {
                merged = Some(id);
            }
            Some(acc) => {
                let union = next_id;
                next_id = next_id + 1;
                nodes.push(WiredNode { id: union, role: NodeRole::ColliderUnion(k) });
                let ghost eprev = edges@;
                edges.push(DocEdge { from_node: acc, from_index: 0, to_node: union, to_index: 0 });
                edges.push(DocEdge { from_node: acc, from_index: 1, to_node: union, to_index: 1 });
                edges.push(DocEdge { from_node: id, from_index: 0, to_node: union, to_index: 2 });
                edges.push(DocEdge { from_node: id, from_index: 1, to_node: union, to_index: 3 });
                merged = Some(union);
                proof {
                    assert(role_at(union as int) == NodeRole::ColliderUnion(k)) by {
                        assert((union as int - 4) % 2 == 1);
                        assert((union as int - 5) / 2 + 1 == k);
                    }
                    let s_old = Seq::new((4 * (k - 1)) as nat, |i: int| union_edge(i / 4 + 1, i % 4));
                    let s_new = Seq::new((4 * k) as nat, |i: int| union_edge(i / 4 + 1, i % 4));
                    assert(s_new =~= s_old + seq![union_edge(k as int, 0), union_edge(k as int, 1), union_edge(k as int, 2), union_edge(k as int, 3)]) by {
                        assert forall|i: int| 4 * (k - 1) <= i < 4 * k implies i / 4 + 1 == k && #[trigger] (i % 4) == i - 4 * (k - 1) by {}
                    }
                    assert(edges@ =~= eprev + seq![union_edge(k as int, 0), union_edge(k as int, 1), union_edge(k as int, 2), union_edge(k as int, 3)]);
                }
            }
        }
        proof {
            assert forall|i: int| 0 <= i < nodes.len() implies (#[trigger] nodes@[i]).id == i && nodes@[i].role == role_at(i) by {
                if i < before.len() {
                    assert(nodes@[i] == before[i]);
                }
            }
        }
        k = k + 1;
    }
    if let Some(m) = merged {
        edges.push(DocEdge { from_node: m, from_index: 0, to_node: 1, to_index: 4 });
        edges.push(DocEdge { from_node: m, from_index: 1, to_node: 1, to_index: 5 });
    }
    proof {
        if colliders > 0 {
            assert(edges@ =~= scene_edges(colliders as int));
        }
    }
    Wiring { nodes, edges }
}

/// Cell `i` of the union of `masks`: solid in some mask long enough to
/// reach it.
pub open spec fn union_cell(masks: Seq<Vec<bool>>, i: int) -> bool {
    exists|k: int| 0 <= k < masks.len() && 0 <= i < masks[k]@.len() && #[trigger] masks[k]@[i]
}

/// The cells that lie inside any of the colliders' masks, one mask per
/// collider, x-fastest: each later mask is zipped onto the first, so the
/// union has the first mask's length. Empty when there is no collider.
pub fn union_masks(masks: &Vec<Vec<bool>>) -> (u: Vec<bool>)
    ensures
        masks@.len() == 0 ==> u@.len() == 0,
        masks@.len() > 0 ==> u@.len() == masks@[0]@.len(),
        forall|i: int| 0 <= i < u@.len() ==> u@[i] == union_cell(masks@, i),
{
    if masks.len() == 0 {
        return Vec::new();
    }
    let first = &masks[0];
    let mut u: Vec<bool> = Vec::new();
    let mut i: usize = 0;
    while i < first.len()
        invariant
            i <= first@.len(),
            masks@.len() > 0,
            first == masks@[0],
            u@ == first@.take(i as int),
        decreases first.len() - i,
    {
        u.push(first[i]);
        proof {
            assert(u@ =~= first@.take(i + 1));
        }
        i = i + 1;
    }
    proof {
        assert(u@ =~= first@);
    }
    let mut k: usize = 1;
    while k < masks.len()
        invariant
            1 <= k <= masks@.len(),
            u@.len() == masks@[0]@.len(),
            forall|j: int| 0 <= j < u@.len() ==> u@[j] == (exists|m: int|
                0 <= m < k && 0 <= j < masks@[m]@.len() && #[trigger] masks@[m]@[j]),
        decreases masks.len() - k,
    {
        let other = &masks[k];
        let n = if other.len() < u.len() { other.len() } else { u.len() };
        let ghost before = u@;
        let mut j: usize = 0;
        while j < n
            invariant
                j <= n,
                k < masks@.len(),
                n <= u@.len(),
                n <= other@.len(),
                other == masks@[k as int],
                u@.len() == before.len(),
                forall|x: int| 0 <= x < j ==> u@[x] == (before[x] || other@[x]),
                forall|x: int| j <= x < u@.len() ==> u@[x] == before[x],
            decreases n - j,
        {
            let ghost mid = u@;
            assert(forall|x: int| 0 <= x < j ==> mid[x] == (before[x] || other@[x]));
            if other[j] {
                u.set(j, true);
            }
            proof {
                assert(u@[j as int] == (before[j as int] || other@[j as int]));
                assert forall|x: int| 0 <= x < j + 1 implies u@[x] == (before[x] || other@[x]) by {
                    if x < j {
                        assert(mid[x] == (before[x] || other@[x]));
                    }
                }
                assert forall|x: int| j + 1 <= x < u@.len() implies u@[x] == before[x] by {
                    assert(mid[x] == before[x]);
                }
            }
            j = j + 1;
        }
        proof {
            assert forall|x: int| 0 <= x < u@.len() implies u@[x] == (exists|m: int|
                0 <= m < k + 1 && 0 <= x < masks@[m]@.len() && #[trigger] masks@[m]@[x]) by {
                let was = exists|m: int| 0 <= m < k && 0 <= x < masks@[m]@.len() && #[trigger] masks@[m]@[x];
                assert(before[x] == was);
                let now = exists|m: int| 0 <= m < k + 1 && 0 <= x < masks@[m]@.len() && #[trigger] masks@[m]@[x];
                if now && !was {
                    let m = choose|m: int| 0 <= m < k + 1 && 0 <= x < masks@[m]@.len() && #[trigger] masks@[m]@[x];
                    assert(m == k);
                    assert(x < n);
                    assert(u@[x]);
                }
                if was {
                    let m = choose|m: int| 0 <= m < k && 0 <= x < masks@[m]@.len() && #[trigger] masks@[m]@[x];
                    assert(masks@[m]@[x]);
                    assert(u@[x]);
                }
                if u@[x] && !was {
                    assert(x < n && other@[x]);
                    assert(masks@[k as int]@[x]);
                }
            }
        }
        k = k + 1;
    }
    u
}

} // verus!

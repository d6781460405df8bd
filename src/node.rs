use vstd::prelude::*;
use crate::error::LayoutError;
use crate::font::FontPallet;
use crate::mesh::{rebased, Batch, Vertex, MAX_BATCH_VERTICES};
use crate::shape::Shape;
use crate::style::{resolve, resolve_outcome, Grid, GridSpan, Margin, Rect};

verus! {

/// A node of the layout tree: a shape, the grid it offers its children, and where it
/// sits in its parent's grid.
#[derive(Clone, Debug)]
pub struct Node {
    pub id: String,
    pub parent: Option<String>,
    pub grid: Option<Grid>,
    pub area: Option<GridSpan>,
    pub margin: Margin,
    pub body: Shape,
}

impl Node {
    /// The grid this node offers its children.
    pub fn get_grid(&self) -> (r: Result<Grid, LayoutError>)
        ensures
            match self.grid {
                Some(g) => r == Ok::<Grid, LayoutError>(g),
                None => r == Err::<Grid, LayoutError>(LayoutError::MissingGridContext),
            },
    {
        match self.grid {
            Some(g) => Ok(g),
            None => Err(LayoutError::MissingGridContext),
        }
    }

    /// Whether the point hits this node's shape.
    pub fn collides(&self, px: i64, py: i64) -> (r: bool)
        ensures
            r == self.body.contains_spec(px as int, py as int),
    {
        self.body.contains(px, py)
    }
}

/// Index of the node with id `id`, if any (ids are unique in a tree).
pub open spec fn index_of(nodes: Seq<Node>, id: Seq<char>) -> Option<int> {
    if exists|i: int| 0 <= i < nodes.len() && (#[trigger] nodes[i]).id@ == id {
        Some(choose|i: int| 0 <= i < nodes.len() && (#[trigger] nodes[i]).id@ == id)
    } else {
        None
    }
}

/// No two nodes share an id.
pub open spec fn ids_unique(nodes: Seq<Node>) -> bool {
    forall|i: int, j: int|
        0 <= i < nodes.len() && 0 <= j < nodes.len() && i != j ==> (#[trigger] nodes[i]).id@
            != (#[trigger] nodes[j]).id@
}

/// The box a new node gets in the tree `nodes`, or why it cannot be placed.
///
/// A node without a parent keeps its own box. A child gets the box of its area in its
/// parent's grid, laid over the parent's box.
pub open spec fn placement(nodes: Seq<Node>, node: Node) -> Result<Rect, LayoutError> {
    if index_of(nodes, node.id@) is Some {
        Err(LayoutError::DuplicateId)
    } else {
        match node.parent {
            None => Ok(node.body.area()),
            Some(pid) => match index_of(nodes, pid@) {
                None => Err(LayoutError::NodeNotFound),
                Some(i) => match nodes[i].grid {
                    None => Err(LayoutError::MissingGridContext),
                    Some(g) => match node.area {
                        None => Err(LayoutError::MissingArea),
                        Some(span) => resolve_outcome(
                            nodes[i].body.area(),
                            g.columns,
                            g.rows,
                            span,
                            node.margin,
                        ),
                    },
                },
            },
        }
    }
}

/// All node meshes' vertices, one after another in tree order.
pub open spec fn all_vertices(nodes: Seq<Node>) -> Seq<Vertex>
    decreases nodes.len(),
{
    if nodes.len() == 0 {
        Seq::empty()
    } else {
        all_vertices(nodes.drop_last()) + nodes.last().body.cached_mesh().vertices@
    }
}

/// All node meshes' indices in tree order, each rebased past the vertices before it.
pub open spec fn all_indices(nodes: Seq<Node>) -> Seq<u16>
    decreases nodes.len(),
{
    if nodes.len() == 0 {
        Seq::empty()
    } else {
        all_indices(nodes.drop_last()) + rebased(
            nodes.last().body.cached_mesh().indices@,
            all_vertices(nodes.drop_last()).len() as int,
        )
    }
}

/// The layout tree: nodes in insertion order, parents before their children.
#[derive(Clone, Debug)]
pub struct NodeWalker {
    pub tree: Vec<Node>,
}

impl NodeWalker {
    /// Ids are unique and every cached mesh indexes only its own vertices.
    pub open spec fn wf(&self) -> bool {
        &&& ids_unique(self.tree@)
        &&& forall|i: int| 0 <= i < self.tree@.len() ==> (#[trigger] self.tree@[i]).body.cached_mesh().wf()
    }

    /// An empty tree.
    pub fn create() -> (r: NodeWalker)
        ensures
            r.tree@.len() == 0,
            r.wf(),
    {
        NodeWalker { tree: Vec::new() }
    }

    fn position(&self, id: &String) -> (r: Option<usize>)
        requires
            ids_unique(self.tree@),
        ensures
            match r {
                Some(i) => index_of(self.tree@, id@) == Some(i as int) && i < self.tree@.len(),
                None => index_of(self.tree@, id@) is None,
            },
    {
        let mut i: usize = 0;
        while i < self.tree.len()
            invariant
                i <= self.tree@.len(),
                ids_unique(self.tree@),
                forall|j: int| 0 <= j < i ==> (#[trigger] self.tree@[j]).id@ != id@,
            decreases self.tree@.len() - i,
        {
            if self.tree[i].id == *id {
                assert(self.tree@[i as int].id@ == id@);
                assert(index_of(self.tree@, id@) is Some);
                let ghost k = index_of(self.tree@, id@)->Some_0;
                assert(k == i) by {
                    if k != i {
                        assert(self.tree@[k].id@ == id@);
                    }
                }
                return Some(i);
            }
            i = i + 1;
        }
        None
    }

    /// The node with id `id`. Fails with `NodeNotFound` when the tree has none.
    pub fn find(&self, id: &String) -> (r: Result<&Node, LayoutError>)
        requires
            self.wf(),
        ensures
            match index_of(self.tree@, id@) {
                Some(i) => r == Ok::<&Node, LayoutError>(&self.tree@[i]),
                None => r == Err::<&Node, LayoutError>(LayoutError::NodeNotFound),
            },
    {
        match self.position(id) {
            Some(i) => Ok(&self.tree[i]),
            None => Err(LayoutError::NodeNotFound),
        }
    }

    /// Whether the point hits the shape of the node with id `id`.
    pub fn collides(&self, id: &String, px: i64, py: i64) -> (r: Result<bool, LayoutError>)
        requires
            self.wf(),
        ensures
            match index_of(self.tree@, id@) {
                Some(i) => r == Ok::<bool, LayoutError>(
                    self.tree@[i].body.contains_spec(px as int, py as int),
                ),
                None => r == Err::<bool, LayoutError>(LayoutError::NodeNotFound),
            },
    {
        match self.position(id) {
            Some(i) => Ok(self.tree[i].body.contains(px, py)),
            None => Err(LayoutError::NodeNotFound),
        }
    }
    /// Inserts a node after all others and builds its mesh.
    ///
    /// A node without a parent keeps its own box. A child's box is resolved from its
    /// parent's box and grid and its own area and margin. Fails, leaving the tree as it
    /// was, when the node cannot be placed (see `placement`) or its shape cannot be built.
    pub fn add(&mut self, node: Node, atlas: &FontPallet) -> (r: Result<(), LayoutError>)
        requires
            old(self).wf(),
            node.body.valid(),
        ensures
            final(self).wf(),
            match placement(old(self).tree@, node) {
                Err(e) => r == Err::<(), LayoutError>(e) && final(self).tree@ == old(self).tree@,
                Ok(b) => if node.body.buildable(*atlas) {
                    &&& r is Ok
                    &&& final(self).tree@.len() == old(self).tree@.len() + 1
                    &&& final(self).tree@.drop_last() == old(self).tree@
                    &&& final(self).tree@.last().id == node.id
                    &&& final(self).tree@.last().parent == node.parent
                    &&& final(self).tree@.last().grid == node.grid
                    &&& final(self).tree@.last().area == node.area
                    &&& final(self).tree@.last().margin == node.margin
                    &&& final(self).tree@.last().body.area() == b
                    &&& Shape::same_params(final(self).tree@.last().body, node.body)
                    &&& final(self).tree@.last().body.built(*atlas)
                } else {
                    r == Err::<(), LayoutError>(node.body.build_error()) && final(self).tree@
                        == old(self).tree@
                },
            },
    {
        if self.position(&node.id).is_some() {
            return Err(LayoutError::DuplicateId);
        }
        let Node { id, parent, grid, area, margin, body } = node;
        let mut body = body;
        match &parent {
            None => {},
            Some(pid) => {
                let i = match self.position(pid) {
                    Some(i) => i,
                    None => {
                        return Err(LayoutError::NodeNotFound);
                    },
                };
                let parent_node = &self.tree[i];
                let g = match parent_node.grid {
                    Some(g) => g,
                    None => {
                        return Err(LayoutError::MissingGridContext);
                    },
                };
                let span = match area {
                    Some(span) => span,
                    None => {
                        return Err(LayoutError::MissingArea);
                    },
                };
                let b = match resolve(parent_node.body.get_box(), g.columns, g.rows, span, margin) {
                    Ok(b) => b,
                    Err(e) => {
                        return Err(e);
                    },
                };
                body.set_box(b);
            },
        }
        match body.build(atlas) {
            Ok(()) => {},
            Err(e) => {
                return Err(e);
            },
        }
        let ghost old_tree = self.tree@;
        let placed = Node { id, parent, grid, area, margin, body };
        self.tree.push(placed);
        proof {
            assert(self.tree@.drop_last() =~= old_tree);
            assert forall|a: int, c: int|
                0 <= a < self.tree@.len() && 0 <= c < self.tree@.len() && a != c implies (
            #[trigger] self.tree@[a]).id@ != (#[trigger] self.tree@[c]).id@ by {
                if a < old_tree.len() && c < old_tree.len() {
                    assert(self.tree@[a] == old_tree[a] && self.tree@[c] == old_tree[c]);
                } else if a < old_tree.len() {
                    assert(self.tree@[a] == old_tree[a]);
                    assert(index_of(old_tree, node.id@) is None);
                } else {
                    assert(self.tree@[c] == old_tree[c]);
                    assert(index_of(old_tree, node.id@) is None);
                }
            }
            assert forall|a: int| 0 <= a < self.tree@.len() implies (#[trigger] self.tree@[a]).body.cached_mesh().wf() by {
                if a < old_tree.len() {
                    assert(self.tree@[a] == old_tree[a]);
                }
            }
        }
        Ok(())
    }
}

/// The merged vertices of a prefix of the nodes begin the merged vertices of all nodes.
proof fn lemma_prefix_vertices(nodes: Seq<Node>, m: int)
    requires
        0 <= m <= nodes.len(),
    ensures
        all_vertices(nodes.subrange(0, m)).len() <= all_vertices(nodes).len(),
        all_vertices(nodes).subrange(0, all_vertices(nodes.subrange(0, m)).len() as int)
            == all_vertices(nodes.subrange(0, m)),
    decreases nodes.len(),
{
    if m == nodes.len() {
        assert(nodes.subrange(0, m) =~= nodes);
        assert(all_vertices(nodes).subrange(0, all_vertices(nodes).len() as int) =~= all_vertices(
            nodes,
        ));
    } else {
        let prefix = nodes.drop_last();
        assert(prefix.subrange(0, m) =~= nodes.subrange(0, m));
        lemma_prefix_vertices(prefix, m);
        let short = all_vertices(nodes.subrange(0, m));
        assert(all_vertices(nodes) == all_vertices(prefix) + nodes.last().body.cached_mesh().vertices@);
        assert(all_vertices(nodes).subrange(0, short.len() as int) =~= all_vertices(prefix).subrange(
            0,
            short.len() as int,
        ));
    }
}

/// Merging node meshes keeps the nodes' order: node `i`'s vertices sit, unchanged, at
/// offset `i`'s count of earlier vertices, and when `i` comes before `j` all of `i`'s
/// vertices come before any of `j`'s. Later-added nodes are drawn over earlier ones.
pub proof fn batch_keeps_node_order(nodes: Seq<Node>, i: int, j: int)
    requires
        0 <= i < j < nodes.len(),
    ensures
        ({
            let all = all_vertices(nodes);
            let oi = all_vertices(nodes.subrange(0, i)).len() as int;
            let oj = all_vertices(nodes.subrange(0, j)).len() as int;
            let vi = nodes[i].body.cached_mesh().vertices@;
            let vj = nodes[j].body.cached_mesh().vertices@;
            &&& oi + vi.len() <= oj
            &&& oj + vj.len() <= all.len()
            &&& all.subrange(oi, oi + vi.len()) == vi
            &&& all.subrange(oj, oj + vj.len()) == vj
        }),
{
    let all = all_vertices(nodes);
    let vi = nodes[i].body.cached_mesh().vertices@;
    let vj = nodes[j].body.cached_mesh().vertices@;
    let pi = nodes.subrange(0, i + 1);
    let pj = nodes.subrange(0, j + 1);
    assert(pi.drop_last() =~= nodes.subrange(0, i));
    assert(pj.drop_last() =~= nodes.subrange(0, j));
    assert(pi.last() == nodes[i]);
    assert(pj.last() == nodes[j]);
    let oi = all_vertices(nodes.subrange(0, i)).len() as int;
    let oj = all_vertices(nodes.subrange(0, j)).len() as int;
    assert(all_vertices(pi) == all_vertices(nodes.subrange(0, i)) + vi);
    assert(all_vertices(pj) == all_vertices(nodes.subrange(0, j)) + vj);
    lemma_prefix_vertices(nodes, i + 1);
    lemma_prefix_vertices(nodes, j + 1);
    assert(nodes.subrange(0, j).subrange(0, i + 1) =~= pi);
    lemma_prefix_vertices(nodes.subrange(0, j), i + 1);
    assert(all.subrange(oi, oi + vi.len()) =~= all_vertices(pi).subrange(oi, oi + vi.len()));
    assert(all_vertices(pi).subrange(oi, oi + vi.len()) =~= vi);
    assert(all.subrange(oj, oj + vj.len()) =~= all_vertices(pj).subrange(oj, oj + vj.len()));
    assert(all_vertices(pj).subrange(oj, oj + vj.len()) =~= vj);
}

impl NodeWalker {
    /// Merges every node's mesh, in tree order, into one batch. Fails with
    /// `BatchOverflow` when the meshes hold more vertices than 16-bit indices address.
    pub fn get_batch(&self) -> (r: Result<Batch<Vertex>, LayoutError>)
        requires
            self.wf(),
        ensures
            all_vertices(self.tree@).len() <= MAX_BATCH_VERTICES ==> (r matches Ok(b) && b.vertices@
                == all_vertices(self.tree@) && b.indices@ == all_indices(self.tree@) && b.wf()),
            all_vertices(self.tree@).len() > MAX_BATCH_VERTICES ==> r == Err::<
                Batch<Vertex>,
                LayoutError,
            >(LayoutError::BatchOverflow),
    {
        let ghost nodes = self.tree@;
        let mut total: usize = 0;
        let mut i: usize = 0;
        while i < self.tree.len()
            invariant
                nodes == self.tree@,
                i <= nodes.len(),
                total == all_vertices(nodes.subrange(0, i as int)).len(),
                total <= MAX_BATCH_VERTICES,
            decreases nodes.len() - i,
        {
            let count = self.tree[i].body.mesh_ref().vertices.len();
            assert(nodes.subrange(0, i + 1).drop_last() =~= nodes.subrange(0, i as int));
            if count > MAX_BATCH_VERTICES - total {
                proof {
                    lemma_prefix_vertices(nodes, i + 1);
                }
                return Err(LayoutError::BatchOverflow);
            }
            total = total + count;
            i = i + 1;
        }
        assert(nodes.subrange(0, i as int) =~= nodes);
        let mut batch: Batch<Vertex> = Batch::new();
        let mut k: usize = 0;
        while k < self.tree.len()
            invariant
                nodes == self.tree@,
                forall|a: int| 0 <= a < nodes.len() ==> (#[trigger] nodes[a]).body.cached_mesh().wf(),
                all_vertices(nodes).len() <= MAX_BATCH_VERTICES,
                k <= nodes.len(),
                batch.wf(),
                batch.vertices@ == all_vertices(nodes.subrange(0, k as int)),
                batch.indices@ == all_indices(nodes.subrange(0, k as int)),
            decreases nodes.len() - k,
        {
            let mesh = self.tree[k].body.mesh_ref();
            let ghost next = nodes.subrange(0, k + 1);
            proof {
                assert(next.drop_last() =~= nodes.subrange(0, k as int));
                assert(next.last() == nodes[k as int]);
                lemma_prefix_vertices(nodes, k + 1);
            }
            batch.add(mesh);
            k = k + 1;
        }
        assert(nodes.subrange(0, k as int) =~= nodes);
        Ok(batch)
    }
}

/// The node's shape carries `key` as its id.
pub open spec fn tagged(node: Node, key: String) -> bool {
    match node.body.id() {
        Some(t) => t@ == key@,
        None => false,
    }
}

/// The batch a node's mesh goes to: the first key equal to its shape's id, or the
/// default batch after all keys when none is.
pub open spec fn group_of(node: Node, keys: Seq<String>) -> int {
    if exists|k: int| 0 <= k < keys.len() && tagged(node, #[trigger] keys[k]) {
        choose|k: int|
            0 <= k < keys.len() && tagged(node, #[trigger] keys[k]) && forall|j: int|
                0 <= j < k ==> !tagged(node, #[trigger] keys[j])
    } else {
        keys.len() as int
    }
}

/// The nodes whose meshes go to batch `g`, in tree order.
pub open spec fn in_group(nodes: Seq<Node>, keys: Seq<String>, g: int) -> Seq<Node> {
    nodes.filter(|n: Node| group_of(n, keys) == g)
}

impl NodeWalker {
    fn group_index(node: &Node, keys: &Vec<String>) -> (r: usize)
        ensures
            r == group_of(*node, keys@),
    {
        let id = node.body.id_ref();
        let mut k: usize = 0;
        while k < keys.len()
            invariant
                k <= keys@.len(),
                *id == node.body.id(),
                forall|j: int| 0 <= j < k ==> !tagged(*node, #[trigger] keys@[j]),
            decreases keys@.len() - k,
        {
            let hit = match id {
                Some(t) => *t == keys[k],
                None => false,
            };
            if hit {
                let ghost w = k as int;
                assert(tagged(*node, keys@[w]));
                let ghost c = group_of(*node, keys@);
                assert(c == w) by {
                    if c < w {
                        assert(!tagged(*node, keys@[c]));
                    } else if c > w {
                        assert(tagged(*node, keys@[w]));
                    }
                }
                return k;
            }
            k = k + 1;
        }
        keys.len()
    }

    fn group_batch(&self, keys: &Vec<String>, g: usize) -> (r: Result<Batch<Vertex>, LayoutError>)
        requires
            self.wf(),
        ensures
            all_vertices(in_group(self.tree@, keys@, g as int)).len() <= MAX_BATCH_VERTICES ==> (r matches Ok(
                b,
            ) && b.vertices@ == all_vertices(in_group(self.tree@, keys@, g as int)) && b.indices@
                == all_indices(in_group(self.tree@, keys@, g as int)) && b.wf()),
            all_vertices(in_group(self.tree@, keys@, g as int)).len() > MAX_BATCH_VERTICES ==> r
                == Err::<Batch<Vertex>, LayoutError>(LayoutError::BatchOverflow),
    {
        let ghost nodes = self.tree@;
        let ghost sel = |n: Node| group_of(n, keys@) == g as int;
        let mut batch: Batch<Vertex> = Batch::new();
        let mut i: usize = 0;
        while i < self.tree.len()
            invariant
                nodes == self.tree@,
                sel == (|n: Node| group_of(n, keys@) == g as int),
                forall|a: int| 0 <= a < nodes.len() ==> (#[trigger] nodes[a]).body.cached_mesh().wf(),
                i <= nodes.len(),
                batch.wf(),
                batch.vertices@ == all_vertices(nodes.subrange(0, i as int).filter(sel)),
                batch.indices@ == all_indices(nodes.subrange(0, i as int).filter(sel)),
                batch.vertices@.len() <= MAX_BATCH_VERTICES,
            decreases nodes.len() - i,
        {
            let node = &self.tree[i];
            let ghost before = nodes.subrange(0, i as int);
            let ghost after = nodes.subrange(0, i + 1);
            proof {
                assert(after.drop_last() =~= before);
                assert(after.last() == nodes[i as int]);
                assert(after.filter(sel) == before.filter(sel) + (if sel(nodes[i as int]) {
                    seq![nodes[i as int]]
                } else {
                    Seq::<Node>::empty()
                })) by {
                    reveal(Seq::filter);
                    if sel(nodes[i as int]) {
                        assert(after.filter(sel) =~= before.filter(sel) + seq![nodes[i as int]]);
                    }
                }
            }
            if NodeWalker::group_index(node, keys) == g {
                let mesh = node.body.mesh_ref();
                proof {
                    let f = after.filter(sel);
                    assert(f.drop_last() =~= before.filter(sel));
                    assert(f.last() == nodes[i as int]);
                }
                if mesh.vertices.len() > MAX_BATCH_VERTICES - batch.vertices.len() {
                    proof {
                        lemma_filter_prefix_vertices(nodes, i + 1, sel);
                    }
                    return Err(LayoutError::BatchOverflow);
                }
                batch.add(mesh);
            } else {
                proof {
                    assert(after.filter(sel) =~= before.filter(sel));
                }
            }
            i = i + 1;
        }
        assert(nodes.subrange(0, i as int) =~= nodes);
        Ok(batch)
    }

    /// Merges the node meshes into one batch per key and a last, default batch.
    ///
    /// A node goes to the batch of the first key equal to its shape's id, and to the
    /// default batch when its shape has no id or no key matches; each batch keeps tree
    /// order. Fails with `BatchOverflow` when a batch would hold more vertices than
    /// 16-bit indices address.
    pub fn get_batches(&self, keys: &Vec<String>) -> (r: Result<Vec<Batch<Vertex>>, LayoutError>)
        requires
            self.wf(),
            keys@.len() < usize::MAX,
        ensures
            (forall|g: int|
                0 <= g <= keys@.len() ==> all_vertices(#[trigger] in_group(self.tree@, keys@, g)).len()
                    <= MAX_BATCH_VERTICES) ==> (r matches Ok(bs) && bs@.len() == keys@.len() + 1
                && forall|g: int|
                0 <= g <= keys@.len() ==> {
                    &&& (#[trigger] bs@[g]).vertices@ == all_vertices(in_group(self.tree@, keys@, g))
                    &&& bs@[g].indices@ == all_indices(in_group(self.tree@, keys@, g))
                    &&& bs@[g].wf()
                }),
            (exists|g: int|
                0 <= g <= keys@.len() && all_vertices(#[trigger] in_group(self.tree@, keys@, g)).len()
                    > MAX_BATCH_VERTICES) ==> r == Err::<Vec<Batch<Vertex>>, LayoutError>(
                LayoutError::BatchOverflow,
            ),
    {
        let mut batches: Vec<Batch<Vertex>> = Vec::new();
        let mut g: usize = 0;
        while g <= keys.len()
            invariant
                self.wf(),
                g <= keys@.len() + 1,
                keys@.len() < usize::MAX,
                batches@.len() == g,
                forall|h: int|
                    0 <= h < g ==> {
                        &&& (#[trigger] batches@[h]).vertices@ == all_vertices(in_group(self.tree@, keys@, h))
                        &&& batches@[h].indices@ == all_indices(in_group(self.tree@, keys@, h))
                        &&& batches@[h].wf()
                        &&& all_vertices(in_group(self.tree@, keys@, h)).len() <= MAX_BATCH_VERTICES
                    },
            decreases keys@.len() + 1 - g,
        {
            let b = match self.group_batch(keys, g) {
                Ok(b) => b,
                Err(e) => {
                    return Err(e);
                },
            };
            batches.push(b);
            g = g + 1;
        }
        assert forall|h: int| 0 <= h <= keys@.len() implies all_vertices(
            #[trigger] in_group(self.tree@, keys@, h),
        ).len() <= MAX_BATCH_VERTICES by {
            assert(batches@[h].wf());
        }
        Ok(batches)
    }
}

/// A node set's filtered prefix has no more merged vertices than the whole filtered set.
proof fn lemma_filter_prefix_vertices(nodes: Seq<Node>, m: int, sel: spec_fn(Node) -> bool)
    requires
        0 <= m <= nodes.len(),
    ensures
        all_vertices(nodes.subrange(0, m).filter(sel)).len() <= all_vertices(nodes.filter(sel)).len(),
    decreases nodes.len(),
{
    if m == nodes.len() {
        assert(nodes.subrange(0, m) =~= nodes);
    } else {
        let prefix = nodes.drop_last();
        assert(prefix.subrange(0, m) =~= nodes.subrange(0, m));
        lemma_filter_prefix_vertices(prefix, m, sel);
        reveal(Seq::filter);
        if sel(nodes.last()) {
            let f = nodes.filter(sel);
            assert(f =~= prefix.filter(sel) + seq![nodes.last()]);
            assert(f.drop_last() =~= prefix.filter(sel));
        } else {
            assert(nodes.filter(sel) =~= prefix.filter(sel));
        }
    }
}

} // verus!

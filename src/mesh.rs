use vstd::prelude::*;

verus! {

/// Largest number of vertices that 16-bit indices can address.
pub const MAX_BATCH_VERTICES: usize = 65536;

/// An RGBA colour, one byte per channel.
#[derive(Clone, Copy, Debug, PartialEq, Eq, Structural)]
pub struct Color {
    pub r: u8,
    pub g: u8,
    pub b: u8,
    pub a: u8,
}

/// One vertex of a mesh.
///
/// `x / xy_scale` and `y / xy_scale` are its position in pixels; `u / u_scale` and
/// `v / v_scale` are the normalised texture coordinates; a `texture_id` of -1 means a
/// solid colour with no texture.
#[derive(Clone, Copy, Debug, PartialEq, Eq, Structural)]
pub struct Vertex {
    pub x: i64,
    pub y: i64,
    pub xy_scale: u64,
    pub color: Color,
    pub u: u64,
    pub v: u64,
    pub u_scale: u64,
    pub v_scale: u64,
    pub texture_id: i32,
}

/// Vertices and a triangle list of indices into them.
#[derive(Clone, Debug)]
pub struct Mesh<T: Copy> {
    pub vertices: Vec<T>,
    pub indices: Vec<u16>,
}

/// Every index names a vertex of the list.
pub open spec fn indices_in_range(indices: Seq<u16>, len: int) -> bool {
    forall|i: int| 0 <= i < indices.len() ==> (#[trigger] indices[i] as int) < len
}

impl<T: Copy> Mesh<T> {
    /// Every index of the mesh names one of its vertices.
    pub open spec fn wf(&self) -> bool {
        indices_in_range(self.indices@, self.vertices@.len() as int)
    }
}

/// Read access to a mesh's buffers.
pub trait MeshTrait<T> {
    spec fn index_view(&self) -> Seq<u16>;

    spec fn vertex_view(&self) -> Seq<T>;

    fn get_indices(&mut self) -> (r: Vec<u16>)
        ensures
            r@ == old(self).index_view(),
            final(self).index_view() == old(self).index_view(),
            final(self).vertex_view() == old(self).vertex_view(),
    ;

    fn get_vertices(&mut self) -> (r: Vec<T>)
        ensures
            r@ == old(self).vertex_view(),
            final(self).index_view() == old(self).index_view(),
            final(self).vertex_view() == old(self).vertex_view(),
    ;
}

/// Copies a list element by element.
pub(crate) fn copy_vec<T: Copy>(v: &Vec<T>) -> (r: Vec<T>)
    ensures
        r@ == v@,
{
    let mut r: Vec<T> = Vec::new();
    let mut i: usize = 0;
    while i < v.len()
        invariant
            i <= v.len(),
            r@ == v@.subrange(0, i as int),
        decreases v.len() - i,
    {
        r.push(v[i]);
        i = i + 1;
    }
    r
}

impl<T: Copy> MeshTrait<T> for Mesh<T> {
    open spec fn index_view(&self) -> Seq<u16> {
        self.indices@
    }

    open spec fn vertex_view(&self) -> Seq<T> {
        self.vertices@
    }

    fn get_indices(&mut self) -> (r: Vec<u16>) {
        copy_vec(&self.indices)
    }

    fn get_vertices(&mut self) -> (r: Vec<T>) {
        copy_vec(&self.vertices)
    }
}

/// Indices moved up by `offset`, as appended after `offset` earlier vertices.
pub open spec fn rebased(indices: Seq<u16>, offset: int) -> Seq<u16> {
    indices.map_values(|i: u16| (i + offset) as u16)
}

/// Vertices and indices merged from many meshes into one draw call's buffers.
#[derive(Clone, Debug)]
pub struct Batch<T: Copy> {
    pub indices: Vec<u16>,
    pub vertices: Vec<T>,
}

impl<T: Copy> Batch<T> {
    /// Every index of the batch names one of its vertices.
    pub open spec fn wf(&self) -> bool {
        indices_in_range(self.indices@, self.vertices@.len() as int)
    }

    /// An empty batch.
    pub fn new() -> (r: Self)
        ensures
            r.vertices@.len() == 0,
            r.indices@.len() == 0,
            r.wf(),
    {
        Batch { indices: Vec::new(), vertices: Vec::new() }
    }

    /// Empties both buffers.
    pub fn clear(&mut self)
        ensures
            final(self).vertices@.len() == 0,
            final(self).indices@.len() == 0,
            final(self).wf(),
    {
        self.vertices.clear();
        self.indices.clear();
    }

    /// Appends a mesh: its vertices after the batch's, its indices rebased by the number
    /// of vertices the batch held before.
    pub fn add(&mut self, mesh: &Mesh<T>)
        requires
            mesh.wf(),
            old(self).vertices@.len() + mesh.vertices@.len() <= MAX_BATCH_VERTICES,
        ensures
            final(self).vertices@ == old(self).vertices@ + mesh.vertices@,
            final(self).indices@ == old(self).indices@ + rebased(
                mesh.indices@,
                old(self).vertices@.len() as int,
            ),
            old(self).wf() ==> final(self).wf(),
    {
        let offset = self.vertices.len();
        let ghost old_indices = self.indices@;
        let mut i: usize = 0;
        while i < mesh.indices.len()
            invariant
                i <= mesh.indices@.len(),
                offset == self.vertices@.len(),
                offset + mesh.vertices@.len() <= MAX_BATCH_VERTICES,
                mesh.wf(),
                self.vertices@ == old(self).vertices@,
                old_indices == old(self).indices@,
                self.indices@ == old_indices + rebased(mesh.indices@, offset as int).subrange(
                    0,
                    i as int,
                ),
            decreases mesh.indices@.len() - i,
        {
            let idx = mesh.indices[i];
            assert(mesh.indices@[i as int] < mesh.vertices@.len());
            self.indices.push((idx as usize + offset) as u16);
            i = i + 1;
            assert(self.indices@ =~= old_indices + rebased(mesh.indices@, offset as int).subrange(
                0,
                i as int,
            ));
        }
        assert(rebased(mesh.indices@, offset as int).subrange(0, i as int) =~= rebased(
            mesh.indices@,
            offset as int,
        ));
        let mut j: usize = 0;
        let ghost before = self.vertices@;
        while j < mesh.vertices.len()
            invariant
                j <= mesh.vertices@.len(),
                before == old(self).vertices@,
                self.vertices@ == before + mesh.vertices@.subrange(0, j as int),
                self.indices@ == old(self).indices@ + rebased(mesh.indices@, offset as int),
            decreases mesh.vertices@.len() - j,
        {
            self.vertices.push(mesh.vertices[j]);
            j = j + 1;
            assert(self.vertices@ =~= before + mesh.vertices@.subrange(0, j as int));
        }
        assert(mesh.vertices@.subrange(0, j as int) =~= mesh.vertices@);
        proof {
            let total = self.vertices@.len() as int;
            let r = rebased(mesh.indices@, offset as int);
            assert forall|k: int| 0 <= k < r.len() implies (#[trigger] r[k] as int) < total by {
                assert(mesh.indices@[k] < mesh.vertices@.len());
            }
            if old(self).wf() {
                assert forall|k: int| 0 <= k < self.indices@.len() implies (
                #[trigger] self.indices@[k] as int) < total by {
                    if k >= old(self).indices@.len() {
                        assert(self.indices@[k] == r[k - old(self).indices@.len()]);
                    }
                }
            }
        }
    }
}

/// Batching is associative: appending mesh `a` and then mesh `c` to a batch gives the
/// same buffers as appending the single mesh made of `a` followed by `c` with `c`'s
/// indices moved up by the length of `a`'s vertices. Every index stays below the
/// vertex count after each step.
pub proof fn add_is_associative<T>(
    bv: Seq<T>,
    bi: Seq<u16>,
    av: Seq<T>,
    ai: Seq<u16>,
    cv: Seq<T>,
    ci: Seq<u16>,
)
    requires
        indices_in_range(ai, av.len() as int),
        indices_in_range(ci, cv.len() as int),
        bv.len() + av.len() + cv.len() <= MAX_BATCH_VERTICES,
    ensures
        (bv + av) + cv == bv + (av + cv),
        (bi + rebased(ai, bv.len() as int)) + rebased(ci, (bv + av).len() as int) == bi + rebased(
            ai + rebased(ci, av.len() as int),
            bv.len() as int,
        ),
        indices_in_range(ai + rebased(ci, av.len() as int), (av + cv).len() as int),
        indices_in_range(bi, bv.len() as int) ==> indices_in_range(
            bi + rebased(ai, bv.len() as int),
            (bv + av).len() as int,
        ),
        indices_in_range(bi, bv.len() as int) ==> indices_in_range(
            (bi + rebased(ai, bv.len() as int)) + rebased(ci, (bv + av).len() as int),
            ((bv + av) + cv).len() as int,
        ),
{
    let lb = bv.len() as int;
    let la = av.len() as int;
    let lc = cv.len() as int;
    assert((bv + av) + cv =~= bv + (av + cv));
    let merged = ai + rebased(ci, la);
    assert forall|k: int| 0 <= k < merged.len() implies (#[trigger] merged[k] as int) < la + lc by {
        if k >= ai.len() {
            assert(ci[k - ai.len()] < lc);
        }
    }
    let lhs = (bi + rebased(ai, lb)) + rebased(ci, lb + la);
    let rhs = bi + rebased(merged, lb);
    assert forall|k: int| 0 <= k < lhs.len() implies lhs[k] == rhs[k] by {
        if k >= bi.len() + ai.len() {
            assert(ci[k - bi.len() - ai.len()] < lc);
        } else if k >= bi.len() {
            assert(ai[k - bi.len()] < la);
        }
    }
    assert(lhs =~= rhs);
    if indices_in_range(bi, lb) {
        let one = bi + rebased(ai, lb);
        assert forall|k: int| 0 <= k < one.len() implies (#[trigger] one[k] as int) < lb + la by {
            if k >= bi.len() {
                assert(ai[k - bi.len()] < la);
            }
        }
        assert forall|k: int| 0 <= k < lhs.len() implies (#[trigger] lhs[k] as int) < lb + la
            + lc by {
            if k >= bi.len() + ai.len() {
                assert(ci[k - bi.len() - ai.len()] < lc);
            } else if k >= bi.len() {
                assert(ai[k - bi.len()] < la);
            }
        }
    }
}

} // verus!

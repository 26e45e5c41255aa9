//! Pieces of the renderer that are independent of the GPU: the render mode, the palette
//! conversion, the triangle indices of level meshes, and the index padding the
//! mesh-shader path needs.
use vstd::prelude::*;

verus! {

/// Which GPU path draws the level.
#[derive(Clone, Copy, Debug, PartialEq, Eq, Structural)]
pub enum RenderMode {
    /// Classic vertex and fragment shaders for sky, walls, flats and sprites.
    Raster,
    /// Compute shaders that cast primary rays through acceleration structures.
    RayQuery,
    /// Sky and sprites by vertex and fragment shaders, static geometry by mesh shaders.
    Mesh,
}

impl RenderMode {
    /// The mode used when none is chosen: `Raster`.
    pub fn default_mode() -> (r: RenderMode)
        ensures
            r == RenderMode::Raster,
    {
        RenderMode::Raster
    }
}

/// Turns RGB triplets into RGBA quadruplets with alpha 255. Trailing bytes that do not
/// make a whole triplet are dropped.
pub fn palette_to_rgba8(rgb: &[u8]) -> (r: Vec<u8>)
    ensures
        r@.len() == (rgb@.len() / 3) * 4,
        forall|k: int|
            0 <= k < rgb@.len() / 3 ==> {
                &&& #[trigger] r@[4 * k] == rgb@[3 * k]
                &&& r@[4 * k + 1] == rgb@[3 * k + 1]
                &&& r@[4 * k + 2] == rgb@[3 * k + 2]
                &&& r@[4 * k + 3] == 255
            },
{
    let len = rgb.len();
    let n = len / 3;
    assert(3 * n <= len);
    let mut rgba: Vec<u8> = Vec::new();
    let mut k: usize = 0;
    while k < n
        invariant
            n == rgb@.len() / 3,
            len == rgb@.len(),
            3 * n <= len,
            0 <= k <= n,
            rgba@.len() == 4 * k,
            forall|j: int|
                0 <= j < k ==> {
                    &&& #[trigger] rgba@[4 * j] == rgb@[3 * j]
                    &&& rgba@[4 * j + 1] == rgb@[3 * j + 1]
                    &&& rgba@[4 * j + 2] == rgb@[3 * j + 2]
                    &&& rgba@[4 * j + 3] == 255
                },
        decreases n - k,
    {
        let ghost prev = rgba@;
        rgba.push(rgb[3 * k]);
        rgba.push(rgb[3 * k + 1]);
        rgba.push(rgb[3 * k + 2]);
        rgba.push(255);
        assert(rgba@ == prev + seq![rgb@[3 * k], rgb@[3 * k + 1], rgb@[3 * k + 2], 255u8]);
        k = k + 1;
        assert forall|j: int| 0 <= j < k implies {
            &&& #[trigger] rgba@[4 * j] == rgb@[3 * j]
            &&& rgba@[4 * j + 1] == rgb@[3 * j + 1]
            &&& rgba@[4 * j + 2] == rgb@[3 * j + 2]
            &&& rgba@[4 * j + 3] == 255
        } by {
            if j < k - 1 {
                assert(rgba@[4 * j] == prev[4 * j]);
                assert(rgba@[4 * j + 1] == prev[4 * j + 1]);
                assert(rgba@[4 * j + 2] == prev[4 * j + 2]);
                assert(rgba@[4 * j + 3] == prev[4 * j + 3]);
            }
        }
    }
    rgba
}

/// The number of rows of 256 colours in the palette texture: one per whole 256 colours of
/// RGB triplets, at least one.
pub fn palette_rows(palette_len: usize) -> (r: u32)
    ensures
        r == (if palette_len / 3 / 256 >= 1 { palette_len / 3 / 256 } else { 1 }) as u32,
{
    let rows = palette_len / 3 / 256;
    if rows >= 1 {
        rows as u32
    } else {
        1
    }
}

/// The smallest multiple of 64 that is at least `n`.
pub open spec fn next_multiple_of_64(n: int) -> int {
    ((n + 63) / 64) * 64
}

/// The triangle that pads an index list: its last whole triangle, or three zeros when it
/// has none.
pub open spec fn padding_triangle(indices: Seq<u32>) -> Seq<u32> {
    let t = (indices.len() / 3) as int;
    if t == 0 {
        seq![0u32, 0u32, 0u32]
    } else {
        indices.subrange(3 * (t - 1), 3 * t)
    }
}

/// An index list padded for the mesh-shader path: its whole-triangle count rounded up to
/// a multiple of 64 by repeating the padding triangle after all the given indices.
pub open spec fn spec_padded_indices(indices: Seq<u32>) -> Seq<u32> {
    let t = (indices.len() / 3) as int;
    let extra = next_multiple_of_64(t) - t;
    indices + Seq::new((3 * extra) as nat, |k: int| padding_triangle(indices)[k % 3])
}

/// Pads a triangle index list so that its triangle count is a multiple of 64, repeating
/// the last triangle; gives the padded list and its triangle count.
pub fn padded_triangle_indices(indices: &[u32]) -> (r: (Vec<u32>, usize))
    requires
        indices@.len() + 192 <= usize::MAX,
    ensures
        r.0@ == spec_padded_indices(indices@),
        r.1 == next_multiple_of_64((indices@.len() / 3) as int),
{
    let tri_count = indices.len() / 3;
    let padded_tris = (tri_count + 63) / 64 * 64;
    let last: [u32; 3] = if tri_count == 0 {
        [0u32, 0, 0]
    } else {
        [indices[(tri_count - 1) * 3], indices[(tri_count - 1) * 3 + 1], indices[(tri_count - 1) * 3 + 2]]
    };
    let ghost pad = padding_triangle(indices@);
    assert(last@ == pad);
    let mut padded: Vec<u32> = Vec::new();
    let mut i: usize = 0;
    while i < indices.len()
        invariant
            0 <= i <= indices@.len(),
            padded@ == indices@.subrange(0, i as int),
        decreases indices@.len() - i,
    {
        padded.push(indices[i]);
        i = i + 1;
        assert(padded@ =~= indices@.subrange(0, i as int));
    }
    let ghost extra = padded_tris - tri_count;
    assert(0 <= extra < 64);
    let mut t: usize = tri_count;
    while t < padded_tris
        invariant
            tri_count <= t <= padded_tris,
            padded_tris - tri_count < 64,
            indices@.len() + 192 <= usize::MAX,
            last@ == pad,
            padded@ == indices@ + Seq::new((3 * (t - tri_count)) as nat, |k: int| pad[k % 3]),
        decreases padded_tris - t,
    {
        let ghost before = padded@;
        padded.push(last[0]);
        padded.push(last[1]);
        padded.push(last[2]);
        t = t + 1;
        proof {
            let n = 3 * (t - tri_count);
            assert(padded@ =~= indices@ + Seq::new(n as nat, |k: int| pad[k % 3]));
        }
    }
    proof {
        assert(indices@.subrange(0, indices@.len() as int) =~= indices@);
    }
    (padded, padded_tris)
}

/// The two triangles of a quad whose four vertices start at `v0`, in order around it.
pub open spec fn quad_indices(v0: int) -> Seq<u32> {
    seq![v0 as u32, (v0 + 1) as u32, (v0 + 3) as u32, (v0 + 1) as u32, (v0 + 2) as u32, (v0 + 3) as u32]
}

/// The fan of triangles of a convex polygon whose `len` vertices start at `v0`: for each
/// `i` from 1 to `len - 2`, the triangle `v0, v0 + i, v0 + i + 1`.
pub open spec fn fan_indices(v0: int, len: int) -> Seq<u32>
    decreases len,
{
    if len < 3 {
        Seq::empty()
    } else {
        fan_indices(v0, len - 1) + seq![v0 as u32, (v0 + len - 2) as u32, (v0 + len - 1) as u32]
    }
}

/// Every index is below `n`: it names a vertex that exists.
pub open spec fn indices_below(s: Seq<u32>, n: int) -> bool {
    forall|k: int| 0 <= k < s.len() ==> (#[trigger] s[k] as int) < n
}

proof fn lemma_fan_indices(v0: int, len: int)
    requires
        0 <= v0,
        v0 + len <= u32::MAX + 1,
    ensures
        fan_indices(v0, len).len() == if len < 3 { 0 } else { 3 * (len - 2) },
        forall|k: int| 0 <= k < fan_indices(v0, len).len() ==> v0 <= (#[trigger] fan_indices(v0, len)[k] as int) < v0 + len,
    decreases len,
{
    if len >= 3 {
        lemma_fan_indices(v0, len - 1);
        let p = fan_indices(v0, len - 1);
        let f = fan_indices(v0, len);
        assert forall|k: int| 0 <= k < f.len() implies v0 <= (#[trigger] f[k] as int) < v0 + len by {
            if k < p.len() {
                assert(f[k] == p[k]);
            }
        }
    }
}

/// Adds the triangles of a quad made of the last four of `vertex_count` vertices.
pub fn push_quad_indices(indices: &mut Vec<u32>, vertex_count: u32)
    requires
        vertex_count >= 4,
    ensures
        final(indices)@ == old(indices)@ + quad_indices(vertex_count - 4),
        indices_below(old(indices)@, vertex_count as int) ==> indices_below(final(indices)@, vertex_count as int),
{
    let v0 = vertex_count - 4;
    let ghost before = indices@;
    indices.push(v0);
    indices.push(v0 + 1);
    indices.push(v0 + 3);
    indices.push(v0 + 1);
    indices.push(v0 + 2);
    indices.push(v0 + 3);
    proof {
        assert(indices@ =~= before + quad_indices(vertex_count - 4));
        if indices_below(before, vertex_count as int) {
            assert forall|k: int| 0 <= k < indices@.len() implies (#[trigger] indices@[k] as int) < vertex_count by {
                if k < before.len() {
                    assert(indices@[k] == before[k]);
                }
            }
        }
    }
}

/// Adds the triangle fan of a convex polygon made of the last `poly_len` of
/// `vertex_count` vertices; a polygon of fewer than three vertices adds none.
pub fn push_poly_indices(indices: &mut Vec<u32>, vertex_count: u32, poly_len: usize)
    requires
        1 <= poly_len <= vertex_count,
    ensures
        final(indices)@ == old(indices)@ + fan_indices(vertex_count - poly_len, poly_len as int),
        indices_below(old(indices)@, vertex_count as int) ==> indices_below(final(indices)@, vertex_count as int),
{
    let len = poly_len as u32;
    let v0 = vertex_count - len;
    let ghost before = indices@;
    let mut i: u32 = 1;
    while i < len - 1
        invariant
            1 <= i,
            i <= len - 1 || len == 1,
            len == 1 ==> i == 1,
            len == poly_len,
            len <= vertex_count,
            v0 == vertex_count - len,
            indices@ == before + fan_indices(v0 as int, (i + 1) as int),
        decreases len - i,
    {
        indices.push(v0);
        indices.push(v0 + i);
        indices.push(v0 + i + 1);
        i = i + 1;
        assert(indices@ =~= before + fan_indices(v0 as int, (i + 1) as int));
    }
    proof {
        if len >= 2 {
            assert(i + 1 == len);
        } else {
            assert(i == 1 && len == 1);
            assert(fan_indices(v0 as int, 2) == Seq::<u32>::empty());
            assert(fan_indices(v0 as int, 1) == Seq::<u32>::empty());
        }
        lemma_fan_indices(v0 as int, len as int);
        let f = fan_indices(v0 as int, len as int);
        if indices_below(before, vertex_count as int) {
            assert forall|k: int| 0 <= k < indices@.len() implies (#[trigger] indices@[k] as int) < vertex_count by {
                if k < before.len() {
                    assert(indices@[k] == before[k]);
                } else {
                    assert(indices@[k] == f[k - before.len()]);
                }
            }
        }
    }
}

} // verus!

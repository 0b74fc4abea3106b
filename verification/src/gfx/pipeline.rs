//! The attributes that tell render pipelines apart, and the index data that
//! follows from them.

use vstd::prelude::*;

verus! {

/// Attributes of a pipeline.
#[derive(Debug, Clone, PartialEq, Eq, Hash)]
pub struct PipelineAttributes {
    /// The indices that draw one mesh.
    pub index_pattern: Vec<u32>,
    pub sampler_id: u16,
}

/// The default flush threshold for a pipeline.
pub const DEFAULT_FLUSH_THRESHOLD: usize = 64;

impl PipelineAttributes {
    /// The number of vertices of one mesh: the number of different indices in
    /// the pattern.
    pub open spec fn vertex_count(&self) -> nat {
        self.index_pattern@.to_set().len()
    }

    /// The index that stands at place `place` of copy `mesh` of the pattern:
    /// that of the pattern, moved past the vertices of the meshes before.
    pub open spec fn index_at(&self, mesh: int, place: int) -> int {
        self.index_pattern@[place] + self.vertex_count() * mesh
    }

    /// Whether the index data for `meshes` meshes can be held: its length in
    /// a `usize` and each index in a `u32`.
    pub open spec fn expands(&self, meshes: usize) -> bool {
        &&& self.index_pattern@.len() * meshes <= usize::MAX
        &&& forall|mesh: int, place: int|
            0 <= mesh < meshes && 0 <= place < self.index_pattern@.len()
                ==> #[trigger] self.index_at(mesh, place) <= u32::MAX
    }

    /// Whether the pattern names `self.index_pattern[at]` before `at`.
    fn seen_before(&self, at: usize) -> (seen: bool)
        requires
            at < self.index_pattern@.len(),
        ensures
            seen == self.index_pattern@.take(at as int).contains(self.index_pattern@[at as int]),
    {
        let mut j: usize = 0;
        while j < at
            invariant
                j <= at < self.index_pattern@.len(),
                forall|k: int|
                    0 <= k < j ==> self.index_pattern@[k] != self.index_pattern@[at as int],
            decreases at - j,
        {
            if self.index_pattern[j] == self.index_pattern[at] {
                assert(self.index_pattern@.take(at as int)[j as int]
                    == self.index_pattern@[at as int]);
                return true;
            }
            j += 1;
        }
        false
    }

    /// The number of vertices of one mesh.
    pub fn vertices_per_mesh(&self) -> (count: usize)
        ensures
            count == self.vertex_count(),
    {
        let mut count: usize = 0;
        let mut i: usize = 0;
        assert(self.index_pattern@.take(0) =~= Seq::<u32>::empty());
        assert(Seq::<u32>::empty().to_set() =~= Set::<u32>::empty());
        while i < self.index_pattern.len()
            invariant
                i <= self.index_pattern@.len(),
                count <= i,
                count == self.index_pattern@.take(i as int).to_set().len(),
            decreases self.index_pattern@.len() - i,
        {
            let seen = self.seen_before(i);
            proof {
                broadcast use vstd::seq_lib::group_seq_properties;
                broadcast use vstd::set::group_set_axioms;
                let before = self.index_pattern@.take(i as int);
                let value = self.index_pattern@[i as int];
                assert(self.index_pattern@.take(i + 1) =~= before.push(value));
                before.lemma_push_to_set_commute(value);
                vstd::seq_lib::seq_to_set_is_finite(before);
                if seen {
                    assert(before.to_set().contains(value));
                    assert(before.to_set().insert(value) =~= before.to_set());
                } else {
                    assert(!before.to_set().contains(value));
                }
            }
            if !seen {
                count += 1;
            }
            i += 1;
        }
        assert(self.index_pattern@.take(self.index_pattern@.len() as int) =~= self.index_pattern@);
        count
    }

    /// The index data for `meshes` meshes: the pattern once for each mesh, one
    /// after the other, each copy moved past the vertices of the meshes
    /// before it. `None` where that cannot be held.
    pub fn index_data(&self, meshes: usize) -> (data: Option<Vec<u32>>)
        ensures
            match data {
                Some(indices) => {
                    &&& self.expands(meshes)
                    &&& indices@.len() == self.index_pattern@.len() * meshes
                    &&& forall|mesh: int, place: int|
                        0 <= mesh < meshes && 0 <= place < self.index_pattern@.len()
                            ==> indices@[mesh * self.index_pattern@.len() + place]
                            == #[trigger] self.index_at(mesh, place)
                },
                None => !self.expands(meshes),
            },
    {
        let len = self.index_pattern.len();
        let vertices = self.vertices_per_mesh();
        if len.checked_mul(meshes).is_none() {
            return None;
        }
        let mut indices: Vec<u32> = Vec::new();
        let mut mesh: usize = 0;
        while mesh < meshes
            invariant
                mesh <= meshes,
                len == self.index_pattern@.len(),
                vertices == self.vertex_count(),
                len * meshes <= usize::MAX,
                indices@.len() == mesh * len,
                forall|m: int, p: int|
                    0 <= m < mesh && 0 <= p < len ==> indices@[m * len + p]
                        == #[trigger] self.index_at(m, p),
            decreases meshes - mesh,
        {
            let mut place: usize = 0;
            while place < len
                invariant
                    mesh < meshes,
                    place <= len,
                    len == self.index_pattern@.len(),
                    vertices == self.vertex_count(),
                    len * meshes <= usize::MAX,
                    indices@.len() == mesh * len + place,
                    forall|m: int, p: int|
                        0 <= m < mesh && 0 <= p < len ==> indices@[m * len + p]
                            == #[trigger] self.index_at(m, p),
                    forall|p: int|
                        0 <= p < place ==> indices@[mesh * len + p] == #[trigger] self.index_at(
                            mesh as int,
                            p,
                        ),
                decreases len - place,
            {
                let shifted = match vertices.checked_mul(mesh) {
                    Some(shift) => if shift <= u32::MAX as usize {
                        self.index_pattern[place].checked_add(shift as u32)
                    } else {
                        None
                    },
                    None => None,
                };
                let ghost held = indices@;
                match shifted {
                    Some(index) => {
                        indices.push(index);
                    },
                    None => {
                        assert(self.index_at(mesh as int, place as int) > u32::MAX);
                        return None;
                    },
                }
                proof {
                    assert forall|m: int, p: int| 0 <= m < mesh && 0 <= p < len implies indices@[m
                        * len + p] == #[trigger] self.index_at(m, p) by {
                        assert(m * len + p < mesh * len) by (nonlinear_arith)
                            requires
                                0 <= m < mesh,
                                0 <= p < len,
                        ;
                        assert(held[m * len + p] == self.index_at(m, p));
                    }
                }
                place += 1;
            }
            proof {
                assert(mesh * len + len == (mesh + 1) * len) by (nonlinear_arith);
                assert forall|m: int, p: int| 0 <= m < mesh + 1 && 0 <= p < len implies indices@[m
                    * len + p] == #[trigger] self.index_at(m, p) by {
                    if m < mesh {
                    } else {
                        assert(m == mesh);
                    }
                }
            }
            mesh += 1;
        }
        proof {
            assert(indices@.len() == len * meshes) by (nonlinear_arith)
                requires
                    indices@.len() == meshes * len,
            ;
            assert forall|m: int, p: int|
                0 <= m < meshes && 0 <= p < len implies #[trigger] self.index_at(m, p)
                <= u32::MAX by {
                assert(0 <= m * len + p < meshes * len) by (nonlinear_arith)
                    requires
                        0 <= m < meshes,
                        0 <= p < len,
                ;
                assert(indices@[m * len + p] == self.index_at(m, p));
            }
        }
        Some(indices)
    }
}

} // verus!

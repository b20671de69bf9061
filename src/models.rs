//! The list of loaded models, and the input of the mesh-fixing step that
//! merges the shown ones.
use vstd::prelude::*;

verus! {

/// A loaded model: its viewer id, a name, flat double-precision coordinate
/// triples (by bit pattern), a triangle list and whether it is shown.
pub struct Model {
    pub id: u32,
    pub name: String,
    pub points: Vec<u64>,
    pub triangles: Vec<usize>,
    pub show: bool,
}

impl Model {
    pub fn new(name: String, points: Vec<u64>, triangles: Vec<usize>, id: u32) -> (r: Model)
        ensures
            r.id == id,
            r.name@ == name@,
            r.points@ == points@,
            r.triangles@ == triangles@,
            r.show,
    {
        Model { id, name, points, triangles, show: true }
    }
}

/// Every index of the triangle list names a coordinate triple of the model.
pub open spec fn indices_in_range(m: Model) -> bool {
    forall|k: int| 0 <= k < m.triangles@.len() ==> (#[trigger] m.triangles@[k]) < m.points@.len() / 3
}

pub open spec fn as_ints(s: Seq<usize>) -> Seq<int> {
    s.map_values(|x: usize| x as int)
}

/// Each index moved on by `offset`.
pub open spec fn shifted(s: Seq<usize>, offset: int) -> Seq<int> {
    s.map_values(|x: usize| x + offset)
}

pub open spec fn other_than(id: u32) -> spec_fn(Model) -> bool {
    |m: Model| m.id != id
}

/// The models in the order they were added.
pub struct Models(pub Vec<Model>);

/// The merged coordinates: those of the shown models, one after the other.
pub open spec fn merged_points(ms: Seq<Model>) -> Seq<u64>
    decreases ms.len(),
{
    if ms.len() == 0 {
        Seq::empty()
    } else {
        merged_points(ms.drop_last()) + if ms.last().show {
            ms.last().points@
        } else {
            Seq::empty()
        }
    }
}

/// The merged triangle list: each shown model's indices shifted by the
/// number of coordinate triples merged before it.
pub open spec fn merged_triangles(ms: Seq<Model>) -> Seq<int>
    decreases ms.len(),
{
    if ms.len() == 0 {
        Seq::empty()
    } else {
        let offset = merged_points(ms.drop_last()).len() / 3;
        merged_triangles(ms.drop_last()) + if ms.last().show {
            shifted(ms.last().triangles@, offset as int)
        } else {
            Seq::empty()
        }
    }
}

/// The number of shown models.
pub open spec fn shown_count(ms: Seq<Model>) -> nat
    decreases ms.len(),
{
    if ms.len() == 0 {
        0
    } else {
        shown_count(ms.drop_last()) + if ms.last().show {
            1nat
        } else {
            0nat
        }
    }
}

/// The shell of each merged triangle: the rank of its model among the shown
/// ones.
pub open spec fn merged_shells(ms: Seq<Model>) -> Seq<int>
    decreases ms.len(),
{
    if ms.len() == 0 {
        Seq::empty()
    } else {
        let rank = shown_count(ms.drop_last()) as int;
        merged_shells(ms.drop_last()) + if ms.last().show {
            Seq::new(ms.last().triangles@.len() / 3, |_i: int| rank)
        } else {
            Seq::empty()
        }
    }
}

/// The input of the mesh-fixing step.
pub struct MergedMesh {
    pub points: Vec<u64>,
    pub triangles: Vec<usize>,
    pub shells: Vec<usize>,
}

proof fn lemma_div3_sum(a: int, b: int, t: int)
    requires
        0 <= a,
        0 <= b,
        0 <= t < b / 3,
    ensures
        t + a / 3 < (a + b) / 3,
{
    assert(a / 3 + b / 3 <= (a + b) / 3) by (nonlinear_arith)
        requires
            0 <= a,
            0 <= b,
    ;
}

proof fn lemma_shown_count_bound(ms: Seq<Model>)
    ensures
        shown_count(ms) <= ms.len(),
    decreases ms.len(),
{
    if ms.len() > 0 {
        lemma_shown_count_bound(ms.drop_last());
    }
}

impl Models {
    pub fn new() -> (r: Models)
        ensures
            r.0@.len() == 0,
    {
        Models(Vec::new())
    }

    pub fn add(&mut self, model: Model)
        ensures
            final(self).0@ == old(self).0@.push(model),
    {
        self.0.push(model);
    }

    /// Drops every model of id `id`, keeping the order of the others.
    pub fn remove(&mut self, id: u32)
        ensures
            final(self).0@ == old(self).0@.filter(other_than(id)),
    {
        let n0 = self.0.len();
        let ghost all = self.0@;
        let mut rest: Vec<Model> = Vec::new();
        std::mem::swap(&mut rest, &mut self.0);
        let mut k: usize = 0;
        while rest.len() > 0
            invariant
                all.len() <= usize::MAX,
                k + rest@.len() == all.len(),
                rest@ == all.skip(k as int),
                self.0@ == all.take(k as int).filter(other_than(id)),
            decreases rest@.len(),
        {
            let m = rest.remove(0);
            assert(all.take(k as int + 1).drop_last() =~= all.take(k as int));
            assert(all.take(k as int + 1).last() == m);
            let ghost kept = self.0@;
            if m.id != id {
                self.0.push(m);
            }
            proof {
                let t1 = all.take(k as int + 1);
                reveal(Seq::filter);
                assert(t1.len() > 0);
                assert(t1.filter(other_than(id)) == if other_than(id)(t1.last()) {
                    t1.drop_last().filter(other_than(id)).push(t1.last())
                } else {
                    t1.drop_last().filter(other_than(id))
                });
            }
            k += 1;
            assert(rest@ =~= all.skip(k as int));
        }
        assert(all.take(k as int) =~= all);
    }

    /// Marks every model hidden.
    pub fn hide_all(&mut self)
        ensures
            final(self).0@.len() == old(self).0@.len(),
            forall|i: int|
                0 <= i < old(self).0@.len() ==> (#[trigger] final(self).0@[i]).id == old(self).0@[i].id
                    && final(self).0@[i].name == old(self).0@[i].name
                    && final(self).0@[i].points == old(self).0@[i].points
                    && final(self).0@[i].triangles == old(self).0@[i].triangles
                    && !final(self).0@[i].show,
    {
        let mut i: usize = 0;
        while i < self.0.len()
            invariant
                self.0@.len() == old(self).0@.len(),
                i <= self.0@.len(),
                forall|j: int|
                    0 <= j < self.0@.len() ==> (#[trigger] self.0@[j]).id == old(self).0@[j].id
                        && self.0@[j].name == old(self).0@[j].name
                        && self.0@[j].points == old(self).0@[j].points
                        && self.0@[j].triangles == old(self).0@[j].triangles
                        && (j < i ==> !self.0@[j].show)
                        && (j >= i ==> self.0@[j].show == old(self).0@[j].show),
            decreases self.0@.len() - i,
        {
            self.0[i].show = false;
            i += 1;
        }
    }

    /// Concatenates the shown models into one mesh, shifting each triangle
    /// list past the coordinates before it, and gives each triangle the rank
    /// of its model among the shown ones.
    pub fn merge_shown(&self) -> (r: MergedMesh)
        requires
            forall|i: int| 0 <= i < self.0@.len() && (#[trigger] self.0@[i]).show ==> indices_in_range(self.0@[i]),
        ensures
            r.points@ == merged_points(self.0@),
            as_ints(r.triangles@) == merged_triangles(self.0@),
            as_ints(r.shells@) == merged_shells(self.0@),
    {
        let ghost ms = self.0@;
        let mut points: Vec<u64> = Vec::new();
        let mut triangles: Vec<usize> = Vec::new();
        let mut shells: Vec<usize> = Vec::new();
        let mut rank: usize = 0;
        let mut i: usize = 0;
        while i < self.0.len()
            invariant
                ms == self.0@,
                i <= ms.len(),
                forall|j: int| 0 <= j < ms.len() && (#[trigger] ms[j]).show ==> indices_in_range(ms[j]),
                points@ == merged_points(ms.take(i as int)),
                as_ints(triangles@) == merged_triangles(ms.take(i as int)),
                as_ints(shells@) == merged_shells(ms.take(i as int)),
                rank == shown_count(ms.take(i as int)),
            decreases ms.len() - i,
        {
            let ghost prev = ms.take(i as int);
            assert(ms.take(i as int + 1).drop_last() =~= prev);
            assert(ms.take(i as int + 1).last() == ms[i as int]);
            let m = &self.0[i];
            if m.show {
                let offset: usize = points.len() / 3;
                let ghost before = points@;
                let mut p: usize = 0;
                while p < m.points.len()
                    invariant
                        p <= m.points@.len(),
                        points@ == before + m.points@.take(p as int),
                    decreases m.points@.len() - p,
                {
                    points.push(m.points[p]);
                    p += 1;
                    assert(points@ =~= before + m.points@.take(p as int));
                }
                assert(m.points@.take(p as int) =~= m.points@);
                let total: usize = points.len();
                let ghost tri_before = triangles@;
                let mut t: usize = 0;
                while t < m.triangles.len()
                    invariant
                        t <= m.triangles@.len(),
                        triangles@.len() == tri_before.len() + t,
                        indices_in_range(*m),
                        offset == before.len() / 3,
                        total == before.len() + m.points@.len(),
                        as_ints(triangles@) == as_ints(tri_before)
                            + shifted(m.triangles@.take(t as int), offset as int),
                    decreases m.triangles@.len() - t,
                {
                    proof {
                        lemma_div3_sum(before.len() as int, m.points@.len() as int, m.triangles@[t as int] as int);
                        assert((before.len() + m.points@.len()) / 3 <= total);
                    }
                    let ghost old_tri = triangles@;
                    triangles.push(m.triangles[t] + offset);
                    t += 1;
                    proof {
                        let lhs = as_ints(triangles@);
                        let rhs = as_ints(tri_before) + shifted(m.triangles@.take(t as int), offset as int);
                        let prev_rhs = as_ints(tri_before) + shifted(m.triangles@.take(t as int - 1), offset as int);
                        assert(lhs.len() == rhs.len());
                        assert forall|j: int| 0 <= j < lhs.len() implies lhs[j] == rhs[j] by {
                            if j < old_tri.len() {
                                assert(as_ints(old_tri)[j] == prev_rhs[j]);
                                assert(triangles@[j] == old_tri[j]);
                                if j >= tri_before.len() {
                                    assert(m.triangles@.take(t as int)[j - tri_before.len()] == m.triangles@.take(t as int - 1)[j - tri_before.len()]);
                                }
                            }
                        }
                        assert(lhs =~= rhs);
                    }
                }
                assert(m.triangles@.take(t as int) =~= m.triangles@);
                let n_shells: usize = m.triangles.len() / 3;
                let ghost sh_before = shells@;
                let mut s: usize = 0;
                while s < n_shells
                    invariant
                        s <= n_shells,
                        shells@.len() == sh_before.len() + s,
                        as_ints(shells@) == as_ints(sh_before)
                            + Seq::new(s as nat, |_i: int| rank as int),
                    decreases n_shells - s,
                {
                    let ghost old_sh = shells@;
                    shells.push(rank);
                    s += 1;
                    proof {
                        let lhs = as_ints(shells@);
                        let rhs = as_ints(sh_before) + Seq::new(s as nat, |_i: int| rank as int);
                        let prev_rhs = as_ints(sh_before) + Seq::new((s - 1) as nat, |_i: int| rank as int);
                        assert(lhs.len() == rhs.len());
                        assert forall|j: int| 0 <= j < lhs.len() implies lhs[j] == rhs[j] by {
                            if j < old_sh.len() {
                                assert(as_ints(old_sh)[j] == prev_rhs[j]);
                                assert(shells@[j] == old_sh[j]);
                            }
                        }
                        assert(lhs =~= rhs);
                    }
                }
                proof {
                    lemma_shown_count_bound(prev);
                }
                assert(rank < self.0.len());
                rank += 1;
            }
            i += 1;
            assert(as_ints(triangles@) =~= merged_triangles(ms.take(i as int)));
            assert(as_ints(shells@) =~= merged_shells(ms.take(i as int)));
        }
        assert(ms.take(i as int) =~= ms);
        MergedMesh { points, triangles, shells }
    }
}

/// Lets at most one mesh-fixing run be in flight; a second request while
/// one runs is turned away, not queued.
pub struct FixGate {
    busy: bool,
}

impl FixGate {
    pub closed spec fn is_busy(&self) -> bool {
        self.busy
    }

    pub fn new() -> (r: FixGate)
        ensures
            !r.is_busy(),
    {
        FixGate { busy: false }
    }

    pub fn busy(&self) -> (r: bool)
        ensures
            r == self.is_busy(),
    {
        self.busy
    }

    /// Starts a run unless one is in flight; returns whether it started.
    pub fn try_begin(&mut self) -> (r: bool)
        ensures
            r == !old(self).is_busy(),
            final(self).is_busy(),
    {
        if self.busy {
            false
        } else {
            self.busy = true;
            true
        }
    }

    /// The run in flight is over.
    pub fn finish(&mut self)
        ensures
            !final(self).is_busy(),
    {
        self.busy = false;
    }
}

} // verus!

//! Disjoint-set forest with path compression, as used to merge peak
//! components of a range-Doppler surface in order of decreasing value.
use vstd::prelude::*;

verus! {

/// `parent` is a forest over `0..parent.len()` in which every non-root node
/// has a strictly higher-leveled parent, all levels bounded by `lmax`.
pub open spec fn leveled(parent: Seq<usize>, level: Seq<nat>, lmax: nat) -> bool {
    &&& level.len() == parent.len()
    &&& forall|i: int| 0 <= i < parent.len() ==> (#[trigger] parent[i] as int) < parent.len()
    &&& forall|i: int| 0 <= i < parent.len() ==> #[trigger] level[i] <= lmax
    &&& forall|i: int|
        0 <= i < parent.len() && #[trigger] parent[i] != i ==> level[i] < level[parent[i] as int]
}

/// The representative (root) of node `i`: follow parent links until a
/// self-parented node is reached.
pub open spec fn root_of(parent: Seq<usize>, level: Seq<nat>, lmax: nat, i: int) -> int
    decreases lmax - level[i],
    when leveled(parent, level, lmax) && 0 <= i < parent.len()
{
    if parent[i] == i {
        i
    } else {
        root_of(parent, level, lmax, parent[i] as int)
    }
}

/// Basic facts about the root of a node: it is a node, it is its own parent,
/// and its level is at least that of the node.
pub proof fn lemma_root_props(parent: Seq<usize>, level: Seq<nat>, lmax: nat, i: int)
    requires
        leveled(parent, level, lmax),
        0 <= i < parent.len(),
    ensures
        0 <= root_of(parent, level, lmax, i) < parent.len(),
        parent[root_of(parent, level, lmax, i)] == root_of(parent, level, lmax, i),
        level[i] <= level[root_of(parent, level, lmax, i)],
        parent[i] != i ==> level[i] < level[root_of(parent, level, lmax, i)],
        root_of(parent, level, lmax, root_of(parent, level, lmax, i)) == root_of(parent, level, lmax, i),
    decreases lmax - level[i],
{
    if parent[i] != i {
        let p = parent[i] as int;
        assert(level[i] < level[p]);
        lemma_root_props(parent, level, lmax, p);
    }
}

/// The root of a node does not depend on which levelling witnesses that the
/// forest is acyclic.
pub proof fn lemma_root_level_indep(
    parent: Seq<usize>,
    l1: Seq<nat>,
    m1: nat,
    l2: Seq<nat>,
    m2: nat,
    i: int,
)
    requires
        leveled(parent, l1, m1),
        leveled(parent, l2, m2),
        0 <= i < parent.len(),
    ensures
        root_of(parent, l1, m1, i) == root_of(parent, l2, m2, i),
    decreases m1 - l1[i],
{
    if parent[i] != i {
        let p = parent[i] as int;
        assert(l1[i] < l1[p]);
        lemma_root_level_indep(parent, l1, m1, l2, m2, p);
    }
}

/// Re-pointing nodes directly at their own root (path compression) keeps
/// every node's root.
pub proof fn lemma_root_redirect(p: Seq<usize>, p2: Seq<usize>, level: Seq<nat>, lmax: nat, k: int)
    requires
        leveled(p, level, lmax),
        leveled(p2, level, lmax),
        p2.len() == p.len(),
        forall|x: int|
            0 <= x < p.len() ==> #[trigger] p2[x] == p[x] || p2[x] as int == root_of(
                p,
                level,
                lmax,
                x,
            ),
        0 <= k < p.len(),
    ensures
        root_of(p2, level, lmax, k) == root_of(p, level, lmax, k),
    decreases lmax - level[k],
{
    lemma_root_props(p, level, lmax, k);
    if p2[k] == k {
        if p[k] != k {
            assert(p2[k] as int == root_of(p, level, lmax, k));
        }
    } else {
        let q = p2[k] as int;
        assert(level[k] < level[q]);
        if p2[k] == p[k] {
            lemma_root_redirect(p, p2, level, lmax, q);
        } else {
            let r = root_of(p, level, lmax, k);
            assert(q == r);
            lemma_root_redirect(p, p2, level, lmax, q);
            lemma_root_props(p, level, lmax, q);
        }
    }
}

/// Linking root `rj` under root `ri` moves exactly the members of `rj`'s tree
/// into `ri`'s tree.
pub proof fn lemma_root_link(
    p: Seq<usize>,
    level: Seq<nat>,
    lmax: nat,
    ri: int,
    rj: int,
    k: int,
)
    requires
        leveled(p, level, lmax),
        0 <= ri < p.len(),
        0 <= rj < p.len(),
        ri != rj,
        p[ri] == ri,
        p[rj] == rj,
        leveled(p.update(rj, ri as usize), level, lmax),
        0 <= k < p.len(),
    ensures
        root_of(p.update(rj, ri as usize), level, lmax, k) == (if root_of(p, level, lmax, k) == rj {
            ri
        } else {
            root_of(p, level, lmax, k)
        }),
    decreases lmax - level[k],
{
    let p2 = p.update(rj, ri as usize);
    if k == rj {
        assert(p2[k] as int == ri);
        assert(p2[ri] == ri);
        assert(root_of(p2, level, lmax, ri) == ri);
    } else if p[k] == k {
    } else {
        let q = p[k] as int;
        assert(p2[k] == p[k]);
        assert(level[k] < level[q]);
        lemma_root_link(p, level, lmax, ri, rj, q);
    }
}


/// A peak that lost its component when it merged into a higher one, with the
/// saddle (the cell that joined the two components) at which that happened.
#[derive(Clone, Copy, Debug, PartialEq, Eq)]
pub struct DeadPeak {
    pub delay: usize,
    pub doppler: usize,
    pub key: u64,
    pub saddle_delay: usize,
    pub saddle_doppler: usize,
    pub saddle_key: u64,
}

/// Disjoint-set forest over cells, each component remembering the order key
/// and the coordinates of its peak.
pub struct Dsu {
    parent: Vec<usize>,
    peak_key: Vec<u64>,
    peak_coords: Vec<(usize, usize)>,
    level: Ghost<Seq<nat>>,
    lmax: Ghost<nat>,
}

impl Dsu {
    /// The structure is a well-levelled forest with one peak entry per node.
    pub closed spec fn wf(&self) -> bool {
        &&& self.peak_key@.len() == self.parent@.len()
        &&& self.peak_coords@.len() == self.parent@.len()
        &&& leveled(self.parent@, self.level@, self.lmax@)
    }

    /// Number of nodes.
    pub closed spec fn size(&self) -> nat {
        self.parent@.len()
    }

    /// Representative of node `i`.
    pub closed spec fn root(&self, i: int) -> int {
        root_of(self.parent@, self.level@, self.lmax@, i)
    }

    /// Peak order keys, indexed by node (meaningful at roots).
    pub closed spec fn keys(&self) -> Seq<u64> {
        self.peak_key@
    }

    /// Peak coordinates, indexed by node (meaningful at roots).
    pub closed spec fn coords(&self) -> Seq<(usize, usize)> {
        self.peak_coords@
    }

    /// One peak entry per node.
    pub proof fn lemma_lens(&self)
        requires
            self.wf(),
        ensures
            self.keys().len() == self.size(),
            self.coords().len() == self.size(),
    {
    }

    /// Facts about roots that callers may rely on.
    pub proof fn lemma_roots(&self, i: int)
        requires
            self.wf(),
            0 <= i < self.size(),
        ensures
            0 <= self.root(i) < self.size(),
            self.root(self.root(i)) == self.root(i),
    {
        lemma_root_props(self.parent@, self.level@, self.lmax@, i);
    }

    /// `size` singleton components, all peaks at key 0 and coordinates (0, 0).
    pub fn new(size: usize) -> (d: Self)
        ensures
            d.wf(),
            d.size() == size,
            forall|i: int| 0 <= i < size ==> #[trigger] d.root(i) == i,
            forall|i: int| 0 <= i < size ==> #[trigger] d.keys()[i] == 0,
            forall|i: int| 0 <= i < size ==> #[trigger] d.coords()[i] == (0usize, 0usize),
    {
        let mut parent: Vec<usize> = Vec::new();
        let mut peak_key: Vec<u64> = Vec::new();
        let mut peak_coords: Vec<(usize, usize)> = Vec::new();
        let mut k: usize = 0;
        while k < size
            invariant
                k <= size,
                parent@.len() == k,
                peak_key@.len() == k,
                peak_coords@.len() == k,
                forall|i: int| 0 <= i < k ==> #[trigger] parent@[i] == i,
                forall|i: int| 0 <= i < k ==> #[trigger] peak_key@[i] == 0,
                forall|i: int| 0 <= i < k ==> #[trigger] peak_coords@[i] == (0usize, 0usize),
            decreases size - k,
        {
            parent.push(k);
            peak_key.push(0);
            peak_coords.push((0, 0));
            k = k + 1;
        }
        let d = Dsu {
            parent,
            peak_key,
            peak_coords,
            level: Ghost(Seq::new(size as nat, |i: int| 0nat)),
            lmax: Ghost(0nat),
        };
        assert forall|i: int| 0 <= i < size implies #[trigger] d.root(i) == i by {
            assert(d.parent@[i] == i);
        }
        d
    }

    /// Coordinates stored for node `i` (the peak's cell when `i` is a root).
    pub fn peak_coords_of(&self, i: usize) -> (at: (usize, usize))
        requires
            self.wf(),
            i < self.size(),
        ensures
            at == self.coords()[i as int],
    {
        self.peak_coords[i]
    }

    /// Records the peak of the (singleton) component of node `idx`.
    pub fn set_peak(&mut self, idx: usize, key: u64, at: (usize, usize))
        requires
            old(self).wf(),
            idx < old(self).size(),
        ensures
            final(self).wf(),
            final(self).size() == old(self).size(),
            forall|k: int| 0 <= k < old(self).size() ==> #[trigger] final(self).root(k) == old(self).root(k),
            final(self).keys() == old(self).keys().update(idx as int, key),
            final(self).coords() == old(self).coords().update(idx as int, at),
    {
        self.peak_key.set(idx, key);
        self.peak_coords.set(idx, at);
    }

    /// Representative of node `i`; compresses the path from `i` so that every
    /// node on it points directly at the representative.
    pub fn find(&mut self, i: usize) -> (r: usize)
        requires
            old(self).wf(),
            i < old(self).size(),
        ensures
            final(self).wf(),
            final(self).size() == old(self).size(),
            r == old(self).root(i as int),
            forall|k: int| 0 <= k < old(self).size() ==> #[trigger] final(self).root(k) == old(self).root(k),
            final(self).keys() == old(self).keys(),
            final(self).coords() == old(self).coords(),
    {
        let ghost p0 = self.parent@;
        let ghost lv = self.level@;
        let ghost lm = self.lmax@;
        let mut root = i;
        while root != self.parent[root]
            invariant
                self.wf(),
                self.parent@ == p0,
                self.level@ == lv,
                self.lmax@ == lm,
                root < self.parent@.len(),
                i < self.parent@.len(),
                root_of(p0, lv, lm, root as int) == root_of(p0, lv, lm, i as int),
            decreases lm - lv[root as int],
        {
            root = self.parent[root];
        }
        proof {
            lemma_root_props(p0, lv, lm, i as int);
        }
        let mut curr = i;
        while curr != root
            invariant
                self.wf(),
                self.level@ == lv,
                self.lmax@ == lm,
                leveled(p0, lv, lm),
                self.parent@.len() == p0.len(),
                self.peak_key@ == old(self).peak_key@,
                self.peak_coords@ == old(self).peak_coords@,
                p0 == old(self).parent@,
                lv == old(self).level@,
                lm == old(self).lmax@,
                root < p0.len(),
                curr < p0.len(),
                p0[root as int] == root,
                root as int == root_of(p0, lv, lm, i as int),
                root_of(p0, lv, lm, curr as int) == root as int,
                forall|x: int|
                    0 <= x < p0.len() ==> #[trigger] self.parent@[x] == p0[x] || self.parent@[x] as int
                        == root_of(p0, lv, lm, x),
            decreases lm - lv[curr as int],
        {
            let nxt = self.parent[curr];
            proof {
                lemma_root_props(p0, lv, lm, curr as int);
                assert(p0[curr as int] != curr);
                if self.parent@[curr as int] == p0[curr as int] {
                    assert(root_of(p0, lv, lm, nxt as int) == root as int);
                } else {
                    lemma_root_props(p0, lv, lm, root as int);
                }
                assert(lv[curr as int] < lv[nxt as int]);
            }
            self.parent.set(curr, root);
            proof {
                let pc = self.parent@;
                assert forall|x: int| 0 <= x < pc.len() && #[trigger] pc[x] != x implies lv[x] < lv[pc[x] as int] by {
                    if x == curr as int {
                        lemma_root_props(p0, lv, lm, curr as int);
                    }
                }
                assert(leveled(pc, lv, lm));
            }
            curr = nxt;
        }
        proof {
            assert forall|k: int| 0 <= k < old(self).size() implies #[trigger] self.root(k) == old(self).root(k) by {
                lemma_root_redirect(p0, self.parent@, lv, lm, k);
            }
        }
        root
    }

    /// Puts root `child` under root `top`.
    fn link(&mut self, child: usize, top: usize)
        requires
            old(self).wf(),
            child < old(self).size(),
            top < old(self).size(),
            child != top,
            old(self).root(child as int) == child,
            old(self).root(top as int) == top,
        ensures
            final(self).wf(),
            final(self).size() == old(self).size(),
            forall|k: int|
                0 <= k < old(self).size() ==> #[trigger] final(self).root(k) == (if old(self).root(k)
                    == child {
                    top as int
                } else {
                    old(self).root(k)
                }),
            final(self).keys() == old(self).keys(),
            final(self).coords() == old(self).coords(),
    {
        let ghost p0 = self.parent@;
        let ghost l0 = self.level@;
        let ghost m0 = self.lmax@;
        proof {
            lemma_root_props(p0, l0, m0, child as int);
            lemma_root_props(p0, l0, m0, top as int);
        }
        let ghost new_top_level: nat = if l0[top as int] > l0[child as int] {
            l0[top as int]
        } else {
            l0[child as int] + 1
        };
        let ghost l1 = l0.update(top as int, new_top_level);
        let ghost m1: nat = if m0 >= new_top_level { m0 } else { new_top_level };
        self.level = Ghost(l1);
        self.lmax = Ghost(m1);
        proof {
            assert(leveled(p0, l1, m1));
            assert forall|k: int| 0 <= k < p0.len() implies root_of(p0, l1, m1, k) == root_of(p0, l0, m0, k) by {
                lemma_root_level_indep(p0, l1, m1, l0, m0, k);
            }
        }
        self.parent.set(child, top);
        proof {
            let p1 = self.parent@;
            assert(p1 == p0.update(child as int, top));
            assert(leveled(p1, l1, m1));
            assert forall|k: int| 0 <= k < p0.len() implies #[trigger] root_of(p1, l1, m1, k) == (if root_of(p0, l0, m0, k) == child {
                top as int
            } else {
                root_of(p0, l0, m0, k)
            }) by {
                lemma_root_link(p0, l1, m1, top as int, child as int, k);
            }
        }
    }

    /// Merges the components of `i` and `j` at a saddle. The component with
    /// the lower peak (the later one on a tie in favour of `i`'s) is absorbed
    /// and its peak is appended to `dead`. Returns whether a merge happened.
    pub fn union(
        &mut self,
        i: usize,
        j: usize,
        saddle_key: u64,
        saddle: (usize, usize),
        dead: &mut Vec<DeadPeak>,
    ) -> (merged: bool)
        requires
            old(self).wf(),
            i < old(self).size(),
            j < old(self).size(),
        ensures
            final(self).wf(),
            final(self).size() == old(self).size(),
            final(self).keys() == old(self).keys(),
            final(self).coords() == old(self).coords(),
            ({
                let ri = old(self).root(i as int);
                let rj = old(self).root(j as int);
                let (winner, loser) = if old(self).keys()[ri] >= old(self).keys()[rj] {
                    (ri, rj)
                } else {
                    (rj, ri)
                };
                &&& merged == (ri != rj)
                &&& !merged ==> final(dead)@ == old(dead)@
                &&& !merged ==> forall|k: int|
                    0 <= k < old(self).size() ==> #[trigger] final(self).root(k) == old(self).root(k)
                &&& merged ==> final(dead)@ == old(dead)@.push(
                    DeadPeak {
                        delay: old(self).coords()[loser].0,
                        doppler: old(self).coords()[loser].1,
                        key: old(self).keys()[loser],
                        saddle_delay: saddle.0,
                        saddle_doppler: saddle.1,
                        saddle_key: saddle_key,
                    },
                )
                &&& merged ==> forall|k: int|
                    0 <= k < old(self).size() ==> #[trigger] final(self).root(k) == (if old(self).root(k)
                        == loser {
                        winner
                    } else {
                        old(self).root(k)
                    })
            }),
    {
        let root_i = self.find(i);
        let root_j = self.find(j);
        proof {
            self.lemma_roots(i as int);
            self.lemma_roots(j as int);
        }
        if root_i == root_j {
            return false;
        }
        let val_i = self.peak_key[root_i];
        let val_j = self.peak_key[root_j];
        if val_i >= val_j {
            let dead_coords = self.peak_coords[root_j];
            dead.push(
                DeadPeak {
                    delay: dead_coords.0,
                    doppler: dead_coords.1,
                    key: val_j,
                    saddle_delay: saddle.0,
                    saddle_doppler: saddle.1,
                    saddle_key,
                },
            );
            self.link(root_j, root_i);
        } else {
            let dead_coords = self.peak_coords[root_i];
            dead.push(
                DeadPeak {
                    delay: dead_coords.0,
                    doppler: dead_coords.1,
                    key: val_i,
                    saddle_delay: saddle.0,
                    saddle_doppler: saddle.1,
                    saddle_key,
                },
            );
            self.link(root_i, root_j);
        }
        true
    }
}

} // verus!

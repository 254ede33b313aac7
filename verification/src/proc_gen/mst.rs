use vstd::prelude::*;

use crate::proc_gen::corridors::MapEdge;

verus! {

/// Union-Find (disjoint set) structure used by the minimum spanning tree,
/// with path compression and union by size.
pub struct UnionFind {
    nodes: Vec<UnionFindNode>,
    /// A rank per element that grows strictly from child to parent.
    rank: Ghost<Seq<nat>>,
    /// An upper bound of all ranks.
    max_rank: Ghost<nat>,
}

#[derive(Clone, Copy)]
pub struct UnionFindNode {
    parent: usize,
    size: usize,
}

/// The representative of `i` in a parent vector: follow parents until an
/// element is its own parent.
pub open spec fn root_in(parents: Seq<usize>, rank: Seq<nat>, bound: nat, i: int) -> int
    decreases bound - rank[i],
{
    if 0 <= i < parents.len() && i < rank.len() && parents[i] != i
        && 0 <= parents[i] as int && (parents[i] as int) < rank.len()
        && rank[i] < rank[parents[i] as int] && rank[parents[i] as int] <= bound {
        root_in(parents, rank, bound, parents[i] as int)
    } else {
        i
    }
}

/// Sum of the sizes of the elements of `0..k` that are their own parent.
pub open spec fn root_size_sum(parents: Seq<usize>, sizes: Seq<usize>, k: int) -> int
    decreases k,
{
    if k <= 0 {
        0
    } else {
        root_size_sum(parents, sizes, k - 1) + if parents[k - 1] == k - 1 { sizes[k - 1] as int } else { 0 }
    }
}

/// Whether the parent and rank sequences form a forest of the given length.
pub open spec fn forest_wf(parents: Seq<usize>, rank: Seq<nat>, bound: nat) -> bool {
    &&& rank.len() == parents.len()
    &&& forall|i: int| 0 <= i < parents.len() ==> #[trigger] parents[i] < parents.len()
    &&& forall|i: int| 0 <= i < parents.len() ==> #[trigger] rank[i] <= bound
    &&& forall|i: int| 0 <= i < parents.len() && #[trigger] parents[i] != i
        ==> rank[i] < rank[parents[i] as int]
}

/// The root of an element is a root, at least as high in rank.
pub proof fn lemma_root_is_root(parents: Seq<usize>, rank: Seq<nat>, bound: nat, i: int)
    requires
        forest_wf(parents, rank, bound),
        0 <= i < parents.len(),
    ensures
        0 <= root_in(parents, rank, bound, i) < parents.len(),
        parents[root_in(parents, rank, bound, i)] == root_in(parents, rank, bound, i),
        rank[i] <= rank[root_in(parents, rank, bound, i)],
        root_in(parents, rank, bound, i) != i ==> rank[i] < rank[root_in(parents, rank, bound, i)],
        parents[i] == i ==> root_in(parents, rank, bound, i) == i,
    decreases bound - rank[i],
{
    if parents[i] != i {
        assert(parents[i] < parents.len());
        assert(rank[parents[i] as int] <= bound);
        lemma_root_is_root(parents, rank, bound, parents[i] as int);
    }
}

/// Pointing an element directly at its root changes no element's root.
pub proof fn lemma_compress(parents: Seq<usize>, rank: Seq<nat>, bound: nat, e: int, j: int)
    requires
        forest_wf(parents, rank, bound),
        0 <= e < parents.len(),
        0 <= j < parents.len(),
    ensures
        forest_wf(parents.update(e, root_in(parents, rank, bound, e) as usize), rank, bound),
        root_in(parents.update(e, root_in(parents, rank, bound, e) as usize), rank, bound, j)
            == root_in(parents, rank, bound, j),
    decreases bound - rank[j],
{
    let r = root_in(parents, rank, bound, e);
    lemma_root_is_root(parents, rank, bound, e);
    let p2 = parents.update(e, r as usize);
    assert(forest_wf(p2, rank, bound)) by {
        assert forall|i: int| 0 <= i < p2.len() && #[trigger] p2[i] != i implies rank[i] < rank[p2[i] as int] by {
            if i == e {
            } else {
                assert(p2[i] == parents[i]);
            }
        }
        assert forall|i: int| 0 <= i < p2.len() implies #[trigger] p2[i] < p2.len() by {
            if i == e {
            } else {
                assert(p2[i] == parents[i]);
            }
        }
    }
    lemma_root_is_root(parents, rank, bound, j);
    if j == e {
        if r != e {
            assert(p2[r] == parents[r]);
            lemma_root_is_root(p2, rank, bound, r);
        }
    } else if parents[j] != j {
        assert(p2[j] == parents[j]);
        lemma_compress(parents, rank, bound, e, parents[j] as int);
    } else {
        assert(p2[j] == parents[j]);
    }
}

/// Making root `rb` a child of root `ra`, with the rank of `ra` raised above
/// that of `rb`, sends every element of `rb`'s set to `ra`.
pub proof fn lemma_link(parents: Seq<usize>, rank: Seq<nat>, bound: nat, ra: int, rb: int, j: int)
    requires
        forest_wf(parents, rank, bound),
        0 <= ra < parents.len(),
        0 <= rb < parents.len(),
        0 <= j < parents.len(),
        ra != rb,
        parents[ra] == ra,
        parents[rb] == rb,
    ensures
        ({
            let new_rank_a = if rank[ra] > rank[rb] { rank[ra] } else { rank[rb] + 1 };
            let bound2 = if new_rank_a > bound { new_rank_a } else { bound };
            let p2 = parents.update(rb, ra as usize);
            let r2 = rank.update(ra, new_rank_a);
            &&& forest_wf(p2, r2, bound2)
            &&& root_in(p2, r2, bound2, j) == if root_in(parents, rank, bound, j) == rb { ra } else {
                root_in(parents, rank, bound, j)
            }
        }),
    decreases bound - rank[j],
{
    let new_rank_a = if rank[ra] > rank[rb] { rank[ra] } else { rank[rb] + 1 };
    let bound2 = if new_rank_a > bound { new_rank_a } else { bound };
    let p2 = parents.update(rb, ra as usize);
    let r2 = rank.update(ra, new_rank_a);
    assert(forest_wf(p2, r2, bound2)) by {
        assert forall|i: int| 0 <= i < p2.len() && #[trigger] p2[i] != i implies r2[i] < r2[p2[i] as int] by {
            if i == rb {
            } else {
                assert(p2[i] == parents[i]);
                assert(i != ra);
            }
        }
        assert forall|i: int| 0 <= i < p2.len() implies #[trigger] p2[i] < p2.len() by {
            if i != rb {
                assert(p2[i] == parents[i]);
            }
        }
        assert forall|i: int| 0 <= i < p2.len() implies #[trigger] r2[i] <= bound2 by {
            if i != ra {
                assert(r2[i] == rank[i]);
            }
        }
    }
    lemma_root_is_root(parents, rank, bound, j);
    if j == rb {
        assert(p2[ra] == ra);
        assert(root_in(p2, r2, bound2, ra) == ra);
    } else if j == ra {
        assert(p2[ra] == ra);
    } else if parents[j] != j {
        assert(p2[j] == parents[j]);
        assert(r2[j] == rank[j]);
        lemma_link(parents, rank, bound, ra, rb, parents[j] as int);
    } else {
        assert(p2[j] == parents[j]);
    }
}

/// The sizes of two different roots add up to at most the sum over all roots.
pub proof fn lemma_two_roots_sum(parents: Seq<usize>, sizes: Seq<usize>, k: int, a: int, b: int)
    requires
        0 <= a < k <= parents.len(),
        0 <= b < k,
        a != b,
        k <= sizes.len(),
        parents[a] == a,
        parents[b] == b,
    ensures
        sizes[a] + sizes[b] <= root_size_sum(parents, sizes, k),
    decreases k,
{
    if k - 1 == a || k - 1 == b {
        lemma_root_sum_nonneg(parents, sizes, k - 1);
        let other = if k - 1 == a { b } else { a };
        lemma_one_root_sum(parents, sizes, k - 1, other);
    } else {
        lemma_two_roots_sum(parents, sizes, k - 1, a, b);
    }
}

pub proof fn lemma_root_sum_nonneg(parents: Seq<usize>, sizes: Seq<usize>, k: int)
    ensures
        root_size_sum(parents, sizes, k) >= 0,
    decreases k,
{
    if k > 0 {
        lemma_root_sum_nonneg(parents, sizes, k - 1);
    }
}

pub proof fn lemma_one_root_sum(parents: Seq<usize>, sizes: Seq<usize>, k: int, a: int)
    requires
        0 <= a < k <= parents.len(),
        k <= sizes.len(),
        parents[a] == a,
    ensures
        sizes[a] <= root_size_sum(parents, sizes, k),
    decreases k,
{
    lemma_root_sum_nonneg(parents, sizes, k - 1);
    if k - 1 != a {
        lemma_one_root_sum(parents, sizes, k - 1, a);
    }
}

/// The root sum only depends on which elements are roots and on their sizes.
pub proof fn lemma_root_sum_congruent(p1: Seq<usize>, s1: Seq<usize>, p2: Seq<usize>, s2: Seq<usize>, k: int)
    requires
        k <= p1.len(), k <= p2.len(), k <= s1.len(), k <= s2.len(),
        forall|i: int| 0 <= i < k ==> ((p1[i] == i) <==> (p2[i] == i)),
        forall|i: int| 0 <= i < k && p1[i] == i ==> s1[i] == s2[i],
    ensures
        root_size_sum(p1, s1, k) == root_size_sum(p2, s2, k),
    decreases k,
{
    if k > 0 {
        lemma_root_sum_congruent(p1, s1, p2, s2, k - 1);
    }
}

/// Linking root `rb` under root `ra` and adding its size to `ra` keeps the sum.
pub proof fn lemma_root_sum_link(parents: Seq<usize>, sizes: Seq<usize>, k: int, ra: int, rb: int, new_size: usize)
    requires
        0 <= ra < k, 0 <= rb < k, ra != rb,
        k <= parents.len(), k <= sizes.len(),
        parents[ra] == ra, parents[rb] == rb,
        new_size == sizes[ra] + sizes[rb],
    ensures
        root_size_sum(parents.update(rb, ra as usize), sizes.update(ra, new_size), k)
            == root_size_sum(parents, sizes, k),
    decreases k,
{
    if k > 0 {
        let p2 = parents.update(rb, ra as usize);
        let s2 = sizes.update(ra, new_size);
        if k - 1 == ra {
            lemma_root_sum_partial(parents, sizes, k - 1, rb, ra, new_size);
        } else if k - 1 == rb {
            lemma_root_sum_partial2(parents, sizes, k - 1, ra, rb, new_size);
        } else {
            lemma_root_sum_link(parents, sizes, k - 1, ra, rb, new_size);
        }
    }
}

/// Prefix sum when only `rb` (inside the prefix) stops being a root and `ra`
/// (outside) grows.
pub proof fn lemma_root_sum_partial(parents: Seq<usize>, sizes: Seq<usize>, k: int, rb: int, ra: int, new_size: usize)
    requires
        0 <= rb < k, k <= ra, ra < parents.len(), ra < sizes.len(), k <= parents.len(), k <= sizes.len(),
        ra <= usize::MAX,
        parents[rb] == rb,
    ensures
        root_size_sum(parents.update(rb, ra as usize), sizes.update(ra, new_size), k)
            == root_size_sum(parents, sizes, k) - sizes[rb],
    decreases k,
{
    let p2 = parents.update(rb, ra as usize);
    let s2 = sizes.update(ra, new_size);
    assert(root_size_sum(p2, s2, k) == root_size_sum(p2, s2, k - 1) + if p2[k - 1] == k - 1 { s2[k - 1] as int } else { 0 });
    assert(root_size_sum(parents, sizes, k) == root_size_sum(parents, sizes, k - 1) + if parents[k - 1] == k - 1 { sizes[k - 1] as int } else { 0 });
    if k - 1 == rb {
        assert(p2[rb] == ra);
        lemma_root_sum_congruent(p2, s2, parents, sizes, k - 1);
    } else {
        assert(p2[k - 1] == parents[k - 1]);
        assert(s2[k - 1] == sizes[k - 1]);
        lemma_root_sum_partial(parents, sizes, k - 1, rb, ra, new_size);
    }
}

/// Prefix sum when only `ra` (inside the prefix) grows and `rb` (outside)
/// stops being a root.
pub proof fn lemma_root_sum_partial2(parents: Seq<usize>, sizes: Seq<usize>, k: int, ra: int, rb: int, new_size: usize)
    requires
        0 <= ra < k, k <= rb, rb < parents.len(), k <= parents.len(), ra < sizes.len(), k <= sizes.len(),
        parents[ra] == ra,
    ensures
        root_size_sum(parents.update(rb, ra as usize), sizes.update(ra, new_size), k)
            == root_size_sum(parents, sizes, k) - sizes[ra] + new_size,
    decreases k,
{
    let p2 = parents.update(rb, ra as usize);
    let s2 = sizes.update(ra, new_size);
    assert(root_size_sum(p2, s2, k) == root_size_sum(p2, s2, k - 1) + if p2[k - 1] == k - 1 { s2[k - 1] as int } else { 0 });
    assert(root_size_sum(parents, sizes, k) == root_size_sum(parents, sizes, k - 1) + if parents[k - 1] == k - 1 { sizes[k - 1] as int } else { 0 });
    if k - 1 == ra {
        assert(p2[k - 1] == parents[k - 1]);
        lemma_root_sum_congruent(p2, s2, parents, sizes, k - 1);
    } else {
        assert(p2[k - 1] == parents[k - 1]);
        assert(s2[k - 1] == sizes[k - 1]);
        lemma_root_sum_partial2(parents, sizes, k - 1, ra, rb, new_size);
    }
}

impl UnionFind {
    pub closed spec fn parents(&self) -> Seq<usize> {
        self.nodes@.map_values(|n: UnionFindNode| n.parent)
    }

    pub closed spec fn sizes(&self) -> Seq<usize> {
        self.nodes@.map_values(|n: UnionFindNode| n.size)
    }

    /// How far above `i` the highest rank lies; shrinks towards the roots.
    pub closed spec fn height_left(&self, i: int) -> int {
        self.max_rank@ - self.rank@[i]
    }

    /// Number of elements.
    pub closed spec fn len(&self) -> nat {
        self.nodes@.len()
    }

    /// The representative of the set containing `i`.
    pub closed spec fn root(&self, i: int) -> int {
        root_in(self.parents(), self.rank@, self.max_rank@, i)
    }

    pub closed spec fn wf(&self) -> bool {
        &&& forest_wf(self.parents(), self.rank@, self.max_rank@)
        &&& root_size_sum(self.parents(), self.sizes(), self.nodes@.len() as int) == self.nodes@.len()
        &&& forall|i: int| 0 <= i < self.nodes@.len() ==> #[trigger] self.nodes@[i].size >= 1
    }

    /// The size recorded for the set of `i`, at its representative: 1 for
    /// a fresh set, the sum of the two sizes after a merge.
    pub closed spec fn set_size(&self, i: int) -> int {
        self.sizes()[self.root(i)] as int
    }

    /// Whether `i` and `j` lie in the same set.
    pub open spec fn same_set(&self, i: int, j: int) -> bool {
        self.root(i) == self.root(j)
    }

    /// The representatives of the sets: the elements that represent their
    /// own set.
    pub open spec fn reps(&self) -> Set<int> {
        Set::new(|r: int| 0 <= r < self.len() && self.root(r) == r)
    }

    /// The representative of an element is an element, and represents
    /// itself.
    pub proof fn lemma_root_rep(&self, i: int)
        requires
            self.wf(),
            0 <= i < self.len(),
        ensures
            0 <= self.root(i) < self.len(),
            self.root(self.root(i)) == self.root(i),
    {
        lemma_root_is_root(self.parents(), self.rank@, self.max_rank@, i);
        let r = self.root(i);
        lemma_root_is_root(self.parents(), self.rank@, self.max_rank@, r);
    }

    /// `n + 1` disjoint sets `{0}, {1}, ..., {n}`.
    pub fn new(num_elements: usize) -> (uf: Self)
        requires
            num_elements < usize::MAX,
        ensures
            uf.wf(),
            uf.len() == num_elements + 1,
            forall|i: int| 0 <= i <= num_elements ==> #[trigger] uf.root(i) == i,
            forall|i: int| 0 <= i <= num_elements ==> #[trigger] uf.set_size(i) == 1,
    {
        let mut nodes: Vec<UnionFindNode> = Vec::new();
        let mut index: usize = 0;
        while index <= num_elements
            invariant
                index <= num_elements + 1,
                num_elements < usize::MAX,
                nodes.len() == index,
                forall|i: int| 0 <= i < index ==> #[trigger] nodes@[i] == (UnionFindNode { parent: i as usize, size: 1 }),
                root_size_sum(nodes@.map_values(|n: UnionFindNode| n.parent), nodes@.map_values(|n: UnionFindNode| n.size), index as int) == index,
            decreases num_elements + 1 - index,
        {
            let ghost before = nodes@;
            nodes.push(UnionFindNode { parent: index, size: 1 });
            proof {
                let p1 = before.map_values(|n: UnionFindNode| n.parent);
                let s1 = before.map_values(|n: UnionFindNode| n.size);
                let p2 = nodes@.map_values(|n: UnionFindNode| n.parent);
                let s2 = nodes@.map_values(|n: UnionFindNode| n.size);
                lemma_root_sum_congruent(p1, s1, p2, s2, index as int);
                assert(p2[index as int] == index);
            }
            index = index + 1;
        }
        let ghost rank = Seq::new(nodes@.len(), |i: int| 0nat);
        let uf = Self { nodes, rank: Ghost(rank), max_rank: Ghost(0) };
        proof {
            assert forall|i: int| 0 <= i <= num_elements implies #[trigger] uf.root(i) == i by {
                assert(uf.parents()[i] == i);
            }
            assert forall|i: int| 0 <= i <= num_elements implies #[trigger] uf.set_size(i) == 1 by {
                assert(uf.parents()[i] == i);
                assert(uf.root(i) == i);
                assert(uf.sizes()[i] == 1);
            }
        }
        uf
    }

    /// Finds the representative of the set containing `element`, pointing
    /// every element on the way directly at it.
    pub fn find_set(&mut self, element: usize) -> (r: usize)
        requires
            old(self).wf(),
            element < old(self).len(),
        ensures
            final(self).wf(),
            final(self).len() == old(self).len(),
            r == old(self).root(element as int),
            forall|j: int| 0 <= j < old(self).len() ==> #[trigger] final(self).root(j) == old(self).root(j),
            final(self).sizes() == old(self).sizes(),
        decreases old(self).height_left(element as int),
    {
        proof {
            lemma_root_is_root(self.parents(), self.rank@, self.max_rank@, element as int);
        }
        let parent = self.nodes[element].parent;
        if element != parent {
            proof {
                assert(self.parents()[element as int] == parent);
                assert(parent < self.nodes@.len());
            }
            let ghost before = *self;
            let root = self.find_set(parent);
            proof {
                assert(before.parents()[element as int] == parent);
                assert(before.root(element as int) == before.root(parent as int));
                // The element itself kept its parent.
                lemma_root_is_root(self.parents(), self.rank@, self.max_rank@, element as int);
            }
            let ghost mid = *self;
            let mut node = self.nodes[element];
            proof {
                assert(mid.parents()[element as int] == node.parent);
            }
            node.parent = root;
            self.nodes.set(element, node);
            proof {
                assert(mid.parents()[element as int] != element) by {
                    // A root keeps its parent; element was no root before and roots did not change.
                    if mid.parents()[element as int] == element {
                        lemma_root_is_root(mid.parents(), mid.rank@, mid.max_rank@, element as int);
                        assert(mid.root(element as int) == element);
                        lemma_root_is_root(before.parents(), before.rank@, before.max_rank@, element as int);
                    }
                }
                assert(mid.root(element as int) == root);
                assert(self.parents() =~= mid.parents().update(element as int, root));
                assert(self.sizes() =~= mid.sizes());
                assert forall|j: int| 0 <= j < self.len() implies #[trigger] self.root(j) == mid.root(j) by {
                    lemma_compress(mid.parents(), mid.rank@, mid.max_rank@, element as int, j);
                }
                lemma_compress(mid.parents(), mid.rank@, mid.max_rank@, element as int, 0);
                lemma_root_is_root(mid.parents(), mid.rank@, mid.max_rank@, element as int);
                lemma_root_sum_congruent(mid.parents(), mid.sizes(), self.parents(), self.sizes(), self.nodes@.len() as int);
                assert forall|i: int| 0 <= i < self.nodes@.len() implies #[trigger] self.nodes@[i].size >= 1 by {
                    assert(self.sizes()[i] == mid.sizes()[i]);
                }
            }
            root
        } else {
            proof {
                assert(self.parents()[element as int] == element);
            }
            element
        }
    }

    /// Merges the sets containing `element_a` and `element_b`, the smaller set
    /// under the larger. Returns the new representative, or `usize::MAX` if
    /// both already lie in one set.
    pub fn merge(&mut self, element_a: usize, element_b: usize) -> (r: usize)
        requires
            old(self).wf(),
            element_a < old(self).len(),
            element_b < old(self).len(),
            old(self).len() < usize::MAX,
        ensures
            final(self).wf(),
            final(self).len() == old(self).len(),
            (r == usize::MAX) == old(self).same_set(element_a as int, element_b as int),
            old(self).same_set(element_a as int, element_b as int) ==> r == usize::MAX
                && (forall|j: int| 0 <= j < old(self).len() ==> #[trigger] final(self).root(j) == old(self).root(j))
                && (forall|j: int| 0 <= j < old(self).len() ==> #[trigger] final(self).set_size(j) == old(self).set_size(j)),
            !old(self).same_set(element_a as int, element_b as int) ==> {
                &&& r == if old(self).set_size(element_b as int) > old(self).set_size(element_a as int) {
                        old(self).root(element_b as int) } else { old(self).root(element_a as int) }
                &&& forall|j: int| 0 <= j < old(self).len() ==> #[trigger] final(self).set_size(j) == if old(self).same_set(j, element_a as int)
                        || old(self).same_set(j, element_b as int) {
                        old(self).set_size(element_a as int) + old(self).set_size(element_b as int)
                    } else { old(self).set_size(j) }
                &&& forall|j: int| 0 <= j < old(self).len() ==> #[trigger] final(self).root(j) == if old(self).same_set(j, element_a as int)
                        || old(self).same_set(j, element_b as int) { r as int } else { old(self).root(j) }
            },
    {
        let ghost orig = *self;
        let mut root_a = self.find_set(element_a);
        let mut root_b = self.find_set(element_b);
        let ghost base = *self;
        proof {
            lemma_root_is_root(orig.parents(), orig.rank@, orig.max_rank@, element_a as int);
            lemma_root_is_root(orig.parents(), orig.rank@, orig.max_rank@, element_b as int);
            lemma_root_is_root(base.parents(), base.rank@, base.max_rank@, root_a as int);
            lemma_root_is_root(base.parents(), base.rank@, base.max_rank@, root_b as int);
            assert(root_a < orig.len() && root_b < orig.len());
            lemma_root_is_root(orig.parents(), orig.rank@, orig.max_rank@, root_a as int);
            lemma_root_is_root(orig.parents(), orig.rank@, orig.max_rank@, root_b as int);
            assert(base.root(root_a as int) == orig.root(root_a as int));
            assert(base.root(root_b as int) == orig.root(root_b as int));
            assert(base.parents()[root_a as int] == root_a);
            assert(base.parents()[root_b as int] == root_b);
        }

        proof {
            assert forall|j: int| 0 <= j < orig.len() implies #[trigger] base.set_size(j) == orig.set_size(j) by {}
        }
        if root_a == root_b {
            return usize::MAX;
        }

        if self.nodes[root_a].size < self.nodes[root_b].size {
            let t = root_a;
            root_a = root_b;
            root_b = t;
        }
        proof {
            assert(base.parents()[root_a as int] == root_a);
            assert(base.parents()[root_b as int] == root_b);
            lemma_two_roots_sum(base.parents(), base.sizes(), base.nodes@.len() as int, root_a as int, root_b as int);
        }
        let mut node_b = self.nodes[root_b];
        node_b.parent = root_a;
        self.nodes.set(root_b, node_b);
        let mut node_a = self.nodes[root_a];
        let new_size = node_a.size + node_b.size;
        node_a.size = new_size;
        self.nodes.set(root_a, node_a);
        proof {
            let ra = root_a as int;
            let rb = root_b as int;
            let new_rank_a = if base.rank@[ra] > base.rank@[rb] { base.rank@[ra] } else { base.rank@[rb] + 1 };
            let bound2 = if new_rank_a > base.max_rank@ { new_rank_a } else { base.max_rank@ };
            self.rank = Ghost(base.rank@.update(ra, new_rank_a));
            self.max_rank = Ghost(bound2);
            assert(self.parents() =~= base.parents().update(rb, root_a));
            assert(self.sizes() =~= base.sizes().update(ra, new_size));
            assert forall|j: int| 0 <= j < self.len() implies #[trigger] self.root(j) == if base.root(j) == rb { ra } else { base.root(j) } by {
                lemma_link(base.parents(), base.rank@, base.max_rank@, ra, rb, j);
            }
            lemma_link(base.parents(), base.rank@, base.max_rank@, ra, rb, 0);
            lemma_root_sum_link(base.parents(), base.sizes(), base.nodes@.len() as int, ra, rb, new_size);
            assert forall|i: int| 0 <= i < self.nodes@.len() implies #[trigger] self.nodes@[i].size >= 1 by {
                assert(self.sizes()[i] == base.sizes().update(ra, new_size)[i]);
            }
            assert forall|j: int| 0 <= j < orig.len() implies #[trigger] self.root(j) == if orig.same_set(j, element_a as int)
                || orig.same_set(j, element_b as int) { ra } else { orig.root(j) } by {
                assert(base.root(j) == orig.root(j));
                if orig.same_set(j, element_a as int) || orig.same_set(j, element_b as int) {
                    assert(base.root(j) == ra || base.root(j) == rb);
                }
            }
            assert forall|j: int| 0 <= j < orig.len() implies #[trigger] self.set_size(j) == if orig.same_set(j, element_a as int)
                || orig.same_set(j, element_b as int) {
                orig.set_size(element_a as int) + orig.set_size(element_b as int)
            } else { orig.set_size(j) } by {
                assert(base.root(j) == orig.root(j));
                lemma_root_is_root(base.parents(), base.rank@, base.max_rank@, j);
                if !(orig.same_set(j, element_a as int) || orig.same_set(j, element_b as int)) {
                    assert(base.root(j) != ra && base.root(j) != rb);
                    assert(self.sizes()[base.root(j)] == base.sizes()[base.root(j)]);
                }
            }
        }
        root_a
    }
}


/// Merging two sets takes one representative away: the one of the two
/// sets' representatives that does not represent the merged set.
proof fn lemma_reps_after_merge(before: UnionFind, after: UnionFind, a: int, b: int, r: int)
    requires
        before.wf(),
        after.wf(),
        after.len() == before.len(),
        0 <= a < before.len(),
        0 <= b < before.len(),
        !before.same_set(a, b),
        r == before.root(a) || r == before.root(b),
        forall|j: int| 0 <= j < before.len() ==> #[trigger] after.root(j) == if before.same_set(j, a)
            || before.same_set(j, b) { r } else { before.root(j) },
    ensures
        before.reps().contains(if r == before.root(a) { before.root(b) } else { before.root(a) }),
        after.reps() == before.reps().remove(if r == before.root(a) { before.root(b) } else { before.root(a) }),
{
    let other = if r == before.root(a) { before.root(b) } else { before.root(a) };
    before.lemma_root_rep(a);
    before.lemma_root_rep(b);
    assert(before.same_set(other, a) || before.same_set(other, b));
    assert(before.same_set(r, a) || before.same_set(r, b));
    assert forall|x: int| #[trigger] after.reps().contains(x) == before.reps().remove(other).contains(x) by {
        if 0 <= x < before.len() {
            before.lemma_root_rep(x);
            if before.same_set(x, a) || before.same_set(x, b) {
                if before.root(x) == x {
                    assert(x == before.root(a) || x == before.root(b));
                }
            }
        }
    }
    assert(after.reps() =~= before.reps().remove(other));
}

/// Where no element changed its representative, the representatives stay.
proof fn lemma_reps_same(before: UnionFind, after: UnionFind)
    requires
        after.len() == before.len(),
        forall|j: int| 0 <= j < before.len() ==> #[trigger] after.root(j) == before.root(j),
    ensures
        after.reps() == before.reps(),
{
    assert forall|x: int| #[trigger] after.reps().contains(x) == before.reps().contains(x) by {
        if 0 <= x < before.len() {
            assert(after.root(x) == before.root(x));
        }
    }
    assert(after.reps() =~= before.reps());
}

/// More edges link at least what fewer link.
pub proof fn lemma_linked_prefix(es: Seq<MapEdge>, m: int, u: int, v: int)
    requires
        0 <= m <= es.len(),
        linked(es.take(m), u, v),
    ensures
        linked(es, u, v),
{
    let path = choose|path: Seq<int>| #[trigger] is_walk(es.take(m), path) && path[0] == u && path.last() == v;
    assert forall|k: int| 0 <= k < path.len() - 1 implies #[trigger] edge_between(es, path[k], path[k + 1]) by {
        assert(edge_between(es.take(m), path[k], path[k + 1]));
        let i = choose|i: int| 0 <= i < es.take(m).len() && #[trigger] es.take(m)[i] == es.take(m)[i] && (
            (es.take(m)[i].source == path[k] && es.take(m)[i].destination == path[k + 1])
            || (es.take(m)[i].source == path[k + 1] && es.take(m)[i].destination == path[k]));
        assert(es[i] == es.take(m)[i]);
    }
    assert(is_walk(es, path));
}

/// Sum of the weights of a sequence of edges.
pub open spec fn sum_weights(es: Seq<MapEdge>) -> int
    decreases es.len(),
{
    if es.len() == 0 {
        0
    } else {
        sum_weights(es.drop_last()) + es.last().weight
    }
}

/// Whether the edges are ordered by non-decreasing weight.
pub open spec fn sorted_by_weight(es: Seq<MapEdge>) -> bool {
    forall|a: int, b: int| 0 <= a < b < es.len() ==> es[a].weight <= es[b].weight
}

/// Whether some edge of `es` joins `a` and `b` (in either direction).
pub open spec fn edge_between(es: Seq<MapEdge>, a: int, b: int) -> bool {
    exists|i: int| 0 <= i < es.len() && #[trigger] es[i] == es[i] && (
        (es[i].source == a && es[i].destination == b) || (es[i].source == b && es[i].destination == a))
}

/// Whether `path` is a walk along edges of `es`.
pub open spec fn is_walk(es: Seq<MapEdge>, path: Seq<int>) -> bool {
    &&& path.len() >= 1
    &&& forall|k: int| 0 <= k < path.len() - 1 ==> #[trigger] edge_between(es, path[k], path[k + 1])
}

/// Whether `u` and `v` are connected by edges of `es`.
pub open spec fn linked(es: Seq<MapEdge>, u: int, v: int) -> bool {
    exists|path: Seq<int>| #[trigger] is_walk(es, path) && path[0] == u && path.last() == v
}

/// Whether each edge joins two vertices that the edges before it do not
/// connect yet: the edges form a forest.
pub open spec fn is_forest(es: Seq<MapEdge>) -> bool {
    forall|i: int| 0 <= i < es.len() ==> !linked(#[trigger] es.take(i), es[i].source as int, es[i].destination as int)
}

/// Whether edges of `tree` that weigh no more than `e` already join the
/// endpoints of `e`: a prefix of `tree` (ordered by weight) whose edges are
/// no heavier than `e` links them. A spanning tree in which this holds for
/// every edge of the graph is a minimum spanning tree.
pub open spec fn cheaply_linked(tree: Seq<MapEdge>, e: MapEdge) -> bool {
    exists|m: int| 0 <= m <= tree.len()
        && (forall|k: int| 0 <= k < m ==> #[trigger] tree[k].weight <= e.weight)
        && #[trigger] linked(tree.take(m), e.source as int, e.destination as int)
}

/// No forest of `size` edges taken from `edges` weighs less than `w`.
pub open spec fn no_lighter_forest(edges: Seq<MapEdge>, size: int, w: int) -> bool {
    forall|t: Seq<MapEdge>| t.len() == size && t.to_multiset().subset_of(edges.to_multiset()) && is_forest(t)
        ==> w <= #[trigger] sum_weights(t)
}

/// A tree in which the whole tree, no heavier than `e`, links its endpoints.
pub proof fn lemma_cheaply_linked_whole(tree: Seq<MapEdge>, e: MapEdge)
    requires
        forall|k: int| 0 <= k < tree.len() ==> #[trigger] tree[k].weight <= e.weight,
        linked(tree, e.source as int, e.destination as int),
    ensures
        cheaply_linked(tree, e),
{
    assert(tree.take(tree.len() as int) =~= tree);
}

/// Appending an edge keeps every edge cheaply linked.
pub proof fn lemma_cheaply_linked_push(tree: Seq<MapEdge>, f: MapEdge, e: MapEdge)
    requires
        cheaply_linked(tree, e),
    ensures
        cheaply_linked(tree.push(f), e),
{
    let t2 = tree.push(f);
    let m = choose|m: int| 0 <= m <= tree.len()
        && (forall|k: int| 0 <= k < m ==> #[trigger] tree[k].weight <= e.weight)
        && #[trigger] linked(tree.take(m), e.source as int, e.destination as int);
    assert(t2.take(m) =~= tree.take(m));
    assert forall|k: int| 0 <= k < m implies #[trigger] t2[k].weight <= e.weight by {
        assert(t2[k] == tree[k]);
    }
}

/// Swapping two neighbours keeps the weight sum.
pub proof fn lemma_swap_sum(s: Seq<MapEdge>, j: int)
    requires
        0 <= j < j + 1 < s.len(),
    ensures
        sum_weights(s.update(j, s[j + 1]).update(j + 1, s[j])) == sum_weights(s),
    decreases s.len(),
{
    let t = s.update(j, s[j + 1]).update(j + 1, s[j]);
    if j + 2 == s.len() {
        assert(t.drop_last().drop_last() =~= s.drop_last().drop_last());
        assert(t.drop_last().last() == s.last());
        assert(sum_weights(t.drop_last()) == sum_weights(t.drop_last().drop_last()) + t.drop_last().last().weight);
        assert(sum_weights(s.drop_last()) == sum_weights(s.drop_last().drop_last()) + s.drop_last().last().weight);
    } else {
        lemma_swap_sum(s.drop_last(), j);
        assert(t.drop_last() =~= s.drop_last().update(j, s[j + 1]).update(j + 1, s[j]));
    }
}

/// Sorts edges by non-decreasing weight (a permutation of the input).
pub fn sort_edges_by_weight(edges: &mut Vec<MapEdge>)
    ensures
        final(edges)@.to_multiset() == old(edges)@.to_multiset(),
        final(edges)@.len() == old(edges)@.len(),
        sum_weights(final(edges)@) == sum_weights(old(edges)@),
        sorted_by_weight(final(edges)@),
{
    let n = edges.len();
    let mut i: usize = 1;
    if n == 0 {
        return;
    }
    while i < n
        invariant
            1 <= i <= n,
            n == edges.len(),
            edges@.to_multiset() == old(edges)@.to_multiset(),
            sum_weights(edges@) == sum_weights(old(edges)@),
            forall|a: int, b: int| 0 <= a < b < i ==> edges@[a].weight <= edges@[b].weight,
        decreases n - i,
    {
        let mut j = i;
        while j > 0 && edges[j - 1].weight > edges[j].weight
            invariant
                0 <= j <= i < n,
                n == edges.len(),
                edges@.to_multiset() == old(edges)@.to_multiset(),
                sum_weights(edges@) == sum_weights(old(edges)@),
                forall|a: int, b: int| 0 <= a < b <= i && a != j && b != j ==> edges@[a].weight <= edges@[b].weight,
                forall|b: int| j < b <= i ==> edges@[j as int].weight < edges@[b].weight,
            decreases j,
        {
            let left = edges[j - 1];
            let right = edges[j];
            let ghost before = edges@;
            edges.set(j - 1, right);
            edges.set(j, left);
            proof {
                assert(edges@ == before.update(j - 1, before[j as int]).update(j as int, before[j - 1]));
                lemma_swap_sum(before, j - 1);
                let a = before[j - 1];
                let b = before[j as int];
                let m1 = before.update(j - 1, b);
                vstd::seq_lib::to_multiset_update(before, j - 1, b);
                vstd::seq_lib::to_multiset_update(m1, j as int, a);
                assert(m1[j as int] == b);
                broadcast use vstd::multiset::group_multiset_axioms;
                assert(before.to_multiset().count(a) > 0) by {
                    broadcast use vstd::seq_lib::group_to_multiset_ensures;
                    assert(before.contains(a));
                }
                assert(edges@.to_multiset() =~= before.to_multiset());
            }
            j = j - 1;
        }
        i = i + 1;
    }
}

/// A walk over a prefix of the edges is a walk over all of them.
pub proof fn lemma_walk_mono(es: Seq<MapEdge>, e: MapEdge, path: Seq<int>)
    requires
        is_walk(es, path),
    ensures
        is_walk(es.push(e), path),
{
    assert forall|k: int| 0 <= k < path.len() - 1 implies #[trigger] edge_between(es.push(e), path[k], path[k + 1]) by {
        assert(edge_between(es, path[k], path[k + 1]));
        let i = choose|i: int| 0 <= i < es.len() && #[trigger] es[i] == es[i] && (
            (es[i].source == path[k] && es[i].destination == path[k + 1])
            || (es[i].source == path[k + 1] && es[i].destination == path[k]));
        assert(es.push(e)[i] == es[i]);
    }
}

pub proof fn lemma_linked_mono(es: Seq<MapEdge>, e: MapEdge, u: int, v: int)
    requires
        linked(es, u, v),
    ensures
        linked(es.push(e), u, v),
{
    let path = choose|path: Seq<int>| #[trigger] is_walk(es, path) && path[0] == u && path.last() == v;
    lemma_walk_mono(es, e, path);
}

/// Walks can be joined end to end.
pub proof fn lemma_linked_trans(es: Seq<MapEdge>, u: int, v: int, w: int)
    requires
        linked(es, u, v),
        linked(es, v, w),
    ensures
        linked(es, u, w),
{
    let p1 = choose|path: Seq<int>| #[trigger] is_walk(es, path) && path[0] == u && path.last() == v;
    let p2 = choose|path: Seq<int>| #[trigger] is_walk(es, path) && path[0] == v && path.last() == w;
    let p = p1 + p2.drop_first();
    assert forall|k: int| 0 <= k < p.len() - 1 implies #[trigger] edge_between(es, p[k], p[k + 1]) by {
        if k < p1.len() - 1 {
            assert(p[k] == p1[k] && p[k + 1] == p1[k + 1]);
        } else {
            let m = k - (p1.len() - 1);
            assert(p[k] == p2[m]);
            assert(p[k + 1] == p2[m + 1]);
            assert(edge_between(es, p2[m], p2[m + 1]));
        }
    }
    assert(is_walk(es, p));
}

/// Walks can be reversed.
pub proof fn lemma_linked_symm(es: Seq<MapEdge>, u: int, v: int)
    requires
        linked(es, u, v),
    ensures
        linked(es, v, u),
{
    let p = choose|path: Seq<int>| #[trigger] is_walk(es, path) && path[0] == u && path.last() == v;
    let r = p.reverse();
    assert forall|k: int| 0 <= k < r.len() - 1 implies #[trigger] edge_between(es, r[k], r[k + 1]) by {
        let m = p.len() - 2 - k;
        assert(r[k] == p[m + 1]);
        assert(r[k + 1] == p[m]);
        assert(edge_between(es, p[m], p[m + 1]));
        let i = choose|i: int| 0 <= i < es.len() && #[trigger] es[i] == es[i] && (
            (es[i].source == p[m] && es[i].destination == p[m + 1])
            || (es[i].source == p[m + 1] && es[i].destination == p[m]));
    }
    assert(is_walk(es, r));
}

pub proof fn lemma_linked_refl(es: Seq<MapEdge>, u: int)
    ensures
        linked(es, u, u),
{
    let p = seq![u];
    assert(is_walk(es, p));
}

/// The last edge links its endpoints.
pub proof fn lemma_linked_edge(es: Seq<MapEdge>, e: MapEdge)
    ensures
        linked(es.push(e), e.source as int, e.destination as int),
{
    let p = seq![e.source as int, e.destination as int];
    let es2 = es.push(e);
    assert(es2[es.len() as int] == e);
    assert(edge_between(es2, p[0], p[1]));
    assert(is_walk(es2, p));
}

/// If every edge of `es` joins two elements of one set, so does every walk.
pub proof fn lemma_linked_same_set(uf: &UnionFind, es: Seq<MapEdge>, path: Seq<int>)
    requires
        uf.wf(),
        is_walk(es, path),
        forall|i: int| 0 <= i < es.len() ==> #[trigger] uf.same_set(es[i].source as int, es[i].destination as int),
    ensures
        uf.same_set(path[0], path.last()),
    decreases path.len(),
{
    if path.len() > 1 {
        let p2 = path.drop_last();
        assert forall|k: int| 0 <= k < p2.len() - 1 implies #[trigger] edge_between(es, p2[k], p2[k + 1]) by {
            assert(edge_between(es, path[k], path[k + 1]));
        }
        lemma_linked_same_set(uf, es, p2);
        let k = path.len() - 2;
        assert(edge_between(es, path[k], path[k + 1]));
        let i = choose|i: int| 0 <= i < es.len() && #[trigger] es[i] == es[i] && (
            (es[i].source == path[k] && es[i].destination == path[k + 1])
            || (es[i].source == path[k + 1] && es[i].destination == path[k]));
        assert(uf.same_set(es[i].source as int, es[i].destination as int));
    }
}

/// Where the edges link every two of the vertices `0..n` and every edge
/// lies within one set, at most two sets are left: that of the vertices,
/// and that of `n`.
proof fn lemma_linked_all_one_set(uf: &UnionFind, input: Seq<MapEdge>, sorted: Seq<MapEdge>, n: int)
    requires
        uf.wf(),
        uf.len() == n + 1,
        n >= 1,
        sorted.to_multiset() == input.to_multiset(),
        forall|k: int| 0 <= k < sorted.len() ==> #[trigger] uf.same_set(sorted[k].source as int, sorted[k].destination as int),
        forall|u: int, v: int| 0 <= u < n && 0 <= v < n ==> #[trigger] linked(input, u, v),
    ensures
        uf.reps().len() <= 2,
{
    assert forall|k: int| 0 <= k < input.len() implies #[trigger] uf.same_set(
        input[k].source as int, input[k].destination as int) by {
        broadcast use vstd::seq_lib::group_to_multiset_ensures;
        assert(input.to_multiset().count(input[k]) > 0);
        assert(sorted.contains(input[k]));
        let m = choose|m: int| 0 <= m < sorted.len() && sorted[m] == input[k];
        assert(uf.same_set(sorted[m].source as int, sorted[m].destination as int));
    }
    let r0 = uf.root(0);
    let two = set![r0, n];
    assert forall|x: int| uf.reps().contains(x) implies two.contains(x) by {
        if x != n {
            assert(linked(input, 0, x));
            let path = choose|path: Seq<int>| #[trigger] is_walk(input, path) && path[0] == 0 && path.last() == x;
            lemma_linked_same_set(uf, input, path);
        }
    }
    assert(uf.reps().subset_of(two));
    vstd::set_lib::lemma_len_subset(uf.reps(), two);
    assert(two.len() <= 2) by {
        broadcast use vstd::set::group_set_axioms;
    }
}

/// The minimum spanning tree of the rooms by Kruskal's algorithm: edges are
/// taken by increasing weight whenever they join two not yet connected
/// vertices, until `num_vertices - 1` edges are taken.
///
/// On success the chosen edges, `num_vertices - 1` of them, come from the
/// input, are ordered by weight, form a forest, and weigh the returned total;
/// no forest of as many input edges weighs less. Where the input stays within
/// the vertices `0..num_vertices`, the tree links them all, and the endpoints
/// of every input edge are joined by tree edges no heavier than that edge.
/// It fails exactly when fewer edges can be chosen: then some forest of
/// input edges with fewer than `num_vertices - 1` edges already connects the
/// endpoints of every input edge, so the input does not connect all rooms.
#[verifier::rlimit(60)]
#[verifier::spinoff_prover]
pub fn mst_kruskal(edges: Vec<MapEdge>, num_vertices: usize) -> (r: Result<(usize, Vec<MapEdge>), &'static str>)
    requires
        1 <= num_vertices < usize::MAX - 1,
        forall|i: int| 0 <= i < edges.len() ==> #[trigger] edges@[i].source <= num_vertices
            && edges@[i].destination <= num_vertices,
        forall|t: Seq<MapEdge>| t.len() < num_vertices && t.to_multiset().subset_of(edges@.to_multiset())
            ==> #[trigger] sum_weights(t) <= usize::MAX,
    ensures
        r matches Ok((w, tree)) ==> {
            &&& tree@.len() == num_vertices - 1
            &&& w == sum_weights(tree@)
            &&& tree@.to_multiset().subset_of(edges@.to_multiset())
            &&& sorted_by_weight(tree@)
            &&& is_forest(tree@)
            &&& no_lighter_forest(edges@, num_vertices - 1, w as int)
            &&& (forall|i: int| 0 <= i < edges.len() ==> #[trigger] edges@[i].source < num_vertices
                    && edges@[i].destination < num_vertices)
                ==> {
                    &&& forall|u: int, v: int| 0 <= u < num_vertices && 0 <= v < num_vertices ==> linked(tree@, u, v)
                    &&& forall|i: int| 0 <= i < edges.len() ==> cheaply_linked(tree@, #[trigger] edges@[i])
                }
        },
        r is Err ==> r == Err::<(usize, Vec<MapEdge>), &'static str>("Not all rooms connected"),
        (forall|i: int| 0 <= i < edges.len() ==> #[trigger] edges@[i].source < num_vertices
            && edges@[i].destination < num_vertices)
            && (forall|u: int, v: int| 0 <= u < num_vertices && 0 <= v < num_vertices ==> #[trigger] linked(edges@, u, v))
            ==> r is Ok,
        r is Err ==> exists|forest: Seq<MapEdge>| {
            &&& forest.len() < num_vertices - 1
            &&& forest.to_multiset().subset_of(edges@.to_multiset())
            &&& is_forest(forest)
            &&& forall|i: int| 0 <= i < edges.len() ==> linked(forest, #[trigger] edges@[i].source as int, edges@[i].destination as int)
        },
{
    let mut edges = edges;
    let ghost input = edges@;
    let ghost small = forall|i: int| 0 <= i < input.len() ==> #[trigger] input[i].source < num_vertices
        && input[i].destination < num_vertices;
    let mut union_find = UnionFind::new(num_vertices);
    let mut minimum_spanning_tree_weight: usize = 0;
    let mut minimum_spanning_tree_edges: Vec<MapEdge> = Vec::new();
    let target = num_vertices - 1;

    sort_edges_by_weight(&mut edges);
    proof {
        assert forall|i: int| 0 <= i < edges.len() implies #[trigger] edges@[i].source <= num_vertices
            && edges@[i].destination <= num_vertices by {
            broadcast use vstd::seq_lib::group_to_multiset_ensures;
            assert(edges@.to_multiset().count(edges@[i]) > 0);
            assert(input.contains(edges@[i]));
        }
        assert(edges@.take(0) =~= Seq::<MapEdge>::empty());
        if small {
            assert forall|i: int| 0 <= i < edges.len() implies #[trigger] edges@[i].source < num_vertices
                && edges@[i].destination < num_vertices by {
                broadcast use vstd::seq_lib::group_to_multiset_ensures;
                assert(edges@.to_multiset().count(edges@[i]) > 0);
                assert(input.contains(edges@[i]));
            }
        }
        assert(union_find.reps() =~= vstd::set_lib::set_int_range(0, num_vertices + 1)) by {
            assert forall|x: int| #[trigger] union_find.reps().contains(x)
                == vstd::set_lib::set_int_range(0, num_vertices + 1).contains(x) by {
                if 0 <= x <= num_vertices {
                    assert(union_find.root(x) == x);
                }
            }
        }
        vstd::set_lib::lemma_int_range(0, num_vertices + 1);
        assert forall|u: int, v: int| 0 <= u <= num_vertices && 0 <= v <= num_vertices
            && union_find.same_set(u, v) implies linked(minimum_spanning_tree_edges@, u, v) by {
            lemma_linked_refl(minimum_spanning_tree_edges@, u);
        }
    }

    let mut i: usize = 0;
    while i < edges.len()
        invariant_except_break
            minimum_spanning_tree_edges@.len() <= target,
        invariant
            0 <= i <= edges.len(),
            target == num_vertices - 1,
            1 <= num_vertices < usize::MAX - 1,
            union_find.wf(),
            union_find.len() == num_vertices + 1,
            forall|k: int| 0 <= k < edges.len() ==> #[trigger] edges@[k].source <= num_vertices
                && edges@[k].destination <= num_vertices,
            edges@.to_multiset() == input.to_multiset(),
            forall|t: Seq<MapEdge>| t.len() < num_vertices && t.to_multiset().subset_of(input.to_multiset())
                ==> #[trigger] sum_weights(t) <= usize::MAX,
            sorted_by_weight(edges@),
            minimum_spanning_tree_weight == sum_weights(minimum_spanning_tree_edges@),
            sum_weights(minimum_spanning_tree_edges@) <= sum_weights(edges@.take(i as int)),
            minimum_spanning_tree_edges@.to_multiset().subset_of(edges@.take(i as int).to_multiset()),
            forall|k: int| 0 <= k < minimum_spanning_tree_edges.len() ==>
                #[trigger] minimum_spanning_tree_edges@[k].weight <= (if i < edges.len() { edges@[i as int].weight } else { usize::MAX }),
            sorted_by_weight(minimum_spanning_tree_edges@),
            is_forest(minimum_spanning_tree_edges@),
            forall|k: int| 0 <= k < minimum_spanning_tree_edges.len() ==> #[trigger] minimum_spanning_tree_edges@[k].source <= num_vertices
                && minimum_spanning_tree_edges@[k].destination <= num_vertices,
            forall|k: int| 0 <= k < minimum_spanning_tree_edges.len() ==> #[trigger] union_find.same_set(
                minimum_spanning_tree_edges@[k].source as int, minimum_spanning_tree_edges@[k].destination as int),
            forall|k: int| 0 <= k < i ==> #[trigger] union_find.same_set(
                edges@[k].source as int, edges@[k].destination as int),
            forall|k: int| 0 <= k < i ==> cheaply_linked(minimum_spanning_tree_edges@, #[trigger] edges@[k]),
            forall|u: int, v: int| 0 <= u <= num_vertices && 0 <= v <= num_vertices
                && union_find.same_set(u, v) ==> linked(minimum_spanning_tree_edges@, u, v),
            union_find.reps().finite(),
            union_find.reps().len() + minimum_spanning_tree_edges@.len() == num_vertices + 1,
            small ==> forall|k: int| 0 <= k < edges.len() ==> #[trigger] edges@[k].source < num_vertices
                && edges@[k].destination < num_vertices,
            small ==> union_find.root(num_vertices as int) == num_vertices,
            small ==> forall|j: int| 0 <= j < num_vertices ==> #[trigger] union_find.root(j) != num_vertices,
        ensures
            minimum_spanning_tree_edges@.len() == target || i == edges.len(),
            minimum_spanning_tree_edges@.len() <= target,
        decreases edges.len() - i,
    {
        if minimum_spanning_tree_edges.len() == target {
            break;
        }
        let edge = edges[i];
        let ghost before_uf = union_find;
        let ghost tree = minimum_spanning_tree_edges@;
        proof {
            assert(edges@.take(i + 1) == edges@.take(i as int).push(edge));
            broadcast use vstd::seq_lib::to_multiset_build;
            assert(sum_weights(edges@.take(i + 1)) == sum_weights(edges@.take(i as int)) + edge.weight) by {
                assert(edges@.take(i + 1).drop_last() == edges@.take(i as int));
            }
            lemma_prefix_sum_bounded(edges@, i as int + 1);
        }
        let merged = union_find.merge(edge.source, edge.destination);
        proof {
            // The tree with the edge is a small part of the input: its weight fits.
            broadcast use vstd::seq_lib::to_multiset_build;
            let t2 = tree.push(edge);
            lemma_prefix_multiset_subset(edges@, i as int + 1);
            assert(edges@.take(i + 1) == edges@.take(i as int).push(edge));
            assert forall|x: MapEdge| t2.to_multiset().count(x) <= input.to_multiset().count(x) by {
                assert(tree.to_multiset().count(x) <= edges@.take(i as int).to_multiset().count(x));
                assert(edges@.take(i + 1).to_multiset().count(x) <= edges@.to_multiset().count(x));
            }
            assert(t2.to_multiset().subset_of(input.to_multiset()));
            assert(t2.drop_last() == tree);
            assert(sum_weights(t2) <= usize::MAX);
        }
        if merged != usize::MAX {
            proof {
                // The endpoints were not connected: otherwise the walk would keep them in one set.
                if linked(tree, edge.source as int, edge.destination as int) {
                    let path = choose|path: Seq<int>| #[trigger] is_walk(tree, path) && path[0] == edge.source as int
                        && path.last() == edge.destination as int;
                    lemma_linked_same_set(&before_uf, tree, path);
                }
            }
            minimum_spanning_tree_weight = minimum_spanning_tree_weight + edge.weight;
            minimum_spanning_tree_edges.push(edge);
            proof {
                let t2 = minimum_spanning_tree_edges@;
                assert(t2.drop_last() == tree);
                assert forall|k: int| 0 <= k < t2.len() implies
                    !linked(#[trigger] t2.take(k), t2[k].source as int, t2[k].destination as int) by {
                    if k < tree.len() {
                        assert(t2.take(k) == tree.take(k));
                    } else {
                        assert(t2.take(k) == tree);
                    }
                }
                assert forall|a: int, b: int| 0 <= a < b < t2.len() implies t2[a].weight <= t2[b].weight by {
                    if b == tree.len() {
                        assert(t2[a] == tree[a]);
                    } else {
                        assert(t2[a] == tree[a] && t2[b] == tree[b]);
                    }
                }
                lemma_linked_edge(tree, edge);
                assert forall|u: int, v: int| 0 <= u <= num_vertices && 0 <= v <= num_vertices
                    && union_find.same_set(u, v) implies linked(t2, u, v) by {
                    assert(union_find.root(u) == union_find.root(u));
                    assert(union_find.root(v) == union_find.root(v));
                    let in_u = before_uf.same_set(u, edge.source as int) || before_uf.same_set(u, edge.destination as int);
                    let in_v = before_uf.same_set(v, edge.source as int) || before_uf.same_set(v, edge.destination as int);
                    if in_u && in_v {
                        // u - endpoint of u's side - edge - endpoint of v's side - v
                        let su = if before_uf.same_set(u, edge.source as int) { edge.source as int } else { edge.destination as int };
                        let sv = if before_uf.same_set(v, edge.source as int) { edge.source as int } else { edge.destination as int };
                        assert(linked(tree, u, su));
                        assert(linked(tree, v, sv));
                        lemma_linked_mono(tree, edge, u, su);
                        lemma_linked_mono(tree, edge, v, sv);
                        lemma_linked_symm(t2, v, sv);
                        if su == sv {
                            lemma_linked_trans(t2, u, su, v);
                        } else {
                            if su == edge.source as int {
                                lemma_linked_trans(t2, u, su, sv);
                            } else {
                                lemma_linked_symm(t2, edge.source as int, edge.destination as int);
                                lemma_linked_trans(t2, u, su, sv);
                            }
                            lemma_linked_trans(t2, u, sv, v);
                        }
                    } else if !in_u && !in_v {
                        assert(before_uf.same_set(u, v));
                        lemma_linked_mono(tree, edge, u, v);
                    } else {
                        // One side lies in the merged set, the other not: impossible.
                        assert(false);
                    }
                }
                assert forall|k: int| 0 <= k < t2.len() implies #[trigger] union_find.same_set(
                    t2[k].source as int, t2[k].destination as int) by {
                    let a = t2[k].source as int;
                    let b = t2[k].destination as int;
                    assert(union_find.root(a) == union_find.root(a));
                    assert(union_find.root(b) == union_find.root(b));
                    if k < tree.len() {
                        assert(t2[k] == tree[k]);
                        assert(before_uf.same_set(tree[k].source as int, tree[k].destination as int));
                    }
                }
                assert forall|k: int| 0 <= k < t2.len() implies #[trigger] t2[k].source <= num_vertices
                    && t2[k].destination <= num_vertices by {
                    if k < tree.len() {
                        assert(t2[k] == tree[k]);
                    }
                }
                assert(t2.to_multiset() == tree.to_multiset().insert(edge));
                assert(sum_weights(t2) == sum_weights(tree) + edge.weight);
                assert forall|k: int| 0 <= k < i + 1 implies cheaply_linked(t2, #[trigger] edges@[k]) by {
                    if k < i {
                        lemma_cheaply_linked_push(tree, edge, edges@[k]);
                    } else {
                        assert forall|kk: int| 0 <= kk < t2.len() implies #[trigger] t2[kk].weight <= edge.weight by {
                            if kk < tree.len() {
                                assert(t2[kk] == tree[kk]);
                            }
                        }
                        lemma_cheaply_linked_whole(t2, edge);
                    }
                }
            }
            proof {
                lemma_reps_after_merge(before_uf, union_find, edge.source as int, edge.destination as int, merged as int);
                let other = if merged as int == before_uf.root(edge.source as int) {
                    before_uf.root(edge.destination as int) } else { before_uf.root(edge.source as int) };
                vstd::set::axiom_set_remove_len(before_uf.reps(), other);
                vstd::set::axiom_set_remove_finite(before_uf.reps(), other);
                if small {
                    assert(edge.source < num_vertices && edge.destination < num_vertices);
                    assert(before_uf.root(edge.source as int) != num_vertices);
                    assert(before_uf.root(edge.destination as int) != num_vertices);
                    assert(union_find.root(num_vertices as int) == num_vertices);
                    assert forall|j: int| 0 <= j < num_vertices implies #[trigger] union_find.root(j) != num_vertices by {
                        assert(before_uf.root(j) != num_vertices);
                    }
                }
            }
        } else {
            proof {
                assert forall|u: int, v: int| 0 <= u <= num_vertices && 0 <= v <= num_vertices
                    && union_find.same_set(u, v) implies linked(minimum_spanning_tree_edges@, u, v) by {
                    assert(union_find.root(u) == before_uf.root(u));
                    assert(union_find.root(v) == before_uf.root(v));
                    assert(before_uf.same_set(u, v));
                }
                assert forall|k: int| 0 <= k < tree.len() implies #[trigger] union_find.same_set(
                    tree[k].source as int, tree[k].destination as int) by {
                    assert(union_find.root(tree[k].source as int) == before_uf.root(tree[k].source as int));
                    assert(union_find.root(tree[k].destination as int) == before_uf.root(tree[k].destination as int));
                    assert(before_uf.same_set(tree[k].source as int, tree[k].destination as int));
                }
                lemma_reps_same(before_uf, union_find);
                assert(before_uf.same_set(edge.source as int, edge.destination as int));
                assert(linked(tree, edge.source as int, edge.destination as int));
                lemma_cheaply_linked_whole(tree, edge);
                assert forall|k: int| 0 <= k < i + 1 implies cheaply_linked(tree, #[trigger] edges@[k]) by {
                    if k == i {
                        assert(edges@[k] == edge);
                    }
                }
            }
        }
        proof {
            assert forall|k: int| 0 <= k < i + 1 implies #[trigger] union_find.same_set(
                edges@[k].source as int, edges@[k].destination as int) by {
                if k < i {
                    assert(before_uf.same_set(edges@[k].source as int, edges@[k].destination as int));
                }
            }
            assert(minimum_spanning_tree_edges@.to_multiset().subset_of(edges@.take(i + 1).to_multiset())) by {
                broadcast use vstd::multiset::group_multiset_properties;
            }
        }
        i = i + 1;
    }

    proof {
        assert(edges@.take(edges.len() as int) == edges@);
        broadcast use vstd::multiset::group_multiset_properties;
    }
    if minimum_spanning_tree_edges.len() == target {
        proof {
            lemma_tree_lightest(minimum_spanning_tree_edges@, edges@, input, i as int, num_vertices as int);
        }
        proof {
            lemma_prefix_sum_bounded(edges@, i as int);
            assert(minimum_spanning_tree_edges@.to_multiset().subset_of(edges@.to_multiset())) by {
                lemma_prefix_multiset_subset(edges@, i as int);
            }
        }
        proof {
            if small {
                let tree = minimum_spanning_tree_edges@;
                assert forall|u: int, v: int| 0 <= u < num_vertices && 0 <= v < num_vertices implies linked(tree, u, v) by {
                    union_find.lemma_root_rep(u);
                    union_find.lemma_root_rep(v);
                    let ru = union_find.root(u);
                    let rv = union_find.root(v);
                    if ru != rv {
                        let three = set![ru, rv, num_vertices as int];
                        assert(union_find.reps().contains(ru));
                        assert(union_find.reps().contains(rv));
                        assert(union_find.reps().contains(num_vertices as int));
                        assert(three.subset_of(union_find.reps()));
                        vstd::set_lib::lemma_len_subset(three, union_find.reps());
                        broadcast use vstd::set::group_set_axioms;
                        assert(three.len() == 3);
                    }
                    assert(union_find.same_set(u, v));
                }
                lemma_rest_cheaply_linked(tree, edges@, input, i as int, num_vertices as int);
            }
        }
        Ok((minimum_spanning_tree_weight, minimum_spanning_tree_edges))
    } else {
        proof {
            let forest = minimum_spanning_tree_edges@;
            assert forall|k: int| 0 <= k < input.len() implies linked(forest, #[trigger] input[k].source as int, input[k].destination as int) by {
                broadcast use vstd::seq_lib::group_to_multiset_ensures;
                assert(input.to_multiset().count(input[k]) > 0);
                assert(edges@.contains(input[k]));
                let m = choose|m: int| 0 <= m < edges.len() && edges@[m] == input[k];
                assert(union_find.same_set(edges@[m].source as int, edges@[m].destination as int));
            }
            if small && forall|u: int, v: int| 0 <= u < num_vertices && 0 <= v < num_vertices ==> #[trigger] linked(input, u, v) {
                lemma_linked_all_one_set(&union_find, input, edges@, num_vertices as int);
            }
        }
        Err("Not all rooms connected")
    }
}

/// Once every two vertices are linked by the tree, the edges not yet
/// looked at (no lighter than any tree edge) are cheaply linked too; so are
/// all input edges.
proof fn lemma_rest_cheaply_linked(tree: Seq<MapEdge>, edges: Seq<MapEdge>, input: Seq<MapEdge>, i: int, n: int)
    requires
        0 <= i <= edges.len(),
        sorted_by_weight(edges),
        edges.to_multiset() == input.to_multiset(),
        forall|k: int| 0 <= k < i ==> cheaply_linked(tree, #[trigger] edges[k]),
        forall|k: int| 0 <= k < tree.len() ==> #[trigger] tree[k].weight <= (if i < edges.len() { edges[i].weight } else { usize::MAX }),
        forall|k: int| #![trigger edges[k]] 0 <= k < edges.len() ==> edges[k].source < n && edges[k].destination < n,
        forall|u: int, v: int| 0 <= u < n && 0 <= v < n ==> linked(tree, u, v),
    ensures
        forall|k: int| 0 <= k < input.len() ==> cheaply_linked(tree, #[trigger] input[k]),
{
    assert forall|k: int| 0 <= k < edges.len() implies cheaply_linked(tree, #[trigger] edges[k]) by {
        if k >= i {
            let e = edges[k];
            assert(e.weight >= edges[i].weight);
            assert forall|kk: int| 0 <= kk < tree.len() implies #[trigger] tree[kk].weight <= e.weight by {
                assert(tree[kk].weight <= edges[i].weight);
            }
            assert(edges[k].source < n && edges[k].destination < n);
            assert(linked(tree, e.source as int, e.destination as int));
            lemma_cheaply_linked_whole(tree, e);
        }
    }
    assert forall|k: int| 0 <= k < input.len() implies cheaply_linked(tree, #[trigger] input[k]) by {
        broadcast use vstd::seq_lib::group_to_multiset_ensures;
        assert(input.to_multiset().count(input[k]) > 0);
        assert(edges.contains(input[k]));
        let m = choose|m: int| 0 <= m < edges.len() && edges[m] == input[k];
        assert(cheaply_linked(tree, edges[m]));
    }
}

/// The greedy tree is a lightest forest of its size among the input edges.
proof fn lemma_tree_lightest(tree: Seq<MapEdge>, edges: Seq<MapEdge>, input: Seq<MapEdge>, i: int, num_vertices: int)
    requires
        0 <= i <= edges.len(),
        1 <= num_vertices,
        tree.len() == num_vertices - 1,
        is_forest(tree),
        sorted_by_weight(tree),
        sorted_by_weight(edges),
        edges.to_multiset() == input.to_multiset(),
        forall|k: int| 0 <= k < i ==> cheaply_linked(tree, #[trigger] edges[k]),
        forall|k: int| 0 <= k < tree.len() ==> #[trigger] tree[k].weight <= (if i < edges.len() { edges[i].weight } else { usize::MAX }),
        forall|k: int| 0 <= k < tree.len() ==> #[trigger] tree[k].source <= num_vertices && tree[k].destination <= num_vertices,
        forall|k: int| 0 <= k < input.len() ==> #[trigger] input[k].source <= num_vertices && input[k].destination <= num_vertices,
    ensures
        no_lighter_forest(input, num_vertices - 1, sum_weights(tree)),
{
    let n1 = (num_vertices + 1) as nat;
    assert forall|k: int| 0 <= k < edges.len() implies cheaply_linked(tree, #[trigger] edges[k])
        || (forall|j: int| 0 <= j < tree.len() ==> tree[j].weight <= edges[k].weight) by {
        if k >= i {
            assert(edges[k].weight >= edges[i].weight);
            assert forall|j: int| 0 <= j < tree.len() implies tree[j].weight <= edges[k].weight by {
                assert(tree[j].weight <= edges[i].weight);
            }
        }
    }
    assert(crate::proc_gen::forest_rank::edges_within(tree, n1));
    assert forall|t: Seq<MapEdge>| t.len() == num_vertices - 1 && t.to_multiset().subset_of(input.to_multiset())
        && is_forest(t) implies sum_weights(tree) <= #[trigger] sum_weights(t) by {
        broadcast use vstd::seq_lib::group_to_multiset_ensures;
        assert forall|x: int| 0 <= x < t.len() implies cheaply_linked(tree, #[trigger] t[x])
            || (forall|j: int| 0 <= j < tree.len() ==> tree[j].weight <= t[x].weight) by {
            assert(t.to_multiset().count(t[x]) > 0);
            assert(input.to_multiset().count(t[x]) > 0);
            assert(edges.to_multiset().count(t[x]) > 0);
            assert(edges.contains(t[x]));
            let m = choose|m: int| 0 <= m < edges.len() && edges[m] == t[x];
            assert(cheaply_linked(tree, edges[m])
                || (forall|j: int| 0 <= j < tree.len() ==> tree[j].weight <= edges[m].weight));
        }
        assert(crate::proc_gen::forest_rank::edges_within(t, n1)) by {
            assert forall|x: int| 0 <= x < t.len() implies (#[trigger] t[x]).source < n1 && t[x].destination < n1 by {
                assert(t.to_multiset().count(t[x]) > 0);
                assert(input.to_multiset().count(t[x]) > 0);
                assert(input.contains(t[x]));
                let m = choose|m: int| 0 <= m < input.len() && input[m] == t[x];
                assert(input[m].source <= num_vertices);
            }
        }
        crate::proc_gen::forest_rank::lemma_greedy_forest_minimal(tree, t, n1);
    }
}

/// A prefix weighs at most the whole.
pub proof fn lemma_prefix_sum_bounded(s: Seq<MapEdge>, k: int)
    requires
        0 <= k <= s.len(),
    ensures
        sum_weights(s.take(k)) <= sum_weights(s),
        sum_weights(s.take(k)) >= 0,
    decreases s.len(),
{
    if k == s.len() {
        assert(s.take(k) == s);
        lemma_sum_nonneg(s);
    } else {
        lemma_prefix_sum_bounded(s.drop_last(), k);
        assert(s.drop_last().take(k) == s.take(k));
    }
}

pub proof fn lemma_sum_nonneg(s: Seq<MapEdge>)
    ensures
        sum_weights(s) >= 0,
    decreases s.len(),
{
    if s.len() > 0 {
        lemma_sum_nonneg(s.drop_last());
    }
}

/// The elements of a prefix are among the elements of the whole.
pub proof fn lemma_prefix_multiset_subset(s: Seq<MapEdge>, k: int)
    requires
        0 <= k <= s.len(),
    ensures
        s.take(k).to_multiset().subset_of(s.to_multiset()),
    decreases s.len() - k,
{
    broadcast use vstd::seq_lib::to_multiset_build;
    broadcast use vstd::multiset::group_multiset_properties;
    if k == s.len() {
        assert(s.take(k) == s);
    } else {
        lemma_prefix_multiset_subset(s, k + 1);
        assert(s.take(k + 1) == s.take(k).push(s[k]));
    }
}

} // verus!

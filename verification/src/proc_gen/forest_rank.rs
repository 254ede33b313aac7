//! Connected components of a set of edges, and the rank of forests: a
//! forest whose edges stay within the components of another forest has at
//! most as many edges as that forest.

use vstd::prelude::*;

use crate::proc_gen::corridors::MapEdge;
use crate::proc_gen::mst::{
    cheaply_linked, edge_between, is_forest, is_walk, lemma_linked_edge, lemma_linked_mono, lemma_linked_prefix,
    lemma_linked_refl, lemma_linked_symm, lemma_linked_trans, linked, sorted_by_weight, sum_weights,
};

verus! {

/// Every edge joins two of the vertices `0..n`.
pub open spec fn edges_within(es: Seq<MapEdge>, n: nat) -> bool {
    forall|i: int| 0 <= i < es.len() ==> (#[trigger] es[i]).source < n && es[i].destination < n
}

/// A label per vertex `0..n`: adding the edges one by one, the component of
/// an edge's destination takes the label of its source's component.
pub open spec fn comp(es: Seq<MapEdge>, n: nat) -> Seq<int>
    decreases es.len(),
{
    if es.len() == 0 {
        Seq::new(n, |v: int| v)
    } else {
        let c = comp(es.drop_last(), n);
        let la = c[es.last().source as int];
        let lb = c[es.last().destination as int];
        Seq::new(n, |v: int| if c[v] == lb { la } else { c[v] })
    }
}

/// The labels in use: the vertices that label their own component.
pub open spec fn labels(es: Seq<MapEdge>, n: nat) -> Set<int> {
    Set::new(|v: int| 0 <= v < n && comp(es, n)[v] == v)
}

/// Labels are vertices, and each label labels itself.
pub proof fn lemma_comp_valid(es: Seq<MapEdge>, n: nat)
    requires
        edges_within(es, n),
    ensures
        comp(es, n).len() == n,
        forall|v: int| 0 <= v < n ==> 0 <= #[trigger] comp(es, n)[v] < n && comp(es, n)[comp(es, n)[v]] == comp(es, n)[v],
    decreases es.len(),
{
    if es.len() > 0 {
        let d = es.drop_last();
        assert(edges_within(d, n)) by {
            assert forall|i: int| 0 <= i < d.len() implies (#[trigger] d[i]).source < n && d[i].destination < n by {
                assert(d[i] == es[i]);
            }
        }
        lemma_comp_valid(d, n);
        assert(es[es.len() - 1] == es.last());
    }
}

/// Every edge joins two vertices of one label.
pub proof fn lemma_comp_edges(es: Seq<MapEdge>, n: nat)
    requires
        edges_within(es, n),
    ensures
        forall|i: int| 0 <= i < es.len() ==> comp(es, n)[(#[trigger] es[i]).source as int] == comp(es, n)[es[i].destination as int],
    decreases es.len(),
{
    if es.len() > 0 {
        let d = es.drop_last();
        assert(edges_within(d, n)) by {
            assert forall|i: int| 0 <= i < d.len() implies (#[trigger] d[i]).source < n && d[i].destination < n by {
                assert(d[i] == es[i]);
            }
        }
        lemma_comp_edges(d, n);
        lemma_comp_valid(d, n);
        assert(es[es.len() - 1] == es.last());
        assert forall|i: int| 0 <= i < es.len() implies comp(es, n)[(#[trigger] es[i]).source as int]
            == comp(es, n)[es[i].destination as int] by {
            if i < d.len() {
                assert(d[i] == es[i]);
            }
        }
    }
}

/// Along a walk the label stays the same.
pub proof fn lemma_walk_same_label(es: Seq<MapEdge>, n: nat, path: Seq<int>)
    requires
        edges_within(es, n),
        is_walk(es, path),
        0 <= path[0] < n,
    ensures
        comp(es, n)[path[0]] == comp(es, n)[path.last()],
        0 <= path.last() < n,
    decreases path.len(),
{
    lemma_comp_edges(es, n);
    if path.len() > 1 {
        let p2 = path.drop_last();
        assert forall|k: int| 0 <= k < p2.len() - 1 implies #[trigger] edge_between(es, p2[k], p2[k + 1]) by {
            assert(edge_between(es, path[k], path[k + 1]));
        }
        lemma_walk_same_label(es, n, p2);
        let k = path.len() - 2;
        assert(edge_between(es, path[k], path[k + 1]));
        let i = choose|i: int| 0 <= i < es.len() && #[trigger] es[i] == es[i] && (
            (es[i].source == path[k] && es[i].destination == path[k + 1])
            || (es[i].source == path[k + 1] && es[i].destination == path[k]));
        assert(comp(es, n)[es[i].source as int] == comp(es, n)[es[i].destination as int]);
    }
}

/// Two vertices are linked exactly when they carry the same label.
pub proof fn lemma_comp_linked(es: Seq<MapEdge>, n: nat, u: int, v: int)
    requires
        edges_within(es, n),
        0 <= u < n,
        0 <= v < n,
    ensures
        linked(es, u, v) <==> comp(es, n)[u] == comp(es, n)[v],
    decreases es.len(),
{
    if linked(es, u, v) {
        let path = choose|path: Seq<int>| #[trigger] is_walk(es, path) && path[0] == u && path.last() == v;
        lemma_walk_same_label(es, n, path);
    }
    if comp(es, n)[u] == comp(es, n)[v] {
        if es.len() == 0 {
            assert(u == v);
            lemma_linked_refl(es, u);
        } else {
            let d = es.drop_last();
            let e = es.last();
            assert(es[es.len() - 1] == e);
            assert(edges_within(d, n)) by {
                assert forall|i: int| 0 <= i < d.len() implies (#[trigger] d[i]).source < n && d[i].destination < n by {
                    assert(d[i] == es[i]);
                }
            }
            assert(es == d.push(e));
            lemma_comp_valid(d, n);
            let c = comp(d, n);
            let a = e.source as int;
            let b = e.destination as int;
            let lb = c[b];
            if c[u] == c[v] {
                lemma_comp_linked(d, n, u, v);
                lemma_linked_mono(d, e, u, v);
            } else {
                // One of them lies with the destination, the other with the source.
                lemma_linked_edge(d, e);
                lemma_linked_symm(es, a, b);
                let (x, y) = if c[u] == lb { (u, v) } else { (v, u) };
                assert(c[x] == lb && c[y] == c[a]);
                lemma_comp_linked(d, n, x, b);
                lemma_comp_linked(d, n, a, y);
                lemma_linked_mono(d, e, x, b);
                lemma_linked_mono(d, e, a, y);
                lemma_linked_trans(es, x, b, a);
                lemma_linked_trans(es, x, a, y);
                if x == v {
                    lemma_linked_symm(es, v, u);
                }
            }
        }
    }
}

/// A forest on the vertices `0..n` leaves `n` minus its edges components.
pub proof fn lemma_forest_labels(es: Seq<MapEdge>, n: nat)
    requires
        edges_within(es, n),
        is_forest(es),
    ensures
        labels(es, n).finite(),
        labels(es, n).len() + es.len() == n,
    decreases es.len(),
{
    if es.len() == 0 {
        assert(labels(es, n) =~= vstd::set_lib::set_int_range(0, n as int));
        vstd::set_lib::lemma_int_range(0, n as int);
    } else {
        let d = es.drop_last();
        let e = es.last();
        assert(es[es.len() - 1] == e);
        assert(edges_within(d, n)) by {
            assert forall|i: int| 0 <= i < d.len() implies (#[trigger] d[i]).source < n && d[i].destination < n by {
                assert(d[i] == es[i]);
            }
        }
        assert(is_forest(d)) by {
            assert forall|i: int| 0 <= i < d.len() implies !linked(#[trigger] d.take(i), d[i].source as int, d[i].destination as int) by {
                assert(d.take(i) =~= es.take(i));
                assert(d[i] == es[i]);
                assert(!linked(es.take(i), es[i].source as int, es[i].destination as int));
            }
        }
        lemma_forest_labels(d, n);
        lemma_comp_valid(d, n);
        let c = comp(d, n);
        let a = e.source as int;
        let b = e.destination as int;
        assert(es.take(es.len() - 1) =~= d);
        assert(!linked(d, a, b)) by {
            assert(!linked(es.take(es.len() - 1), es[es.len() - 1].source as int, es[es.len() - 1].destination as int));
        }
        lemma_comp_linked(d, n, a, b);
        let la = c[a];
        let lb = c[b];
        assert(la != lb);
        assert(labels(d, n).contains(lb));
        assert(labels(es, n) =~= labels(d, n).remove(lb)) by {
            assert forall|v: int| #[trigger] labels(es, n).contains(v) == labels(d, n).remove(lb).contains(v) by {
                if 0 <= v < n {
                    if c[v] == lb {
                        assert(comp(es, n)[v] == la);
                    } else {
                        assert(comp(es, n)[v] == c[v]);
                    }
                }
            }
        }
    }
}

/// Where every edge of `f` joins two vertices that `g` links, whatever `f`
/// links `g` links too.
pub proof fn lemma_linked_within(f: Seq<MapEdge>, g: Seq<MapEdge>, path: Seq<int>)
    requires
        is_walk(f, path),
        forall|i: int| 0 <= i < f.len() ==> linked(g, (#[trigger] f[i]).source as int, f[i].destination as int),
    ensures
        linked(g, path[0], path.last()),
    decreases path.len(),
{
    if path.len() == 1 {
        lemma_linked_refl(g, path[0]);
    } else {
        let p2 = path.drop_last();
        assert forall|k: int| 0 <= k < p2.len() - 1 implies #[trigger] edge_between(f, p2[k], p2[k + 1]) by {
            assert(edge_between(f, path[k], path[k + 1]));
        }
        lemma_linked_within(f, g, p2);
        let k = path.len() - 2;
        assert(edge_between(f, path[k], path[k + 1]));
        let i = choose|i: int| 0 <= i < f.len() && #[trigger] f[i] == f[i] && (
            (f[i].source == path[k] && f[i].destination == path[k + 1])
            || (f[i].source == path[k + 1] && f[i].destination == path[k]));
        assert(linked(g, f[i].source as int, f[i].destination as int));
        if f[i].source == path[k] {
            lemma_linked_trans(g, path[0], path[k], path[k + 1]);
        } else {
            lemma_linked_symm(g, f[i].source as int, f[i].destination as int);
            lemma_linked_trans(g, path[0], path[k], path[k + 1]);
        }
    }
}

/// A forest whose every edge joins two vertices linked by the forest `g`
/// has at most as many edges as `g`.
pub proof fn lemma_forest_rank(f: Seq<MapEdge>, g: Seq<MapEdge>, n: nat)
    requires
        edges_within(f, n),
        edges_within(g, n),
        is_forest(f),
        is_forest(g),
        forall|i: int| 0 <= i < f.len() ==> linked(g, (#[trigger] f[i]).source as int, f[i].destination as int),
    ensures
        f.len() <= g.len(),
{
    lemma_forest_labels(f, n);
    lemma_forest_labels(g, n);
    lemma_comp_valid(f, n);
    lemma_comp_valid(g, n);
    let cf = comp(f, n);
    let cg = comp(g, n);
    let h = |x: int| cf[x];
    assert(vstd::relations::injective_on(h, labels(g, n))) by {
        assert forall|x1: int, x2: int| labels(g, n).contains(x1) && labels(g, n).contains(x2) && #[trigger] h(x1) == #[trigger] h(x2)
            implies x1 == x2 by {
            lemma_comp_linked(f, n, x1, x2);
            let path = choose|path: Seq<int>| #[trigger] is_walk(f, path) && path[0] == x1 && path.last() == x2;
            lemma_linked_within(f, g, path);
            lemma_comp_linked(g, n, x1, x2);
        }
    }
    let image = labels(g, n).map(h);
    vstd::set_lib::lemma_map_size(labels(g, n), image, h);
    assert(image.subset_of(labels(f, n))) by {
        assert forall|y: int| #[trigger] image.contains(y) implies labels(f, n).contains(y) by {
            let x = choose|x: int| labels(g, n).contains(x) && h(x) == y;
        }
    }
    vstd::set_lib::lemma_len_subset(image, labels(f, n));
}

/// The edges of `es` lighter than `w`, in their order.
pub open spec fn lighter(es: Seq<MapEdge>, w: int) -> Seq<MapEdge>
    decreases es.len(),
{
    if es.len() == 0 {
        es
    } else if es.last().weight < w {
        lighter(es.drop_last(), w).push(es.last())
    } else {
        lighter(es.drop_last(), w)
    }
}

/// An edge of a sequence links its endpoints.
pub proof fn lemma_linked_member(es: Seq<MapEdge>, i: int)
    requires
        0 <= i < es.len(),
    ensures
        linked(es, es[i].source as int, es[i].destination as int),
{
    let path = seq![es[i].source as int, es[i].destination as int];
    assert(es[i] == es[i]);
    assert(edge_between(es, path[0], path[1]));
    assert(is_walk(es, path));
}

/// The lighter edges are edges of the sequence, lighter than `w`, and no
/// more of them.
pub proof fn lemma_lighter_members(es: Seq<MapEdge>, w: int)
    ensures
        lighter(es, w).len() <= es.len(),
        forall|k: int| 0 <= k < lighter(es, w).len() ==> (#[trigger] lighter(es, w)[k]).weight < w
            && es.contains(lighter(es, w)[k]),
    decreases es.len(),
{
    if es.len() > 0 {
        let d = es.drop_last();
        lemma_lighter_members(d, w);
        assert(es[es.len() - 1] == es.last());
        assert forall|k: int| 0 <= k < lighter(es, w).len() implies (#[trigger] lighter(es, w)[k]).weight < w
            && es.contains(lighter(es, w)[k]) by {
            if k < lighter(d, w).len() {
                assert(lighter(es, w)[k] == lighter(d, w)[k]);
                let j = choose|j: int| 0 <= j < d.len() && d[j] == lighter(d, w)[k];
                assert(es[j] == d[j]);
            } else {
                assert(lighter(es, w)[k] == es.last());
            }
        }
    }
}

/// The lighter edges of a forest form a forest.
pub proof fn lemma_lighter_forest(es: Seq<MapEdge>, w: int)
    requires
        is_forest(es),
    ensures
        is_forest(lighter(es, w)),
    decreases es.len(),
{
    if es.len() > 0 {
        let d = es.drop_last();
        let e = es.last();
        assert(es[es.len() - 1] == e);
        assert(is_forest(d)) by {
            assert forall|i: int| 0 <= i < d.len() implies !linked(#[trigger] d.take(i), d[i].source as int, d[i].destination as int) by {
                assert(d.take(i) =~= es.take(i));
                assert(d[i] == es[i]);
                assert(!linked(es.take(i), es[i].source as int, es[i].destination as int));
            }
        }
        lemma_lighter_forest(d, w);
        if e.weight < w {
            let l = lighter(d, w);
            let l2 = l.push(e);
            assert(es.take(es.len() - 1) =~= d);
            assert(!linked(d, e.source as int, e.destination as int)) by {
                assert(!linked(es.take(es.len() - 1), es[es.len() - 1].source as int, es[es.len() - 1].destination as int));
            }
            assert(!linked(l, e.source as int, e.destination as int)) by {
                if linked(l, e.source as int, e.destination as int) {
                    lemma_lighter_members(d, w);
                    assert forall|i: int| 0 <= i < l.len() implies linked(d, (#[trigger] l[i]).source as int, l[i].destination as int) by {
                        let j = choose|j: int| 0 <= j < d.len() && d[j] == l[i];
                        lemma_linked_member(d, j);
                    }
                    let path = choose|path: Seq<int>| #[trigger] is_walk(l, path) && path[0] == e.source as int
                        && path.last() == e.destination as int;
                    lemma_linked_within(l, d, path);
                }
            }
            assert forall|i: int| 0 <= i < l2.len() implies !linked(#[trigger] l2.take(i), l2[i].source as int, l2[i].destination as int) by {
                if i < l.len() {
                    assert(l2.take(i) =~= l.take(i));
                    assert(l2[i] == l[i]);
                } else {
                    assert(l2.take(i) =~= l);
                    assert(l2[i] == e);
                }
            }
        }
    }
}

/// Removing an edge takes its weight off the sum and keeps no more lighter
/// edges.
pub proof fn lemma_remove_edge(es: Seq<MapEdge>, i: int)
    requires
        0 <= i < es.len(),
    ensures
        sum_weights(es) == sum_weights(es.remove(i)) + es[i].weight,
        forall|w: int| #[trigger] lighter(es.remove(i), w).len() <= lighter(es, w).len(),
    decreases es.len(),
{
    let d = es.drop_last();
    if i == es.len() - 1 {
        assert(es.remove(i) =~= d);
        assert(es[i] == es.last());
        assert forall|w: int| #[trigger] lighter(es.remove(i), w).len() <= lighter(es, w).len() by {}
    } else {
        lemma_remove_edge(d, i);
        let r = es.remove(i);
        assert(r.drop_last() =~= d.remove(i));
        assert(r.last() == es.last());
        assert(d[i] == es[i]);
        assert forall|w: int| #[trigger] lighter(es.remove(i), w).len() <= lighter(es, w).len() by {
            assert(lighter(d.remove(i), w).len() <= lighter(d, w).len());
        }
    }
}

/// Where fewer edges are lighter than `w` than there are edges, some edge
/// weighs at least `w`.
pub proof fn lemma_some_heavy(es: Seq<MapEdge>, w: int)
    requires
        lighter(es, w).len() < es.len(),
    ensures
        exists|i: int| 0 <= i < es.len() && (#[trigger] es[i]).weight >= w,
    decreases es.len(),
{
    let d = es.drop_last();
    assert(es[es.len() - 1] == es.last());
    if es.last().weight < w {
        lemma_some_heavy(d, w);
        let i = choose|i: int| 0 <= i < d.len() && (#[trigger] d[i]).weight >= w;
        assert(es[i] == d[i]);
    }
}

/// Where, for each edge of `k`, fewer edges of `t` than its position are
/// lighter than it, `t` weighs at least as much as `k` (as many edges each).
pub proof fn lemma_sum_dominated(k: Seq<MapEdge>, t: Seq<MapEdge>)
    requires
        t.len() == k.len(),
        forall|j: int| 0 <= j < k.len() ==> lighter(t, (#[trigger] k[j]).weight as int).len() <= j,
    ensures
        sum_weights(k) <= sum_weights(t),
    decreases k.len(),
{
    if k.len() > 0 {
        let m = k.len() - 1;
        let w = k[m].weight as int;
        assert(k[m] == k.last());
        assert(lighter(t, w).len() <= m);
        lemma_some_heavy(t, w);
        let i = choose|i: int| 0 <= i < t.len() && (#[trigger] t[i]).weight >= w;
        lemma_remove_edge(t, i);
        let k2 = k.drop_last();
        let t2 = t.remove(i);
        assert forall|j: int| 0 <= j < k2.len() implies lighter(t2, (#[trigger] k2[j]).weight as int).len() <= j by {
            assert(k2[j] == k[j]);
            assert(lighter(t, k[j].weight as int).len() <= j);
            assert(lighter(t2, k[j].weight as int).len() <= lighter(t, k[j].weight as int).len());
        }
        lemma_sum_dominated(k2, t2);
    }
}

/// A forest `k` ordered by weight, in which the endpoints of every edge of
/// another forest `t` of as many edges are joined by edges of `k` no heavier
/// than that edge (or that edge is no lighter than all of `k`), weighs no
/// more than `t`.
pub proof fn lemma_greedy_forest_minimal(k: Seq<MapEdge>, t: Seq<MapEdge>, n: nat)
    requires
        edges_within(k, n),
        edges_within(t, n),
        is_forest(k),
        is_forest(t),
        sorted_by_weight(k),
        t.len() == k.len(),
        forall|i: int| 0 <= i < t.len() ==> cheaply_linked(k, #[trigger] t[i])
            || (forall|j: int| 0 <= j < k.len() ==> k[j].weight <= t[i].weight),
    ensures
        sum_weights(k) <= sum_weights(t),
{
    assert forall|j: int| 0 <= j < k.len() implies lighter(t, (#[trigger] k[j]).weight as int).len() <= j by {
        let w = k[j].weight as int;
        let f = lighter(t, w);
        let g = k.take(j);
        lemma_lighter_members(t, w);
        lemma_lighter_forest(t, w);
        assert(edges_within(f, n)) by {
            assert forall|x: int| 0 <= x < f.len() implies (#[trigger] f[x]).source < n && f[x].destination < n by {
                let y = choose|y: int| 0 <= y < t.len() && t[y] == f[x];
            }
        }
        assert(edges_within(g, n)) by {
            assert forall|x: int| 0 <= x < g.len() implies (#[trigger] g[x]).source < n && g[x].destination < n by {
                assert(g[x] == k[x]);
            }
        }
        assert(is_forest(g)) by {
            assert forall|x: int| 0 <= x < g.len() implies !linked(#[trigger] g.take(x), g[x].source as int, g[x].destination as int) by {
                assert(g.take(x) =~= k.take(x));
                assert(g[x] == k[x]);
                assert(!linked(k.take(x), k[x].source as int, k[x].destination as int));
            }
        }
        assert forall|x: int| 0 <= x < f.len() implies linked(g, (#[trigger] f[x]).source as int, f[x].destination as int) by {
            let e = f[x];
            let y = choose|y: int| 0 <= y < t.len() && t[y] == e;
            assert(e.weight < w);
            assert(cheaply_linked(k, t[y]) || (forall|jj: int| 0 <= jj < k.len() ==> k[jj].weight <= t[y].weight));
            if !cheaply_linked(k, e) {
                assert(k[j].weight <= t[y].weight);
                assert(false);
            }
            let m = choose|m: int| 0 <= m <= k.len()
                && (forall|kk: int| 0 <= kk < m ==> #[trigger] k[kk].weight <= e.weight)
                && #[trigger] linked(k.take(m), e.source as int, e.destination as int);
            if m > j {
                assert(k[j].weight <= e.weight);
                assert(false);
            }
            assert(g.take(m) =~= k.take(m));
            lemma_linked_prefix(g, m, e.source as int, e.destination as int);
        }
        lemma_forest_rank(f, g, n);
    }
    lemma_sum_dominated(k, t);
}

} // verus!

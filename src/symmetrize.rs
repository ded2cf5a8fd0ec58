use crate::graph::{dests_in_range, exact_clone, present, slot_view, symmetric, BiGraph, Edge, UniGraph};
use vstd::pervasive::strictly_cloned;
use vstd::prelude::*;

verus! {

/// `l` holds an entry whose destination is `v`.
pub open spec fn has_dest<CT, ET>(l: Seq<Edge<CT, ET>>, v: usize) -> bool {
    exists|k: int| 0 <= k < l.len() && (#[trigger] l[k]).0 == v
}

/// Appends `e` to the list of `u`, unless that list already leads to `e`'s destination.
pub open spec fn add_if_absent<CT, ET>(adj: Seq<Seq<Edge<CT, ET>>>, u: int, e: Edge<CT, ET>) -> Seq<
    Seq<Edge<CT, ET>>,
> {
    if has_dest(adj[u], e.0) {
        adj
    } else {
        adj.update(u, adj[u].push(e))
    }
}

/// Adds the edge `e` of vertex `u` in both directions, first writer winning on
/// each side.
pub open spec fn sym_edge<CT, ET>(adj: Seq<Seq<Edge<CT, ET>>>, u: int, e: Edge<CT, ET>) -> Seq<
    Seq<Edge<CT, ET>>,
> {
    add_if_absent(add_if_absent(adj, u, e), e.0 as int, (u as usize, e.1, e.2))
}

/// Adds the edges `es` of vertex `u` in both directions, in order.
pub open spec fn sym_edges<CT, ET>(adj: Seq<Seq<Edge<CT, ET>>>, u: int, es: Seq<Edge<CT, ET>>) -> Seq<
    Seq<Edge<CT, ET>>,
>
    decreases es.len(),
{
    if es.len() == 0 {
        adj
    } else {
        sym_edge(sym_edges(adj, u, es.drop_last()), u, es.last())
    }
}

/// The lists after the edges of the vertices below `n` were added in both directions.
pub open spec fn sym_upto<CT, ET>(src: Seq<Seq<Edge<CT, ET>>>, n: int) -> Seq<Seq<Edge<CT, ET>>>
    decreases n,
{
    if n <= 0 {
        Seq::new(src.len(), |i: int| Seq::<Edge<CT, ET>>::empty())
    } else {
        sym_edges(sym_upto(src, n - 1), n - 1, src[n - 1])
    }
}

/// The adjacency lists of the directed graph `src` with every edge added in both
/// directions: vertices in index order, each vertex's edges in list order.
pub open spec fn symmetrized<CT, ET>(src: Seq<Seq<Edge<CT, ET>>>) -> Seq<Seq<Edge<CT, ET>>> {
    sym_upto(src, src.len() as int)
}

/// Each list holds every entry's reverse: if `u` leads to `v` with a cost and a
/// payload, then `v` leads to `u` with the same cost and payload.
pub open spec fn symmetric_lists<CT, ET>(adj: Seq<Seq<Edge<CT, ET>>>) -> bool {
    forall|u: int, k: int|
        0 <= u < adj.len() && 0 <= k < adj[u].len() ==> {
            let e = #[trigger] adj[u][k];
            &&& e.0 < adj.len()
            &&& adj[e.0 as int].contains((u as usize, e.1, e.2))
        }
}

/// No list holds two entries with one destination.
pub open spec fn distinct_dests<CT, ET>(adj: Seq<Seq<Edge<CT, ET>>>) -> bool {
    forall|u: int, a: int, b: int|
        0 <= u < adj.len() && 0 <= a < adj[u].len() && 0 <= b < adj[u].len() && a != b ==> (
        #[trigger] adj[u][a]).0 != (#[trigger] adj[u][b]).0
}

/// The state of the lists is one that symmetrization keeps.
pub open spec fn sym_state<CT, ET>(adj: Seq<Seq<Edge<CT, ET>>>, n: int) -> bool {
    &&& adj.len() == n
    &&& n <= usize::MAX
    &&& symmetric_lists(adj)
    &&& distinct_dests(adj)
}

/// Pushing keeps what a sequence holds and adds the pushed value.
proof fn lemma_contains_push<T>(s: Seq<T>, x: T, y: T)
    ensures
        s.contains(y) ==> s.push(x).contains(y),
        s.push(x).contains(x),
{
    if s.contains(y) {
        let k = choose|k: int| 0 <= k < s.len() && s[k] == y;
        assert(s.push(x)[k] == y);
    }
    assert(s.push(x)[s.len() as int] == x);
}

/// Adding an entry only grows lists, and afterwards the list leads to its destination.
proof fn lemma_add_if_absent_grows<CT, ET>(adj: Seq<Seq<Edge<CT, ET>>>, u: int, e: Edge<CT, ET>)
    requires
        0 <= u < adj.len(),
    ensures
        add_if_absent(adj, u, e).len() == adj.len(),
        has_dest(add_if_absent(adj, u, e)[u], e.0),
        forall|w: int, x: Edge<CT, ET>|
            0 <= w < adj.len() && #[trigger] adj[w].contains(x) ==> add_if_absent(
                adj,
                u,
                e,
            )[w].contains(x),
        !has_dest(adj[u], e.0) ==> add_if_absent(adj, u, e)[u].contains(e),
{
    let r = add_if_absent(adj, u, e);
    if !has_dest(adj[u], e.0) {
        assert forall|w: int, x: Edge<CT, ET>|
            0 <= w < adj.len() && #[trigger] adj[w].contains(x) implies r[w].contains(x) by {
            if w == u {
                lemma_contains_push(adj[u], e, x);
            }
        }
        lemma_contains_push(adj[u], e, e);
        assert(r[u][adj[u].len() as int] == e);
    }
}

/// Adding one edge in both directions keeps the lists symmetric and their destinations distinct.
proof fn lemma_sym_edge_keeps<CT, ET>(adj: Seq<Seq<Edge<CT, ET>>>, n: int, u: int, e: Edge<CT, ET>)
    requires
        sym_state(adj, n),
        0 <= u < n,
        e.0 < n,
    ensures
        sym_state(sym_edge(adj, u, e), n),
        forall|w: int, x: Edge<CT, ET>|
            0 <= w < n && #[trigger] adj[w].contains(x) ==> sym_edge(adj, u, e)[w].contains(x),
{
    let v = e.0 as int;
    let back: Edge<CT, ET> = (u as usize, e.1, e.2);
    let a = add_if_absent(adj, u, e);
    let b = add_if_absent(a, v, back);
    lemma_add_if_absent_grows(adj, u, e);
    lemma_add_if_absent_grows(a, v, back);
    if has_dest(adj[u], e.0) {
        let k = choose|k: int| 0 <= k < adj[u].len() && (#[trigger] adj[u][k]).0 == e.0;
        let x = adj[u][k];
        assert(adj[v].contains((u as usize, x.1, x.2)));
        let k2 = choose|k2: int| 0 <= k2 < adj[v].len() && adj[v][k2] == (u as usize, x.1, x.2);
        assert(adj[v][k2].0 == u as usize);
        assert(has_dest(adj[v], back.0));
        assert(b == adj);
    } else {
        if u != v {
            assert(!has_dest(adj[v], back.0)) by {
                if has_dest(adj[v], back.0) {
                    let k = choose|k: int| 0 <= k < adj[v].len() && (#[trigger] adj[v][k]).0 == back.0;
                    let x = adj[v][k];
                    assert(adj[u].contains((v as usize, x.1, x.2)));
                    let k2 = choose|k2: int| 0 <= k2 < adj[u].len() && adj[u][k2] == (v as usize, x.1, x.2);
                    assert(adj[u][k2].0 == e.0);
                }
            }
            assert(a[v] == adj[v]);
        }
        assert forall|w: int, k: int| 0 <= w < b.len() && 0 <= k < b[w].len() implies {
            let x = #[trigger] b[w][k];
            &&& x.0 < b.len()
            &&& b[x.0 as int].contains((w as usize, x.1, x.2))
        } by {
            let x = b[w][k];
            if w == u && k == adj[u].len() {
                assert(x == e);
                if u == v {
                    assert(b[u].contains(e));
                } else {
                    assert(b[v].contains(back));
                }
            } else if w == v && u != v && k == a[v].len() {
                assert(x == back);
                assert(a[u].contains(e));
            } else {
                assert(adj[w][k] == x);
                assert(adj[x.0 as int].contains((w as usize, x.1, x.2)));
            }
        }
        assert forall|w: int, i: int, j: int|
            0 <= w < b.len() && 0 <= i < b[w].len() && 0 <= j < b[w].len() && i != j implies (
            #[trigger] b[w][i]).0 != (#[trigger] b[w][j]).0 by {
            if w == u && (i == adj[u].len() || j == adj[u].len()) {
                let o = if i == adj[u].len() { j } else { i };
                assert(b[w][o] == adj[u][o]);
            } else if w == v && u != v && (i == adj[v].len() || j == adj[v].len()) {
                let o = if i == adj[v].len() { j } else { i };
                assert(b[w][o] == adj[v][o]);
            } else {
                assert(b[w][i] == adj[w][i]);
                assert(b[w][j] == adj[w][j]);
            }
        }
    }
}

/// Adding a vertex's edges keeps the lists symmetric and their destinations distinct.
proof fn lemma_sym_edges_keeps<CT, ET>(adj: Seq<Seq<Edge<CT, ET>>>, n: int, u: int, es: Seq<Edge<CT, ET>>)
    requires
        sym_state(adj, n),
        0 <= u < n,
        forall|k: int| 0 <= k < es.len() ==> (#[trigger] es[k]).0 < n,
    ensures
        sym_state(sym_edges(adj, u, es), n),
    decreases es.len(),
{
    if es.len() > 0 {
        lemma_sym_edges_keeps(adj, n, u, es.drop_last());
        lemma_sym_edge_keeps(sym_edges(adj, u, es.drop_last()), n, u, es.last());
    }
}

/// Every stage of symmetrization has symmetric lists with distinct destinations.
proof fn lemma_sym_upto_keeps<CT, ET>(src: Seq<Seq<Edge<CT, ET>>>, n: int)
    requires
        0 <= n <= src.len(),
        src.len() <= usize::MAX,
        dests_in_range(src, src.len() as int),
    ensures
        sym_state(sym_upto(src, n), src.len() as int),
    decreases n,
{
    if n > 0 {
        lemma_sym_upto_keeps(src, n - 1);
        assert forall|k: int| 0 <= k < src[n - 1].len() implies (#[trigger] src[n - 1][k]).0 < src.len() by {
        }
        lemma_sym_edges_keeps(sym_upto(src, n - 1), src.len() as int, n - 1, src[n - 1]);
    }
}

/// The lists held by a vector of vectors.
pub open spec fn lists_view<CT, ET>(v: Seq<Vec<Edge<CT, ET>>>) -> Seq<Seq<Edge<CT, ET>>> {
    Seq::new(v.len(), |i: int| v[i]@)
}

/// Tells whether `list` holds an entry whose destination is `v`.
fn contains_dest<CT, ET>(list: &Vec<Edge<CT, ET>>, v: usize) -> (r: bool)
    ensures
        r == has_dest(list@, v),
{
    let mut k: usize = 0;
    while k < list.len()
        invariant
            k <= list@.len(),
            forall|j: int| 0 <= j < k ==> (#[trigger] list@[j]).0 != v,
        decreases list@.len() - k,
    {
        if list[k].0 == v {
            return true;
        }
        k = k + 1;
    }
    false
}

/// Appends `e` to the list of `u`, unless that list already leads to `e`'s destination.
fn push_if_absent<CT, ET>(lists: &mut Vec<Vec<Edge<CT, ET>>>, u: usize, e: Edge<CT, ET>)
    requires
        u < old(lists)@.len(),
    ensures
        lists_view(final(lists)@) == add_if_absent(lists_view(old(lists)@), u as int, e),
{
    let ghost before = lists_view(lists@);
    if !contains_dest(&lists[u], e.0) {
        lists[u].push(e);
        assert(lists_view(lists@) =~= before.update(u as int, before[u as int].push(e)));
    } else {
        assert(lists_view(lists@) =~= before);
    }
}

impl<VT, ET: Clone, CT: Copy> BiGraph<VT, ET, CT> {
    /// Makes every edge of `unigraph` go both ways.
    ///
    /// Vertices are taken in index order and each vertex's edges in list order.
    /// An edge `u -> v` is appended to the list of `u` unless that list already
    /// leads to `v`, and its reverse, with the same cost and payload, to the list
    /// of `v` unless that list already leads to `u`: the first writer for a
    /// destination wins. Every vertex keeps a list, possibly empty.
    pub fn from_unigraph(unigraph: UniGraph<VT, ET, CT>) -> (r: Self)
        requires
            unigraph.wf(),
            exact_clone::<ET>(),
        ensures
            r.vertices@ == unigraph.vertices@,
            r.adjacency() == present(symmetrized(unigraph.adjacency())),
            r.wf(),
            r.keys() == Set::new(|i: int| 0 <= i < r.vertices@.len()),
            symmetric(r.adjacency()),
            distinct_dests(symmetrized(unigraph.adjacency())),
    {
        let ghost src = unigraph.adjacency();
        let UniGraph { vertices, edges } = unigraph;
        let n = vertices.len();
        proof {
            assert(src.len() == n);
        }
        let mut lists: Vec<Vec<Edge<CT, ET>>> = Vec::new();
        while lists.len() < n
            invariant
                lists@.len() <= n,
                forall|j: int| 0 <= j < lists@.len() ==> (#[trigger] lists@[j])@ == Seq::<
                    Edge<CT, ET>,
                >::empty(),
            decreases n - lists@.len(),
        {
            lists.push(Vec::new());
        }
        assert(lists_view(lists@) =~= sym_upto(src, 0));
        let mut u: usize = 0;
        while u < n
            invariant
                n == src.len(),
                u <= n,
                edges@.len() == n,
                forall|i: int| 0 <= i < n ==> (#[trigger] edges@[i])@ == src[i],
                dests_in_range(src, n as int),
                lists_view(lists@) == sym_upto(src, u as int),
                exact_clone::<ET>(),
            decreases n - u,
        {
            let outgoing = &edges[u];
            let mut k: usize = 0;
            while k < outgoing.len()
                invariant
                    n == src.len(),
                    u < n,
                    outgoing@ == src[u as int],
                    k <= outgoing@.len(),
                    dests_in_range(src, n as int),
                    lists_view(lists@) == sym_edges(
                        sym_upto(src, u as int),
                        u as int,
                        src[u as int].take(k as int),
                    ),
                    exact_clone::<ET>(),
                decreases outgoing@.len() - k,
            {
                let v = outgoing[k].0;
                let cost = outgoing[k].1;
                let forward = outgoing[k].2.clone();
                let backward = outgoing[k].2.clone();
                proof {
                    assert(strictly_cloned(outgoing@[k as int].2, forward));
                    assert(strictly_cloned(outgoing@[k as int].2, backward));
                    lemma_sym_upto_keeps(src, u as int);
                    assert forall|j: int|
                        0 <= j < src[u as int].take(k as int).len() implies (
                        #[trigger] src[u as int].take(k as int)[j]).0 < n by {
                        assert(src[u as int].take(k as int)[j] == src[u as int][j]);
                    }
                    lemma_sym_edges_keeps(
                        sym_upto(src, u as int),
                        n as int,
                        u as int,
                        src[u as int].take(k as int),
                    );
                    assert(src[u as int].take(k + 1).drop_last() =~= src[u as int].take(
                        k as int,
                    ));
                    assert(src[u as int][k as int].0 < n);
                }
                push_if_absent(&mut lists, u, (v, cost, forward));
                proof {
                    lemma_add_if_absent_grows(
                        sym_edges(sym_upto(src, u as int), u as int, src[u as int].take(k as int)),
                        u as int,
                        (v, cost, forward),
                    );
                }
                push_if_absent(&mut lists, v, (u, cost, backward));
                k = k + 1;
            }
            assert(src[u as int].take(k as int) =~= src[u as int]);
            u = u + 1;
        }
        proof {
            lemma_sym_upto_keeps(src, n as int);
        }
        let ghost sym = sym_upto(src, n as int);
        let mut slots: Vec<Option<Vec<Edge<CT, ET>>>> = Vec::new();
        let mut i: usize = 0;
        while i < n
            invariant
                i <= n,
                lists@.len() == n,
                sym.len() == n,
                slots@.len() == i,
                forall|j: int| i <= j < n ==> (#[trigger] lists@[j])@ == sym[j],
                forall|j: int| 0 <= j < i ==> #[trigger] slot_view(slots@[j]) == Some(sym[j]),
            decreases n - i,
        {
            let mut taken: Vec<Edge<CT, ET>> = Vec::new();
            std::mem::swap(&mut lists[i], &mut taken);
            slots.push(Some(taken));
            i = i + 1;
        }
        let r = BiGraph { vertices, edges: slots };
        proof {
            assert(r.adjacency() =~= present(sym));
            assert(r.keys() =~= Set::new(|i: int| 0 <= i < r.vertices@.len()));
            assert forall|a: int, k: int|
                0 <= a < r.adjacency().len() && r.adjacency()[a] is Some && 0 <= k
                    < r.adjacency()[a]->0.len() implies {
                let e = #[trigger] r.adjacency()[a]->0[k];
                &&& e.0 < r.adjacency().len()
                &&& r.adjacency()[e.0 as int] is Some
                &&& r.adjacency()[e.0 as int]->0.contains((a as usize, e.1, e.2))
            } by {
                assert(r.adjacency()[a]->0 == sym[a]);
                assert(sym[a][k] == r.adjacency()[a]->0[k]);
                assert(r.adjacency()[sym[a][k].0 as int]->0 == sym[sym[a][k].0 as int]);
            }
        }
        r
    }
}

} // verus!

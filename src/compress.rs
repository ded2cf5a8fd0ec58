use crate::graph::{exact_clone, present, slots_view, symmetric, BiGraph, Edge, UniGraph};
use crate::symmetrize::symmetrized;
use vstd::pervasive::strictly_cloned;
use vstd::prelude::*;

verus! {

/// The answer that the combination rule gives when vertex `v1` is bypassed
/// through its edges `a` (first) and `b` (second).
pub open spec fn combined<VT, ET, CT, F: Fn(&VT, &VT, &VT, &ET, CT, &ET, CT) -> Option<(CT, ET)>>(
    combine: F,
    vertices: Seq<(String, VT)>,
    v1: int,
    a: Edge<CT, ET>,
    b: Edge<CT, ET>,
) -> Option<(CT, ET)> {
    choose|r: Option<(CT, ET)>|
        combine.ensures(
            (
                &vertices[v1].1,
                &vertices[a.0 as int].1,
                &vertices[b.0 as int].1,
                &a.2,
                a.1,
                &b.2,
                b.1,
            ),
            r,
        )
}

/// The combination rule accepts every input and gives one answer for each: it is
/// a pure function of its arguments.
pub open spec fn pure_combiner<VT, ET, CT, F: Fn(&VT, &VT, &VT, &ET, CT, &ET, CT) -> Option<(CT, ET)>>(
    combine: F,
) -> bool {
    &&& forall|p1: VT, p2: VT, p3: VT, da: ET, ca: CT, db: ET, cb: CT|
        #[trigger] combine.requires((&p1, &p2, &p3, &da, ca, &db, cb))
    &&& forall|
        args: (&VT, &VT, &VT, &ET, CT, &ET, CT),
        r1: Option<(CT, ET)>,
        r2: Option<(CT, ET)>,
    | #[trigger] combine.ensures(args, r1) && #[trigger] combine.ensures(args, r2) ==> r1 == r2
}

/// Vertex `v1` is present with exactly two entries, which lead to two distinct
/// vertices other than `v1` itself.
pub open spec fn is_candidate<CT, ET>(adj: Seq<Option<Seq<Edge<CT, ET>>>>, v1: int) -> bool {
    &&& 0 <= v1 < adj.len()
    &&& adj[v1] is Some
    &&& adj[v1]->0.len() == 2
    &&& adj[v1]->0[0].0 != adj[v1]->0[1].0
    &&& adj[v1]->0[0].0 != v1
    &&& adj[v1]->0[1].0 != v1
}

/// How compression would eliminate `v1`, as (first neighbour, second neighbour,
/// new cost, new payload): the rule is asked with the two entries in list order,
/// then, if it declines, in the other order.
pub open spec fn elimination_at<VT, ET, CT, F: Fn(&VT, &VT, &VT, &ET, CT, &ET, CT) -> Option<(CT, ET)>>(
    combine: F,
    vertices: Seq<(String, VT)>,
    adj: Seq<Option<Seq<Edge<CT, ET>>>>,
    v1: int,
) -> Option<(usize, usize, CT, ET)> {
    if is_candidate(adj, v1) {
        let l = adj[v1]->0;
        match combined(combine, vertices, v1, l[0], l[1]) {
            Some(r) => Some((l[0].0, l[1].0, r.0, r.1)),
            None => match combined(combine, vertices, v1, l[1], l[0]) {
                Some(r) => Some((l[1].0, l[0].0, r.0, r.1)),
                None => None,
            },
        }
    } else {
        None
    }
}

/// The first vertex from index `from` on that compression would eliminate, with
/// how it would do so.
pub open spec fn first_elimination<
    VT,
    ET,
    CT,
    F: Fn(&VT, &VT, &VT, &ET, CT, &ET, CT) -> Option<(CT, ET)>,
>(
    combine: F,
    vertices: Seq<(String, VT)>,
    adj: Seq<Option<Seq<Edge<CT, ET>>>>,
    from: int,
) -> Option<(usize, (usize, usize, CT, ET))>
    decreases adj.len() - from,
{
    if from < 0 || from >= adj.len() || from > usize::MAX {
        None
    } else {
        match elimination_at(combine, vertices, adj, from) {
            Some(x) => Some((from as usize, x)),
            None => first_elimination(combine, vertices, adj, from + 1),
        }
    }
}

/// `l` with every entry that leads to `gone` replaced by `e`.
pub open spec fn redirect<CT, ET>(l: Seq<Edge<CT, ET>>, gone: usize, e: Edge<CT, ET>) -> Seq<Edge<CT, ET>> {
    Seq::new(l.len(), |k: int| if l[k].0 == gone { e } else { l[k] })
}

/// Replaces the list in slot `at` by its redirection, if the slot holds a list.
pub open spec fn redirect_slot<CT, ET>(
    adj: Seq<Option<Seq<Edge<CT, ET>>>>,
    at: int,
    gone: usize,
    e: Edge<CT, ET>,
) -> Seq<Option<Seq<Edge<CT, ET>>>> {
    if 0 <= at < adj.len() && adj[at] is Some {
        adj.update(at, Some(redirect(adj[at]->0, gone, e)))
    } else {
        adj
    }
}

/// Eliminates `v1`: its slot is emptied, and its neighbours `v2` and `v3` are
/// joined by the edge of cost `c` and payload `d` in place of their edges to `v1`.
pub open spec fn eliminate<CT, ET>(
    adj: Seq<Option<Seq<Edge<CT, ET>>>>,
    v1: usize,
    v2: usize,
    v3: usize,
    c: CT,
    d: ET,
) -> Seq<Option<Seq<Edge<CT, ET>>>> {
    let a = adj.update(v1 as int, None);
    let b = redirect_slot(a, v2 as int, v1, (v3, c, d));
    redirect_slot(b, v3 as int, v1, (v2, c, d))
}

/// The number of present vertices.
pub open spec fn live_count<CT, ET>(adj: Seq<Option<Seq<Edge<CT, ET>>>>) -> nat
    decreases adj.len(),
{
    if adj.len() == 0 {
        0
    } else {
        live_count(adj.drop_last()) + if adj.last() is Some {
            1nat
        } else {
            0nat
        }
    }
}

/// Setting one slot changes the number of present vertices by what leaves and what comes.
pub proof fn lemma_live_count_update<CT, ET>(
    adj: Seq<Option<Seq<Edge<CT, ET>>>>,
    i: int,
    x: Option<Seq<Edge<CT, ET>>>,
)
    requires
        0 <= i < adj.len(),
    ensures
        live_count(adj.update(i, x)) + (if adj[i] is Some {
            1int
        } else {
            0int
        }) == live_count(adj) + (if x is Some {
            1int
        } else {
            0int
        }),
    decreases adj.len(),
{
    let u = adj.update(i, x);
    if i == adj.len() - 1 {
        assert(u.drop_last() =~= adj.drop_last());
    } else {
        assert(u.drop_last() =~= adj.drop_last().update(i, x));
        lemma_live_count_update(adj.drop_last(), i, x);
    }
}

/// There are never more present vertices than slots.
proof fn lemma_live_count_bound<CT, ET>(adj: Seq<Option<Seq<Edge<CT, ET>>>>)
    ensures
        live_count(adj) <= adj.len(),
    decreases adj.len(),
{
    if adj.len() > 0 {
        lemma_live_count_bound(adj.drop_last());
    }
}

/// Redirecting a slot keeps the number of present vertices.
pub proof fn lemma_redirect_slot_count<CT, ET>(
    adj: Seq<Option<Seq<Edge<CT, ET>>>>,
    at: int,
    gone: usize,
    e: Edge<CT, ET>,
)
    ensures
        live_count(redirect_slot(adj, at, gone, e)) == live_count(adj),
        redirect_slot(adj, at, gone, e).len() == adj.len(),
{
    if 0 <= at < adj.len() && adj[at] is Some {
        lemma_live_count_update(adj, at, Some(redirect(adj[at]->0, gone, e)));
    }
}

/// An elimination takes exactly one vertex out of the adjacency index.
pub proof fn lemma_eliminate_count<CT, ET>(
    adj: Seq<Option<Seq<Edge<CT, ET>>>>,
    v1: usize,
    v2: usize,
    v3: usize,
    c: CT,
    d: ET,
)
    requires
        v1 < adj.len(),
        adj[v1 as int] is Some,
    ensures
        live_count(eliminate(adj, v1, v2, v3, c, d)) + 1 == live_count(adj),
        eliminate(adj, v1, v2, v3, c, d).len() == adj.len(),
{
    let a = adj.update(v1 as int, None);
    lemma_live_count_update(adj, v1 as int, None);
    lemma_redirect_slot_count(a, v2 as int, v1, (v3, c, d));
    lemma_redirect_slot_count(redirect_slot(a, v2 as int, v1, (v3, c, d)), v3 as int, v1, (v2, c, d));
}

/// The vertex that the scan selects is a candidate, bypassed through its two neighbours.
pub proof fn lemma_first_elimination_found<
    VT,
    ET,
    CT,
    F: Fn(&VT, &VT, &VT, &ET, CT, &ET, CT) -> Option<(CT, ET)>,
>(
    combine: F,
    vertices: Seq<(String, VT)>,
    adj: Seq<Option<Seq<Edge<CT, ET>>>>,
    from: int,
)
    ensures
        first_elimination(combine, vertices, adj, from) matches Some((v1, x)) ==> {
            &&& from <= v1 < adj.len()
            &&& is_candidate(adj, v1 as int)
            &&& elimination_at(combine, vertices, adj, v1 as int) == Some(x)
            &&& bypass_of(adj, v1, x.0, x.1)
        },
    decreases adj.len() - from,
{
    if 0 <= from < adj.len() && from <= usize::MAX && elimination_at(combine, vertices, adj, from) is None {
        lemma_first_elimination_found(combine, vertices, adj, from + 1);
    }
}

/// The adjacency index that compression reaches from `adj`: while some vertex
/// can be eliminated, the one of lowest index is, and the search starts over.
pub open spec fn contracted<VT, ET, CT, F: Fn(&VT, &VT, &VT, &ET, CT, &ET, CT) -> Option<(CT, ET)>>(
    combine: F,
    vertices: Seq<(String, VT)>,
    adj: Seq<Option<Seq<Edge<CT, ET>>>>,
) -> Seq<Option<Seq<Edge<CT, ET>>>>
    decreases live_count(adj),
{
    match first_elimination(combine, vertices, adj, 0) {
        Some((v1, (v2, v3, c, d))) => {
            proof {
                lemma_first_elimination_found(combine, vertices, adj, 0);
                lemma_eliminate_count(adj, v1, v2, v3, c, d);
            }
            contracted(combine, vertices, eliminate(adj, v1, v2, v3, c, d))
        },
        None => adj,
    }
}

/// `v2` and `v3` are the two neighbours of candidate `v1`, in either order.
pub open spec fn bypass_of<CT, ET>(
    adj: Seq<Option<Seq<Edge<CT, ET>>>>,
    v1: usize,
    v2: usize,
    v3: usize,
) -> bool {
    &&& is_candidate(adj, v1 as int)
    &&& {
        let l = adj[v1 as int]->0;
        (v2 == l[0].0 && v3 == l[1].0) || (v2 == l[1].0 && v3 == l[0].0)
    }
}

/// Redirection keeps every entry that does not lead to the vertex that goes.
proof fn lemma_redirect_keeps<CT, ET>(l: Seq<Edge<CT, ET>>, gone: usize, e: Edge<CT, ET>, x: Edge<CT, ET>)
    requires
        l.contains(x),
        x.0 != gone,
    ensures
        redirect(l, gone, e).contains(x),
{
    let k = choose|k: int| 0 <= k < l.len() && l[k] == x;
    assert(redirect(l, gone, e)[k] == x);
}

/// Eliminating a vertex through its two neighbours keeps every edge's reverse
/// in place.
pub proof fn lemma_eliminate_keeps_symmetry<CT, ET>(
    adj: Seq<Option<Seq<Edge<CT, ET>>>>,
    v1: usize,
    v2: usize,
    v3: usize,
    c: CT,
    d: ET,
)
    requires
        symmetric(adj),
        adj.len() <= usize::MAX,
        bypass_of(adj, v1, v2, v3),
    ensures
        symmetric(eliminate(adj, v1, v2, v3, c, d)),
        eliminate(adj, v1, v2, v3, c, d).len() == adj.len(),
{
    let l = adj[v1 as int]->0;
    let i2: int = if l[0].0 == v2 { 0 } else { 1 };
    let i3: int = 1 - i2;
    let ea = l[i2];
    let eb = l[i3];
    assert(adj[v1 as int]->0[i2] == ea);
    assert(adj[v1 as int]->0[i3] == eb);
    assert(adj[v2 as int] is Some && adj[v2 as int]->0.contains((v1, ea.1, ea.2)));
    assert(adj[v3 as int] is Some && adj[v3 as int]->0.contains((v1, eb.1, eb.2)));
    let r2 = redirect(adj[v2 as int]->0, v1, (v3, c, d));
    let r3 = redirect(adj[v3 as int]->0, v1, (v2, c, d));
    let res = eliminate(adj, v1, v2, v3, c, d);
    assert(res =~= adj.update(v1 as int, None).update(v2 as int, Some(r2)).update(v3 as int, Some(r3)));
    assert forall|w: int, k: int|
        0 <= w < adj.len() && adj[w] is Some && 0 <= k < adj[w]->0.len() && (#[trigger] adj[w]->0[k]).0
            == v1 implies w == v2 || w == v3 by {
        let x = adj[w]->0[k];
        assert(l.contains((w as usize, x.1, x.2)));
        let j = choose|j: int| 0 <= j < l.len() && l[j] == (w as usize, x.1, x.2);
        assert(j == 0 || j == 1);
    }
    assert forall|u: int, k: int|
        0 <= u < res.len() && res[u] is Some && 0 <= k < res[u]->0.len() implies {
        let e = #[trigger] res[u]->0[k];
        &&& e.0 < res.len()
        &&& res[e.0 as int] is Some
        &&& res[e.0 as int]->0.contains((u as usize, e.1, e.2))
    } by {
        let e = res[u]->0[k];
        let o = adj[u]->0[k];
        assert(u != v1);
        assert(adj[u] is Some);
        if (u == v2 || u == v3) && o.0 == v1 {
            if u == v2 {
                assert(e == (v3, c, d));
                let j = choose|j: int| 0 <= j < adj[v3 as int]->0.len() && adj[v3 as int]->0[j] == (v1, eb.1, eb.2);
                assert(r3[j] == (v2, c, d));
                assert(res[v3 as int]->0.contains((v2, c, d)));
            } else {
                assert(e == (v2, c, d));
                let j = choose|j: int| 0 <= j < adj[v2 as int]->0.len() && adj[v2 as int]->0[j] == (v1, ea.1, ea.2);
                assert(r2[j] == (v3, c, d));
                assert(res[v2 as int]->0.contains((v3, c, d)));
            }
        } else {
            assert(e == o);
            assert(o.0 != v1);
            let back: Edge<CT, ET> = (u as usize, o.1, o.2);
            assert(adj[o.0 as int]->0.contains(back));
            if o.0 == v2 {
                lemma_redirect_keeps(adj[v2 as int]->0, v1, (v3, c, d), back);
            } else if o.0 == v3 {
                lemma_redirect_keeps(adj[v3 as int]->0, v1, (v2, c, d), back);
            }
        }
    }
}

/// A pure rule's answer on a call is the answer that `combined` names.
proof fn lemma_combined_is<VT, ET, CT, F: Fn(&VT, &VT, &VT, &ET, CT, &ET, CT) -> Option<(CT, ET)>>(
    combine: F,
    vertices: Seq<(String, VT)>,
    v1: int,
    a: Edge<CT, ET>,
    b: Edge<CT, ET>,
    r: Option<(CT, ET)>,
)
    requires
        pure_combiner(combine),
        combine.ensures(
            (
                &vertices[v1].1,
                &vertices[a.0 as int].1,
                &vertices[b.0 as int].1,
                &a.2,
                a.1,
                &b.2,
                b.1,
            ),
            r,
        ),
    ensures
        combined(combine, vertices, v1, a, b) == r,
{
    let args = (
        &vertices[v1].1,
        &vertices[a.0 as int].1,
        &vertices[b.0 as int].1,
        &a.2,
        a.1,
        &b.2,
        b.1,
    );
    let chosen = combined(combine, vertices, v1, a, b);
    assert(combine.ensures(args, chosen));
}

/// Replaces, in the list of slot `at`, every entry that leads to `gone` by `e`.
fn redirect_in<CT: Copy, ET: Clone>(
    slots: &mut Vec<Option<Vec<Edge<CT, ET>>>>,
    at: usize,
    gone: usize,
    e: Edge<CT, ET>,
)
    requires
        exact_clone::<ET>(),
    ensures
        slots_view(final(slots)@) == redirect_slot(slots_view(old(slots)@), at as int, gone, e),
{
    let ghost before = slots_view(slots@);
    if at < slots.len() {
        let mut taken: Option<Vec<Edge<CT, ET>>> = None;
        std::mem::swap(&mut slots[at], &mut taken);
        match taken {
            Some(mut list) => {
                let ghost orig = list@;
                let mut k: usize = 0;
                while k < list.len()
                    invariant
                        list@.len() == orig.len(),
                        k <= orig.len(),
                        forall|j: int| 0 <= j < k ==> #[trigger] list@[j] == redirect(orig, gone, e)[j],
                        forall|j: int| k <= j < orig.len() ==> #[trigger] list@[j] == orig[j],
                        exact_clone::<ET>(),
                    decreases orig.len() - k,
                {
                    if list[k].0 == gone {
                        let payload = e.2.clone();
                        proof {
                            assert(strictly_cloned(e.2, payload));
                        }
                        list.set(k, (e.0, e.1, payload));
                    }
                    k = k + 1;
                }
                assert(list@ =~= redirect(orig, gone, e));
                slots.set(at, Some(list));
                assert(slots_view(slots@) =~= before.update(at as int, Some(redirect(orig, gone, e))));
            },
            None => {
                assert(slots_view(slots@) =~= before);
            },
        }
    }
}

impl<VT, ET: Clone, CT: Copy> BiGraph<VT, ET, CT> {
    /// The vertex that compression eliminates next, with how: the first from
    /// index 0 on that `combine` accepts to bypass.
    fn find_elimination<F>(&self, combine: &F) -> (r: Option<(usize, (usize, usize, CT, ET))>) where
        F: Fn(&VT, &VT, &VT, &ET, CT, &ET, CT) -> Option<(CT, ET)>,
        requires
            self.wf(),
            pure_combiner(*combine),
        ensures
            r == first_elimination(*combine, self.vertices@, self.adjacency(), 0),
    {
        let n = self.edges.len();
        let mut v1: usize = 0;
        while v1 < n
            invariant
                v1 <= n,
                n == self.edges@.len(),
                self.wf(),
                pure_combiner(*combine),
                first_elimination(*combine, self.vertices@, self.adjacency(), 0) == first_elimination(
                    *combine,
                    self.vertices@,
                    self.adjacency(),
                    v1 as int,
                ),
            decreases n - v1,
        {
            if let Some(list) = &self.edges[v1] {
                proof {
                    assert(self.adjacency()[v1 as int] == Some(list@));
                }
                if list.len() == 2 && list[0].0 != list[1].0 && list[0].0 != v1 && list[1].0 != v1 {
                    let a = &list[0];
                    let b = &list[1];
                    proof {
                        assert(self.adjacency()[v1 as int]->0[0] == *a);
                        assert(self.adjacency()[v1 as int]->0[1] == *b);
                    }
                    let first = combine(
                        &self.vertices[v1].1,
                        &self.vertices[a.0].1,
                        &self.vertices[b.0].1,
                        &a.2,
                        a.1,
                        &b.2,
                        b.1,
                    );
                    proof {
                        lemma_combined_is(*combine, self.vertices@, v1 as int, *a, *b, first);
                    }
                    if let Some((c, d)) = first {
                        return Some((v1, (a.0, b.0, c, d)));
                    }
                    let second = combine(
                        &self.vertices[v1].1,
                        &self.vertices[b.0].1,
                        &self.vertices[a.0].1,
                        &b.2,
                        b.1,
                        &a.2,
                        a.1,
                    );
                    proof {
                        lemma_combined_is(*combine, self.vertices@, v1 as int, *b, *a, second);
                    }
                    if let Some((c, d)) = second {
                        return Some((v1, (b.0, a.0, c, d)));
                    }
                }
            }
            v1 = v1 + 1;
        }
        None
    }

    /// Compresses a directed graph.
    ///
    /// The edges are first made to go both ways (see `from_unigraph`). Then, as
    /// long as one can be found, a vertex with exactly two entries, leading to
    /// two distinct vertices other than itself, is eliminated: scanning vertices
    /// in index order, `should_combine` is asked with the vertex's payload, its
    /// neighbours' payloads and the two edges' payloads and costs, in list order
    /// and, if it declines, in the other order. Where it answers with a cost and
    /// a payload, the vertex loses its slot in the adjacency index, and each
    /// neighbour's entries to it are replaced by one to the other neighbour with
    /// that cost and payload; the scan then starts over. Vertices keep their
    /// index and their place in the vertex table.
    ///
    /// `should_combine` must be a pure function of its arguments, and the edge
    /// payloads' `clone` must give back an equal value.
    pub fn compress<F>(unigraph: UniGraph<VT, ET, CT>, should_combine: F) -> (r: Self) where
        F: Fn(&VT, &VT, &VT, &ET, CT, &ET, CT) -> Option<(CT, ET)>,
        requires
            unigraph.wf(),
            exact_clone::<ET>(),
            pure_combiner(should_combine),
        ensures
            r.vertices@ == unigraph.vertices@,
            r.adjacency() == contracted(
                should_combine,
                unigraph.vertices@,
                present(symmetrized(unigraph.adjacency())),
            ),
            r.wf(),
            symmetric(r.adjacency()),
            first_elimination(should_combine, r.vertices@, r.adjacency(), 0) is None,
    {
        let mut graph = Self::from_unigraph(unigraph);
        let ghost start = graph.adjacency();
        let ghost vs = graph.vertices@;
        loop
            invariant
                graph.vertices@ == vs,
                vs == unigraph.vertices@,
                start == present(symmetrized(unigraph.adjacency())),
                graph.edges@.len() == vs.len(),
                symmetric(graph.adjacency()),
                contracted(should_combine, vs, graph.adjacency()) == contracted(
                    should_combine,
                    vs,
                    start,
                ),
                exact_clone::<ET>(),
                pure_combiner(should_combine),
            decreases live_count(graph.adjacency()),
        {
            assert(graph.wf());
            match graph.find_elimination(&should_combine) {
                None => {
                    assert(contracted(should_combine, vs, graph.adjacency()) == graph.adjacency());
                    return graph;
                },
                Some((v1, (v2, v3, c, d))) => {
                    proof {
                        assert(graph.adjacency().len() == graph.edges.len());
                        lemma_first_elimination_found(should_combine, vs, graph.adjacency(), 0);
                        lemma_eliminate_keeps_symmetry(graph.adjacency(), v1, v2, v3, c, d);
                        lemma_eliminate_count(graph.adjacency(), v1, v2, v3, c, d);
                    }
                    graph.apply_elimination(v1, v2, v3, c, d);
                },
            }
        }
    }

    /// Eliminates `v1`, joining `v2` and `v3` by an edge of cost `c` and payload `d`.
    fn apply_elimination(&mut self, v1: usize, v2: usize, v3: usize, c: CT, d: ET)
        requires
            v1 < old(self).edges@.len(),
            exact_clone::<ET>(),
        ensures
            final(self).vertices == old(self).vertices,
            final(self).adjacency() == eliminate(old(self).adjacency(), v1, v2, v3, c, d),
    {
        let ghost before = self.adjacency();
        self.edges.set(v1, None);
        assert(self.adjacency() =~= before.update(v1 as int, None));
        let payload = d.clone();
        proof {
            assert(strictly_cloned(d, payload));
        }
        redirect_in(&mut self.edges, v2, v1, (v3, c, payload));
        redirect_in(&mut self.edges, v3, v1, (v2, c, d));
    }
}

/// The number of eliminations that compression performs from `adj`.
pub open spec fn eliminations<VT, ET, CT, F: Fn(&VT, &VT, &VT, &ET, CT, &ET, CT) -> Option<(CT, ET)>>(
    combine: F,
    vertices: Seq<(String, VT)>,
    adj: Seq<Option<Seq<Edge<CT, ET>>>>,
) -> nat
    decreases live_count(adj),
{
    match first_elimination(combine, vertices, adj, 0) {
        Some((v1, (v2, v3, c, d))) => {
            proof {
                lemma_first_elimination_found(combine, vertices, adj, 0);
                lemma_eliminate_count(adj, v1, v2, v3, c, d);
            }
            1 + eliminations(combine, vertices, eliminate(adj, v1, v2, v3, c, d))
        },
        None => 0,
    }
}

/// Compression ends after at most as many eliminations as there are vertices:
/// each elimination takes one vertex out of the adjacency index, and the
/// vertices left there after compression are those that no elimination took.
pub proof fn lemma_eliminations_bounded<
    VT,
    ET,
    CT,
    F: Fn(&VT, &VT, &VT, &ET, CT, &ET, CT) -> Option<(CT, ET)>,
>(combine: F, vertices: Seq<(String, VT)>, adj: Seq<Option<Seq<Edge<CT, ET>>>>)
    ensures
        eliminations(combine, vertices, adj) + live_count(contracted(combine, vertices, adj))
            == live_count(adj),
        eliminations(combine, vertices, adj) <= adj.len(),
    decreases live_count(adj),
{
    lemma_live_count_bound(adj);
    match first_elimination(combine, vertices, adj, 0) {
        Some((v1, (v2, v3, c, d))) => {
            lemma_first_elimination_found(combine, vertices, adj, 0);
            lemma_eliminate_count(adj, v1, v2, v3, c, d);
            lemma_eliminations_bounded(combine, vertices, eliminate(adj, v1, v2, v3, c, d));
            lemma_live_count_bound(contracted(combine, vertices, eliminate(adj, v1, v2, v3, c, d)));
        },
        None => {},
    }
}

/// In a symmetric index, each neighbour of a candidate has a non-empty list.
proof fn lemma_neighbour_leads_back<CT, ET>(
    adj: Seq<Option<Seq<Edge<CT, ET>>>>,
    v1: usize,
    w: usize,
)
    requires
        symmetric(adj),
        adj.len() <= usize::MAX,
        is_candidate(adj, v1 as int),
        w == adj[v1 as int]->0[0].0 || w == adj[v1 as int]->0[1].0,
    ensures
        adj[w as int] is Some,
        adj[w as int]->0.len() > 0,
{
    let l = adj[v1 as int]->0;
    let j: int = if w == l[0].0 { 0 } else { 1 };
    assert(adj[v1 as int]->0[j] == l[j]);
    assert(adj[w as int]->0.contains((v1, l[j].1, l[j].2)));
}

/// A vertex with an empty list in a symmetric adjacency index is never
/// eliminated, and keeps its empty list through compression.
pub proof fn lemma_isolated_vertex_survives<
    VT,
    ET,
    CT,
    F: Fn(&VT, &VT, &VT, &ET, CT, &ET, CT) -> Option<(CT, ET)>,
>(combine: F, vertices: Seq<(String, VT)>, adj: Seq<Option<Seq<Edge<CT, ET>>>>, v: int)
    requires
        symmetric(adj),
        adj.len() <= usize::MAX,
        0 <= v < adj.len(),
        adj[v] == Some(Seq::<Edge<CT, ET>>::empty()),
    ensures
        elimination_at(combine, vertices, adj, v) is None,
        contracted(combine, vertices, adj)[v] == Some(Seq::<Edge<CT, ET>>::empty()),
    decreases live_count(adj),
{
    match first_elimination(combine, vertices, adj, 0) {
        Some((v1, (v2, v3, c, d))) => {
            lemma_first_elimination_found(combine, vertices, adj, 0);
            lemma_eliminate_count(adj, v1, v2, v3, c, d);
            lemma_eliminate_keeps_symmetry(adj, v1, v2, v3, c, d);
            lemma_neighbour_leads_back(adj, v1, v2);
            lemma_neighbour_leads_back(adj, v1, v3);
            let next = eliminate(adj, v1, v2, v3, c, d);
            assert(next[v] == adj[v]);
            lemma_isolated_vertex_survives(combine, vertices, next, v);
        },
        None => {},
    }
}

/// Vertex `v` is present with exactly two entries, both leading to one vertex.
pub open spec fn parallel_pair<CT, ET>(adj: Seq<Option<Seq<Edge<CT, ET>>>>, v: int) -> bool {
    &&& 0 <= v < adj.len()
    &&& adj[v] is Some
    &&& adj[v]->0.len() == 2
    &&& adj[v]->0[0].0 == adj[v]->0[1].0
}

/// A vertex whose two entries lead to one neighbour is never eliminated
/// through them: it keeps its slot through compression, with two entries that
/// still share one destination.
pub proof fn lemma_parallel_pair_kept<
    VT,
    ET,
    CT,
    F: Fn(&VT, &VT, &VT, &ET, CT, &ET, CT) -> Option<(CT, ET)>,
>(combine: F, vertices: Seq<(String, VT)>, adj: Seq<Option<Seq<Edge<CT, ET>>>>, v: int)
    requires
        parallel_pair(adj, v),
    ensures
        elimination_at(combine, vertices, adj, v) is None,
        parallel_pair(contracted(combine, vertices, adj), v),
    decreases live_count(adj),
{
    match first_elimination(combine, vertices, adj, 0) {
        Some((v1, (v2, v3, c, d))) => {
            lemma_first_elimination_found(combine, vertices, adj, 0);
            lemma_eliminate_count(adj, v1, v2, v3, c, d);
            let next = eliminate(adj, v1, v2, v3, c, d);
            assert(v != v1);
            assert(parallel_pair(next, v));
            lemma_parallel_pair_kept(combine, vertices, next, v);
        },
        None => {},
    }
}

/// In a symmetric adjacency index, a vertex whose two distinct entries lead to
/// one neighbour keeps exactly those entries through compression.
pub proof fn lemma_parallel_pair_unchanged<
    VT,
    ET,
    CT,
    F: Fn(&VT, &VT, &VT, &ET, CT, &ET, CT) -> Option<(CT, ET)>,
>(combine: F, vertices: Seq<(String, VT)>, adj: Seq<Option<Seq<Edge<CT, ET>>>>, v: int)
    requires
        symmetric(adj),
        adj.len() <= usize::MAX,
        parallel_pair(adj, v),
        adj[v]->0[0] != adj[v]->0[1],
    ensures
        contracted(combine, vertices, adj)[v] == adj[v],
    decreases live_count(adj),
{
    match first_elimination(combine, vertices, adj, 0) {
        Some((v1, (v2, v3, c, d))) => {
            lemma_first_elimination_found(combine, vertices, adj, 0);
            lemma_eliminate_count(adj, v1, v2, v3, c, d);
            lemma_eliminate_keeps_symmetry(adj, v1, v2, v3, c, d);
            let l = adj[v]->0;
            let w = l[0].0;
            assert(w != v1) by {
                if w == v1 {
                    assert(adj[v]->0[0] == l[0]);
                    assert(adj[v]->0[1] == l[1]);
                    let m = adj[w as int]->0;
                    assert(m.contains((v as usize, l[0].1, l[0].2)));
                    assert(m.contains((v as usize, l[1].1, l[1].2)));
                    let j0 = choose|j: int| 0 <= j < m.len() && m[j] == (v as usize, l[0].1, l[0].2);
                    let j1 = choose|j: int| 0 <= j < m.len() && m[j] == (v as usize, l[1].1, l[1].2);
                    assert(j0 != j1);
                    assert(m[0].0 == m[1].0);
                }
            }
            let next = eliminate(adj, v1, v2, v3, c, d);
            assert(redirect(l, v1, (v3, c, d)) =~= l);
            assert(redirect(l, v1, (v2, c, d)) =~= l);
            assert(next[v] == adj[v]);
            lemma_parallel_pair_unchanged(combine, vertices, next, v);
        },
        None => {},
    }
}

} // verus!

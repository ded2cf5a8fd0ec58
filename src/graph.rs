use vstd::pervasive::strictly_cloned;
use vstd::prelude::*;

verus! {

/// One adjacency entry: destination vertex index, resolved cost, edge payload.
pub type Edge<CT, ET> = (usize, CT, ET);

/// One record of a graph's description: the vertex's name, its payload, and its
/// outgoing edges as (destination name, edge payload).
pub type GraphData<'a, VT, ET> = (&'a str, VT, Vec<(&'a str, ET)>);

/// Why a graph could not be built from its description.
#[derive(PartialEq, Eq, Structural, Clone, Copy, Debug)]
pub enum GraphError {
    /// Two records carry the same vertex name.
    DuplicateVertexName,
    /// An edge names a destination that no record declares.
    UnknownEdgeDestination,
}

/// `T::clone` hands back a value equal to its argument.
pub open spec fn exact_clone<T: Clone>() -> bool {
    forall|a: T, b: T| #[trigger] strictly_cloned(a, b) ==> a == b
}

/// The vertex names of a graph description, in record order.
pub open spec fn record_names<'a, VT, ET>(data: Seq<GraphData<'a, VT, ET>>) -> Seq<Seq<char>> {
    Seq::new(data.len(), |i: int| data[i].0@)
}

/// No two records of the description share a name.
pub open spec fn names_unique(names: Seq<Seq<char>>) -> bool {
    forall|i: int, j: int|
        0 <= i < names.len() && 0 <= j < names.len() && i != j ==> names[i] != names[j]
}

/// Every edge of the description names a vertex that some record declares.
pub open spec fn destinations_known<'a, VT, ET>(data: Seq<GraphData<'a, VT, ET>>) -> bool {
    forall|i: int, k: int|
        0 <= i < data.len() && 0 <= k < data[i].2@.len() ==> record_names(data).contains(
            (#[trigger] data[i].2@[k]).0@,
        )
}

/// A graph with directed edges.
pub struct UniGraph<VT, ET, CT = u32> {
    /// The vertices' names and payloads; a vertex's index is its position here.
    pub vertices: Vec<(String, VT)>,
    /// For each vertex index, its outgoing edges in order.
    pub edges: Vec<Vec<Edge<CT, ET>>>,
}

impl<VT, ET, CT> UniGraph<VT, ET, CT> {
    /// The adjacency index: for each vertex, its list of outgoing edges.
    pub open spec fn adjacency(&self) -> Seq<Seq<Edge<CT, ET>>> {
        Seq::new(self.edges@.len(), |i: int| self.edges@[i]@)
    }

    /// The vertex indices that have an entry in the adjacency index.
    pub open spec fn keys(&self) -> Set<int> {
        Set::new(|i: int| 0 <= i < self.edges@.len())
    }

    /// Every vertex has an adjacency list and every edge leads to a vertex.
    pub open spec fn wf(&self) -> bool {
        &&& self.edges@.len() == self.vertices@.len()
        &&& dests_in_range(self.adjacency(), self.vertices@.len() as int)
    }

    /// This graph is what `new` builds from `data` with `cost_func`.
    pub open spec fn built_from<'a, CF: Fn(&VT, &ET) -> CT>(
        &self,
        cost_func: CF,
        data: Seq<GraphData<'a, VT, ET>>,
    ) -> bool {
        &&& self.vertices@.len() == data.len()
        &&& self.edges@.len() == data.len()
        &&& forall|i: int|
            0 <= i < data.len() ==> (#[trigger] self.vertices@[i]).0@ == data[i].0@
                && self.vertices@[i].1 == data[i].1
        &&& forall|i: int|
            0 <= i < data.len() ==> (#[trigger] self.edges@[i])@.len() == data[i].2@.len()
        &&& forall|i: int, k: int|
            0 <= i < data.len() && 0 <= k < data[i].2@.len() ==> {
                let e = #[trigger] self.edges@[i]@[k];
                &&& (e.0 as int) < data.len()
                &&& data[e.0 as int].0@ == data[i].2@[k].0@
                &&& e.2 == data[i].2@[k].1
                &&& cost_func.ensures((&data[i].1, &data[i].2@[k].1), e.1)
            }
    }
}

/// Every edge of every present list leads to a vertex index below `n`.
pub open spec fn dests_in_range<CT, ET>(adj: Seq<Seq<Edge<CT, ET>>>, n: int) -> bool {
    forall|i: int, k: int|
        0 <= i < adj.len() && 0 <= k < adj[i].len() ==> (#[trigger] adj[i][k]).0 < n
}

/// Finds the index of the vertex named `name`.
fn find_vertex<VT>(vertices: &Vec<(String, VT)>, name: &String) -> (r: Option<usize>)
    ensures
        match r {
            Some(j) => j < vertices@.len() && vertices@[j as int].0@ == name@,
            None => forall|j: int| 0 <= j < vertices@.len() ==> vertices@[j].0@ != name@,
        },
{
    let mut j: usize = 0;
    while j < vertices.len()
        invariant
            j <= vertices@.len(),
            forall|i: int| 0 <= i < j ==> vertices@[i].0@ != name@,
        decreases vertices@.len() - j,
    {
        if vertices[j].0 == *name {
            return Some(j);
        }
        j = j + 1;
    }
    None
}

impl<VT: Clone, ET: Clone, CT> UniGraph<VT, ET, CT> {
    /// Builds a graph from its description.
    ///
    /// Each record becomes a vertex, indexed in record order; its edges are
    /// resolved by destination name and kept in the order given, each with the
    /// cost that `cost_func` gives for the vertex's payload and the edge's.
    /// Fails when two records share a name, or else when an edge names a
    /// destination that no record declares. Vertex indices are `usize`, so every
    /// vertex count that a slice can hold has its indices.
    ///
    /// Payloads are cloned into the graph; their `clone` must give back an
    /// equal value.
    pub fn new<CF>(cost_func: CF, data: &[GraphData<'_, VT, ET>]) -> (r: Result<Self, GraphError>) where
        CF: Fn(&VT, &ET) -> CT,
        requires
            exact_clone::<VT>(),
            exact_clone::<ET>(),
            forall|v: VT, e: ET| #[trigger] cost_func.requires((&v, &e)),
        ensures
            !names_unique(record_names(data@)) ==> r == Err::<Self, GraphError>(
                GraphError::DuplicateVertexName,
            ),
            names_unique(record_names(data@)) && !destinations_known(data@) ==> r == Err::<
                Self,
                GraphError,
            >(GraphError::UnknownEdgeDestination),
            names_unique(record_names(data@)) && destinations_known(data@) ==> r is Ok,
            r matches Ok(g) ==> {
                &&& g.built_from(cost_func, data@)
                &&& g.wf()
                &&& g.keys() == Set::new(|i: int| 0 <= i < g.vertices@.len())
            },
    {
        let mut vertices: Vec<(String, VT)> = Vec::new();
        let mut i: usize = 0;
        while i < data.len()
            invariant
                i <= data@.len(),
                vertices@.len() == i,
                exact_clone::<VT>(),
                forall|a: int, b: int|
                    0 <= a < i && 0 <= b < i && a != b ==> (#[trigger] data@[a]).0@ != (
                    #[trigger] data@[b]).0@,
                forall|j: int|
                    0 <= j < i ==> (#[trigger] vertices@[j]).0@ == data@[j].0@ && vertices@[j].1
                        == data@[j].1,
            decreases data@.len() - i,
        {
            let name = data[i].0.to_owned();
            match find_vertex(&vertices, &name) {
                Some(j) => {
                    assert(record_names(data@)[j as int] == record_names(data@)[i as int]);
                    return Err(GraphError::DuplicateVertexName);
                },
                None => {},
            }
            let payload = data[i].1.clone();
            proof {
                assert(strictly_cloned(data@[i as int].1, payload));
                assert forall|a: int, b: int|
                    0 <= a < i + 1 && 0 <= b < i + 1 && a != b implies (#[trigger] data@[a]).0@
                        != (#[trigger] data@[b]).0@ by {
                    if a == i {
                        assert(vertices@[b].0@ != name@);
                    } else if b == i {
                        assert(vertices@[a].0@ != name@);
                    }
                }
            }
            vertices.push((name, payload));
            i = i + 1;
        }
        assert(names_unique(record_names(data@))) by {
            assert forall|a: int, b: int|
                0 <= a < data@.len() && 0 <= b < data@.len() && a != b implies record_names(
                data@,
            )[a] != record_names(data@)[b] by {
                assert(data@[a].0@ != data@[b].0@);
            }
        }
        let mut edges: Vec<Vec<Edge<CT, ET>>> = Vec::new();
        let mut i: usize = 0;
        while i < data.len()
            invariant
                i <= data@.len(),
                vertices@.len() == data@.len(),
                names_unique(record_names(data@)),
                forall|j: int|
                    0 <= j < data@.len() ==> (#[trigger] vertices@[j]).0@ == data@[j].0@
                        && vertices@[j].1 == data@[j].1,
                edges@.len() == i,
                forall|a: int, k: int|
                    0 <= a < i && 0 <= k < data@[a].2@.len() ==> record_names(data@).contains(
                        (#[trigger] data@[a].2@[k]).0@,
                    ),
                forall|a: int| 0 <= a < i ==> (#[trigger] edges@[a])@.len() == data@[a].2@.len(),
                forall|a: int, k: int|
                    0 <= a < i && 0 <= k < data@[a].2@.len() ==> {
                        let e = #[trigger] edges@[a]@[k];
                        &&& (e.0 as int) < data@.len()
                        &&& data@[e.0 as int].0@ == data@[a].2@[k].0@
                        &&& e.2 == data@[a].2@[k].1
                        &&& cost_func.ensures((&data@[a].1, &data@[a].2@[k].1), e.1)
                    },
                exact_clone::<ET>(),
                forall|v: VT, e: ET| #[trigger] cost_func.requires((&v, &e)),
            decreases data@.len() - i,
        {
            let outgoing = &data[i].2;
            let mut list: Vec<Edge<CT, ET>> = Vec::new();
            let mut k: usize = 0;
            while k < outgoing.len()
                invariant
                    i < data@.len(),
                    outgoing == &data@[i as int].2,
                    k <= outgoing@.len(),
                    vertices@.len() == data@.len(),
                    forall|j: int|
                        0 <= j < data@.len() ==> (#[trigger] vertices@[j]).0@ == data@[j].0@
                            && vertices@[j].1 == data@[j].1,
                    list@.len() == k,
                    names_unique(record_names(data@)),
                    forall|b: int|
                        0 <= b < k ==> record_names(data@).contains(
                            (#[trigger] outgoing@[b]).0@,
                        ),
                    forall|b: int|
                        0 <= b < k ==> {
                            let e = #[trigger] list@[b];
                            &&& (e.0 as int) < data@.len()
                            &&& data@[e.0 as int].0@ == outgoing@[b].0@
                            &&& e.2 == outgoing@[b].1
                            &&& cost_func.ensures((&data@[i as int].1, &outgoing@[b].1), e.1)
                        },
                    exact_clone::<ET>(),
                    forall|v: VT, e: ET| #[trigger] cost_func.requires((&v, &e)),
                decreases outgoing@.len() - k,
            {
                let target = outgoing[k].0.to_owned();
                let dest = match find_vertex(&vertices, &target) {
                    Some(j) => j,
                    None => {
                        proof {
                            assert forall|a: int|
                                0 <= a < record_names(data@).len() implies record_names(
                                    data@,
                                )[a] != data@[i as int].2@[k as int].0@ by {
                                assert(vertices@[a].0@ == data@[a].0@);
                            }
                            assert(!destinations_known(data@));
                        }
                        return Err(GraphError::UnknownEdgeDestination);
                    },
                };
                let cost = cost_func(&vertices[i].1, &outgoing[k].1);
                let payload = outgoing[k].1.clone();
                proof {
                    assert(strictly_cloned(outgoing@[k as int].1, payload));
                }
                list.push((dest, cost, payload));
                proof {
                    assert(record_names(data@)[dest as int] == outgoing@[k as int].0@);
                }
                k = k + 1;
            }
            edges.push(list);
            i = i + 1;
        }
        let g = UniGraph { vertices, edges };
        proof {
            assert(g.keys() =~= Set::new(|i: int| 0 <= i < g.vertices@.len()));
            assert forall|a: int, k: int|
                0 <= a < g.adjacency().len() && 0 <= k < g.adjacency()[a].len() implies (
                #[trigger] g.adjacency()[a][k]).0 < g.vertices@.len() by {
                assert(g.adjacency()[a] == g.edges@[a]@);
                assert(g.edges@[a]@[k] == g.adjacency()[a][k]);
            }
        }
        Ok(g)
    }
}

/// A graph whose edges go both ways, made from a directed graph.
pub struct BiGraph<VT, ET, CT = u32> {
    /// The vertices' names and payloads; a vertex's index is its position here.
    pub vertices: Vec<(String, VT)>,
    /// For each vertex index, its adjacency list, or `None` once the vertex was
    /// eliminated by compression.
    pub edges: Vec<Option<Vec<Edge<CT, ET>>>>,
}

/// What a slot of the adjacency index holds, as a sequence.
pub open spec fn slot_view<CT, ET>(o: Option<Vec<Edge<CT, ET>>>) -> Option<Seq<Edge<CT, ET>>> {
    match o {
        Some(l) => Some(l@),
        None => None,
    }
}

/// What each slot of an adjacency index holds, as sequences.
pub open spec fn slots_view<CT, ET>(slots: Seq<Option<Vec<Edge<CT, ET>>>>) -> Seq<
    Option<Seq<Edge<CT, ET>>>,
> {
    Seq::new(slots.len(), |i: int| slot_view(slots[i]))
}

/// Every vertex of `adj` present, with its list.
pub open spec fn present<CT, ET>(adj: Seq<Seq<Edge<CT, ET>>>) -> Seq<Option<Seq<Edge<CT, ET>>>> {
    Seq::new(adj.len(), |i: int| Some(adj[i]))
}

/// The vertex indices that hold a list in `adj`.
pub open spec fn present_keys<CT, ET>(adj: Seq<Option<Seq<Edge<CT, ET>>>>) -> Set<int> {
    Set::new(|i: int| 0 <= i < adj.len() && adj[i] is Some)
}

/// Every entry of every present list leads to a present vertex whose list holds
/// the entry's reverse, with the same cost and payload.
pub open spec fn symmetric<CT, ET>(adj: Seq<Option<Seq<Edge<CT, ET>>>>) -> bool {
    forall|u: int, k: int|
        0 <= u < adj.len() && adj[u] is Some && 0 <= k < adj[u]->0.len() ==> {
            let e = #[trigger] adj[u]->0[k];
            &&& e.0 < adj.len()
            &&& adj[e.0 as int] is Some
            &&& adj[e.0 as int]->0.contains((u as usize, e.1, e.2))
        }
}

/// Every entry of every present list leads to a vertex index below `n`.
pub open spec fn present_dests_in_range<CT, ET>(adj: Seq<Option<Seq<Edge<CT, ET>>>>, n: int) -> bool {
    forall|u: int, k: int|
        0 <= u < adj.len() && adj[u] is Some && 0 <= k < adj[u]->0.len() ==> (#[trigger] adj[u]->0[k]).0
            < n
}

impl<VT, ET, CT> BiGraph<VT, ET, CT> {
    /// The adjacency index: for each vertex, its list, or `None` once eliminated.
    pub open spec fn adjacency(&self) -> Seq<Option<Seq<Edge<CT, ET>>>> {
        slots_view(self.edges@)
    }

    /// The vertex indices that still have an entry in the adjacency index.
    pub open spec fn keys(&self) -> Set<int> {
        present_keys(self.adjacency())
    }

    /// Every vertex has a slot in the adjacency index and every edge leads to a vertex.
    pub open spec fn wf(&self) -> bool {
        &&& self.edges@.len() == self.vertices@.len()
        &&& present_dests_in_range(self.adjacency(), self.vertices@.len() as int)
    }
}

impl<VT, ET, CT> UniGraph<VT, ET, CT> {
    /// The number of vertices.
    pub fn vertex_count(&self) -> (r: usize)
        ensures
            r == self.vertices@.len(),
    {
        self.vertices.len()
    }

    /// The name and payload of vertex `i`, if there is such a vertex.
    pub fn vertex(&self, i: usize) -> (r: Option<&(String, VT)>)
        ensures
            i < self.vertices@.len() ==> r == Some(&self.vertices@[i as int]),
            i >= self.vertices@.len() ==> r is None,
    {
        if i < self.vertices.len() {
            Some(&self.vertices[i])
        } else {
            None
        }
    }

    /// The outgoing edges of vertex `i`, if it has a list.
    pub fn edges_of(&self, i: usize) -> (r: Option<&Vec<Edge<CT, ET>>>)
        ensures
            i < self.edges@.len() ==> r == Some(&self.edges@[i as int]),
            i >= self.edges@.len() ==> r is None,
    {
        if i < self.edges.len() {
            Some(&self.edges[i])
        } else {
            None
        }
    }
}

impl<VT, ET, CT> BiGraph<VT, ET, CT> {
    /// The number of vertices, eliminated ones included.
    pub fn vertex_count(&self) -> (r: usize)
        ensures
            r == self.vertices@.len(),
    {
        self.vertices.len()
    }

    /// The name and payload of vertex `i`, if there is such a vertex.
    pub fn vertex(&self, i: usize) -> (r: Option<&(String, VT)>)
        ensures
            i < self.vertices@.len() ==> r == Some(&self.vertices@[i as int]),
            i >= self.vertices@.len() ==> r is None,
    {
        if i < self.vertices.len() {
            Some(&self.vertices[i])
        } else {
            None
        }
    }

    /// The adjacency list of vertex `i`, if it still has one.
    pub fn edges_of(&self, i: usize) -> (r: Option<&Vec<Edge<CT, ET>>>)
        ensures
            r is Some <==> self.keys().contains(i as int),
            r matches Some(l) ==> l@ == self.adjacency()[i as int]->0,
    {
        if i < self.edges.len() {
            match &self.edges[i] {
                Some(l) => Some(l),
                None => None,
            }
        } else {
            None
        }
    }
}

} // verus!

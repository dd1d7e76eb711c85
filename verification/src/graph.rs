use vstd::prelude::*;

verus! {

/// Abstraction over the fixed-width integer types that may back a node or
/// edge handle. `from_index` / `as_index` give the mathematical meaning of
/// the executable `new` / `index` conversions; `max_index` is the largest
/// plain value the width can represent, and doubles as the sentinel that
/// `max()` returns. Converting a value above `max_index` silently
/// truncates: `new` still returns exactly `from_index(x)`, but the
/// round-trip law is only promised for values that fit.
pub trait IndexType: Sized + Copy {
    /// Largest plain value representable in this width.
    spec fn max_index() -> int;

    /// The plain value this representation stands for, as the executable
    /// `index` reports it.
    spec fn as_index(self) -> int;

    /// The representation obtained from a plain value (truncating when the
    /// value does not fit the width).
    spec fn from_index(x: usize) -> Self;

    fn new(x: usize) -> (r: Self)
        ensures
            r == Self::from_index(x),
    ;

    fn index(&self) -> (r: usize)
        ensures
            r as int == self.as_index(),
    ;

    fn max() -> (r: Self)
        ensures
            r.as_index() == Self::max_index(),
    ;

    /// Round-trip law: every value representable in this width converts
    /// there and back unchanged.
    proof fn lemma_round_trip(x: usize)
        requires
            x as int <= Self::max_index(),
        ensures
            Self::from_index(x).as_index() == x as int,
    ;
}

impl IndexType for usize {
    open spec fn max_index() -> int {
        usize::MAX as int
    }

    open spec fn as_index(self) -> int {
        self as int
    }

    open spec fn from_index(x: usize) -> Self {
        x
    }

    fn new(x: usize) -> (r: Self) {
        x
    }

    fn index(&self) -> (r: usize) {
        *self
    }

    fn max() -> (r: Self) {
        usize::MAX
    }

    proof fn lemma_round_trip(x: usize) {
    }
}

impl IndexType for u32 {
    open spec fn max_index() -> int {
        u32::MAX as int
    }

    open spec fn as_index(self) -> int {
        self as int
    }

    open spec fn from_index(x: usize) -> Self {
        x as u32
    }

    fn new(x: usize) -> (r: Self) {
        #[verifier::truncate] (x as u32)
    }

    fn index(&self) -> (r: usize) {
        *self as usize
    }

    fn max() -> (r: Self) {
        u32::MAX
    }

    proof fn lemma_round_trip(x: usize) {
    }
}

impl IndexType for i32 {
    open spec fn max_index() -> int {
        i32::MAX as int
    }

    open spec fn as_index(self) -> int {
        (self as usize) as int
    }

    open spec fn from_index(x: usize) -> Self {
        x as i32
    }

    fn new(x: usize) -> (r: Self) {
        #[verifier::truncate] (x as i32)
    }

    fn index(&self) -> (r: usize) {
        #[verifier::truncate] (*self as usize)
    }

    fn max() -> (r: Self) {
        i32::MAX
    }

    proof fn lemma_round_trip(x: usize) {
    }
}

/// Opaque handle identifying an edge by its position in the edge sequence.
#[derive(Copy, Clone, Debug, PartialEq, Eq, PartialOrd, Ord, Hash)]
pub struct EdgeIndex<Ix>(pub Ix);

/// Opaque handle identifying a node by its position in the node sequence.
#[derive(Copy, Clone, Debug, PartialEq, Eq, PartialOrd, Ord, Hash)]
pub struct NodeIndex<Ix>(pub Ix);

impl<Ix> EdgeIndex<Ix> where Ix: IndexType {
    /// The plain position this handle stands for.
    pub open spec fn idx(self) -> int {
        self.0.as_index()
    }

    pub fn new(e: Ix) -> (r: Self)
        ensures
            r == (EdgeIndex(e)),
    {
        EdgeIndex(e)
    }

    pub fn index(&self) -> (r: usize)
        ensures
            r as int == self.idx(),
    {
        self.0.index()
    }
}

impl<Ix> NodeIndex<Ix> where Ix: IndexType {
    /// The plain position this handle stands for.
    pub open spec fn idx(self) -> int {
        self.0.as_index()
    }

    pub fn new(n: Ix) -> (r: Self)
        ensures
            r == (NodeIndex(n)),
    {
        NodeIndex(n)
    }

    pub fn index(&self) -> (r: usize)
        ensures
            r as int == self.idx(),
    {
        self.0.index()
    }
}

/// Conversion contract normalizing an edge-like input into a
/// (source, target, weight) triple. `source_id` and `target_id` pin the two
/// endpoints exactly; the weight may be computed (for the bare-pair adapter
/// it is the weight type's default value), so `weight_ok` only constrains
/// which weights may come out.
pub trait IntoWeightedEdge<E>: Sized {
    type NodeId;

    spec fn source_id(self) -> Self::NodeId;

    spec fn target_id(self) -> Self::NodeId;

    spec fn weight_ok(self, w: E) -> bool;

    fn into_weighted_edge(self) -> (r: (Self::NodeId, Self::NodeId, E))
        ensures
            r.0 == self.source_id(),
            r.1 == self.target_id(),
            self.weight_ok(r.2),
    ;
}

/// A bare pair of raw node ids converts to (source, target, default weight).
impl<Ix, E> IntoWeightedEdge<E> for (Ix, Ix) where E: Default {
    type NodeId = Ix;

    open spec fn source_id(self) -> Ix {
        self.0
    }

    open spec fn target_id(self) -> Ix {
        self.1
    }

    open spec fn weight_ok(self, w: E) -> bool {
        call_ensures(E::default, (), w)
    }

    fn into_weighted_edge(self) -> (r: (Ix, Ix, E)) {
        let (s, t) = self;
        (s, t, E::default())
    }
}

/// Payload holder for one node.
pub struct Node<N> {
    pub data: N,
}

/// One directed edge: a source handle, a target handle, and a payload.
/// Immutable once inserted.
pub struct Edge<Weight, Ix> {
    pub from: NodeIndex<Ix>,
    pub to: NodeIndex<Ix>,
    pub weight: Weight,
}

impl<Weight, Ix> Edge<Weight, Ix> where Ix: IndexType {
    pub fn source(&self) -> (r: NodeIndex<Ix>)
        ensures
            r == self.from,
    {
        self.from
    }

    pub fn target(&self) -> (r: NodeIndex<Ix>)
        ensures
            r == self.to,
    {
        self.to
    }
}

/// Marker distinguishing graph kinds at the type level; it does not alter
/// runtime behavior.
pub struct Directed {}

/// The incidence table after recording one edge between node positions
/// `f` (source) and `t` (target): first `f`'s raw value is appended to
/// `t`'s list, then `t`'s raw value to `f`'s list, each wrapped in the
/// index representation. Bookkeeping is symmetric regardless of the edge's
/// declared direction; a self-loop appends twice to the one list.
pub open spec fn add_incidence<Ix: IndexType>(
    inc: Seq<Seq<EdgeIndex<Ix>>>,
    f: int,
    t: int,
) -> Seq<Seq<EdgeIndex<Ix>>>
    recommends
        0 <= f < inc.len(),
        0 <= t < inc.len(),
{
    let mid = inc.update(t, inc[t].push((EdgeIndex(Ix::from_index(f as usize)))));
    mid.update(f, mid[f].push((EdgeIndex(Ix::from_index(t as usize)))))
}

/// The node count after one bulk-insertion step referencing node
/// positions `f` and `t`: nodes are appended until the larger endpoint
/// lies below the count.
pub open spec fn count_after_one(c: int, f: int, t: int) -> int {
    let m = if f > t {
        f
    } else {
        t
    };
    if m >= c {
        m + 1
    } else {
        c
    }
}

/// The node count after bulk-inserting a whole sequence of endpoint pairs.
pub open spec fn count_after_all(c: int, pairs: Seq<(int, int)>) -> int
    decreases pairs.len(),
{
    if pairs.len() == 0 {
        c
    } else {
        count_after_all(count_after_one(c, pairs[0].0, pairs[0].1), pairs.drop_first())
    }
}

/// The incidence table grown to `c` entries by appending empty lists
/// (unchanged when it already has `c` or more).
pub open spec fn inc_grown<Ix: IndexType>(inc: Seq<Seq<EdgeIndex<Ix>>>, c: int) -> Seq<
    Seq<EdgeIndex<Ix>>,
> {
    if inc.len() >= c {
        inc
    } else {
        inc.add(Seq::new((c - inc.len()) as nat, |j: int| Seq::empty()))
    }
}

/// The incidence table after one bulk-insertion step: grow the node set to
/// cover both endpoints, then record the edge.
pub open spec fn inc_after_one<Ix: IndexType>(inc: Seq<Seq<EdgeIndex<Ix>>>, f: int, t: int) -> Seq<
    Seq<EdgeIndex<Ix>>,
> {
    add_incidence(inc_grown(inc, count_after_one(inc.len() as int, f, t)), f, t)
}

/// The incidence table after bulk-inserting a whole sequence of endpoint
/// pairs.
pub open spec fn inc_after_all<Ix: IndexType>(
    inc: Seq<Seq<EdgeIndex<Ix>>>,
    pairs: Seq<(int, int)>,
) -> Seq<Seq<EdgeIndex<Ix>>>
    decreases pairs.len(),
{
    if pairs.len() == 0 {
        inc
    } else {
        inc_after_all(inc_after_one(inc, pairs[0].0, pairs[0].1), pairs.drop_first())
    }
}

/// The endpoint pairs a sequence of edge-like items describes, as plain
/// values.
pub open spec fn endpoint_pairs<T, E, Ix>(items: Seq<T>) -> Seq<(int, int)> where
    T: IntoWeightedEdge<E, NodeId = Ix>,
    Ix: IndexType,
{
    items.map_values(|it: T| (it.source_id().as_index(), it.target_id().as_index()))
}

proof fn lemma_count_after_all_push(c: int, ps: Seq<(int, int)>, p: (int, int))
    ensures
        count_after_all(c, ps.push(p)) == count_after_one(count_after_all(c, ps), p.0, p.1),
    decreases ps.len(),
{
    if ps.len() == 0 {
        assert(ps.push(p)[0] == p);
        assert(ps.push(p).drop_first() =~= Seq::<(int, int)>::empty());
        assert(count_after_all(count_after_one(c, p.0, p.1), Seq::<(int, int)>::empty())
            == count_after_one(c, p.0, p.1));
    } else {
        assert(ps.push(p)[0] == ps[0]);
        assert(ps.push(p).drop_first() =~= ps.drop_first().push(p));
        lemma_count_after_all_push(count_after_one(c, ps[0].0, ps[0].1), ps.drop_first(), p);
    }
}

proof fn lemma_inc_after_all_push<Ix: IndexType>(
    inc: Seq<Seq<EdgeIndex<Ix>>>,
    ps: Seq<(int, int)>,
    p: (int, int),
)
    ensures
        inc_after_all(inc, ps.push(p)) == inc_after_one(inc_after_all(inc, ps), p.0, p.1),
    decreases ps.len(),
{
    if ps.len() == 0 {
        assert(ps.push(p)[0] == p);
        assert(ps.push(p).drop_first() =~= Seq::<(int, int)>::empty());
        assert(inc_after_all(inc_after_one(inc, p.0, p.1), Seq::<(int, int)>::empty())
            == inc_after_one(inc, p.0, p.1));
    } else {
        assert(ps.push(p)[0] == ps[0]);
        assert(ps.push(p).drop_first() =~= ps.drop_first().push(p));
        lemma_inc_after_all_push(inc_after_one(inc, ps[0].0, ps[0].1), ps.drop_first(), p);
    }
}

/// Law: recording one edge keeps the incidence table's length; each of the
/// two endpoint lists grows by exactly one entry (for a self-loop, the one
/// shared list grows by two); every other list is unchanged; and the
/// bookkeeping is symmetric even though the edge itself records an
/// asymmetric source/target pair — the source's list gains the target's
/// raw index and the target's list gains the source's.
pub proof fn lemma_incidence_growth<Ix: IndexType>(inc: Seq<Seq<EdgeIndex<Ix>>>, f: int, t: int)
    requires
        0 <= f < inc.len(),
        0 <= t < inc.len(),
    ensures
        add_incidence(inc, f, t).len() == inc.len(),
        f != t ==> add_incidence(inc, f, t)[f] == inc[f].push(
            (EdgeIndex(Ix::from_index(t as usize))),
        ),
        f != t ==> add_incidence(inc, f, t)[t] == inc[t].push(
            (EdgeIndex(Ix::from_index(f as usize))),
        ),
        f == t ==> add_incidence(inc, f, t)[f] == inc[f].push(
            (EdgeIndex(Ix::from_index(f as usize))),
        ).push((EdgeIndex(Ix::from_index(t as usize)))),
        forall|j: int|
            0 <= j < inc.len() && j != f && j != t ==> add_incidence(inc, f, t)[j] == inc[j],
{
}

/// An in-memory directed-graph container: an ordered node sequence, an
/// ordered edge sequence, and a per-node incidence table, growing
/// monotonically under insertion.
pub struct Graph<N, Weight, Ty = Directed, Ix = u32> {
    nodes: Vec<Node<N>>,
    edges: Vec<Edge<Weight, Ix>>,
    incidences: Vec<Vec<EdgeIndex<Ix>>>,
    _marker: core::marker::PhantomData<Ty>,
}

impl<N, Weight, Ty, Ix> Graph<N, Weight, Ty, Ix> where Weight: Ord, Ix: IndexType {
    /// The node payloads, in materialization order.
    pub closed spec fn nodes_seq(self) -> Seq<N> {
        self.nodes@.map_values(|node: Node<N>| node.data)
    }

    /// The stored edges, in insertion order; an edge's handle is its
    /// position here.
    pub closed spec fn edges_seq(self) -> Seq<Edge<Weight, Ix>> {
        self.edges@
    }

    /// The per-node incidence lists: entry `i` records, for each edge
    /// touching node `i`, the raw index of the edge's other endpoint.
    pub closed spec fn incidences_seq(self) -> Seq<Seq<EdgeIndex<Ix>>> {
        self.incidences@.map_values(|list: Vec<EdgeIndex<Ix>>| list@)
    }

    pub open spec fn node_count_spec(self) -> int {
        self.nodes_seq().len() as int
    }

    pub open spec fn edge_count_spec(self) -> int {
        self.edges_seq().len() as int
    }

    /// Container invariant: one incidence list per node, and every stored
    /// edge's endpoints lie below the node count (nodes are never removed,
    /// so this holds from the moment the edge was inserted).
    pub open spec fn wf(self) -> bool {
        &&& self.incidences_seq().len() == self.node_count_spec()
        &&& forall|k: int|
            0 <= k < self.edges_seq().len() ==> {
                let e = #[trigger] self.edges_seq()[k];
                &&& 0 <= e.from.idx() < self.node_count_spec()
                &&& 0 <= e.to.idx() < self.node_count_spec()
            }
    }

    /// Allocates capacity for `vertex_count` nodes but materializes none:
    /// the node count right after construction is zero, whatever the hint.
    pub fn new(vertex_count: usize) -> (g: Self)
        ensures
            g.wf(),
            g.nodes_seq() == Seq::<N>::empty(),
            g.edges_seq() == Seq::<Edge<Weight, Ix>>::empty(),
            g.incidences_seq() == Seq::<Seq<EdgeIndex<Ix>>>::empty(),
    {
        let g = Graph {
            nodes: Vec::with_capacity(vertex_count),
            edges: Vec::new(),
            incidences: Vec::with_capacity(vertex_count),
            _marker: core::marker::PhantomData,
        };
        proof {
            assert(g.nodes_seq() =~= Seq::<N>::empty());
            assert(g.incidences_seq() =~= Seq::<Seq<EdgeIndex<Ix>>>::empty());
        }
        g
    }

    /// Number of nodes materialized so far.
    pub fn node_count(&self) -> (c: usize)
        ensures
            c as int == self.node_count_spec(),
    {
        self.nodes.len()
    }

    /// The edge stored at the handle's position, or an absent result when
    /// the position is at or beyond the current edge count. Never aborts.
    pub fn get_edge(&self, e: EdgeIndex<Ix>) -> (r: Option<&Edge<Weight, Ix>>)
        ensures
            e.idx() < self.edge_count_spec() ==> (r matches Some(edge) && *edge
                == self.edges_seq()[e.idx()]),
            e.idx() >= self.edge_count_spec() ==> r is None,
    {
        let i = e.index();
        if i < self.edges.len() {
            Some(&self.edges[i])
        } else {
            None
        }
    }

    /// Number of incidence entries recorded so far for the node at the
    /// handle's position, or an absent result when the position is at or
    /// beyond the current node count.
    pub fn incidence_count(&self, n: NodeIndex<Ix>) -> (r: Option<usize>)
        requires
            self.wf(),
        ensures
            n.idx() < self.node_count_spec() ==> (r matches Some(c) && c as int
                == self.incidences_seq()[n.idx()].len()),
            n.idx() >= self.node_count_spec() ==> r is None,
    {
        let i = n.index();
        if i < self.incidences.len() {
            Some(self.incidences[i].len())
        } else {
            None
        }
    }

    /// Bulk insertion with automatic node growth: each item is normalized
    /// to a (source, target, weight) triple; nodes with default payloads
    /// are appended until both endpoints are materialized; then the edge
    /// is inserted as by `add_edge`. Edge storage is pre-reserved for the
    /// whole batch as a non-binding hint.
    pub fn extend_with_edges<T>(&mut self, items: Vec<T>) where
        T: IntoWeightedEdge<Weight, NodeId = Ix> + Copy,
        Weight: Default,
        N: Default,

        requires
            old(self).wf(),
        ensures
            final(self).wf(),
            final(self).node_count_spec() == count_after_all(
                old(self).node_count_spec(),
                endpoint_pairs(items@),
            ),
            final(self).incidences_seq() == inc_after_all(
                old(self).incidences_seq(),
                endpoint_pairs(items@),
            ),
            final(self).edges_seq().len() == old(self).edges_seq().len() + items@.len(),
            forall|k: int|
                0 <= k < old(self).edges_seq().len() ==> final(self).edges_seq()[k] == old(
                    self,
                ).edges_seq()[k],
            forall|k: int|
                old(self).edges_seq().len() <= k < final(self).edges_seq().len() ==> {
                    let e = #[trigger] final(self).edges_seq()[k];
                    let it = items@[k - old(self).edges_seq().len()];
                    &&& e.from == (NodeIndex(it.source_id()))
                    &&& e.to == (NodeIndex(it.target_id()))
                    &&& it.weight_ok(e.weight)
                },
            forall|k: int|
                0 <= k < old(self).nodes_seq().len() ==> final(self).nodes_seq()[k] == old(
                    self,
                ).nodes_seq()[k],
            forall|k: int|
                old(self).nodes_seq().len() <= k < final(self).nodes_seq().len()
                    ==> call_ensures(N::default, (), #[trigger] final(self).nodes_seq()[k]),
    {
        let ghost pairs = endpoint_pairs::<T, Weight, Ix>(items@);
        let n = items.len();
        self.edges.reserve(n);
        let mut i: usize = 0;
        while i < n
            invariant
                i <= n,
                n == items@.len(),
                pairs == endpoint_pairs::<T, Weight, Ix>(items@),
                self.wf(),
                self.node_count_spec() == count_after_all(
                    old(self).node_count_spec(),
                    pairs.take(i as int),
                ),
                self.incidences_seq() == inc_after_all(
                    old(self).incidences_seq(),
                    pairs.take(i as int),
                ),
                old(self).nodes_seq().len() <= self.nodes_seq().len(),
                self.edges_seq().len() == old(self).edges_seq().len() + i,
                forall|k: int|
                    0 <= k < old(self).edges_seq().len() ==> self.edges_seq()[k] == old(
                        self,
                    ).edges_seq()[k],
                forall|k: int|
                    old(self).edges_seq().len() <= k < self.edges_seq().len() ==> {
                        let e = #[trigger] self.edges_seq()[k];
                        let it = items@[k - old(self).edges_seq().len()];
                        &&& e.from == (NodeIndex(it.source_id()))
                        &&& e.to == (NodeIndex(it.target_id()))
                        &&& it.weight_ok(e.weight)
                    },
                forall|k: int|
                    0 <= k < old(self).nodes_seq().len() ==> self.nodes_seq()[k] == old(
                        self,
                    ).nodes_seq()[k],
                forall|k: int|
                    old(self).nodes_seq().len() <= k < self.nodes_seq().len() ==> call_ensures(
                        N::default,
                        (),
                        #[trigger] self.nodes_seq()[k],
                    ),
            decreases n - i,
        {
            let it = items[i];
            let (s, t_id, w) = it.into_weighted_edge();
            let from = NodeIndex::new(s);
            let to = NodeIndex::new(t_id);
            let fi = from.index();
            let ti = to.index();
            let m = if fi > ti {
                fi
            } else {
                ti
            };
            let ghost c_i = self.node_count_spec();
            let ghost inc_i = self.incidences_seq();
            let mut count = self.node_count();
            while m >= count
                invariant
                    self.wf(),
                    count as int == self.node_count_spec(),
                    fi as int == from.idx(),
                    ti as int == to.idx(),
                    m == (if fi > ti {
                        fi
                    } else {
                        ti
                    }),
                    c_i <= count as int <= count_after_one(c_i, fi as int, ti as int),
                    inc_i.len() == c_i,
                    i as int <= items@.len(),
                    old(self).nodes_seq().len() <= c_i,
                    self.incidences_seq() == inc_grown(inc_i, count as int),
                    self.edges_seq().len() == old(self).edges_seq().len() + i,
                    forall|k: int|
                        0 <= k < old(self).edges_seq().len() ==> self.edges_seq()[k] == old(
                            self,
                        ).edges_seq()[k],
                    forall|k: int|
                        old(self).edges_seq().len() <= k < self.edges_seq().len() ==> {
                            let e = #[trigger] self.edges_seq()[k];
                            let it = items@[k - old(self).edges_seq().len()];
                            &&& e.from == (NodeIndex(it.source_id()))
                            &&& e.to == (NodeIndex(it.target_id()))
                            &&& it.weight_ok(e.weight)
                        },
                    forall|k: int|
                        0 <= k < old(self).nodes_seq().len() ==> self.nodes_seq()[k] == old(
                            self,
                        ).nodes_seq()[k],
                    forall|k: int|
                        old(self).nodes_seq().len() <= k < self.nodes_seq().len() ==> call_ensures(
                            N::default,
                            (),
                            #[trigger] self.nodes_seq()[k],
                        ),
                decreases m + 1 - count,
            {
                let ghost nodes_before = self.nodes_seq();
                let ghost inc_before = self.incidences_seq();
                let d = N::default();
                self.nodes.push(Node { data: d });
                self.incidences.push(Vec::new());
                count = self.nodes.len();
                proof {
                    assert(self.nodes_seq() =~= nodes_before.push(d));
                    assert(self.incidences_seq() =~= inc_before.push(Seq::<EdgeIndex<Ix>>::empty()));
                    assert(inc_grown(inc_i, count as int) =~= inc_grown(
                        inc_i,
                        count as int - 1,
                    ).push(Seq::<EdgeIndex<Ix>>::empty()));
                }
            }
            self.add_edge(from, to, w);
            proof {
                assert(count as int == count_after_one(c_i, fi as int, ti as int));
                assert(pairs[i as int] == (from.idx(), to.idx()));
                lemma_count_after_all_push(
                    old(self).node_count_spec(),
                    pairs.take(i as int),
                    pairs[i as int],
                );
                lemma_inc_after_all_push(
                    old(self).incidences_seq(),
                    pairs.take(i as int),
                    pairs[i as int],
                );
                assert(pairs.take(i as int).push(pairs[i as int]) =~= pairs.take(i as int + 1));
            }
            i = i + 1;
        }
        proof {
            assert(pairs.take(n as int) =~= pairs);
        }
    }

    /// Appends one edge between two already-materialized nodes. The
    /// endpoints must lie below the current node count: violating that is
    /// a programmer error, excluded by precondition rather than reported.
    /// Insertion appends the edge, records the other endpoint's raw index
    /// in each endpoint's incidence list, and returns the new edge's
    /// handle, which is its position in the edge sequence.
    pub fn add_edge(&mut self, from: NodeIndex<Ix>, to: NodeIndex<Ix>, w: Weight) -> (r: EdgeIndex<
        Ix,
    >)
        requires
            old(self).wf(),
            from.idx() < old(self).node_count_spec(),
            to.idx() < old(self).node_count_spec(),
        ensures
            final(self).wf(),
            final(self).nodes_seq() == old(self).nodes_seq(),
            final(self).edges_seq() == old(self).edges_seq().push(
                (Edge { from, to, weight: w }),
            ),
            final(self).incidences_seq() == add_incidence(
                old(self).incidences_seq(),
                from.idx(),
                to.idx(),
            ),
            r == (EdgeIndex(Ix::from_index(old(self).edge_count_spec() as usize))),
            old(self).edge_count_spec() <= Ix::max_index() ==> r.idx() == old(
                self,
            ).edge_count_spec(),
    {
        let f = from.index();
        let t = to.index();
        self.edges.push(Edge { from, to, weight: w });
        let entry_in_t = EdgeIndex::new(Ix::new(f));
        let entry_in_f = EdgeIndex::new(Ix::new(t));
        let target_list = &mut self.incidences[t];
        target_list.push(entry_in_t);
        let source_list = &mut self.incidences[f];
        source_list.push(entry_in_f);
        proof {
            assert(self.nodes_seq() =~= old(self).nodes_seq());
            assert(self.incidences_seq() =~= add_incidence(
                old(self).incidences_seq(),
                from.idx(),
                to.idx(),
            ));
        }
        let pos = self.edges.len() - 1;
        proof {
            if old(self).edge_count_spec() <= Ix::max_index() {
                Ix::lemma_round_trip(pos);
            }
        }
        EdgeIndex::new(Ix::new(pos))
    }
}

} // verus!

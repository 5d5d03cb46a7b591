//! Topology of a 2D sketch: the points, the straight segments and circular arcs
//! between them, and the standalone circles, as plain indices.
//!
//! The geometric half of a sketch (point positions, the constraint solver, arc
//! tessellation, signed areas) is floating-point work and lives outside this
//! crate. What lives here is the part that decides: whether the edges form a
//! single closed loop (or a set of closed loops), in which order they are walked,
//! in which sense each arc is swept, and how a degree-of-freedom count is
//! classified.
use vstd::prelude::*;

verus! {

/// Index of a point within a [`Sketch`].
pub type PointId = usize;

/// A straight edge between two sketch points.
#[derive(Clone, Copy, Debug, PartialEq, Eq, Structural)]
pub struct Segment {
    /// First endpoint.
    pub a: usize,
    /// Second endpoint.
    pub b: usize,
}

/// A circular arc edge between two boundary points, bulging around a `center`
/// construction point; `ccw` selects the sense of the sweep from `a` to `b`.
#[derive(Clone, Copy, Debug, PartialEq, Eq, Structural)]
pub struct Arc {
    /// First endpoint (on the circle).
    pub a: usize,
    /// Second endpoint (on the circle).
    pub b: usize,
    /// Center construction point.
    pub center: usize,
    /// Sweep counter-clockwise from `a` to `b` (otherwise clockwise).
    pub ccw: bool,
}

/// A full circle as a standalone closed profile: a `center` point and a
/// `radius_point` lying on it.
#[derive(Clone, Copy, Debug, PartialEq, Eq, Structural)]
pub struct Circle {
    /// Center point.
    pub center: usize,
    /// A point on the circle.
    pub radius_point: usize,
}

/// How well a sketch's degrees of freedom are pinned by its constraints.
#[derive(Clone, Copy, Debug, PartialEq, Eq, Structural)]
pub enum ConstraintState {
    /// Some degree of freedom is still free.
    UnderConstrained,
    /// Every degree of freedom is pinned with no redundant constraint.
    WellConstrained,
    /// Every degree of freedom is pinned and some constraint rows are redundant.
    OverConstrained,
}

/// A degree-of-freedom analysis of a sketch.
#[derive(Clone, Copy, Debug, PartialEq, Eq, Structural)]
pub struct SketchAnalysis {
    /// Total degrees of freedom (`2 × point count`).
    pub dof: usize,
    /// Number of independent constraint rows (rank of the constraint Jacobian).
    pub rank: usize,
    /// Degrees of freedom left unconstrained (`dof − rank`, saturating).
    pub free_dof: usize,
    /// Constraint rows beyond the independent set (`rows − rank`, saturating).
    pub redundant: usize,
    /// Summary classification.
    pub state: ConstraintState,
}

/// Why a sketch could not be turned into geometry.
#[derive(Clone, Copy, Debug, PartialEq, Eq, Structural)]
pub enum SketchError {
    /// Too few points or edges, or the loop encloses no area.
    Degenerate,
    /// The edges do not form closed loops (open chain, branch, out-of-range
    /// index, or — for a single profile — several disjoint loops).
    NotClosed,
    /// The profile was valid but the sweep produced no solid.
    EmptySolid,
}

/// Whether a profile edge is straight or a circular arc.
#[derive(Clone, Copy, Debug, PartialEq, Eq, Structural)]
pub enum EdgeKind {
    /// A straight segment.
    Line,
    /// A circular arc about `center`, swept counter-clockwise from the edge's
    /// first endpoint when `ccw`.
    Arc { center: usize, ccw: bool },
}

/// One edge of the unified edge list: the segments in insertion order, then
/// the arcs in insertion order.
#[derive(Clone, Copy, Debug, PartialEq, Eq, Structural)]
pub struct Edge {
    /// First endpoint.
    pub a: usize,
    /// Second endpoint.
    pub b: usize,
    /// Straight or arc.
    pub kind: EdgeKind,
}

/// How an arc is swept when a walk crosses it: about `center`, counter-clockwise
/// from the step's `from` point when `ccw`.
#[derive(Clone, Copy, Debug, PartialEq, Eq, Structural)]
pub struct ArcSweep {
    /// Center point index.
    pub center: usize,
    /// Counter-clockwise sweep in the walking direction.
    pub ccw: bool,
}

/// One step of a boundary walk: edge `edge` crossed from point `from` to point
/// `to`, forwards (from its first endpoint) or backwards.
#[derive(Clone, Copy, Debug, PartialEq, Eq, Structural)]
pub struct WalkStep {
    /// Point the step leaves.
    pub from: usize,
    /// Point the step reaches.
    pub to: usize,
    /// Index of the edge crossed, in the unified edge list.
    pub edge: usize,
    /// Whether the edge is crossed from its first endpoint to its second.
    pub forward: bool,
    /// The sweep to tessellate, when the edge is an arc.
    pub arc: Option<ArcSweep>,
}

/// The topology of one closed boundary.
#[derive(Clone, Debug)]
pub enum BoundaryTopology {
    /// A standalone full circle.
    Circle(Circle),
    /// A closed walk over segments and arcs.
    Walk(Vec<WalkStep>),
}

/// What [`Sketch::all_loops`] found: every standalone circle that passed its
/// checks, every closed walk, and the refusal that stopped the scan, if any.
/// The circles come before the walks, which is the order in which the loops
/// are read out.
#[derive(Clone, Debug)]
pub struct LoopScan {
    /// The standalone circles accepted before the scan stopped (all of them
    /// when it did not stop early).
    pub circles: Vec<Circle>,
    /// The closed walks, one per connected component of the edge graph.
    pub walks: Vec<Vec<WalkStep>>,
    /// The refusal, if the scan stopped.
    pub failure: Option<SketchError>,
}

/// The topology of a 2D sketch: how many points it has, and the segments, arcs
/// and standalone circles between them.
#[derive(Clone, Debug)]
pub struct Sketch {
    point_count: usize,
    segments: Vec<Segment>,
    arcs: Vec<Arc>,
    circles: Vec<Circle>,
}

/// The mathematical content of a [`Sketch`].
pub struct SketchView {
    /// Number of points.
    pub point_count: nat,
    /// Segments, in insertion order.
    pub segments: Seq<Segment>,
    /// Arcs, in insertion order.
    pub arcs: Seq<Arc>,
    /// Standalone circles, in insertion order.
    pub circles: Seq<Circle>,
}

impl View for Sketch {
    type V = SketchView;

    closed spec fn view(&self) -> SketchView {
        SketchView {
            point_count: self.point_count as nat,
            segments: self.segments@,
            arcs: self.arcs@,
            circles: self.circles@,
        }
    }
}

// ---------------------------------------------------------------------------
// The edge graph, stated.
// ---------------------------------------------------------------------------

/// A segment as an edge of the unified list.
pub open spec fn line_edge(s: Segment) -> Edge {
    Edge { a: s.a, b: s.b, kind: EdgeKind::Line }
}

/// An arc as an edge of the unified list.
pub open spec fn arc_edge(c: Arc) -> Edge {
    Edge { a: c.a, b: c.b, kind: EdgeKind::Arc { center: c.center, ccw: c.ccw } }
}

/// The unified edge list: segments first, then arcs.
pub open spec fn edge_seq(segments: Seq<Segment>, arcs: Seq<Arc>) -> Seq<Edge> {
    Seq::new(
        segments.len() + arcs.len(),
        |i: int|
            if i < segments.len() {
                line_edge(segments[i])
            } else {
                arc_edge(arcs[i - segments.len()])
            },
    )
}

/// The unified edge list of a sketch.
pub open spec fn sketch_edges(v: SketchView) -> Seq<Edge> {
    edge_seq(v.segments, v.arcs)
}

/// Every arc's center is an existing point.
pub open spec fn arcs_centered(arcs: Seq<Arc>, n: int) -> bool {
    forall|i: int| 0 <= i < arcs.len() ==> #[trigger] arcs[i].center < n
}

/// A circle whose two points exist.
pub open spec fn circle_in_range(c: Circle, n: int) -> bool {
    c.center < n && c.radius_point < n
}

/// Every edge joins two distinct existing points.
pub open spec fn endpoints_ok(edges: Seq<Edge>, n: int) -> bool {
    forall|i: int|
        #![trigger edges[i]]
        0 <= i < edges.len() ==> edges[i].a < n && edges[i].b < n && edges[i].a != edges[i].b
}

/// Whether edge `e` touches point `v`.
pub open spec fn incident(e: Edge, v: int) -> bool {
    e.a == v || e.b == v
}

/// The indices of the edges touching point `v`, in increasing order.
pub open spec fn incident_edges(edges: Seq<Edge>, v: int) -> Seq<int>
    decreases edges.len(),
{
    if edges.len() == 0 {
        Seq::empty()
    } else {
        let rest = incident_edges(edges.drop_last(), v);
        if incident(edges.last(), v) {
            rest.push(edges.len() - 1)
        } else {
            rest
        }
    }
}

/// Number of edges touching point `v`.
pub open spec fn degree(edges: Seq<Edge>, v: int) -> nat {
    incident_edges(edges, v).len()
}

/// Every point is touched by no edge or by exactly two: closed loops, with no
/// open end and no branch.
pub open spec fn degrees_ok(edges: Seq<Edge>, n: int) -> bool {
    forall|v: int| 0 <= v < n ==> #[trigger] degree(edges, v) == 0 || degree(edges, v) == 2
}

/// The structural conditions under which the edges decompose into closed loops.
pub open spec fn graph_ok(edges: Seq<Edge>, n: int) -> bool {
    endpoints_ok(edges, n) && degrees_ok(edges, n)
}

/// The sweep a walk tessellates when it crosses an edge of `kind` forwards or
/// backwards: an arc crossed backwards is swept in the opposite sense.
pub open spec fn sweep_of(kind: EdgeKind, forward: bool) -> Option<ArcSweep> {
    match kind {
        EdgeKind::Line => None,
        EdgeKind::Arc { center, ccw } => Some(
            ArcSweep { center, ccw: if forward { ccw } else { !ccw } },
        ),
    }
}

/// A step crosses an existing edge between its endpoints, with the matching sweep.
pub open spec fn step_follows(edges: Seq<Edge>, s: WalkStep) -> bool {
    &&& s.edge < edges.len()
    &&& if s.forward {
        s.from == edges[s.edge as int].a && s.to == edges[s.edge as int].b
    } else {
        s.from == edges[s.edge as int].b && s.to == edges[s.edge as int].a
    }
    &&& s.arc == sweep_of(edges[s.edge as int].kind, s.forward)
}

/// Step `i + 1` starts where step `i` ends.
pub open spec fn linked(w: Seq<WalkStep>, i: int) -> bool {
    w[i + 1].from == w[i].to
}

/// Step `i` does not end at the walk's starting point.
pub open spec fn stays_away(w: Seq<WalkStep>, i: int) -> bool {
    w[i].to != w[0].from
}

/// Whether the walk crosses edge `e`.
pub open spec fn edge_used(w: Seq<WalkStep>, e: int) -> bool {
    exists|i: int| 0 <= i < w.len() && w[i].edge == e
}

/// No edge is crossed twice.
pub open spec fn distinct_edges(w: Seq<WalkStep>) -> bool {
    forall|i: int, j: int| 0 <= i < j < w.len() ==> #[trigger] w[i].edge != #[trigger] w[j].edge
}

/// `w` is the closed loop that starts by crossing edge `seed` forwards: every
/// step follows an edge, consecutive steps meet, the walk returns to its start
/// exactly at its last step, and no edge is crossed twice.
pub open spec fn is_cycle_from(edges: Seq<Edge>, w: Seq<WalkStep>, seed: int) -> bool {
    &&& w.len() >= 1
    &&& w[0].edge == seed
    &&& w[0].forward
    &&& forall|i: int| 0 <= i < w.len() ==> #[trigger] step_follows(edges, w[i])
    &&& forall|i: int| 0 <= i < w.len() - 1 ==> #[trigger] linked(w, i)
    &&& forall|i: int| 0 <= i < w.len() - 1 ==> #[trigger] stays_away(w, i)
    &&& w[w.len() - 1].to == w[0].from
    &&& distinct_edges(w)
}

/// The walk crosses every edge.
pub open spec fn covers_all(edges: Seq<Edge>, w: Seq<WalkStep>) -> bool {
    forall|e: int| 0 <= e < edges.len() ==> #[trigger] edge_used(w, e)
}


// ---------------------------------------------------------------------------
// Facts about incident edges.
// ---------------------------------------------------------------------------

/// The incident list holds exactly the in-range edges touching `v`, increasing.
proof fn lemma_incident_edges(edges: Seq<Edge>, v: int)
    ensures
        incident_edges(edges, v).len() <= edges.len(),
        forall|k: int|
            #![trigger incident_edges(edges, v)[k]]
            0 <= k < incident_edges(edges, v).len() ==> 0 <= incident_edges(edges, v)[k] < edges.len()
                && incident(edges[incident_edges(edges, v)[k]], v),
        forall|e: int|
            0 <= e < edges.len() && #[trigger] incident(edges[e], v) ==> incident_edges(edges, v).contains(e),
        forall|k1: int, k2: int|
            0 <= k1 < k2 < incident_edges(edges, v).len() ==> #[trigger] incident_edges(edges, v)[k1]
                < #[trigger] incident_edges(edges, v)[k2],
    decreases edges.len(),
{
    if edges.len() > 0 {
        let rest = edges.drop_last();
        lemma_incident_edges(rest, v);
        assert forall|e: int| 0 <= e < edges.len() && #[trigger] incident(edges[e], v) implies incident_edges(
            edges,
            v,
        ).contains(e) by {
            if e < edges.len() - 1 {
                assert(rest[e] == edges[e]);
                assert(incident(rest[e], v));
                let k = choose|k: int| 0 <= k < incident_edges(rest, v).len() && incident_edges(rest, v)[k] == e;
                assert(incident_edges(edges, v)[k] == e);
            } else {
                let ie = incident_edges(edges, v);
                assert(ie[ie.len() - 1] == e);
            }
        }
    }
}

/// At a point of degree two, any edge touching it is one of two given distinct
/// edges touching it.
proof fn lemma_third_edge(edges: Seq<Edge>, v: int, p: int, q: int, f: int)
    requires
        degree(edges, v) == 2,
        0 <= p < edges.len(),
        0 <= q < edges.len(),
        0 <= f < edges.len(),
        p != q,
        incident(edges[p], v),
        incident(edges[q], v),
        incident(edges[f], v),
    ensures
        f == p || f == q,
{
    lemma_incident_edges(edges, v);
    let ie = incident_edges(edges, v);
    assert(ie.contains(p));
    assert(ie.contains(q));
    assert(ie.contains(f));
}

/// Extending an edge prefix by one edge extends the incident lists.
proof fn lemma_incident_step(edges: Seq<Edge>, i: int, v: int)
    requires
        0 <= i < edges.len(),
    ensures
        incident_edges(edges.take(i + 1), v) == if incident(edges[i], v) {
            incident_edges(edges.take(i), v).push(i)
        } else {
            incident_edges(edges.take(i), v)
        },
{
    assert(edges.take(i + 1).drop_last() =~= edges.take(i));
}

// ---------------------------------------------------------------------------
// Adjacency: the (at most two) first incident edges of each point.
// ---------------------------------------------------------------------------

/// The slot vectors hold, for each point, its degree and its first two incident
/// edges.
spec fn slots_ok(deg: Seq<usize>, first: Seq<usize>, second: Seq<usize>, edges: Seq<Edge>, n: int) -> bool {
    &&& deg.len() == n
    &&& first.len() == n
    &&& second.len() == n
    &&& forall|v: int| 0 <= v < n ==> #[trigger] deg[v] == degree(edges, v)
    &&& forall|v: int| 0 <= v < n && degree(edges, v) >= 1 ==> #[trigger] first[v] == incident_edges(edges, v)[0]
    &&& forall|v: int| 0 <= v < n && degree(edges, v) >= 2 ==> #[trigger] second[v] == incident_edges(edges, v)[1]
}

struct Adjacency {
    deg: Vec<usize>,
    first: Vec<usize>,
    second: Vec<usize>,
}

spec fn adjacency_ok(adj: &Adjacency, edges: Seq<Edge>, n: int) -> bool {
    slots_ok(adj.deg@, adj.first@, adj.second@, edges, n)
}

/// Record edge `i` at its endpoint `v`.
fn record_incidence(
    deg: &mut Vec<usize>,
    first: &mut Vec<usize>,
    second: &mut Vec<usize>,
    v: usize,
    i: usize,
    Ghost(edges): Ghost<Seq<Edge>>,
    Ghost(n): Ghost<int>,
)
    requires
        0 <= v < n,
        i < edges.len(),
        edges.len() <= usize::MAX,
        old(deg).len() == n,
        old(first).len() == n,
        old(second).len() == n,
        old(deg)@[v as int] == degree(edges.take(i as int), v as int),
        degree(edges.take(i as int), v as int) >= 1 ==> old(first)@[v as int] == incident_edges(
            edges.take(i as int),
            v as int,
        )[0],
        degree(edges.take(i as int), v as int) >= 2 ==> old(second)@[v as int] == incident_edges(
            edges.take(i as int),
            v as int,
        )[1],
        incident(edges[i as int], v as int),
    ensures
        final(deg)@ == old(deg)@.update(v as int, (old(deg)@[v as int] + 1) as usize),
        final(deg)@[v as int] == degree(edges.take(i + 1), v as int),
        degree(edges.take(i + 1), v as int) >= 1 ==> final(first)@[v as int] == incident_edges(
            edges.take(i + 1),
            v as int,
        )[0],
        degree(edges.take(i + 1), v as int) >= 2 ==> final(second)@[v as int] == incident_edges(
            edges.take(i + 1),
            v as int,
        )[1],
        forall|u: int| 0 <= u < n && u != v ==> #[trigger] final(first)@[u] == old(first)@[u],
        forall|u: int| 0 <= u < n && u != v ==> #[trigger] final(second)@[u] == old(second)@[u],
        final(first)@.len() == n,
        final(second)@.len() == n,
{
    proof {
        lemma_incident_step(edges, i as int, v as int);
        lemma_incident_edges(edges.take(i as int), v as int);
    }
    let d = deg[v];
    if d == 0 {
        first.set(v, i);
    } else if d == 1 {
        second.set(v, i);
    }
    deg.set(v, d + 1);
}

/// Build the adjacency of an edge list whose endpoints are all in range and
/// distinct.
fn build_adjacency(edges: &Vec<Edge>, n: usize) -> (adj: Adjacency)
    requires
        endpoints_ok(edges@, n as int),
    ensures
        adjacency_ok(&adj, edges@, n as int),
{
    let mut deg: Vec<usize> = Vec::new();
    let mut first: Vec<usize> = Vec::new();
    let mut second: Vec<usize> = Vec::new();
    let mut v: usize = 0;
    while v < n
        invariant
            v <= n,
            deg@.len() == v,
            first@.len() == v,
            second@.len() == v,
            forall|u: int| 0 <= u < v ==> #[trigger] deg@[u] == 0,
        decreases n - v,
    {
        deg.push(0);
        first.push(0);
        second.push(0);
        v = v + 1;
    }
    proof {
        assert(edges@.take(0) =~= Seq::<Edge>::empty());
    }
    let ghost es = edges@;
    let mut i: usize = 0;
    while i < edges.len()
        invariant
            es == edges@,
            endpoints_ok(es, n as int),
            i <= es.len(),
            slots_ok(deg@, first@, second@, es.take(i as int), n as int),
        decreases es.len() - i,
    {
        let e = edges[i];
        assert(es[i as int] == e);
        let ghost d0 = deg@;
        let ghost f0 = first@;
        let ghost s0 = second@;
        record_incidence(&mut deg, &mut first, &mut second, e.a, i, Ghost(es), Ghost(n as int));
        let ghost d1 = deg@;
        let ghost f1 = first@;
        let ghost s1 = second@;
        record_incidence(&mut deg, &mut first, &mut second, e.b, i, Ghost(es), Ghost(n as int));
        proof {
            assert forall|u: int|
                #![trigger deg@[u]]
                #![trigger first@[u]]
                #![trigger second@[u]]
                0 <= u < n implies deg@[u] == degree(es.take(i + 1), u)
                && (degree(es.take(i + 1), u) >= 1 ==> first@[u] == incident_edges(es.take(i + 1), u)[0])
                && (degree(es.take(i + 1), u) >= 2 ==> second@[u] == incident_edges(es.take(i + 1), u)[1])
            by {
                lemma_incident_step(es, i as int, u);
                assert(e.a != e.b);
                if u == e.a {
                    assert(deg@[u] == d1[u]);
                    assert(first@[u] == f1[u]);
                    assert(second@[u] == s1[u]);
                } else if u == e.b {
                } else {
                    assert(!incident(es[i as int], u));
                    assert(deg@[u] == d0[u]);
                    assert(first@[u] == f0[u]);
                    assert(second@[u] == s0[u]);
                }
            }
        }
        i = i + 1;
    }
    assert(es.take(es.len() as int) =~= es);
    Adjacency { deg, first, second }
}


// ---------------------------------------------------------------------------
// Tracing one closed loop.
// ---------------------------------------------------------------------------

/// Number of `false` entries.
spec fn count_false(s: Seq<bool>) -> nat
    decreases s.len(),
{
    if s.len() == 0 {
        0
    } else {
        count_false(s.drop_last()) + if s.last() {
            0nat
        } else {
            1nat
        }
    }
}

proof fn lemma_count_false_update(s: Seq<bool>, i: int)
    requires
        0 <= i < s.len(),
        !s[i],
    ensures
        count_false(s.update(i, true)) + 1 == count_false(s),
    decreases s.len(),
{
    if i == s.len() - 1 {
        assert(s.update(i, true).drop_last() =~= s.drop_last());
    } else {
        lemma_count_false_update(s.drop_last(), i);
        assert(s.update(i, true).drop_last() =~= s.drop_last().update(i, true));
    }
}

/// Edge `f` touches one of the endpoints of edge `e`.
pub open spec fn shares_vertex(e: Edge, f: Edge) -> bool {
    incident(f, e.a as int) || incident(f, e.b as int)
}

/// The marked edges are closed under sharing a point: a marked edge's
/// neighbours are marked too, so the marked set is a union of whole loops.
spec fn visited_closed(edges: Seq<Edge>, vis: Seq<bool>) -> bool {
    forall|e: int, f: int|
        #![trigger vis[e], vis[f]]
        0 <= e < edges.len() && 0 <= f < edges.len() && vis[e] && shares_vertex(edges[e], edges[f])
            ==> vis[f]
}

/// The prefix of a walk that has not yet come back to its start.
spec fn open_walk(edges: Seq<Edge>, w: Seq<WalkStep>) -> bool {
    &&& forall|i: int| 0 <= i < w.len() ==> #[trigger] step_follows(edges, w[i])
    &&& forall|i: int| 0 <= i < w.len() - 1 ==> #[trigger] linked(w, i)
    &&& forall|i: int| 0 <= i < w.len() ==> #[trigger] stays_away(w, i)
    &&& distinct_edges(w)
}

/// Where an open walk stands, the edge other than the one it arrived by has not
/// been crossed yet.
proof fn lemma_other_edge_unused(edges: Seq<Edge>, n: int, w: Seq<WalkStep>, o: int)
    requires
        endpoints_ok(edges, n),
        w.len() > 0,
        open_walk(edges, w),
        degree(edges, w[w.len() - 1].to as int) == 2,
        0 <= o < edges.len(),
        o != w[w.len() - 1].edge,
        incident(edges[o], w[w.len() - 1].to as int),
    ensures
        !edge_used(w, o),
{
    let k = w.len();
    let cur = w[k - 1].to as int;
    let prev = w[k - 1].edge as int;
    assert(step_follows(edges, w[k - 1]));
    assert(incident(edges[prev], cur));
    if edge_used(w, o) {
        let j = choose|j: int| 0 <= j < k && w[j].edge == o;
        assert(step_follows(edges, w[j]));
        assert(edges[o].a != edges[o].b);
        if cur == w[j].to {
            assert(j != k - 1);
            assert(linked(w, j));
            assert(step_follows(edges, w[j + 1]));
            let g = w[j + 1].edge as int;
            assert(incident(edges[g], cur));
            lemma_third_edge(edges, cur, prev, o, g);
            assert(w[j + 1].edge != w[j].edge);
            assert(j + 1 == k - 1);
            assert(edges[prev].a != edges[prev].b);
        } else {
            assert(cur == w[j].from);
            if j == 0 {
                assert(stays_away(w, k - 1));
            } else {
                assert(linked(w, j - 1));
                assert(step_follows(edges, w[j - 1]));
                let g = w[j - 1].edge as int;
                assert(incident(edges[g], cur));
                lemma_third_edge(edges, cur, prev, o, g);
                assert(w[j - 1].edge != w[j].edge);
            }
        }
    }
}

/// A closed loop contains every edge touching any point it passes through.
proof fn lemma_cycle_closed(edges: Seq<Edge>, n: int, w: Seq<WalkStep>, seed: int)
    requires
        graph_ok(edges, n),
        is_cycle_from(edges, w, seed),
    ensures
        forall|i: int, f: int|
            #![trigger edge_used(w, f), w[i]]
            0 <= i < w.len() && 0 <= f < edges.len() && (incident(edges[f], w[i].from as int) || incident(
                edges[f],
                w[i].to as int,
            )) ==> edge_used(w, f),
{
    let k = w.len();
    assert(step_follows(edges, w[0]));
    assert(edges[w[0].edge as int].a != edges[w[0].edge as int].b);
    assert(k >= 2);
    assert forall|i: int, f: int|
        #![trigger edge_used(w, f), w[i]]
        0 <= i < w.len() && 0 <= f < edges.len() && (incident(edges[f], w[i].from as int) || incident(
            edges[f],
            w[i].to as int,
        )) implies edge_used(w, f) by {
        // Every point of the loop is the end of some step `t`.
        let t = if incident(edges[f], w[i].to as int) {
            i
        } else if i == 0 {
            k - 1
        } else {
            i - 1
        };
        if i > 0 && !incident(edges[f], w[i].to as int) {
            assert(linked(w, i - 1));
        }
        let v = w[t].to as int;
        assert(incident(edges[f], v));
        // ... and the start of the next step.
        let u = if t == k - 1 {
            0
        } else {
            t + 1
        };
        if t < k - 1 {
            assert(linked(w, t));
        }
        assert(w[u].from == v);
        assert(step_follows(edges, w[t]));
        assert(step_follows(edges, w[u]));
        assert(v < n);
        assert(degree(edges, v) >= 1) by {
            lemma_incident_edges(edges, v);
            assert(incident(edges[w[t].edge as int], v));
            assert(incident_edges(edges, v).contains(w[t].edge as int));
        }
        assert(degree(edges, v) == 2);
        assert(w[t].edge != w[u].edge);
        lemma_third_edge(edges, v, w[t].edge as int, w[u].edge as int, f);
    }
}

/// The sweep of `kind` crossed forwards or backwards.
fn sweep_for(kind: EdgeKind, forward: bool) -> (r: Option<ArcSweep>)
    ensures
        r == sweep_of(kind, forward),
        kind matches EdgeKind::Line ==> r is None,
        kind matches EdgeKind::Arc { center, ccw } ==> r == Some(ArcSweep { center, ccw: ccw == forward }),
{
    match kind {
        EdgeKind::Line => None,
        EdgeKind::Arc { center, ccw } => Some(ArcSweep { center, ccw: if forward { ccw } else { !ccw } }),
    }
}

/// Walk the loop that starts by crossing `seed` forwards, marking its edges.
fn trace_cycle(
    edges: &Vec<Edge>,
    adj: &Adjacency,
    visited: &mut Vec<bool>,
    seed: usize,
    Ghost(n): Ghost<int>,
) -> (w: Vec<WalkStep>)
    requires
        graph_ok(edges@, n),
        adjacency_ok(adj, edges@, n),
        old(visited)@.len() == edges@.len(),
        seed < edges@.len(),
        !old(visited)@[seed as int],
        forall|e: int| 0 <= e < seed ==> #[trigger] old(visited)@[e],
        visited_closed(edges@, old(visited)@),
    ensures
        is_cycle_from(edges@, w@, seed as int),
        final(visited)@.len() == edges@.len(),
        forall|e: int|
            0 <= e < edges@.len() ==> #[trigger] final(visited)@[e] == (old(visited)@[e] || edge_used(
                w@,
                e,
            )),
        forall|i: int| 0 <= i < w@.len() ==> !old(visited)@[#[trigger] w@[i].edge as int],
        visited_closed(edges@, final(visited)@),
{
    let ghost es = edges@;
    let ghost vis0 = visited@;
    let start = edges[seed].a;
    assert(es[seed as int].a != es[seed as int].b);
    let mut w: Vec<WalkStep> = Vec::new();
    let mut cur: usize = start;
    let mut prev: usize = usize::MAX;
    loop
        invariant_except_break
            w@.len() == 0 ==> cur == start && prev == usize::MAX,
            w@.len() > 0 ==> cur == w@[w@.len() - 1].to && prev == w@[w@.len() - 1].edge,
            cur != start || w@.len() == 0,
            forall|i: int| 0 <= i < w@.len() ==> #[trigger] stays_away(w@, i),
        invariant
            es == edges@,
            graph_ok(es, n),
            adjacency_ok(adj, es, n),
            seed < es.len(),
            start == es[seed as int].a,
            vis0.len() == es.len(),
            !vis0[seed as int],
            forall|e: int| 0 <= e < seed ==> #[trigger] vis0[e],
            visited_closed(es, vis0),
            visited@.len() == es.len(),
            forall|e: int| 0 <= e < es.len() ==> #[trigger] visited@[e] == (vis0[e] || edge_used(w@, e)),
            forall|i: int| 0 <= i < w@.len() ==> !vis0[#[trigger] w@[i].edge as int],
            w@.len() > 0 ==> w@[0].edge == seed && w@[0].forward && w@[0].from == start,
            forall|i: int| 0 <= i < w@.len() ==> #[trigger] step_follows(es, w@[i]),
            forall|i: int| 0 <= i < w@.len() - 1 ==> #[trigger] linked(w@, i),
            distinct_edges(w@),
            0 <= cur < n,
        ensures
            w@.len() > 0,
            w@[w@.len() - 1].to == start,
            forall|i: int| 0 <= i < w@.len() - 1 ==> #[trigger] stays_away(w@, i),
        decreases count_false(visited@),
    {
        let ghost wk = w@;
        let ghost vk = visited@;
        let ghost k = w@.len();
        // The two edges at `cur`, and the one the walk did not arrive by.
        assert(degree(es, cur as int) == 2) by {
            let g: int = if k == 0 { seed as int } else { wk[k - 1].edge as int };
            if k > 0 {
                assert(step_follows(es, wk[k - 1]));
            }
            lemma_incident_edges(es, cur as int);
            assert(incident(es[g], cur as int));
            assert(incident_edges(es, cur as int).contains(g));
        }
        let ghost ie = incident_edges(es, cur as int);
        proof {
            lemma_incident_edges(es, cur as int);
        }
        let e0 = adj.first[cur];
        let e1 = adj.second[cur];
        assert(e0 == ie[0] && e1 == ie[1]);
        let ghost arrived: int = if k == 0 { seed as int } else { wk[k - 1].edge as int };
        proof {
            if k > 0 {
                assert(step_follows(es, wk[k - 1]));
            }
            assert(incident(es[arrived], cur as int));
            assert(ie.contains(arrived));
        }
        let ghost other: int = if ie[0] == arrived { ie[1] } else { ie[0] };
        proof {
            assert(ie[0] < ie[1]);
            assert(incident(es[other], cur as int));
            if k == 0 {
                // The other edge at the start is unmarked, hence after `seed`.
                if vis0[other] {
                    assert(shares_vertex(es[other], es[seed as int]));
                    assert(vis0[other] && vis0[seed as int]);
                }
                assert(!edge_used(wk, other));
                assert(other > seed);
            } else {
                assert(open_walk(es, wk));
                lemma_other_edge_unused(es, n, wk, other);
                if vis0[other] {
                    let p = wk[k - 1].edge as int;
                    assert(shares_vertex(es[other], es[p]));
                    assert(vis0[other] && vis0[p]);
                    assert(!vis0[wk[k - 1].edge as int]);
                }
            }
            assert(!vk[other]);
        }
        let e = if e0 != prev && !visited[e0] {
            e0
        } else {
            e1
        };
        proof {
            if k == 0 {
                assert(e0 == seed);
                assert(e == seed);
            } else {
                assert(e == other);
            }
        }
        let edge = edges[e];
        let forward = edge.a == cur;
        let next = if forward {
            edge.b
        } else {
            edge.a
        };
        let arc = sweep_for(edge.kind, forward);
        let step = WalkStep { from: cur, to: next, edge: e, forward, arc };
        proof {
            lemma_count_false_update(vk, e as int);
            assert(!edge_used(wk, e as int));
        }
        visited.set(e, true);
        w.push(step);
        proof {
            let w2 = w@;
            assert(w2[k as int] == step);
            assert forall|i: int| 0 <= i < k implies #[trigger] w2[i] == wk[i] by {}
            assert(step_follows(es, step));
            assert forall|f: int| 0 <= f < es.len() implies #[trigger] visited@[f] == (vis0[f] || edge_used(w2, f)) by {
                if f == e {
                    assert(w2[k as int].edge == f);
                } else {
                    if edge_used(wk, f) {
                        let i = choose|i: int| 0 <= i < wk.len() && wk[i].edge == f;
                        assert(w2[i].edge == f);
                    }
                    if edge_used(w2, f) {
                        let i = choose|i: int| 0 <= i < w2.len() && w2[i].edge == f;
                        assert(wk[i].edge == f);
                    }
                }
            }
            assert forall|i: int| 0 <= i < w2.len() - 1 implies #[trigger] linked(w2, i) by {
                if i < k - 1 {
                    assert(linked(wk, i));
                }
            }
            assert forall|i: int, j: int| 0 <= i < j < w2.len() implies #[trigger] w2[i].edge != #[trigger] w2[j].edge by {
                if j == k {
                    if w2[i].edge == e {
                        assert(edge_used(wk, e as int));
                    }
                }
            }
        }
        if next == start {
            proof {
                let w2 = w@;
                assert forall|i: int| 0 <= i < w2.len() - 1 implies #[trigger] stays_away(w2, i) by {
                    assert(stays_away(wk, i));
                }
            }
            break;
        }
        proof {
            let w2 = w@;
            assert forall|i: int| 0 <= i < w2.len() implies #[trigger] stays_away(w2, i) by {
                if i < k {
                    assert(stays_away(wk, i));
                }
            }
        }
        prev = e;
        cur = next;
    }
    proof {
        let wf = w@;
        assert(is_cycle_from(es, wf, seed as int));
        lemma_cycle_closed(es, n, wf, seed as int);
        let vf = visited@;
        assert forall|a: int, f: int|
            #![trigger vf[a], vf[f]]
            0 <= a < es.len() && 0 <= f < es.len() && vf[a] && shares_vertex(es[a], es[f]) implies vf[f] by {
            if vis0[a] {
                assert(vis0[a] && vis0[f]);
            } else {
                assert(edge_used(wf, a));
                let i = choose|i: int| 0 <= i < wf.len() && wf[i].edge == a;
                assert(step_follows(es, wf[i]));
                assert(wf[i].edge == a);
                assert(edge_used(wf, f));
            }
        }
    }
    w
}


// ---------------------------------------------------------------------------
// Uniqueness of the loop through a seed edge, and what covering means.
// ---------------------------------------------------------------------------

/// An edge touching a point makes that point an existing point of degree two.
proof fn lemma_degree_two(edges: Seq<Edge>, n: int, v: int, g: int)
    requires
        graph_ok(edges, n),
        0 <= g < edges.len(),
        incident(edges[g], v),
    ensures
        0 <= v < n,
        degree(edges, v) == 2,
{
    assert(edges[g].a < n && edges[g].b < n);
    lemma_incident_edges(edges, v);
    assert(incident_edges(edges, v).contains(g));
}

proof fn lemma_cycle_prefix(edges: Seq<Edge>, n: int, u: Seq<WalkStep>, w: Seq<WalkStep>, seed: int, i: int)
    requires
        graph_ok(edges, n),
        is_cycle_from(edges, u, seed),
        is_cycle_from(edges, w, seed),
        0 <= i < u.len(),
        i < w.len(),
    ensures
        u[i] == w[i],
    decreases i,
{
    assert(step_follows(edges, u[i]));
    assert(step_follows(edges, w[i]));
    if i > 0 {
        lemma_cycle_prefix(edges, n, u, w, seed, i - 1);
        assert(linked(u, i - 1));
        assert(linked(w, i - 1));
        assert(step_follows(edges, u[i - 1]));
        let v = u[i - 1].to as int;
        let p = u[i - 1].edge as int;
        lemma_degree_two(edges, n, v, p);
        assert(u[i - 1].edge != u[i].edge);
        assert(w[i - 1].edge != w[i].edge);
        lemma_third_edge(edges, v, p, u[i].edge as int, w[i].edge as int);
    }
    let e = edges[u[i].edge as int];
    assert(e.a != e.b);
}

/// **The loop through a seed edge is unique**: when every edge joins two
/// distinct existing points and every point has degree zero or two, two closed
/// walks that start by crossing the same edge forwards are the same walk. So the
/// contracts of [`Sketch::profile`] and [`Sketch::all_loops`] determine their
/// walks completely.
pub proof fn lemma_cycle_unique(edges: Seq<Edge>, n: int, u: Seq<WalkStep>, w: Seq<WalkStep>, seed: int)
    requires
        graph_ok(edges, n),
        is_cycle_from(edges, u, seed),
        is_cycle_from(edges, w, seed),
    ensures
        u == w,
{
    assert forall|i: int| 0 <= i < u.len() && i < w.len() implies u[i] == w[i] by {
        lemma_cycle_prefix(edges, n, u, w, seed, i);
    }
    if u.len() < w.len() {
        assert(stays_away(w, u.len() - 1));
        assert(u[u.len() - 1] == w[u.len() - 1]);
    }
    if w.len() < u.len() {
        assert(stays_away(u, w.len() - 1));
        assert(u[w.len() - 1] == w[w.len() - 1]);
    }
    assert(u =~= w);
}

/// A walk crossing distinct edges covers them all exactly when it is as long as
/// the edge list.
proof fn lemma_cover_iff_len(edges: Seq<Edge>, w: Seq<WalkStep>)
    requires
        forall|i: int| 0 <= i < w.len() ==> #[trigger] step_follows(edges, w[i]),
        distinct_edges(w),
    ensures
        covers_all(edges, w) <==> w.len() == edges.len(),
{
    let s = w.map_values(|st: WalkStep| st.edge as int);
    assert forall|i: int, j: int| 0 <= i < s.len() && 0 <= j < s.len() && i != j implies s[i] != s[j] by {
        if i < j {
            assert(w[i].edge != w[j].edge);
        } else {
            assert(w[j].edge != w[i].edge);
        }
    }
    assert(s.no_duplicates());
    s.unique_seq_to_set();
    let r = vstd::set_lib::set_int_range(0, edges.len() as int);
    vstd::set_lib::lemma_int_range(0, edges.len() as int);
    assert forall|x: int| s.to_set().contains(x) implies r.contains(x) by {
        let i = choose|i: int| 0 <= i < s.len() && s[i] == x;
        assert(step_follows(edges, w[i]));
    }
    assert(s.to_set().subset_of(r));
    vstd::set_lib::lemma_len_subset(s.to_set(), r);
    if covers_all(edges, w) {
        assert forall|x: int| r.contains(x) implies s.to_set().contains(x) by {
            assert(edge_used(w, x));
            let i = choose|i: int| 0 <= i < w.len() && w[i].edge == x;
            assert(s[i] == x);
        }
        assert(s.to_set() =~= r);
    }
    if w.len() == edges.len() {
        vstd::set_lib::lemma_subset_equality(s.to_set(), r);
        assert forall|e: int| 0 <= e < edges.len() implies #[trigger] edge_used(w, e) by {
            assert(r.contains(e));
            assert(s.to_set().contains(e));
            let i = choose|i: int| 0 <= i < s.len() && s[i] == e;
            assert(w[i].edge == e);
        }
    }
}

// ---------------------------------------------------------------------------
// What `profile` and `all_loops` return.
// ---------------------------------------------------------------------------

/// Some closed loop through the first edge crosses every edge.
pub open spec fn single_loop_exists(edges: Seq<Edge>) -> bool {
    exists|w: Seq<WalkStep>| is_cycle_from(edges, w, 0) && covers_all(edges, w)
}

/// The outcome of [`Sketch::profile`], case by case in the order the checks
/// are made.
pub open spec fn profile_outcome(v: SketchView, r: Result<BoundaryTopology, SketchError>) -> bool {
    let n = v.point_count as int;
    let edges = sketch_edges(v);
    if v.circles.len() > 0 {
        if v.circles.len() != 1 || v.segments.len() > 0 || v.arcs.len() > 0 {
            r == Err::<BoundaryTopology, SketchError>(SketchError::NotClosed)
        } else if !circle_in_range(v.circles[0], n) {
            r == Err::<BoundaryTopology, SketchError>(SketchError::NotClosed)
        } else {
            r matches Ok(BoundaryTopology::Circle(c)) && c == v.circles[0]
        }
    } else if !arcs_centered(v.arcs, n) {
        r == Err::<BoundaryTopology, SketchError>(SketchError::NotClosed)
    } else if edges.len() < 2 || n < 2 {
        r == Err::<BoundaryTopology, SketchError>(SketchError::Degenerate)
    } else if !graph_ok(edges, n) {
        r == Err::<BoundaryTopology, SketchError>(SketchError::NotClosed)
    } else if !single_loop_exists(edges) {
        r == Err::<BoundaryTopology, SketchError>(SketchError::NotClosed)
    } else {
        r matches Ok(BoundaryTopology::Walk(w)) && is_cycle_from(edges, w@, 0) && covers_all(edges, w@)
    }
}

/// The step sequences of a list of walks.
pub open spec fn walk_views(walks: Seq<Vec<WalkStep>>) -> Seq<Seq<WalkStep>> {
    walks.map_values(|x: Vec<WalkStep>| x@)
}

/// Edge `e` is crossed by one of the first `k` walks.
pub open spec fn used_before(ws: Seq<Seq<WalkStep>>, k: int, e: int) -> bool {
    exists|j: int| 0 <= j < k && #[trigger] edge_used(ws[j], e)
}

/// `ws` splits the edges into closed loops: each walk is the loop through its
/// first edge, which is the lowest-numbered edge no earlier walk crossed; no
/// edge is crossed by two walks; every edge is crossed.
pub open spec fn is_loop_partition(edges: Seq<Edge>, ws: Seq<Seq<WalkStep>>) -> bool {
    &&& forall|k: int| 0 <= k < ws.len() ==> #[trigger] is_cycle_from(edges, ws[k], ws[k][0].edge as int)
    &&& forall|k: int, e: int| 0 <= k < ws.len() && 0 <= e < ws[k][0].edge ==> #[trigger] used_before(ws, k, e)
    &&& forall|j: int, k: int, e: int|
        0 <= j < k < ws.len() ==> !(#[trigger] edge_used(ws[j], e) && #[trigger] edge_used(ws[k], e))
    &&& forall|e: int| 0 <= e < edges.len() ==> #[trigger] used_before(ws, ws.len() as int, e)
}

/// The outcome of [`Sketch::all_loops`], case by case in the order the checks
/// are made.
pub open spec fn all_loops_outcome(v: SketchView, r: LoopScan) -> bool {
    let n = v.point_count as int;
    let edges = sketch_edges(v);
    let cs = v.circles;
    let k = r.circles@.len() as int;
    &&& k <= cs.len()
    &&& r.circles@ == cs.take(k)
    &&& forall|i: int| 0 <= i < k ==> #[trigger] circle_in_range(cs[i], n)
    &&& if k < cs.len() {
        !circle_in_range(cs[k], n) && r.walks@.len() == 0 && r.failure == Some(SketchError::NotClosed)
    } else if !arcs_centered(v.arcs, n) {
        r.walks@.len() == 0 && r.failure == Some(SketchError::NotClosed)
    } else if edges.len() == 0 {
        r.walks@.len() == 0 && r.failure == if cs.len() == 0 {
            Some(SketchError::Degenerate)
        } else {
            None
        }
    } else if !graph_ok(edges, n) {
        r.walks@.len() == 0 && r.failure == Some(SketchError::NotClosed)
    } else {
        r.failure.is_none() && is_loop_partition(edges, walk_views(r.walks@))
    }
}

/// The classification of a degree-of-freedom count.
pub open spec fn constraint_state(free_dof: int, redundant: int) -> ConstraintState {
    if free_dof > 0 {
        ConstraintState::UnderConstrained
    } else if redundant > 0 {
        ConstraintState::OverConstrained
    } else {
        ConstraintState::WellConstrained
    }
}

/// The outcome of [`Sketch::analyze`] for a sketch `v`, given the rank of the
/// constraint Jacobian and its number of rows.
pub open spec fn analysis_outcome(v: SketchView, rank: int, rows: int, r: SketchAnalysis) -> bool {
    &&& r.dof == 2 * v.point_count
    &&& r.rank == rank
    &&& r.free_dof == saturating_diff(r.dof as int, rank)
    &&& r.redundant == saturating_diff(rows, rank)
    &&& r.state == constraint_state(r.free_dof as int, r.redundant as int)
}

/// `x − y`, or 0 when `y ≥ x`.
pub open spec fn saturating_diff(x: int, y: int) -> int {
    if x > y {
        x - y
    } else {
        0
    }
}

// ---------------------------------------------------------------------------
// Checks over the edge list.
// ---------------------------------------------------------------------------

fn endpoints_in_range(edges: &Vec<Edge>, n: usize) -> (ok: bool)
    ensures
        ok == endpoints_ok(edges@, n as int),
{
    let mut i: usize = 0;
    while i < edges.len()
        invariant
            i <= edges@.len(),
            forall|j: int|
                #![trigger edges@[j]]
                0 <= j < i ==> edges@[j].a < n && edges@[j].b < n && edges@[j].a != edges@[j].b,
        decreases edges@.len() - i,
    {
        let e = edges[i];
        if e.a >= n || e.b >= n || e.a == e.b {
            assert(edges@[i as int] == e);
            return false;
        }
        i = i + 1;
    }
    true
}

fn degrees_valid(adj: &Adjacency, n: usize, Ghost(edges): Ghost<Seq<Edge>>) -> (ok: bool)
    requires
        adjacency_ok(adj, edges, n as int),
    ensures
        ok == degrees_ok(edges, n as int),
{
    let mut v: usize = 0;
    while v < n
        invariant
            v <= n,
            adjacency_ok(adj, edges, n as int),
            forall|u: int| 0 <= u < v ==> #[trigger] degree(edges, u) == 0 || degree(edges, u) == 2,
        decreases n - v,
    {
        let d = adj.deg[v];
        assert(d == degree(edges, v as int));
        if d != 0 && d != 2 {
            return false;
        }
        v = v + 1;
    }
    true
}

fn unmarked(len: usize) -> (vis: Vec<bool>)
    ensures
        vis@.len() == len,
        forall|e: int| 0 <= e < len ==> !#[trigger] vis@[e],
{
    let mut vis: Vec<bool> = Vec::new();
    let mut i: usize = 0;
    while i < len
        invariant
            i <= len,
            vis@.len() == i,
            forall|e: int| 0 <= e < i ==> !#[trigger] vis@[e],
        decreases len - i,
    {
        vis.push(false);
        i = i + 1;
    }
    vis
}

impl Sketch {
    /// An empty sketch.
    pub fn new() -> (s: Sketch)
        ensures
            s@.point_count == 0,
            s@.segments.len() == 0,
            s@.arcs.len() == 0,
            s@.circles.len() == 0,
    {
        Sketch { point_count: 0, segments: Vec::new(), arcs: Vec::new(), circles: Vec::new() }
    }

    /// Add a point, returning its [`PointId`] (the number of points before it).
    pub fn add_point(&mut self) -> (id: PointId)
        requires
            old(self)@.point_count < usize::MAX,
        ensures
            id == old(self)@.point_count,
            final(self)@.point_count == old(self)@.point_count + 1,
            final(self)@.segments == old(self)@.segments,
            final(self)@.arcs == old(self)@.arcs,
            final(self)@.circles == old(self)@.circles,
    {
        let id = self.point_count;
        self.point_count = self.point_count + 1;
        id
    }

    /// Connect two points with a segment, returning its index.
    pub fn add_segment(&mut self, a: PointId, b: PointId) -> (id: usize)
        ensures
            id == old(self)@.segments.len(),
            final(self)@.segments == old(self)@.segments.push(Segment { a, b }),
            final(self)@.point_count == old(self)@.point_count,
            final(self)@.arcs == old(self)@.arcs,
            final(self)@.circles == old(self)@.circles,
    {
        let id = self.segments.len();
        self.segments.push(Segment { a, b });
        id
    }

    /// Connect two boundary points with a circular arc about `center`, returning
    /// its index.
    pub fn add_arc(&mut self, a: PointId, b: PointId, center: PointId, ccw: bool) -> (id: usize)
        ensures
            id == old(self)@.arcs.len(),
            final(self)@.arcs == old(self)@.arcs.push(Arc { a, b, center, ccw }),
            final(self)@.point_count == old(self)@.point_count,
            final(self)@.segments == old(self)@.segments,
            final(self)@.circles == old(self)@.circles,
    {
        let id = self.arcs.len();
        self.arcs.push(Arc { a, b, center, ccw });
        id
    }

    /// Add a standalone full circle, returning its index.
    pub fn add_circle(&mut self, center: PointId, radius_point: PointId) -> (id: usize)
        ensures
            id == old(self)@.circles.len(),
            final(self)@.circles == old(self)@.circles.push(Circle { center, radius_point }),
            final(self)@.point_count == old(self)@.point_count,
            final(self)@.segments == old(self)@.segments,
            final(self)@.arcs == old(self)@.arcs,
    {
        let id = self.circles.len();
        self.circles.push(Circle { center, radius_point });
        id
    }

    /// Number of points.
    pub fn point_count(&self) -> (n: usize)
        ensures
            n == self@.point_count,
    {
        self.point_count
    }

    /// The segments, in insertion order.
    pub fn segments(&self) -> (r: &Vec<Segment>)
        ensures
            r@ == self@.segments,
    {
        &self.segments
    }

    /// The arcs, in insertion order.
    pub fn arcs(&self) -> (r: &Vec<Arc>)
        ensures
            r@ == self@.arcs,
    {
        &self.arcs
    }

    /// The standalone circles, in insertion order.
    pub fn circles(&self) -> (r: &Vec<Circle>)
        ensures
            r@ == self@.circles,
    {
        &self.circles
    }

    /// The unified edge list: the segments, then the arcs.
    pub fn edges(&self) -> (r: Vec<Edge>)
        ensures
            r@ == sketch_edges(self@),
    {
        let mut r: Vec<Edge> = Vec::new();
        let mut i: usize = 0;
        while i < self.segments.len()
            invariant
                i <= self.segments@.len(),
                r@.len() == i,
                forall|j: int| 0 <= j < i ==> #[trigger] r@[j] == line_edge(self.segments@[j]),
            decreases self.segments@.len() - i,
        {
            let s = self.segments[i];
            r.push(Edge { a: s.a, b: s.b, kind: EdgeKind::Line });
            i = i + 1;
        }
        let ns = self.segments.len();
        let mut j: usize = 0;
        while j < self.arcs.len()
            invariant
                ns == self.segments@.len(),
                j <= self.arcs@.len(),
                r@.len() == ns + j,
                forall|k: int| 0 <= k < ns ==> #[trigger] r@[k] == line_edge(self.segments@[k]),
                forall|k: int| ns <= k < ns + j ==> #[trigger] r@[k] == arc_edge(self.arcs@[k - ns]),
            decreases self.arcs@.len() - j,
        {
            let c = self.arcs[j];
            r.push(Edge { a: c.a, b: c.b, kind: EdgeKind::Arc { center: c.center, ccw: c.ccw } });
            j = j + 1;
        }
        assert(r@ =~= sketch_edges(self@));
        r
    }

    fn arcs_in_range(&self) -> (ok: bool)
        ensures
            ok == arcs_centered(self@.arcs, self@.point_count as int),
    {
        let mut i: usize = 0;
        while i < self.arcs.len()
            invariant
                i <= self.arcs@.len(),
                forall|j: int| 0 <= j < i ==> #[trigger] self.arcs@[j].center < self.point_count,
            decreases self.arcs@.len() - i,
        {
            if self.arcs[i].center >= self.point_count {
                return false;
            }
            i = i + 1;
        }
        true
    }

    /// Recover the closed boundary loop.
    ///
    /// A sketch with standalone circles is a profile only when it is exactly one
    /// circle and nothing else. Otherwise the segments and arcs must form one
    /// closed loop: every edge joins two distinct existing points, every point
    /// an edge touches is touched by exactly two edges, and the loop through the
    /// first edge crosses every edge. The walk starts at the first edge's first
    /// endpoint and crosses that edge forwards.
    pub fn profile(&self) -> (r: Result<BoundaryTopology, SketchError>)
        ensures
            profile_outcome(self@, r),
    {
        let n = self.point_count;
        if self.circles.len() > 0 {
            if self.circles.len() != 1 || self.segments.len() > 0 || self.arcs.len() > 0 {
                return Err(SketchError::NotClosed);
            }
            let c = self.circles[0];
            if c.center >= n || c.radius_point >= n {
                return Err(SketchError::NotClosed);
            }
            return Ok(BoundaryTopology::Circle(c));
        }
        if !self.arcs_in_range() {
            return Err(SketchError::NotClosed);
        }
        let edges = self.edges();
        if edges.len() < 2 || n < 2 {
            return Err(SketchError::Degenerate);
        }
        if !endpoints_in_range(&edges, n) {
            return Err(SketchError::NotClosed);
        }
        let adj = build_adjacency(&edges, n);
        if !degrees_valid(&adj, n, Ghost(edges@)) {
            return Err(SketchError::NotClosed);
        }
        let mut visited = unmarked(edges.len());
        proof {
            let vis = visited@;
            assert forall|a: int, f: int|
                #![trigger vis[a], vis[f]]
                0 <= a < edges@.len() && 0 <= f < edges@.len() && vis[a] && shares_vertex(edges@[a], edges@[f])
                    implies vis[f] by {}
        }
        let w = trace_cycle(&edges, &adj, &mut visited, 0, Ghost(n as int));
        proof {
            lemma_cover_iff_len(edges@, w@);
        }
        if w.len() == edges.len() {
            Ok(BoundaryTopology::Walk(w))
        } else {
            proof {
                if single_loop_exists(edges@) {
                    let u = choose|u: Seq<WalkStep>| is_cycle_from(edges@, u, 0) && covers_all(edges@, u);
                    lemma_cycle_unique(edges@, n as int, u, w@, 0);
                }
            }
            Err(SketchError::NotClosed)
        }
    }

    /// Extract every closed loop: each standalone circle, then each connected
    /// component of the segment/arc graph as one closed walk.
    ///
    /// The scan stops at the first circle with an out-of-range point, at an arc
    /// whose center does not exist, or when the edges do not all decompose into
    /// closed loops; [`LoopScan::failure`] then names the refusal and
    /// [`LoopScan::circles`] holds the circles accepted before it. A sketch with
    /// no circle and no edge is degenerate.
    pub fn all_loops(&self) -> (r: LoopScan)
        ensures
            all_loops_outcome(self@, r),
    {
        let n = self.point_count;
        let ghost cs = self@.circles;
        let mut circles: Vec<Circle> = Vec::new();
        let mut i: usize = 0;
        while i < self.circles.len()
            invariant
                cs == self@.circles,
                n == self@.point_count,
                i <= cs.len(),
                circles@ == cs.take(i as int),
                forall|j: int| 0 <= j < i ==> #[trigger] circle_in_range(cs[j], n as int),
            decreases cs.len() - i,
        {
            let c = self.circles[i];
            if c.center >= n || c.radius_point >= n {
                return LoopScan { circles, walks: Vec::new(), failure: Some(SketchError::NotClosed) };
            }
            circles.push(c);
            assert(circles@ =~= cs.take(i + 1));
            i = i + 1;
        }
        assert(cs.take(cs.len() as int) =~= cs);
        if !self.arcs_in_range() {
            return LoopScan { circles, walks: Vec::new(), failure: Some(SketchError::NotClosed) };
        }
        let edges = self.edges();
        if edges.len() == 0 {
            let failure = if circles.len() == 0 {
                Some(SketchError::Degenerate)
            } else {
                None
            };
            return LoopScan { circles, walks: Vec::new(), failure };
        }
        if !endpoints_in_range(&edges, n) {
            return LoopScan { circles, walks: Vec::new(), failure: Some(SketchError::NotClosed) };
        }
        let adj = build_adjacency(&edges, n);
        if !degrees_valid(&adj, n, Ghost(edges@)) {
            return LoopScan { circles, walks: Vec::new(), failure: Some(SketchError::NotClosed) };
        }
        let ghost es = edges@;
        let mut visited = unmarked(edges.len());
        let mut walks: Vec<Vec<WalkStep>> = Vec::new();
        proof {
            let vis = visited@;
            assert forall|a: int, f: int|
                #![trigger vis[a], vis[f]]
                0 <= a < es.len() && 0 <= f < es.len() && vis[a] && shares_vertex(es[a], es[f]) implies vis[f] by {}
            let ws = walk_views(walks@);
            assert forall|e: int| 0 <= e < es.len() implies #[trigger] visited@[e] == used_before(
                ws,
                ws.len() as int,
                e,
            ) by {}
        }
        let mut seed: usize = 0;
        while seed < edges.len()
            invariant
                es == edges@,
                graph_ok(es, n as int),
                adjacency_ok(&adj, es, n as int),
                seed <= es.len(),
                visited@.len() == es.len(),
                visited_closed(es, visited@),
                forall|e: int| 0 <= e < seed ==> #[trigger] visited@[e],
                forall|e: int|
                    0 <= e < es.len() ==> #[trigger] visited@[e] == used_before(
                        walk_views(walks@),
                        walks@.len() as int,
                        e,
                    ),
                forall|k: int|
                    0 <= k < walks@.len() ==> #[trigger] is_cycle_from(
                        es,
                        walk_views(walks@)[k],
                        walk_views(walks@)[k][0].edge as int,
                    ),
                forall|k: int, e: int|
                    0 <= k < walks@.len() && 0 <= e < walk_views(walks@)[k][0].edge ==> #[trigger] used_before(
                        walk_views(walks@),
                        k,
                        e,
                    ),
                forall|j: int, k: int, e: int|
                    0 <= j < k < walks@.len() ==> !(#[trigger] edge_used(walk_views(walks@)[j], e)
                        && #[trigger] edge_used(walk_views(walks@)[k], e)),
            decreases es.len() - seed,
        {
            if !visited[seed] {
                let ghost ws = walk_views(walks@);
                let ghost vk = visited@;
                let w = trace_cycle(&edges, &adj, &mut visited, seed, Ghost(n as int));
                walks.push(w);
                proof {
                    let ws2 = walk_views(walks@);
                    let m = ws.len() as int;
                    assert(ws2 =~= ws.push(w@));
                    assert forall|j: int| 0 <= j < m implies #[trigger] ws2[j] == ws[j] by {}
                    assert(ws2[m] == w@);
                    assert forall|e: int| 0 <= e < es.len() implies #[trigger] visited@[e] == used_before(
                        ws2,
                        ws2.len() as int,
                        e,
                    ) by {
                        if used_before(ws, m, e) {
                            let j = choose|j: int| 0 <= j < m && #[trigger] edge_used(ws[j], e);
                            assert(edge_used(ws2[j], e));
                        }
                        if edge_used(w@, e) {
                            assert(edge_used(ws2[m], e));
                        }
                        if used_before(ws2, m + 1, e) {
                            let j = choose|j: int| 0 <= j < m + 1 && #[trigger] edge_used(ws2[j], e);
                            if j < m {
                                assert(edge_used(ws[j], e));
                            }
                        }
                    }
                    assert forall|k: int| 0 <= k < ws2.len() implies #[trigger] is_cycle_from(
                        es,
                        ws2[k],
                        ws2[k][0].edge as int,
                    ) by {
                        if k < m {
                            assert(is_cycle_from(es, ws[k], ws[k][0].edge as int));
                        }
                    }
                    assert forall|k: int, e: int|
                        0 <= k < ws2.len() && 0 <= e < ws2[k][0].edge implies #[trigger] used_before(ws2, k, e) by {
                        if k < m {
                            assert(used_before(ws, k, e));
                            let j = choose|j: int| 0 <= j < k && #[trigger] edge_used(ws[j], e);
                            assert(edge_used(ws2[j], e));
                        } else {
                            assert(vk[e]);
                            assert(used_before(ws, m, e));
                            let j = choose|j: int| 0 <= j < m && #[trigger] edge_used(ws[j], e);
                            assert(edge_used(ws2[j], e));
                        }
                    }
                    assert forall|j: int, k: int, e: int|
                        0 <= j < k < ws2.len() implies !(#[trigger] edge_used(ws2[j], e) && #[trigger] edge_used(
                            ws2[k],
                            e,
                        )) by {
                        if k < m {
                            assert(!(edge_used(ws[j], e) && edge_used(ws[k], e)));
                        } else if edge_used(ws2[j], e) && edge_used(ws2[k], e) {
                            assert(edge_used(ws[j], e));
                            let i = choose|i: int| 0 <= i < w@.len() && w@[i].edge == e;
                            assert(!vk[w@[i].edge as int]);
                            assert(step_follows(es, w@[i]));
                            assert(used_before(ws, m, e));
                        }
                    }
                }
            }
            seed = seed + 1;
        }
        proof {
            let ws = walk_views(walks@);
            assert forall|e: int| 0 <= e < es.len() implies #[trigger] used_before(ws, ws.len() as int, e) by {
                assert(visited@[e]);
            }
            assert(is_loop_partition(es, ws));
        }
        LoopScan { circles, walks, failure: None }
    }

    /// The circle, when the sketch is exactly one standalone circle with both
    /// points in range and no segment or arc — the case that extrudes to an
    /// exact cylinder.
    pub fn single_circle(&self) -> (r: Option<Circle>)
        ensures
            r is Some <==> (self@.circles.len() == 1 && self@.segments.len() == 0 && self@.arcs.len() == 0
                && circle_in_range(self@.circles[0], self@.point_count as int)),
            r matches Some(c) ==> c == self@.circles[0],
    {
        if self.circles.len() != 1 || self.segments.len() > 0 || self.arcs.len() > 0 {
            return None;
        }
        let c = self.circles[0];
        if c.center >= self.point_count || c.radius_point >= self.point_count {
            return None;
        }
        Some(c)
    }

    /// Classify how well the constraints pin the sketch, given the rank of the
    /// constraint Jacobian and its number of rows at the current positions.
    ///
    /// `free_dof = dof − rank` and `redundant = rows − rank` (both saturating);
    /// the state is under-constrained whenever a degree of freedom is free,
    /// otherwise over-constrained when a row is redundant, else well-constrained.
    pub fn analyze(&self, rank: usize, rows: usize) -> (r: SketchAnalysis)
        requires
            self@.point_count * 2 <= usize::MAX,
        ensures
            r.dof == 2 * self@.point_count,
            r.rank == rank,
            r.free_dof == saturating_diff(r.dof as int, rank as int),
            r.redundant == saturating_diff(rows as int, rank as int),
            r.state == constraint_state(r.free_dof as int, r.redundant as int),
            analysis_outcome(self@, rank as int, rows as int, r),
            r.free_dof > 0 ==> r.state == ConstraintState::UnderConstrained,
            r.state == ConstraintState::WellConstrained <==> (r.free_dof == 0 && r.redundant == 0),
            r.state == ConstraintState::OverConstrained <==> (r.free_dof == 0 && r.redundant > 0),
    {
        let dof = self.point_count * 2;
        let free_dof = dof.saturating_sub(rank);
        let redundant = rows.saturating_sub(rank);
        let state = if free_dof > 0 {
            ConstraintState::UnderConstrained
        } else if redundant > 0 {
            ConstraintState::OverConstrained
        } else {
            ConstraintState::WellConstrained
        };
        SketchAnalysis { dof, rank, free_dof, redundant, state }
    }
}


// ---------------------------------------------------------------------------
// Laws.
// ---------------------------------------------------------------------------

/// A lone edge leaves its endpoints with degree one.
proof fn lemma_single_edge_not_closed(edges: Seq<Edge>, n: int)
    requires
        edges.len() == 1,
    ensures
        !graph_ok(edges, n),
{
    if endpoints_ok(edges, n) {
        let v = edges[0].a as int;
        assert(edges.drop_last() =~= Seq::<Edge>::empty());
        assert(incident_edges(edges.drop_last(), v) =~= Seq::<int>::empty());
        assert(degree(edges, v) == 1);
    }
}

/// With at least one edge, no edge fits between fewer than two points.
proof fn lemma_too_few_points_not_closed(edges: Seq<Edge>, n: int)
    requires
        edges.len() >= 1,
        n < 2,
    ensures
        !graph_ok(edges, n),
{
    if endpoints_ok(edges, n) {
        let e = edges[0];
        assert(e.a < n && e.b < n && e.a != e.b);
        assert(e.a >= 0 && e.b >= 0);
    }
}

/// In a loop partition, the first walk is the loop through edge 0.
proof fn lemma_first_walk_starts_at_zero(edges: Seq<Edge>, ws: Seq<Seq<WalkStep>>)
    requires
        edges.len() >= 1,
        is_loop_partition(edges, ws),
    ensures
        ws.len() >= 1,
        is_cycle_from(edges, ws[0], 0),
{
    assert(used_before(ws, ws.len() as int, 0));
    assert(is_cycle_from(edges, ws[0], ws[0][0].edge as int));
    if ws[0][0].edge > 0 {
        assert(used_before(ws, 0, 0));
    }
}

/// **A sketch's profile is its only loop.** For a sketch without standalone
/// circles, [`Sketch::profile`] succeeds exactly when [`Sketch::all_loops`]
/// finds no refusal and exactly one loop, and the profile's walk is that loop.
pub proof fn lemma_profile_is_the_only_loop(v: SketchView, p: Result<BoundaryTopology, SketchError>, scan: LoopScan)
    requires
        v.circles.len() == 0,
        profile_outcome(v, p),
        all_loops_outcome(v, scan),
    ensures
        p is Ok <==> (scan.failure.is_none() && scan.walks@.len() == 1),
        p matches Ok(BoundaryTopology::Walk(w)) ==> scan.walks@[0]@ == w@,
        p is Ok ==> p matches Ok(BoundaryTopology::Walk(_)),
{
    let n = v.point_count as int;
    let edges = sketch_edges(v);
    assert(scan.circles@.len() == 0);
    if !arcs_centered(v.arcs, n) {
    } else if edges.len() < 2 || n < 2 {
        if edges.len() == 1 {
            lemma_single_edge_not_closed(edges, n);
        } else if edges.len() >= 2 {
            lemma_too_few_points_not_closed(edges, n);
        }
    } else if !graph_ok(edges, n) {
    } else {
        let ws = walk_views(scan.walks@);
        lemma_first_walk_starts_at_zero(edges, ws);
        let first = ws[0];
        if single_loop_exists(edges) {
            let u = choose|u: Seq<WalkStep>| is_cycle_from(edges, u, 0) && covers_all(edges, u);
            lemma_cycle_unique(edges, n, u, first, 0);
            if ws.len() >= 2 {
                let second = ws[1];
                assert(is_cycle_from(edges, second, second[0].edge as int));
                let e = second[0].edge as int;
                assert(step_follows(edges, second[0]));
                assert(edge_used(second, e));
                assert(edge_used(u, e));
                assert(!(edge_used(ws[0], e) && edge_used(ws[1], e)));
            }
            assert(scan.walks@.len() == 1);
            match p {
                Ok(BoundaryTopology::Walk(w)) => {
                    lemma_cycle_unique(edges, n, w@, first, 0);
                },
                _ => {},
            }
        } else {
            if scan.walks@.len() == 1 {
                assert forall|e: int| 0 <= e < edges.len() implies #[trigger] edge_used(first, e) by {
                    assert(used_before(ws, 1, e));
                }
                assert(is_cycle_from(edges, first, 0) && covers_all(edges, first));
            }
        }
    }
}

/// What a walk step says of the sketch's own segments and arcs: a step along
/// segment `e` sweeps no arc; a step along arc `j` (edge `segments.len() + j`)
/// goes from the arc's first endpoint to its second when forwards and back
/// when backwards, and sweeps about the arc's center counter-clockwise exactly
/// when the arc's stored sense and the crossing direction agree.
pub open spec fn crosses_in_sense(v: SketchView, s: WalkStep) -> bool {
    let ns = v.segments.len() as int;
    if s.edge < ns {
        s.arc is None
    } else {
        let c = v.arcs[s.edge - ns];
        &&& s.arc == Some(ArcSweep { center: c.center, ccw: c.ccw == s.forward })
        &&& s.forward ==> s.from == c.a && s.to == c.b
        &&& !s.forward ==> s.from == c.b && s.to == c.a
    }
}

/// **Arcs are swept in their stored sense forwards and in the opposite sense
/// backwards.** In the walk [`Sketch::profile`] returns, a step across an arc
/// stored with sense `ccw` sweeps counter-clockwise about its center when
/// `ccw` and crossed forwards, or `!ccw` and crossed backwards, and clockwise
/// otherwise; a step along a segment sweeps no arc.
pub proof fn lemma_profile_sweep_sense(v: SketchView, r: Result<BoundaryTopology, SketchError>)
    requires
        profile_outcome(v, r),
    ensures
        r matches Ok(BoundaryTopology::Walk(w)) ==> forall|i: int|
            0 <= i < w@.len() ==> #[trigger] crosses_in_sense(v, w@[i]),
{
    match r {
        Ok(BoundaryTopology::Walk(w)) => {
            let edges = sketch_edges(v);
            assert forall|i: int| 0 <= i < w@.len() implies #[trigger] crosses_in_sense(v, w@[i]) by {
                assert(step_follows(edges, w@[i]));
            }
        },
        _ => {},
    }
}

/// **Every loop [`Sketch::all_loops`] returns sweeps its arcs in the stored
/// sense forwards and in the opposite sense backwards**, and sweeps no arc
/// along a segment.
pub proof fn lemma_all_loops_sweep_sense(v: SketchView, r: LoopScan)
    requires
        all_loops_outcome(v, r),
    ensures
        forall|k: int, i: int|
            0 <= k < r.walks@.len() && 0 <= i < r.walks@[k]@.len() ==> #[trigger] crosses_in_sense(
                v,
                r.walks@[k]@[i],
            ),
{
    let edges = sketch_edges(v);
    let ws = walk_views(r.walks@);
    assert forall|k: int, i: int|
        0 <= k < r.walks@.len() && 0 <= i < r.walks@[k]@.len() implies #[trigger] crosses_in_sense(
            v,
            r.walks@[k]@[i],
        ) by {
        assert(ws[k] == r.walks@[k]@);
        assert(is_cycle_from(edges, ws[k], ws[k][0].edge as int));
        assert(step_follows(edges, ws[k][i]));
    }
}

/// **A free degree of freedom always leaves a sketch under-constrained,
/// whatever the redundant rows.** The state [`Sketch::analyze`] reports is
/// under-constrained exactly when the rank is below the degrees of freedom
/// (`2 × points`), well-constrained exactly when the rank covers every degree
/// of freedom and every row, and over-constrained exactly when it covers every
/// degree of freedom but not every row.
pub proof fn lemma_analysis_classification(v: SketchView, rank: int, rows: int, r: SketchAnalysis)
    requires
        analysis_outcome(v, rank, rows, r),
    ensures
        r.state == ConstraintState::UnderConstrained <==> 2 * v.point_count > rank,
        r.state == ConstraintState::WellConstrained <==> (2 * v.point_count <= rank && rows <= rank),
        r.state == ConstraintState::OverConstrained <==> (2 * v.point_count <= rank && rows > rank),
        r.free_dof > 0 ==> r.state == ConstraintState::UnderConstrained,
        r.state == ConstraintState::WellConstrained <==> (r.free_dof == 0 && r.redundant == 0),
        r.free_dof == if 2 * v.point_count > rank { 2 * v.point_count - rank } else { 0 },
        r.redundant == if rows > rank { rows - rank } else { 0 },
{
}

} // verus!

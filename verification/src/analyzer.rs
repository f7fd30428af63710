//! The call graph model and the bounded, cycle-safe traversal that builds it.
//!
//! The graph owns its nodes and edges in flat vectors; edges refer to nodes by
//! index, so the structure itself stays acyclic even when the call relation it
//! encodes has cycles. Node identity is the symbol key (file URI, name,
//! definition range): a symbol is recorded once, and rediscovering it can only
//! lower its recorded depth, never duplicate it.

use vstd::prelude::*;

use crate::glob::{bytes_of, matches_any, patterns_bytes, matches_any_pattern};
use crate::CallGraphError;

verus! {

/// A half-open source range: start and end positions in a document.
#[derive(Debug, Clone, Copy, PartialEq, Eq, Structural)]
pub struct SourceRange {
    pub start_line: u32,
    pub start_character: u32,
    pub end_line: u32,
    pub end_character: u32,
}

/// A resolved callable unit: the node key of the call graph.
///
/// Identity is by (file URI, name, definition range); the symbol kind is
/// carried along but takes no part in identity.
#[derive(Debug)]
pub struct SymbolRef {
    pub uri: String,
    pub name: String,
    /// The numeric symbol kind the server reported (function, method, ...).
    pub kind: u32,
    pub range: SourceRange,
}

/// The mathematical value of a `SymbolRef`.
#[verifier::ext_equal]
pub struct SymbolRefView {
    pub uri: Seq<char>,
    pub name: Seq<char>,
    pub kind: u32,
    pub range: SourceRange,
}

impl View for SymbolRef {
    type V = SymbolRefView;

    open spec fn view(&self) -> SymbolRefView {
        SymbolRefView { uri: self.uri@, name: self.name@, kind: self.kind, range: self.range }
    }
}

/// Two symbol references name the same callable unit.
pub open spec fn same_key(a: SymbolRefView, b: SymbolRefView) -> bool {
    a.uri == b.uri && a.name == b.name && a.range == b.range
}

impl SymbolRef {
    /// An independent copy of this reference.
    pub fn duplicate(&self) -> (r: SymbolRef)
        ensures
            r@ == self@,
    {
        SymbolRef {
            uri: self.uri.clone(),
            name: self.name.clone(),
            kind: self.kind,
            range: self.range,
        }
    }

    /// Does `other` name the same callable unit as `self`?
    pub fn key_matches(&self, other: &SymbolRef) -> (r: bool)
        ensures
            r == same_key(self@, other@),
    {
        self.uri == other.uri && self.name == other.name && self.range == other.range
    }
}

/// A node of the call graph: a symbol plus its traversal attributes.
#[derive(Debug)]
pub struct CallNode {
    pub symbol: SymbolRef,
    /// The symbol resolved outside the analyzed file or project root.
    pub external: bool,
    /// Resolution of this node's calls failed (timeout or unresolvable).
    pub incomplete: bool,
    /// The shallowest depth at which the node was discovered.
    pub depth: usize,
}

/// The mathematical value of a `CallNode`.
#[verifier::ext_equal]
pub struct CallNodeView {
    pub symbol: SymbolRefView,
    pub external: bool,
    pub incomplete: bool,
    pub depth: usize,
}

impl View for CallNode {
    type V = CallNodeView;

    open spec fn view(&self) -> CallNodeView {
        CallNodeView {
            symbol: self.symbol@,
            external: self.external,
            incomplete: self.incomplete,
            depth: self.depth,
        }
    }
}

/// An edge of the call graph: caller and callee by node index, with every
/// call-site range seen between the pair.
#[derive(Debug)]
pub struct CallEdge {
    pub caller: usize,
    pub callee: usize,
    pub call_sites: Vec<SourceRange>,
}

/// The mathematical value of a `CallEdge`.
#[verifier::ext_equal]
pub struct CallEdgeView {
    pub caller: usize,
    pub callee: usize,
    pub call_sites: Seq<SourceRange>,
}

impl View for CallEdge {
    type V = CallEdgeView;

    open spec fn view(&self) -> CallEdgeView {
        CallEdgeView { caller: self.caller, callee: self.callee, call_sites: self.call_sites@ }
    }
}

/// The call graph: all nodes and edges, owned exclusively.
#[derive(Debug)]
pub struct CallGraph {
    pub nodes: Vec<CallNode>,
    pub edges: Vec<CallEdge>,
}

/// The mathematical value of a `CallGraph`.
#[verifier::ext_equal]
pub struct GraphView {
    pub nodes: Seq<CallNodeView>,
    pub edges: Seq<CallEdgeView>,
}

impl View for CallGraph {
    type V = GraphView;

    open spec fn view(&self) -> GraphView {
        GraphView {
            nodes: self.nodes@.map_values(|n: CallNode| n@),
            edges: self.edges@.map_values(|e: CallEdge| e@),
        }
    }
}

/// Some node in `nodes` has the key of `s`.
pub open spec fn has_key(nodes: Seq<CallNodeView>, s: SymbolRefView) -> bool {
    exists|j: int| 0 <= j < nodes.len() && same_key(nodes[j].symbol, s)
}

/// The index of the node with the key of `s` (meaningful when `has_key` holds
/// and keys are distinct).
pub open spec fn key_index(nodes: Seq<CallNodeView>, s: SymbolRefView) -> int {
    choose|j: int| 0 <= j < nodes.len() && same_key(nodes[j].symbol, s)
}

/// Some edge in `edges` joins caller `c` to callee `d`.
pub open spec fn has_pair(edges: Seq<CallEdgeView>, c: int, d: int) -> bool {
    exists|e: int| 0 <= e < edges.len() && edges[e].caller == c && edges[e].callee == d
}

/// The index of the edge joining `c` to `d` (meaningful when `has_pair` holds
/// and pairs are distinct).
pub open spec fn pair_index(edges: Seq<CallEdgeView>, c: int, d: int) -> int {
    choose|e: int| 0 <= e < edges.len() && edges[e].caller == c && edges[e].callee == d
}

impl GraphView {
    /// Well-formedness: node keys are distinct, edges point at nodes, and at
    /// most one edge joins any ordered pair of nodes.
    pub open spec fn wf(self) -> bool {
        &&& (forall|i: int, j: int|
            0 <= i < j < self.nodes.len() ==> !same_key(
                #[trigger] self.nodes[i].symbol,
                #[trigger] self.nodes[j].symbol,
            ))
        &&& (forall|e: int|
            0 <= e < self.edges.len() ==> (#[trigger] self.edges[e]).caller < self.nodes.len()
                && self.edges[e].callee < self.nodes.len())
        &&& (forall|e: int, f: int|
            0 <= e < f < self.edges.len() ==> !((#[trigger] self.edges[e]).caller
                == (#[trigger] self.edges[f]).caller && self.edges[e].callee
                == self.edges[f].callee))
    }
}

/// The graph after recording symbol `s` at `depth`: an existing node keeps its
/// attributes and takes the smaller depth; a new node is appended.
pub open spec fn upsert_spec(g: GraphView, s: SymbolRefView, depth: usize, ext: bool) -> GraphView {
    if has_key(g.nodes, s) {
        let j = key_index(g.nodes, s);
        let n = g.nodes[j];
        GraphView {
            nodes: g.nodes.update(
                j,
                CallNodeView { depth: if n.depth <= depth { n.depth } else { depth }, ..n },
            ),
            ..g
        }
    } else {
        GraphView {
            nodes: g.nodes.push(
                CallNodeView { symbol: s, external: ext, incomplete: false, depth },
            ),
            ..g
        }
    }
}

/// The index at which symbol `s` stands after `upsert_spec`.
pub open spec fn upsert_index(g: GraphView, s: SymbolRefView) -> int {
    if has_key(g.nodes, s) {
        key_index(g.nodes, s)
    } else {
        g.nodes.len() as int
    }
}

/// The graph after recording an edge from `c` to `d` with call sites `sites`:
/// an existing edge accumulates the sites, a new edge is appended.
pub open spec fn merge_edge_spec(g: GraphView, c: int, d: int, sites: Seq<SourceRange>) -> GraphView {
    if has_pair(g.edges, c, d) {
        let e = pair_index(g.edges, c, d);
        let ed = g.edges[e];
        GraphView { edges: g.edges.update(e, CallEdgeView { call_sites: ed.call_sites + sites, ..ed }), ..g }
    } else {
        GraphView { edges: g.edges.push(CallEdgeView { caller: c as usize, callee: d as usize, call_sites: sites }), ..g }
    }
}

/// The graph after marking node `i` incomplete.
pub open spec fn mark_spec(g: GraphView, i: int) -> GraphView {
    GraphView {
        nodes: g.nodes.update(i, CallNodeView { incomplete: true, ..g.nodes[i] }),
        ..g
    }
}

impl CallGraph {
    /// The empty graph a traversal starts from.
    pub fn new() -> (g: CallGraph)
        ensures
            g@.nodes.len() == 0,
            g@.edges.len() == 0,
            g@.wf(),
    {
        CallGraph { nodes: Vec::new(), edges: Vec::new() }
    }

    /// The number of nodes.
    pub fn node_count(&self) -> (n: usize)
        ensures
            n == self@.nodes.len(),
    {
        self.nodes.len()
    }

    /// The number of edges.
    pub fn edge_count(&self) -> (n: usize)
        ensures
            n == self@.edges.len(),
    {
        self.edges.len()
    }

    /// The node at index `i`.
    pub fn get_node(&self, i: usize) -> (n: &CallNode)
        requires
            i < self@.nodes.len(),
        ensures
            n@ == self@.nodes[i as int],
    {
        &self.nodes[i]
    }

    /// The edge at index `e`.
    pub fn get_edge(&self, e: usize) -> (r: &CallEdge)
        requires
            e < self@.edges.len(),
        ensures
            r@ == self@.edges[e as int],
    {
        &self.edges[e]
    }

    /// The index of the node keyed by `s`, if the graph holds one.
    pub fn find_node(&self, s: &SymbolRef) -> (r: Option<usize>)
        requires
            self@.wf(),
        ensures
            match r {
                Some(j) => j < self@.nodes.len() && same_key(self@.nodes[j as int].symbol, s@),
                None => !has_key(self@.nodes, s@),
            },
    {
        let mut j: usize = 0;
        while j < self.nodes.len()
            invariant
                j <= self@.nodes.len(),
                self@.nodes.len() == self.nodes@.len(),
                forall|k: int| 0 <= k < j ==> !same_key(self@.nodes[k].symbol, s@),
            decreases self@.nodes.len() - j,
        {
            if self.nodes[j].symbol.key_matches(s) {
                assert(same_key(self@.nodes[j as int].symbol, s@));
                return Some(j);
            }
            j += 1;
        }
        None
    }

    /// The index of the edge joining `c` to `d`, if the graph holds one.
    fn find_edge(&self, c: usize, d: usize) -> (r: Option<usize>)
        requires
            self@.wf(),
        ensures
            match r {
                Some(e) => e < self@.edges.len() && self@.edges[e as int].caller == c
                    && self@.edges[e as int].callee == d,
                None => !has_pair(self@.edges, c as int, d as int),
            },
    {
        let mut e: usize = 0;
        while e < self.edges.len()
            invariant
                e <= self@.edges.len(),
                self@.edges.len() == self.edges@.len(),
                forall|k: int|
                    0 <= k < e ==> !((#[trigger] self@.edges[k]).caller == c
                        && self@.edges[k].callee == d),
            decreases self@.edges.len() - e,
        {
            if self.edges[e].caller == c && self.edges[e].callee == d {
                return Some(e);
            }
            e += 1;
        }
        None
    }

    /// Record symbol `s` at `depth`, marking it `ext`ernal if new; an existing
    /// node only has its depth lowered. Returns the node's index.
    pub fn upsert_node(&mut self, s: &SymbolRef, depth: usize, ext: bool) -> (idx: usize)
        requires
            old(self)@.wf(),
        ensures
            final(self)@.wf(),
            final(self)@ == upsert_spec(old(self)@, s@, depth, ext),
            idx == upsert_index(old(self)@, s@),
            idx < final(self)@.nodes.len(),
            same_key(final(self)@.nodes[idx as int].symbol, s@),
            final(self)@.nodes.len() == if has_key(old(self)@.nodes, s@) {
                old(self)@.nodes.len()
            } else {
                old(self)@.nodes.len() + 1
            },
    {
        match self.find_node(s) {
            Some(j) => {
                proof {
                    let jj = key_index(self@.nodes, s@);
                    assert(0 <= jj < self@.nodes.len() && same_key(self@.nodes[jj].symbol, s@));
                    if jj != j as int {
                        assert(false);
                    }
                }
                if depth < self.nodes[j].depth {
                    self.nodes[j].depth = depth;
                }
                proof {
                    assert(self@.nodes =~= upsert_spec(old(self)@, s@, depth, ext).nodes);
                    assert(self@.edges =~= old(self)@.edges);
                    assert(self@ =~= upsert_spec(old(self)@, s@, depth, ext));
                }
                j
            },
            None => {
                let idx = self.nodes.len();
                self.nodes.push(
                    CallNode { symbol: s.duplicate(), external: ext, incomplete: false, depth },
                );
                proof {
                    assert(self@.nodes =~= upsert_spec(old(self)@, s@, depth, ext).nodes);
                    assert(self@.edges =~= old(self)@.edges);
                    assert(self@ =~= upsert_spec(old(self)@, s@, depth, ext));
                    assert forall|i: int, j: int|
                        0 <= i < j < self@.nodes.len() implies !same_key(
                        #[trigger] self@.nodes[i].symbol,
                        #[trigger] self@.nodes[j].symbol,
                    ) by {
                        if j == self@.nodes.len() - 1 {
                            assert(!has_key(old(self)@.nodes, s@));
                            assert(!same_key(old(self)@.nodes[i].symbol, s@));
                        }
                    }
                }
                idx
            },
        }
    }

    /// Record a call edge from node `c` to node `d` with call sites `sites`;
    /// the ranges accumulate on an existing edge.
    pub fn merge_edge(&mut self, c: usize, d: usize, sites: &Vec<SourceRange>)
        requires
            old(self)@.wf(),
            c < old(self)@.nodes.len(),
            d < old(self)@.nodes.len(),
        ensures
            final(self)@.wf(),
            final(self)@ == merge_edge_spec(old(self)@, c as int, d as int, sites@),
    {
        match self.find_edge(c, d) {
            Some(e) => {
                proof {
                    let ee = pair_index(self@.edges, c as int, d as int);
                    assert(0 <= ee < self@.edges.len() && self@.edges[ee].caller == c
                        && self@.edges[ee].callee == d);
                    if ee != e as int {
                        assert(false);
                    }
                }
                let mut combined: Vec<SourceRange> = Vec::new();
                copy_ranges(&mut combined, &self.edges[e].call_sites);
                copy_ranges(&mut combined, sites);
                let ghost old_sites = self@.edges[e as int].call_sites;
                self.edges[e] = CallEdge { caller: c, callee: d, call_sites: combined };
                proof {
                    assert(combined@ =~= old_sites + sites@);
                    assert(self@.edges =~= merge_edge_spec(old(self)@, c as int, d as int, sites@).edges);
                    assert(self@.nodes =~= old(self)@.nodes);
                    assert(self@ =~= merge_edge_spec(old(self)@, c as int, d as int, sites@));
                }
            },
            None => {
                let mut copied: Vec<SourceRange> = Vec::new();
                copy_ranges(&mut copied, sites);
                self.edges.push(CallEdge { caller: c, callee: d, call_sites: copied });
                proof {
                    assert(self@.edges =~= merge_edge_spec(old(self)@, c as int, d as int, sites@).edges);
                    assert(self@.nodes =~= old(self)@.nodes);
                    assert(self@ =~= merge_edge_spec(old(self)@, c as int, d as int, sites@));
                    assert forall|e: int, f: int|
                        0 <= e < f < self@.edges.len() implies !((#[trigger] self@.edges[e]).caller
                        == (#[trigger] self@.edges[f]).caller && self@.edges[e].callee
                        == self@.edges[f].callee) by {
                        if f == self@.edges.len() - 1 {
                            assert(!has_pair(old(self)@.edges, c as int, d as int));
                        }
                    }
                }
            },
        }
    }

    /// Mark node `i` incomplete: its calls could not be resolved.
    pub fn mark_incomplete(&mut self, i: usize)
        requires
            old(self)@.wf(),
            i < old(self)@.nodes.len(),
        ensures
            final(self)@.wf(),
            final(self)@ == mark_spec(old(self)@, i as int),
    {
        self.nodes[i].incomplete = true;
        proof {
            assert(self@.nodes =~= mark_spec(old(self)@, i as int).nodes);
            assert(self@.edges =~= old(self)@.edges);
            assert(self@ =~= mark_spec(old(self)@, i as int));
        }
    }
}

/// Append a copy of every range in `src` to `dst`.
fn copy_ranges(dst: &mut Vec<SourceRange>, src: &Vec<SourceRange>)
    ensures
        final(dst)@ == old(dst)@ + src@,
{
    let mut i: usize = 0;
    while i < src.len()
        invariant
            i <= src@.len(),
            dst@ == old(dst)@ + src@.take(i as int),
        decreases src@.len() - i,
    {
        dst.push(src[i]);
        proof {
            assert(dst@ =~= old(dst)@ + src@.take(i as int + 1));
        }
        i += 1;
    }
    proof {
        assert(dst@ =~= old(dst)@ + src@);
    }
}

} // verus!

use std::collections::VecDeque;

verus! {

/// A frontier entry: a node index paired with the traversal depth at which
/// the node was enqueued.
#[derive(Debug, Clone, Copy, PartialEq, Eq, Structural)]
pub struct FrontierEntry {
    pub node: usize,
    pub depth: usize,
}

/// One callee (or caller) reported by the server for an expanded node,
/// together with the ranges of the call sites.
#[derive(Debug)]
pub struct CallTarget {
    pub symbol: SymbolRef,
    pub call_sites: Vec<SourceRange>,
}

/// The mathematical value of a `CallTarget`.
#[verifier::ext_equal]
pub struct CallTargetView {
    pub symbol: SymbolRefView,
    pub call_sites: Seq<SourceRange>,
}

impl View for CallTarget {
    type V = CallTargetView;

    open spec fn view(&self) -> CallTargetView {
        CallTargetView { symbol: self.symbol@, call_sites: self.call_sites@ }
    }
}

/// The views of a reported call list.
pub open spec fn targets_view(ts: Seq<CallTarget>) -> Seq<CallTargetView> {
    ts.map_values(|t: CallTarget| t@)
}

/// `d + 1`, saturating at the largest `usize`.
pub open spec fn sat_inc(d: usize) -> usize {
    if d == usize::MAX {
        d
    } else {
        (d + 1) as usize
    }
}

/// `p` is a prefix of `t`.
pub open spec fn is_prefix(p: Seq<u8>, t: Seq<u8>) -> bool {
    p.len() <= t.len() && (forall|i: int| 0 <= i < p.len() ==> p[i] == t[i])
}

/// A URI is external when an analyzed project root is configured and the URI
/// does not start with it; with no root configured nothing is external.
pub open spec fn is_external_spec(root: Option<Seq<char>>, uri: Seq<char>) -> bool {
    match root {
        Some(r) => !is_prefix(bytes_of(r), bytes_of(uri)),
        None => false,
    }
}

fn bytes_starts_with(p: &[u8], t: &[u8]) -> (r: bool)
    ensures
        r == is_prefix(p@, t@),
{
    if p.len() > t.len() {
        return false;
    }
    let mut i: usize = 0;
    while i < p.len()
        invariant
            p@.len() <= t@.len(),
            i <= p@.len(),
            forall|j: int| 0 <= j < i ==> p@[j] == t@[j],
        decreases p@.len() - i,
    {
        if p[i] != t[i] {
            return false;
        }
        i += 1;
    }
    true
}

/// Is `uri` outside the configured project root?
pub fn is_external_uri(root: &Option<String>, uri: &str) -> (r: bool)
    ensures
        r == is_external_spec(opt_string_view(*root), uri@),
{
    match root {
        Some(r) => !bytes_starts_with(r.as_str().as_bytes(), uri.as_bytes()),
        None => false,
    }
}

/// The view of an optional string.
pub open spec fn opt_string_view(o: Option<String>) -> Option<Seq<char>> {
    match o {
        Some(s) => Some(s@),
        None => None,
    }
}

/// A symbol matches some exclusion pattern, on its qualified name or its file path.
pub open spec fn excluded_sym(patterns: Seq<String>, s: SymbolRefView) -> bool {
    matches_any(patterns_bytes(patterns), bytes_of(s.name)) || matches_any(
        patterns_bytes(patterns),
        bytes_of(s.uri),
    )
}

/// The popped entry is expanded further: it is below the depth limit, not
/// excluded, and not an external symbol (unless external expansion is on).
pub open spec fn expands_spec(
    g: GraphView,
    max_depth: Option<usize>,
    patterns: Seq<String>,
    include_external: bool,
    e: FrontierEntry,
) -> bool {
    &&& (max_depth matches Some(d) ==> (e.depth as int) < d as int)
    &&& !excluded_sym(patterns, g.nodes[e.node as int].symbol)
    &&& (g.nodes[e.node as int].external ==> include_external)
}

/// Every node with a positive depth marker has an in-edge from a node with a
/// strictly smaller marker: depth markers witness paths back to a root.
pub open spec fn connected(g: GraphView) -> bool {
    forall|i: int|
        0 <= i < g.nodes.len() && (#[trigger] g.nodes[i]).depth > 0 ==> exists|e: int|
            0 <= e < g.edges.len() && (#[trigger] g.edges[e]).callee == i
                && g.nodes[g.edges[e].caller as int].depth < g.nodes[i].depth
}

/// Along every edge, the callee's depth marker exceeds the caller's by at
/// most one: no path can be shorter than the markers say.
pub open spec fn depth_triangle(g: GraphView) -> bool {
    forall|e: int|
        0 <= e < g.edges.len() ==> (g.nodes[(#[trigger] g.edges[e]).callee as int].depth as int)
            <= g.nodes[g.edges[e].caller as int].depth as int + 1
}

/// The node indices of a frontier, as a set.
pub open spec fn entry_nodes(fr: Seq<FrontierEntry>) -> Set<int> {
    fr.map_values(|e: FrontierEntry| e.node as int).to_set()
}

/// The state after folding one reported call into the graph and frontier:
/// the callee is recorded at the current depth plus one, the edge is merged,
/// and a newly created callee is enqueued.
pub open spec fn apply_target(
    g: GraphView,
    fr: Seq<FrontierEntry>,
    cur: FrontierEntry,
    root: Option<Seq<char>>,
    t: CallTargetView,
) -> (GraphView, Seq<FrontierEntry>) {
    let depth = sat_inc(cur.depth);
    let ext = is_external_spec(root, t.symbol.uri);
    let idx = upsert_index(g, t.symbol);
    let g1 = upsert_spec(g, t.symbol, depth, ext);
    let g2 = merge_edge_spec(g1, cur.node as int, idx, t.call_sites);
    let fr1 = if has_key(g.nodes, t.symbol) {
        fr
    } else {
        fr.push(FrontierEntry { node: idx as usize, depth })
    };
    (g2, fr1)
}

/// The state after folding a whole reported call list, in server order.
pub open spec fn apply_targets(
    g: GraphView,
    fr: Seq<FrontierEntry>,
    cur: FrontierEntry,
    root: Option<Seq<char>>,
    ts: Seq<CallTargetView>,
) -> (GraphView, Seq<FrontierEntry>)
    decreases ts.len(),
{
    if ts.len() <= 0 {
        (g, fr)
    } else {
        let (g1, f1) = apply_target(g, fr, cur, root, ts[0]);
        apply_targets(g1, f1, cur, root, ts.drop_first())
    }
}

proof fn lemma_apply_targets_snoc(
    g: GraphView,
    fr: Seq<FrontierEntry>,
    cur: FrontierEntry,
    root: Option<Seq<char>>,
    ts: Seq<CallTargetView>,
    t: CallTargetView,
)
    ensures
        apply_targets(g, fr, cur, root, ts.push(t)) == ({
            let (g1, f1) = apply_targets(g, fr, cur, root, ts);
            apply_target(g1, f1, cur, root, t)
        }),
    decreases ts.len(),
{
    if ts.len() == 0 {
        let (g1, f1) = apply_target(g, fr, cur, root, t);
        assert(ts.push(t)[0] == t);
        assert(ts.push(t).drop_first().len() == 0);
        assert(apply_targets(g1, f1, cur, root, ts.push(t).drop_first()) == (g1, f1));
        assert(apply_targets(g, fr, cur, root, ts) == (g, fr));
    } else {
        let (g1, f1) = apply_target(g, fr, cur, root, ts[0]);
        assert(ts.push(t)[0] == ts[0]);
        assert(ts.push(t).drop_first() =~= ts.drop_first().push(t));
        lemma_apply_targets_snoc(g1, f1, cur, root, ts.drop_first(), t);
        assert(apply_targets(g, fr, cur, root, ts.push(t)) == apply_targets(
            g1,
            f1,
            cur,
            root,
            ts.drop_first().push(t),
        ));
        assert(apply_targets(g, fr, cur, root, ts) == apply_targets(
            g1,
            f1,
            cur,
            root,
            ts.drop_first(),
        ));
    }
}

/// The breadth-first, depth-bounded, cycle-safe traversal state.
///
/// The builder is a state machine: a driver repeatedly asks `next_request`
/// which node to query, performs the call-hierarchy query through the session,
/// and hands the outcome back through `on_response` or `on_failure`. The
/// resulting graph is a function of the configuration, the roots, and the
/// sequence of outcomes alone.
pub struct Builder {
    pub graph: CallGraph,
    /// Not-yet-expanded nodes, in breadth-first discovery order.
    pub frontier: VecDeque<FrontierEntry>,
    /// The entry handed out by `next_request` and awaiting its outcome.
    pub current: Option<FrontierEntry>,
    /// The configured depth limit; `None` means unbounded.
    pub max_depth: Option<usize>,
    /// Glob patterns whose matching nodes are recorded but not expanded.
    pub exclude_patterns: Vec<String>,
    /// Expand calls of external symbols too.
    pub include_external: bool,
    /// The analyzed project root; symbols outside it are external.
    pub project_root: Option<String>,
    /// The node indices already handed out for expansion (or skipped).
    pub processed: Ghost<Set<int>>,
}

impl Builder {
    /// The view of the configured project root.
    pub open spec fn root_view(&self) -> Option<Seq<char>> {
        opt_string_view(self.project_root)
    }

    /// The frontier entry `e` would be expanded, not kept as a leaf.
    pub open spec fn entry_expands(&self, e: FrontierEntry) -> bool {
        expands_spec(self.graph@, self.max_depth, self.exclude_patterns@, self.include_external, e)
    }

    /// The configuration fields of `other` equal those of `self`.
    pub open spec fn same_config(&self, other: &Builder) -> bool {
        &&& self.max_depth == other.max_depth
        &&& self.exclude_patterns@ == other.exclude_patterns@
        &&& self.include_external == other.include_external
        &&& self.project_root == other.project_root
    }

    /// The builder invariant.
    ///
    /// Beyond graph well-formedness it ties the traversal bookkeeping
    /// together: frontier entries point at distinct, unprocessed nodes whose
    /// depth markers do not exceed the entry depth; every node is either
    /// waiting in the frontier or already processed (so no node is ever
    /// expanded twice, which is what makes cycles safe); under a depth limit
    /// every marker is bounded by the limit and witnesses a path from a root;
    /// every node's external flag records whether its URI lies outside the
    /// project root; no edge leaves an excluded node, nor an external one
    /// unless external expansion is on; and the traversal is breadth first in
    /// shape — frontier depths are nondecreasing within a two-level window,
    /// an expanded node's marker is final and no deeper than anything still
    /// queued, each entry's depth equals its node's marker, edges leave only
    /// expanded nodes, and a marker rises by at most one along any edge — so
    /// markers are exact shortest-path distances.
    pub open spec fn wf(&self) -> bool {
        let g = self.graph@;
        let fr = self.frontier@;
        &&& g.wf()
        &&& (self.max_depth matches Some(d) ==> d >= 1)
        &&& (forall|k: int| 0 <= k < fr.len() ==> (#[trigger] fr[k]).node < g.nodes.len())
        &&& (forall|k: int|
            0 <= k < fr.len() ==> g.nodes[(#[trigger] fr[k]).node as int].depth == fr[k].depth)
        &&& (forall|k: int|
            0 <= k < fr.len() ==> !self.processed@.contains((#[trigger] fr[k]).node as int))
        &&& (forall|k: int, l: int|
            0 <= k < l < fr.len() ==> (#[trigger] fr[k]).node != (#[trigger] fr[l]).node)
        &&& (forall|n: int| #[trigger] self.processed@.contains(n) ==> 0 <= n < g.nodes.len())
        &&& (forall|n: int|
            0 <= n < g.nodes.len() ==> #[trigger] self.processed@.contains(n) || exists|k: int|
                0 <= k < fr.len() && (#[trigger] fr[k]).node == n)
        &&& (self.current matches Some(c) ==> {
            &&& c.node < g.nodes.len()
            &&& g.nodes[c.node as int].depth == c.depth
            &&& self.processed@.contains(c.node as int)
            &&& (forall|n: int|
                #[trigger] self.processed@.contains(n) ==> g.nodes[n].depth <= c.depth)
            &&& (forall|k: int|
                0 <= k < fr.len() ==> c.depth <= (#[trigger] fr[k]).depth && fr[k].depth
                    <= c.depth + 1)
            &&& (self.max_depth matches Some(d) ==> (c.depth as int) < d as int)
            &&& !excluded_sym(self.exclude_patterns@, g.nodes[c.node as int].symbol)
            &&& (g.nodes[c.node as int].external ==> self.include_external)
        })
        &&& (self.max_depth matches Some(d) ==> (forall|i: int|
            0 <= i < g.nodes.len() ==> (#[trigger] g.nodes[i]).depth <= d))
        &&& (self.max_depth matches Some(d) ==> (forall|k: int|
            0 <= k < fr.len() ==> (#[trigger] fr[k]).depth <= d))
        &&& (self.max_depth is Some ==> connected(g))
        &&& (forall|e: int|
            0 <= e < g.edges.len() ==> !excluded_sym(
                self.exclude_patterns@,
                g.nodes[(#[trigger] g.edges[e]).caller as int].symbol,
            ))
        &&& (forall|i: int|
            0 <= i < g.nodes.len() ==> (#[trigger] g.nodes[i]).external == is_external_spec(
                self.root_view(),
                g.nodes[i].symbol.uri,
            ))
        &&& (forall|e: int|
            0 <= e < g.edges.len() ==> (g.nodes[(#[trigger] g.edges[e]).caller as int].external
                ==> self.include_external))
        &&& (forall|k: int, l: int|
            0 <= k <= l < fr.len() ==> (#[trigger] fr[k]).depth <= (#[trigger] fr[l]).depth
                && fr[l].depth <= fr[k].depth + 1)
        &&& (forall|n: int, k: int|
            #[trigger] self.processed@.contains(n) && 0 <= k < fr.len() ==> g.nodes[n].depth <= (
            #[trigger] fr[k]).depth)
        &&& (forall|k: int|
            0 <= k < fr.len() && (#[trigger] fr[k]).depth > 0 ==> exists|n: int|
                self.processed@.contains(n))
        &&& (forall|e: int|
            0 <= e < g.edges.len() ==> self.processed@.contains(
                (#[trigger] g.edges[e]).caller as int,
            ))
        &&& depth_triangle(g)
    }

    /// A fresh builder with an empty graph and frontier.
    ///
    /// A configured depth limit must be at least one: the configuration layer
    /// rejects a zero depth.
    pub fn new(
        max_depth: Option<usize>,
        exclude_patterns: Vec<String>,
        include_external: bool,
        project_root: Option<String>,
    ) -> (b: Builder)
        requires
            max_depth matches Some(d) ==> d >= 1,
        ensures
            b.wf(),
            b.graph@.nodes.len() == 0,
            b.graph@.edges.len() == 0,
            b.frontier@.len() == 0,
            b.current is None,
            b.processed@ == Set::<int>::empty(),
            b.max_depth == max_depth,
            b.exclude_patterns == exclude_patterns,
            b.include_external == include_external,
            b.project_root == project_root,
    {
        Builder {
            graph: CallGraph::new(),
            frontier: VecDeque::new(),
            current: None,
            max_depth,
            exclude_patterns,
            include_external,
            project_root,
            processed: Ghost(Set::empty()),
        }
    }

    /// Seed the traversal with a root symbol at depth zero, before the first
    /// expansion.
    ///
    /// A root given twice is recorded and enqueued once; all roots sit in the
    /// graph at depth zero.
    pub fn add_root(&mut self, sym: &SymbolRef)
        requires
            old(self).wf(),
            old(self).current is None,
            old(self).processed@ == Set::<int>::empty(),
        ensures
            final(self).wf(),
            final(self).current is None,
            final(self).same_config(old(self)),
            final(self).processed == old(self).processed,
            final(self).graph@ == upsert_spec(
                old(self).graph@,
                sym@,
                0,
                is_external_spec(old(self).root_view(), sym@.uri),
            ),
            final(self).frontier@ == if has_key(old(self).graph@.nodes, sym@) {
                old(self).frontier@
            } else {
                old(self).frontier@.push(
                    FrontierEntry { node: old(self).graph@.nodes.len() as usize, depth: 0 },
                )
            },
    {
        let ext = is_external_uri(&self.project_root, sym.uri.as_str());
        let before = self.graph.node_count();
        let idx = self.graph.upsert_node(sym, 0, ext);
        if self.graph.node_count() > before {
            self.frontier.push_back(FrontierEntry { node: idx, depth: 0 });
        }
        proof {
            let g0 = old(self).graph@;
            let g = self.graph@;
            let fr0 = old(self).frontier@;
            let fr = self.frontier@;
            assert forall|q: int| 0 <= q < g0.nodes.len() implies (#[trigger] g.nodes[q]).symbol
                == g0.nodes[q].symbol && g.nodes[q].depth <= g0.nodes[q].depth by {}
            if !has_key(g0.nodes, sym@) {
                assert(fr == fr0.push(FrontierEntry { node: g0.nodes.len() as usize, depth: 0 }));
                assert(fr[fr.len() - 1].node == g0.nodes.len());
                assert(g.nodes[g0.nodes.len() as int].depth == 0);
                assert forall|n: int|
                    0 <= n < g.nodes.len() implies #[trigger] self.processed@.contains(n) || exists|k: int|
                    0 <= k < fr.len() && (#[trigger] fr[k]).node == n by {
                    if n < g0.nodes.len() {
                        if !old(self).processed@.contains(n) {
                            let k0 = choose|k: int|
                                0 <= k < fr0.len() && (#[trigger] fr0[k]).node == n;
                            assert(fr[k0].node == n);
                        }
                    } else {
                        assert(fr[fr.len() - 1].node == n);
                    }
                }
            } else {
                assert(fr == fr0);
                assert(g.nodes.len() == g0.nodes.len());
                assert forall|n: int|
                    0 <= n < g.nodes.len() implies #[trigger] self.processed@.contains(n) || exists|k: int|
                    0 <= k < fr.len() && (#[trigger] fr[k]).node == n by {
                    if !old(self).processed@.contains(n) {
                        let k0 = choose|k: int| 0 <= k < fr0.len() && (#[trigger] fr0[k]).node == n;
                        assert(fr[k0].node == n);
                    }
                }
            }
            if self.max_depth is Some {
                assert forall|i: int|
                    0 <= i < g.nodes.len() && (#[trigger] g.nodes[i]).depth > 0 implies exists|e: int|
                    0 <= e < g.edges.len() && (#[trigger] g.edges[e]).callee == i
                        && g.nodes[g.edges[e].caller as int].depth < g.nodes[i].depth by {
                    assert(connected(g0));
                    assert(g0.nodes[i].depth > 0);
                    let e0 = choose|e: int|
                        0 <= e < g0.edges.len() && (#[trigger] g0.edges[e]).callee == i
                            && g0.nodes[g0.edges[e].caller as int].depth < g0.nodes[i].depth;
                    assert(g.edges[e0].callee == i
                        && g.nodes[g.edges[e0].caller as int].depth < g.nodes[i].depth);
                }
            }
        }
    }
}

} // verus!

verus! {

proof fn lemma_entry_nodes_push(s: Seq<FrontierEntry>, e: FrontierEntry)
    ensures
        entry_nodes(s.push(e)) == entry_nodes(s).insert(e.node as int),
{
    let f = |x: FrontierEntry| x.node as int;
    assert(s.push(e).map_values(f) =~= s.map_values(f).push(f(e)));
    assert forall|n: int| entry_nodes(s.push(e)).contains(n) implies entry_nodes(s).insert(
        e.node as int,
    ).contains(n) by {
        let i = choose|i: int| 0 <= i < s.push(e).map_values(f).len() && s.push(e).map_values(f)[i]
            == n;
        if i < s.len() {
            assert(s.map_values(f)[i] == n);
        }
    }
    assert forall|n: int| entry_nodes(s).insert(e.node as int).contains(n) implies entry_nodes(
        s.push(e),
    ).contains(n) by {
        if entry_nodes(s).contains(n) {
            let i = choose|i: int| 0 <= i < s.map_values(f).len() && s.map_values(f)[i] == n;
            assert(s.push(e).map_values(f)[i] == n);
        } else {
            assert(s.push(e).map_values(f)[s.len() as int] == e.node as int);
        }
    }
    assert(entry_nodes(s.push(e)) =~= entry_nodes(s).insert(e.node as int));
}

fn entry_allows_expansion(
    graph: &CallGraph,
    max_depth: Option<usize>,
    patterns: &Vec<String>,
    include_external: bool,
    e: FrontierEntry,
) -> (r: bool)
    requires
        e.node < graph@.nodes.len(),
    ensures
        r == expands_spec(graph@, max_depth, patterns@, include_external, e),
{
    let depth_ok = match max_depth {
        Some(d) => e.depth < d,
        None => true,
    };
    if !depth_ok {
        return false;
    }
    let node = graph.get_node(e.node);
    let name_ex = matches_any_pattern(patterns, node.symbol.name.as_str());
    let uri_ex = matches_any_pattern(patterns, node.symbol.uri.as_str());
    if name_ex || uri_ex {
        return false;
    }
    !node.external || include_external
}

impl Builder {
    /// Hand out the next node whose calls the session should query.
    ///
    /// Frontier entries are consumed in breadth-first order. An entry at the
    /// depth limit, one matching an exclusion pattern, or an external one
    /// (without external expansion) stays a leaf and is skipped. The returned
    /// symbol's entry is remembered until `on_response` or `on_failure` hands
    /// back its outcome; `None` means the traversal is finished.
    pub fn next_request(&mut self) -> (r: Option<SymbolRef>)
        requires
            old(self).wf(),
            old(self).current is None,
        ensures
            final(self).wf(),
            final(self).graph@ == old(self).graph@,
            final(self).same_config(old(self)),
            match r {
                None => {
                    &&& (forall|k: int|
                        0 <= k < old(self).frontier@.len() ==> !old(self).entry_expands(
                            #[trigger] old(self).frontier@[k],
                        ))
                    &&& final(self).frontier@.len() == 0
                    &&& final(self).current is None
                    &&& final(self).processed@ == old(self).processed@.union(
                        entry_nodes(old(self).frontier@),
                    )
                },
                Some(sym) => exists|k: int|
                    {
                        &&& 0 <= k < old(self).frontier@.len()
                        &&& #[trigger] old(self).entry_expands(old(self).frontier@[k])
                        &&& (forall|j: int|
                            0 <= j < k ==> !old(self).entry_expands(
                                #[trigger] old(self).frontier@[j],
                            ))
                        &&& sym@ == old(self).graph@.nodes[old(self).frontier@[k].node as int].symbol
                        &&& final(self).current == Some(old(self).frontier@[k])
                        &&& final(self).frontier@ == old(self).frontier@.skip(k + 1)
                        &&& final(self).processed@ == old(self).processed@.union(
                            entry_nodes(old(self).frontier@.take(k + 1)),
                        )
                    },
            },
    {
        let ghost fr0 = self.frontier@;
        let ghost p0 = self.processed@;
        let ghost mut k: int = 0;
        proof {
            assert(fr0.take(0) =~= Seq::<FrontierEntry>::empty());
            assert(entry_nodes(fr0.take(0)) =~= Set::<int>::empty());
            assert(p0.union(entry_nodes(fr0.take(0))) =~= p0);
            assert(fr0.skip(0) =~= fr0);
        }
        loop
            invariant
                self.wf(),
                self.current is None,
                self.graph@ == old(self).graph@,
                self.same_config(old(self)),
                self.max_depth == old(self).max_depth,
                self.exclude_patterns@ == old(self).exclude_patterns@,
                self.include_external == old(self).include_external,
                0 <= k <= fr0.len(),
                self.frontier@ == fr0.skip(k),
                self.processed@ == p0.union(entry_nodes(fr0.take(k))),
                forall|j: int| 0 <= j < k ==> !old(self).entry_expands(#[trigger] fr0[j]),
                fr0 == old(self).frontier@,
                p0 == old(self).processed@,
            decreases fr0.len() - k,
        {
            match self.frontier.pop_front() {
                None => {
                    proof {
                        assert(fr0.skip(k).len() == 0);
                        assert(fr0.take(k) =~= fr0);
                    }
                    return None;
                },
                Some(entry) => {
                    let ghost frpre = seq![entry] + self.frontier@;
                    let ghost ppre = self.processed@;
                    proof {
                        assert(frpre =~= fr0.skip(k));
                        assert(entry == fr0.skip(k)[0]);
                        assert(fr0.skip(k)[0] == fr0[k]);
                        assert(self.frontier@ =~= fr0.skip(k + 1));
                        assert(fr0.take(k + 1) =~= fr0.take(k).push(entry));
                        lemma_entry_nodes_push(fr0.take(k), entry);
                    }
                    self.processed = Ghost(self.processed@.insert(entry.node as int));
                    proof {
                        assert(self.processed@ =~= p0.union(entry_nodes(fr0.take(k + 1))));
                        // the popped entry is distinct from everything left in
                        // the frontier, so the invariant survives the insert
                        assert forall|q: int|
                            0 <= q < self.frontier@.len() implies !self.processed@.contains(
                            (#[trigger] self.frontier@[q]).node as int,
                        ) by {
                            assert(self.frontier@[q] == fr0[k + 1 + q]);
                            assert(fr0[k + 1 + q] == fr0.skip(k)[1 + q]);
                            assert(fr0.skip(k)[1 + q].node != fr0.skip(k)[0].node);
                            assert(!ppre.contains(fr0[k + 1 + q].node as int));
                        }
                        assert forall|n: int|
                            0 <= n < self.graph@.nodes.len() implies #[trigger] self.processed@.contains(
                            n,
                        ) || exists|q: int|
                            0 <= q < self.frontier@.len() && (#[trigger] self.frontier@[q]).node
                                == n by {
                            if !self.processed@.contains(n) {
                                assert(!ppre.contains(n));
                                let q0 = choose|q: int|
                                    0 <= q < frpre.len() && (#[trigger] frpre[q]).node == n;
                                assert(q0 != 0);
                                assert(self.frontier@[q0 - 1] == frpre[q0]);
                            }
                        }
                        assert forall|q: int|
                            0 <= q < self.frontier@.len() implies self.graph@.nodes[(
                        #[trigger] self.frontier@[q]).node as int].depth == self.frontier@[q].depth
                            && (self.frontier@[q].depth > 0 ==> exists|n: int|
                            self.processed@.contains(n)) by {
                            assert(self.frontier@[q] == frpre[q + 1]);
                            assert(self.processed@.contains(entry.node as int));
                        }
                        assert forall|x: int, l: int|
                            0 <= x <= l < self.frontier@.len() implies (#[trigger] self.frontier@[x]).depth
                            <= (#[trigger] self.frontier@[l]).depth && self.frontier@[l].depth
                            <= self.frontier@[x].depth + 1 by {
                            assert(self.frontier@[x] == frpre[x + 1]);
                            assert(self.frontier@[l] == frpre[l + 1]);
                        }
                        assert forall|n: int, q: int|
                            #[trigger] self.processed@.contains(n) && 0 <= q
                            < self.frontier@.len() implies self.graph@.nodes[n].depth <= (
                        #[trigger] self.frontier@[q]).depth by {
                            assert(self.frontier@[q] == frpre[q + 1]);
                            assert(frpre[0] == entry);
                            if n == entry.node as int {
                                assert(self.graph@.nodes[n].depth == entry.depth);
                            } else {
                                assert(ppre.contains(n));
                            }
                        }
                    }
                    let expand = entry_allows_expansion(
                        &self.graph,
                        self.max_depth,
                        &self.exclude_patterns,
                        self.include_external,
                        entry,
                    );
                    if expand {
                        let sym = self.graph.get_node(entry.node).symbol.duplicate();
                        self.current = Some(entry);
                        proof {
                            assert(old(self).entry_expands(fr0[k]));
                            assert(self.frontier@ == fr0.skip(k + 1));
                            assert(frpre[0] == entry);
                            assert(self.graph@.nodes[entry.node as int].depth == entry.depth);
                            assert forall|n: int| #[trigger] self.processed@.contains(n) implies
                                self.graph@.nodes[n].depth <= entry.depth by {
                                if n != entry.node as int {
                                    assert(ppre.contains(n));
                                }
                            }
                            assert forall|q: int|
                                0 <= q < self.frontier@.len() implies entry.depth <= (
                            #[trigger] self.frontier@[q]).depth && self.frontier@[q].depth
                                <= entry.depth + 1 by {
                                assert(self.frontier@[q] == frpre[q + 1]);
                            }
                        }
                        return Some(sym);
                    }
                    proof {
                        k = k + 1;
                    }
                },
            }
        }
    }
}

} // verus!

verus! {

#[verifier::rlimit(100)]
#[verifier::spinoff_prover]
proof fn lemma_mark_preserves_wf(pre: Builder, post: Builder, cur: FrontierEntry)
    requires
        pre.wf(),
        pre.current == Some(cur),
        post.graph@ == mark_spec(pre.graph@, cur.node as int),
        post.frontier@ == pre.frontier@,
        post.processed == pre.processed,
        post.current is None,
        post.same_config(&pre),
    ensures
        post.wf(),
{
    let g0 = pre.graph@;
    let g = post.graph@;
    assert forall|q: int| 0 <= q < g0.nodes.len() implies (#[trigger] g.nodes[q]).symbol
        == g0.nodes[q].symbol && g.nodes[q].depth == g0.nodes[q].depth && g.nodes[q].external
        == g0.nodes[q].external by {}
    assert forall|e: int|
        0 <= e < g.edges.len() implies (g.nodes[(#[trigger] g.edges[e]).callee as int].depth
        as int) <= g.nodes[g.edges[e].caller as int].depth as int + 1 by {
        assert(g.edges[e] == g0.edges[e]);
        assert(g.nodes[g.edges[e].callee as int].depth == g0.nodes[g0.edges[e].callee as int].depth);
        assert(g.nodes[g.edges[e].caller as int].depth == g0.nodes[g0.edges[e].caller as int].depth);
    }
    assert forall|n: int, k: int|
        #[trigger] post.processed@.contains(n) && 0 <= k < post.frontier@.len() implies g.nodes[n].depth
        <= (#[trigger] post.frontier@[k]).depth by {
        assert(g.nodes[n].depth == g0.nodes[n].depth);
    }
    assert forall|k: int|
        0 <= k < post.frontier@.len() implies g.nodes[(#[trigger] post.frontier@[k]).node as int].depth
        == post.frontier@[k].depth by {
        assert(g.nodes[post.frontier@[k].node as int].depth
            == g0.nodes[post.frontier@[k].node as int].depth);
    }
    if post.max_depth is Some {
        assert forall|m: int|
            0 <= m < g.nodes.len() && (#[trigger] g.nodes[m]).depth > 0 implies exists|e: int|
            0 <= e < g.edges.len() && (#[trigger] g.edges[e]).callee == m
                && g.nodes[g.edges[e].caller as int].depth < g.nodes[m].depth by {
            assert(connected(g0));
            let e0 = choose|e: int|
                0 <= e < g0.edges.len() && (#[trigger] g0.edges[e]).callee == m
                    && g0.nodes[g0.edges[e].caller as int].depth < g0.nodes[m].depth;
            assert(g.edges[e0].callee == m && g.nodes[g.edges[e0].caller as int].depth
                < g.nodes[m].depth);
        }
    }
}

#[verifier::rlimit(100)]
#[verifier::spinoff_prover]
proof fn lemma_response_step_wf(pre: Builder, post: Builder, cur: FrontierEntry, t: CallTargetView)
    requires
        pre.wf(),
        pre.current is None,
        post.current is None,
        post.same_config(&pre),
        post.processed == pre.processed,
        cur.node < pre.graph@.nodes.len(),
        pre.graph@.nodes[cur.node as int].depth == cur.depth,
        forall|q: int|
            0 <= q < pre.frontier@.len() ==> cur.depth <= (#[trigger] pre.frontier@[q]).depth
                && pre.frontier@[q].depth <= cur.depth + 1,
        forall|n: int|
            #[trigger] pre.processed@.contains(n) ==> pre.graph@.nodes[n].depth <= cur.depth,
        pre.processed@.contains(cur.node as int),
        !excluded_sym(pre.exclude_patterns@, pre.graph@.nodes[cur.node as int].symbol),
        (pre.graph@.nodes[cur.node as int].external ==> pre.include_external),
        (pre.max_depth matches Some(d) ==> (cur.depth as int) < d as int),
        pre.graph@.nodes.len() <= usize::MAX,
        post.graph@ == apply_target(pre.graph@, pre.frontier@, cur, pre.root_view(), t).0,
        post.frontier@ == apply_target(pre.graph@, pre.frontier@, cur, pre.root_view(), t).1,
        post.graph@.wf(),
    ensures
        post.wf(),
        post.graph@.nodes[cur.node as int].depth == cur.depth,
        forall|q: int|
            0 <= q < post.frontier@.len() ==> cur.depth <= (#[trigger] post.frontier@[q]).depth
                && post.frontier@[q].depth <= cur.depth + 1,
        forall|n: int|
            #[trigger] post.processed@.contains(n) ==> post.graph@.nodes[n].depth <= cur.depth,
        !excluded_sym(post.exclude_patterns@, post.graph@.nodes[cur.node as int].symbol),
        (post.graph@.nodes[cur.node as int].external ==> post.include_external),
        post.graph@.nodes.len() >= pre.graph@.nodes.len(),
        forall|q: int|
            0 <= q < pre.graph@.nodes.len() ==> {
                let n0 = pre.graph@.nodes[q];
                let n1 = #[trigger] post.graph@.nodes[q];
                n1.symbol == n0.symbol && n1.external == n0.external && n1.incomplete
                    == n0.incomplete && n1.depth <= n0.depth
            },
        post.graph@.edges.len() >= pre.graph@.edges.len(),
        forall|e: int|
            0 <= e < pre.graph@.edges.len() ==> (#[trigger] post.graph@.edges[e]).caller
                == pre.graph@.edges[e].caller && post.graph@.edges[e].callee
                == pre.graph@.edges[e].callee,
{
    let gpre = pre.graph@;
    let fpre = pre.frontier@;
    let rootv = pre.root_view();
    let sym = t.symbol;
    let depth = sat_inc(cur.depth);
    let ext = is_external_spec(rootv, t.symbol.uri);
    let g1 = upsert_spec(gpre, sym, depth, ext);
    let j = upsert_index(gpre, sym);
    let g2 = post.graph@;
    let fr2 = post.frontier@;
    let created = !has_key(gpre.nodes, sym);
    assert(g2 == merge_edge_spec(g1, cur.node as int, j, t.call_sites));
    assert(fr2 == if created {
        fpre.push(FrontierEntry { node: j as usize, depth })
    } else {
        fpre
    });
    if created {
        assert(j == gpre.nodes.len());
    } else {
        assert(has_key(gpre.nodes, sym));
        let jj = key_index(gpre.nodes, sym);
        assert(0 <= jj < gpre.nodes.len() && same_key(gpre.nodes[jj].symbol, sym));
    }
    assert(0 <= j < g1.nodes.len());
    assert(g1.nodes.len() == g2.nodes.len());
    if created {
        assert(j == gpre.nodes.len());
        assert(g2.nodes[j].depth == depth);
        assert forall|k: int, l: int|
            0 <= k < l < fr2.len() implies (#[trigger] fr2[k]).node != (#[trigger] fr2[l]).node by {
            if l == fr2.len() - 1 {
                assert(fr2[k] == fpre[k]);
                assert(fpre[k].node < gpre.nodes.len());
            }
        }
    } else {
        assert(fr2 == fpre);
    }
    // node attributes are preserved; depth markers only fall
    assert forall|q: int| 0 <= q < gpre.nodes.len() implies {
        let n0 = gpre.nodes[q];
        let n1 = #[trigger] g2.nodes[q];
        n1.symbol == n0.symbol && n1.external == n0.external && n1.incomplete
            == n0.incomplete && n1.depth <= n0.depth
    } by {
        if has_key(gpre.nodes, sym) && q == key_index(gpre.nodes, sym) {
            assert(g1.nodes[q] == CallNodeView {
                depth: if gpre.nodes[q].depth <= depth {
                    gpre.nodes[q].depth
                } else {
                    depth
                },
                ..gpre.nodes[q]
            });
        } else {
            assert(g1.nodes[q] == gpre.nodes[q]);
        }
    }
    assert(g2.nodes[cur.node as int].depth <= cur.depth);

    // frontier bookkeeping: new entries point at the new node only
    if created {
        assert(fr2 == fpre.push(FrontierEntry { node: j as usize, depth }));
        assert(j == gpre.nodes.len());
        assert(g2.nodes[j].depth == depth);
        assert forall|k: int, l: int|
            0 <= k < l < fr2.len() implies (#[trigger] fr2[k]).node
            != (#[trigger] fr2[l]).node by {
            if l == fr2.len() - 1 {
                assert(fr2[k] == fpre[k]);
                assert(fpre[k].node < gpre.nodes.len());
            }
        }
    } else {
        assert(fr2 == fpre);
    }
    assert forall|k: int|
        0 <= k < fr2.len() implies g2.nodes[(#[trigger] fr2[k]).node as int].depth
        <= fr2[k].depth && fr2[k].node < g2.nodes.len() && !pre.processed@.contains(
        fr2[k].node as int,
    ) by {
        if k < fpre.len() {
            assert(fr2[k] == fpre[k]);
            assert(fpre[k].node < gpre.nodes.len());
        }
    }

    // coverage: every node still waits in the frontier or was processed
    assert forall|n: int|
        0 <= n < g2.nodes.len() implies #[trigger] pre.processed@.contains(n)
        || exists|k: int| 0 <= k < fr2.len() && (#[trigger] fr2[k]).node == n by {
        if n < gpre.nodes.len() {
            if !pre.processed@.contains(n) {
                let k0 = choose|k: int|
                    0 <= k < fpre.len() && (#[trigger] fpre[k]).node == n;
                assert(fr2[k0].node == n);
            }
        } else {
            assert(created && n == j);
            assert(fr2[fr2.len() - 1].node == n);
        }
    }

    // no edge leaves an excluded node
    assert forall|e: int|
        0 <= e < g2.edges.len() implies !excluded_sym(
        pre.exclude_patterns@,
        g2.nodes[(#[trigger] g2.edges[e]).caller as int].symbol,
    ) by {
        if e < gpre.edges.len() {
            assert(g2.edges[e].caller == gpre.edges[e].caller);
            assert(g2.nodes[gpre.edges[e].caller as int].symbol
                == gpre.nodes[gpre.edges[e].caller as int].symbol);
        } else {
            assert(g2.edges[e].caller == cur.node);
        }
    }

    // processed markers are final: the only touched node is the
    // response target, and a processed target already sits at or
    // below the expansion depth, so the minimum leaves it alone
    assert forall|n: int| #[trigger] pre.processed@.contains(n) implies g2.nodes[n].depth
        == gpre.nodes[n].depth && g2.nodes[n].depth <= cur.depth by {
        if has_key(gpre.nodes, sym) && n == key_index(gpre.nodes, sym) {
            assert(gpre.nodes[n].depth <= cur.depth);
        }
    }
    assert(g2.nodes[cur.node as int].depth == cur.depth);

    // a queued target sits within one level of the expansion
    // depth, so its marker also stays equal to its entry depth
    assert forall|k: int|
        0 <= k < fr2.len() implies g2.nodes[(#[trigger] fr2[k]).node as int].depth
        == fr2[k].depth by {
        if k < fpre.len() {
            assert(fr2[k] == fpre[k]);
            if has_key(gpre.nodes, sym) && fpre[k].node as int == key_index(
                gpre.nodes,
                sym,
            ) {
                assert(gpre.nodes[fpre[k].node as int].depth == fpre[k].depth);
                assert(cur.depth <= fpre[k].depth);
            }
        } else {
            assert(g2.nodes[j].depth == depth);
        }
    }

    // the queue keeps its breadth-first shape and its window
    // around the expansion depth
    assert forall|x: int, l: int|
        0 <= x <= l < fr2.len() implies (#[trigger] fr2[x]).depth <= (
    #[trigger] fr2[l]).depth && fr2[l].depth <= fr2[x].depth + 1 by {
        if l < fpre.len() {
            assert(fr2[x] == fpre[x] && fr2[l] == fpre[l]);
        } else if x < fpre.len() {
            assert(fr2[x] == fpre[x]);
            assert(cur.depth <= fpre[x].depth);
        }
    }
    assert forall|k: int|
        0 <= k < fr2.len() implies cur.depth <= (#[trigger] fr2[k]).depth
        && fr2[k].depth <= cur.depth + 1 by {
        if k < fpre.len() {
            assert(fr2[k] == fpre[k]);
        }
    }

    // processed markers bound everything still queued; a deeper
    // entry witnesses that an expansion has happened
    assert forall|n: int, k: int|
        #[trigger] pre.processed@.contains(n) && 0 <= k < fr2.len() implies g2.nodes[n].depth
        <= (#[trigger] fr2[k]).depth by {
        assert(g2.nodes[n].depth <= cur.depth);
        assert(cur.depth <= fr2[k].depth);
    }
    assert forall|k: int|
        0 <= k < fr2.len() && (#[trigger] fr2[k]).depth > 0 implies exists|n: int|
        pre.processed@.contains(n) by {
        assert(pre.processed@.contains(cur.node as int));
    }

    // edges leave only expanded nodes, and a marker rises by at
    // most one along any edge
    assert forall|e: int|
        0 <= e < g2.edges.len() implies pre.processed@.contains(
        (#[trigger] g2.edges[e]).caller as int,
    ) by {
        if e < gpre.edges.len() {
            assert(g2.edges[e].caller == gpre.edges[e].caller);
        } else {
            assert(g2.edges[e].caller == cur.node);
        }
    }
    assert forall|e: int|
        0 <= e < g2.edges.len() implies (g2.nodes[(
    #[trigger] g2.edges[e]).callee as int].depth as int)
        <= g2.nodes[g2.edges[e].caller as int].depth as int + 1 by {
        if e < gpre.edges.len() {
            assert(g2.edges[e].caller == gpre.edges[e].caller && g2.edges[e].callee
                == gpre.edges[e].callee);
            let ca = gpre.edges[e].caller as int;
            let cl = gpre.edges[e].callee as int;
            assert(pre.processed@.contains(ca));
            assert(g2.nodes[ca].depth == gpre.nodes[ca].depth);
            assert(g2.nodes[cl].depth <= gpre.nodes[cl].depth);
            assert((gpre.nodes[cl].depth as int) <= gpre.nodes[ca].depth as int + 1);
        } else {
            assert(g2.edges[e].caller == cur.node && g2.edges[e].callee == j);
            assert(g2.nodes[cur.node as int].depth == cur.depth);
            assert(g2.nodes[j].depth <= depth);
        }
    }

    // under a depth limit: markers stay bounded and witness paths
    if pre.max_depth is Some {
        assert forall|m: int|
            0 <= m < g2.nodes.len() implies (#[trigger] g2.nodes[m]).depth <= (
            pre.max_depth->0) by {
            if !(m < gpre.nodes.len()) {
                assert(g2.nodes[m].depth == depth);
            }
        }
        assert forall|m: int|
            0 <= m < g2.nodes.len() && (#[trigger] g2.nodes[m]).depth > 0 implies exists|e: int|
            0 <= e < g2.edges.len() && (#[trigger] g2.edges[e]).callee == m
                && g2.nodes[g2.edges[e].caller as int].depth < g2.nodes[m].depth by {
            let epos: int = if has_pair(g1.edges, cur.node as int, j) {
                pair_index(g1.edges, cur.node as int, j)
            } else {
                g1.edges.len() as int
            };
            assert(0 <= epos < g2.edges.len());
            assert(g2.edges[epos].caller == cur.node && g2.edges[epos].callee == j);
            if m == j && g2.nodes[m].depth > cur.depth {
                assert(g2.nodes[cur.node as int].depth < g2.nodes[m].depth);
            } else {
                assert(m < gpre.nodes.len());
                assert(g2.nodes[m].depth == gpre.nodes[m].depth);
                assert(connected(gpre));
                let e0 = choose|e: int|
                    0 <= e < gpre.edges.len() && (#[trigger] gpre.edges[e]).callee == m
                        && gpre.nodes[gpre.edges[e].caller as int].depth
                        < gpre.nodes[m].depth;
                assert(g2.edges[e0].callee == m);
                assert(g2.edges[e0].caller == gpre.edges[e0].caller);
                assert(g2.nodes[g2.edges[e0].caller as int].depth
                    <= gpre.nodes[gpre.edges[e0].caller as int].depth);
            }
        }
    }
}

impl Builder {
    /// Fold the reported calls of the node handed out by `next_request` into
    /// the graph: each reported symbol is recorded at the current depth plus
    /// one (or keeps a shallower depth from an earlier discovery), the edge
    /// from the expanded node is merged with its call sites, and each newly
    /// created node is enqueued — a previously seen node is never re-enqueued,
    /// which is what keeps cycles finite.
    #[verifier::rlimit(100)]
    #[verifier::spinoff_prover]
    pub fn on_response(&mut self, calls: &Vec<CallTarget>)
        requires
            old(self).wf(),
            old(self).current is Some,
        ensures
            final(self).wf(),
            final(self).current is None,
            final(self).same_config(old(self)),
            final(self).processed == old(self).processed,
            old(self).current matches Some(cur) ==> ({
                let r2 = apply_targets(
                    old(self).graph@,
                    old(self).frontier@,
                    cur,
                    old(self).root_view(),
                    targets_view(calls@),
                );
                final(self).graph@ == r2.0 && final(self).frontier@ == r2.1
            }),
            final(self).graph@.nodes.len() >= old(self).graph@.nodes.len(),
            forall|q: int|
                0 <= q < old(self).graph@.nodes.len() ==> {
                    let n0 = old(self).graph@.nodes[q];
                    let n1 = #[trigger] final(self).graph@.nodes[q];
                    n1.symbol == n0.symbol && n1.external == n0.external && n1.incomplete
                        == n0.incomplete && n1.depth <= n0.depth
                },
            final(self).graph@.edges.len() >= old(self).graph@.edges.len(),
            forall|e: int|
                0 <= e < old(self).graph@.edges.len()
                    ==> (#[trigger] final(self).graph@.edges[e]).caller
                    == old(self).graph@.edges[e].caller && final(self).graph@.edges[e].callee
                    == old(self).graph@.edges[e].callee,
    {
        let cur = self.current.unwrap();
        self.current = None;
        let ghost g0 = self.graph@;
        let ghost f0 = self.frontier@;
        let ghost rootv = self.root_view();
        let ghost tv = targets_view(calls@);
        proof {
            assert(tv.take(0) =~= Seq::<CallTargetView>::empty());
            assert(self.graph@ == old(self).graph@ && self.frontier@ == old(self).frontier@
                && self.processed@ == old(self).processed@);
            assert(self.wf());
        }
        let mut i: usize = 0;
        while i < calls.len()
            invariant
                self.wf(),
                self.current is None,
                self.max_depth == old(self).max_depth,
                self.exclude_patterns@ == old(self).exclude_patterns@,
                self.include_external == old(self).include_external,
                self.project_root == old(self).project_root,
                self.processed == old(self).processed,
                i <= calls@.len(),
                tv.len() == calls@.len(),
                self.graph@ == apply_targets(g0, f0, cur, rootv, tv.take(i as int)).0,
                self.frontier@ == apply_targets(g0, f0, cur, rootv, tv.take(i as int)).1,
                cur.node < self.graph@.nodes.len(),
                self.graph@.nodes[cur.node as int].depth == cur.depth,
                forall|q: int|
                    0 <= q < self.frontier@.len() ==> cur.depth <= (
                    #[trigger] self.frontier@[q]).depth && self.frontier@[q].depth <= cur.depth
                        + 1,
                forall|n: int|
                    #[trigger] self.processed@.contains(n) ==> self.graph@.nodes[n].depth
                        <= cur.depth,
                (self.max_depth matches Some(d) ==> (cur.depth as int) < d as int),
                !excluded_sym(self.exclude_patterns@, self.graph@.nodes[cur.node as int].symbol),
                (self.graph@.nodes[cur.node as int].external ==> self.include_external),
                self.processed@.contains(cur.node as int),
                self.graph@.nodes.len() >= g0.nodes.len(),
                forall|q: int|
                    0 <= q < g0.nodes.len() ==> {
                        let n0 = g0.nodes[q];
                        let n1 = #[trigger] self.graph@.nodes[q];
                        n1.symbol == n0.symbol && n1.external == n0.external && n1.incomplete
                            == n0.incomplete && n1.depth <= n0.depth
                    },
                self.graph@.edges.len() >= g0.edges.len(),
                forall|e: int|
                    0 <= e < g0.edges.len() ==> (#[trigger] self.graph@.edges[e]).caller
                        == g0.edges[e].caller && self.graph@.edges[e].callee == g0.edges[e].callee,
                g0 == old(self).graph@,
                f0 == old(self).frontier@,
                rootv == old(self).root_view(),
                tv == targets_view(calls@),
                old(self).current == Some(cur),
            decreases calls@.len() - i,
        {
            let ghost pre_state = *self;
            let t = &calls[i];
            let ext = is_external_uri(&self.project_root, t.symbol.uri.as_str());
            let depth = if cur.depth == usize::MAX {
                usize::MAX
            } else {
                cur.depth + 1
            };
            let ghost gpre = self.graph@;
            let ghost fpre = self.frontier@;
            let before = self.graph.node_count();
            let idx = self.graph.upsert_node(&t.symbol, depth, ext);
            let created = self.graph.node_count() > before;
            proof {
                assert(calls@[i as int]@ == tv[i as int]);
                assert(t.symbol@ == tv[i as int].symbol);
                assert(depth == sat_inc(cur.depth));
                assert(created == !has_key(gpre.nodes, tv[i as int].symbol));
            }
            self.graph.merge_edge(cur.node, idx, &t.call_sites);
            if created {
                self.frontier.push_back(FrontierEntry { node: idx, depth });
            }
            proof {
                let sym = tv[i as int].symbol;
                let g1 = upsert_spec(gpre, sym, depth, ext);
                let j = upsert_index(gpre, sym);
                let g2 = self.graph@;
                let fr2 = self.frontier@;
                assert(idx == j);
                assert(g2 == merge_edge_spec(g1, cur.node as int, j, tv[i as int].call_sites));
                assert(fr2 == apply_target(gpre, fpre, cur, rootv, tv[i as int]).1);
                assert(g2 == apply_target(gpre, fpre, cur, rootv, tv[i as int]).0);
                lemma_apply_targets_snoc(g0, f0, cur, rootv, tv.take(i as int), tv[i as int]);
                assert(tv.take(i as int + 1) =~= tv.take(i as int).push(tv[i as int]));
                assert(g2 == apply_targets(g0, f0, cur, rootv, tv.take(i as int + 1)).0);
                assert(fr2 == apply_targets(g0, f0, cur, rootv, tv.take(i as int + 1)).1);

                assert(pre_state.graph@.nodes.len() == gpre.nodes.len());
                lemma_response_step_wf(pre_state, *self, cur, tv[i as int]);
            }
            i += 1;
        }
        proof {
            assert(tv.take(calls@.len() as int) =~= tv);
        }
    }

    /// Record that the node handed out by `next_request` could not be
    /// resolved (timeout or unresolvable position): the node is marked
    /// incomplete and the traversal goes on — the frontier, and with it every
    /// sibling branch, is untouched.
    #[verifier::rlimit(100)]
    #[verifier::spinoff_prover]
    pub fn on_failure(&mut self)
        requires
            old(self).wf(),
            old(self).current is Some,
        ensures
            final(self).wf(),
            final(self).current is None,
            final(self).same_config(old(self)),
            final(self).processed == old(self).processed,
            final(self).frontier@ == old(self).frontier@,
            old(self).current matches Some(cur) ==> final(self).graph@ == mark_spec(
                old(self).graph@,
                cur.node as int,
            ),
    {
        let cur = self.current.unwrap();
        self.current = None;
        self.graph.mark_incomplete(cur.node);
        proof {
            lemma_mark_preserves_wf(*old(self), *self, cur);
        }
    }

    /// The finished graph, handed off by value once traversal is done.
    pub fn into_graph(self) -> (g: CallGraph)
        ensures
            g@ == self.graph@,
    {
        self.graph
    }

    /// The graph built so far.
    pub fn graph(&self) -> (g: &CallGraph)
        ensures
            g@ == self.graph@,
    {
        &self.graph
    }
}

} // verus!

verus! {

/// Node `i` of `g` lies within `n` edges of some root (a node whose depth
/// marker is zero), walking edges backwards from callee to caller.
pub open spec fn within_depth(g: GraphView, i: int, n: nat) -> bool
    decreases n,
{
    if !(0 <= i < g.nodes.len()) {
        false
    } else if g.nodes[i].depth == 0 {
        true
    } else if n == 0 {
        false
    } else {
        exists|e: int|
            0 <= e < g.edges.len() && (#[trigger] g.edges[e]).callee == i && within_depth(
                g,
                g.edges[e].caller as int,
                (n - 1) as nat,
            )
    }
}

proof fn lemma_within_depth_mono(g: GraphView, i: int, m: nat, n: nat)
    requires
        within_depth(g, i, m),
        m <= n,
    ensures
        within_depth(g, i, n),
    decreases m,
{
    if g.nodes[i].depth != 0 {
        let e = choose|e: int|
            0 <= e < g.edges.len() && (#[trigger] g.edges[e]).callee == i && within_depth(
                g,
                g.edges[e].caller as int,
                (m - 1) as nat,
            );
        lemma_within_depth_mono(g, g.edges[e].caller as int, (m - 1) as nat, (n - 1) as nat);
    }
}

proof fn lemma_connected_within_depth(g: GraphView, i: int)
    requires
        g.wf(),
        connected(g),
        0 <= i < g.nodes.len(),
    ensures
        within_depth(g, i, g.nodes[i].depth as nat),
    decreases g.nodes[i].depth,
{
    if g.nodes[i].depth > 0 {
        let e = choose|e: int|
            0 <= e < g.edges.len() && (#[trigger] g.edges[e]).callee == i
                && g.nodes[g.edges[e].caller as int].depth < g.nodes[i].depth;
        let c = g.edges[e].caller as int;
        lemma_connected_within_depth(g, c);
        lemma_within_depth_mono(g, c, g.nodes[c].depth as nat, (g.nodes[i].depth - 1) as nat);
    }
}

/// Under a depth limit `d`, no node of the built graph lies farther than `d`
/// from a root: every node's depth marker is at most `d`, and the node is
/// reachable from some root within that many call edges, so its shortest-path
/// distance cannot exceed `d`.
pub proof fn lemma_depth_bounded(b: &Builder, d: usize, i: int)
    requires
        b.wf(),
        b.max_depth == Some(d),
        0 <= i < b.graph@.nodes.len(),
    ensures
        b.graph@.nodes[i].depth <= d,
        within_depth(b.graph@, i, b.graph@.nodes[i].depth as nat),
        within_depth(b.graph@, i, d as nat),
{
    lemma_connected_within_depth(b.graph@, i);
    lemma_within_depth_mono(b.graph@, i, b.graph@.nodes[i].depth as nat, d as nat);
}

/// A node whose name or path matches an exclusion pattern is recorded in the
/// graph but never expanded: no edge of the built graph leaves it.
pub proof fn lemma_excluded_nodes_are_leaves(b: &Builder, e: int)
    requires
        b.wf(),
        0 <= e < b.graph@.edges.len(),
    ensures
        !excluded_sym(b.exclude_patterns@, b.graph@.nodes[b.graph@.edges[e].caller as int].symbol),
{
}

proof fn lemma_within_implies_marker(g: GraphView, i: int, k: nat)
    requires
        depth_triangle(g),
        within_depth(g, i, k),
    ensures
        0 <= i < g.nodes.len(),
        g.nodes[i].depth <= k,
    decreases k,
{
    if g.nodes[i].depth > 0 {
        let e = choose|e: int|
            0 <= e < g.edges.len() && (#[trigger] g.edges[e]).callee == i && within_depth(
                g,
                g.edges[e].caller as int,
                (k - 1) as nat,
            );
        lemma_within_implies_marker(g, g.edges[e].caller as int, (k - 1) as nat);
    }
}

/// Under a depth limit, a node's depth marker is exactly its shortest-path
/// distance from the root set: some path of the marker's length reaches the
/// node, and no shorter one does — the traversal is breadth first, so a
/// marker can never overstate the distance.
pub proof fn lemma_marker_is_shortest_distance(b: &Builder, i: int)
    requires
        b.wf(),
        b.max_depth is Some,
        0 <= i < b.graph@.nodes.len(),
    ensures
        within_depth(b.graph@, i, b.graph@.nodes[i].depth as nat),
        forall|k: nat|
            #[trigger] within_depth(b.graph@, i, k) ==> b.graph@.nodes[i].depth <= k,
{
    lemma_connected_within_depth(b.graph@, i);
    assert forall|k: nat| #[trigger] within_depth(b.graph@, i, k) implies b.graph@.nodes[i].depth
        <= k by {
        lemma_within_implies_marker(b.graph@, i, k);
    }
}

/// A node's external flag records exactly whether its file URI lies outside
/// the configured project root.
pub proof fn lemma_external_flag_correct(b: &Builder, i: int)
    requires
        b.wf(),
        0 <= i < b.graph@.nodes.len(),
    ensures
        b.graph@.nodes[i].external == is_external_spec(
            b.root_view(),
            b.graph@.nodes[i].symbol.uri,
        ),
{
}

/// Without external expansion, an external symbol is recorded in the graph
/// but never expanded: no edge of the built graph leaves it.
pub proof fn lemma_external_nodes_are_leaves(b: &Builder, e: int)
    requires
        b.wf(),
        !b.include_external,
        0 <= e < b.graph@.edges.len(),
    ensures
        !b.graph@.nodes[b.graph@.edges[e].caller as int].external,
{
}

/// The traversal is deterministic: from equal states, equal responses lead to
/// equal states. Together with the exact contracts of `add_root`,
/// `next_request`, `on_response` and `on_failure` — each pins the next state
/// as a function of the previous state and the event alone — re-running the
/// builder against identical session responses yields an identical graph.
pub proof fn lemma_traversal_deterministic(
    g1: GraphView,
    f1: Seq<FrontierEntry>,
    g2: GraphView,
    f2: Seq<FrontierEntry>,
    cur: FrontierEntry,
    root: Option<Seq<char>>,
    ts: Seq<CallTargetView>,
)
    requires
        g1 == g2,
        f1 == f2,
    ensures
        apply_targets(g1, f1, cur, root, ts) == apply_targets(g2, f2, cur, root, ts),
{
}

/// Cycle safety: the frontier never holds the same node twice, and a node
/// that was already handed out for expansion never re-enters it. Every node
/// is therefore expanded at most once, and a cyclic call chain cannot make
/// the traversal revisit it.
pub proof fn lemma_node_expanded_at_most_once(b: &Builder, k1: int, k2: int)
    requires
        b.wf(),
        0 <= k1 < b.frontier@.len(),
        0 <= k2 < b.frontier@.len(),
        k1 != k2,
    ensures
        b.frontier@[k1].node != b.frontier@[k2].node,
        !b.processed@.contains(b.frontier@[k1].node as int),
{
}

} // verus!

verus! {

/// The relational contract of `next_request` pins one outcome: there is only
/// one first expandable frontier position. With the exact contracts of the
/// other transitions, a whole re-run against identical session responses can
/// only retrace the same states.
pub proof fn lemma_next_request_deterministic(b: &Builder, k1: int, k2: int)
    requires
        0 <= k1 < b.frontier@.len(),
        b.entry_expands(b.frontier@[k1]),
        forall|j: int| 0 <= j < k1 ==> !b.entry_expands(#[trigger] b.frontier@[j]),
        0 <= k2 < b.frontier@.len(),
        b.entry_expands(b.frontier@[k2]),
        forall|j: int| 0 <= j < k2 ==> !b.entry_expands(#[trigger] b.frontier@[j]),
    ensures
        k1 == k2,
{
    if k1 < k2 {
        assert(!b.entry_expands(b.frontier@[k1]));
    }
    if k2 < k1 {
        assert(!b.entry_expands(b.frontier@[k2]));
    }
}

} // verus!

verus! {

/// A named symbol of the analyzed document, as the session reports it: the
/// name and the selection range of its defining token.
#[derive(Debug)]
pub struct NamedSymbol {
    pub name: String,
    pub range: SourceRange,
}

/// The ranges of the first `k` symbols whose name is `root`.
pub open spec fn matching_ranges(symbols: Seq<NamedSymbol>, root: Seq<char>, k: int) -> Seq<
    SourceRange,
>
    decreases k,
{
    if k <= 0 {
        Seq::empty()
    } else if symbols[k - 1].name@ == root {
        matching_ranges(symbols, root, k - 1).push(symbols[k - 1].range)
    } else {
        matching_ranges(symbols, root, k - 1)
    }
}

/// The ranges of the first `k` symbols.
pub open spec fn all_ranges(symbols: Seq<NamedSymbol>, k: int) -> Seq<SourceRange>
    decreases k,
{
    if k <= 0 {
        Seq::empty()
    } else {
        all_ranges(symbols, k - 1).push(symbols[k - 1].range)
    }
}

/// Resolve the traversal roots among the document's symbols: with a root
/// function name, the ranges of exactly the symbols bearing that name, in
/// document order, and `RootNotFoundError` naming it when none does; without
/// one, every symbol's range.
pub fn select_root_ranges(symbols: &Vec<NamedSymbol>, root: &Option<String>) -> (r: Result<
    Vec<SourceRange>,
    CallGraphError,
>)
    ensures
        match r {
            Ok(v) => match root {
                Some(name) => v@ == matching_ranges(symbols@, name@, symbols@.len() as int)
                    && v@.len() > 0,
                None => v@ == all_ranges(symbols@, symbols@.len() as int),
            },
            Err(e) => e is RootNotFoundError && (root matches Some(name) && matching_ranges(
                symbols@,
                name@,
                symbols@.len() as int,
            ).len() == 0),
        },
{
    let mut out: Vec<SourceRange> = Vec::new();
    match root {
        Some(name) => {
            let mut i: usize = 0;
            while i < symbols.len()
                invariant
                    i <= symbols@.len(),
                    out@ == matching_ranges(symbols@, name@, i as int),
                decreases symbols@.len() - i,
            {
                if symbols[i].name == *name {
                    out.push(symbols[i].range);
                }
                i += 1;
            }
            if out.len() == 0 {
                let mut m = "root function not found: ".to_owned();
                m.append(name.as_str());
                return Err(CallGraphError::RootNotFoundError(m));
            }
            Ok(out)
        },
        None => {
            let mut i: usize = 0;
            while i < symbols.len()
                invariant
                    i <= symbols@.len(),
                    out@ == all_ranges(symbols@, i as int),
                decreases symbols@.len() - i,
            {
                out.push(symbols[i].range);
                i += 1;
            }
            Ok(out)
        },
    }
}

} // verus!

//! Rendering the finished call graph as a DOT graph description.
//!
//! Nodes are written in index order as `"n<index>" [label="<name>"]`, with
//! `style=dashed` marking external symbols and `color=red` marking nodes
//! whose calls could not be resolved; edges follow as `"n<i>" -> "n<j>"`.
//! Names are written verbatim into the label. Writing the text to a file is
//! the caller's business.

use vstd::prelude::*;

use crate::analyzer::{CallEdgeView, CallGraph, CallNodeView, GraphView};
use crate::config::Config;
use crate::text::{dec_str, push_usize_dec};

verus! {

/// The DOT line declaring node `i`.
pub open spec fn node_line(n: CallNodeView, i: int) -> Seq<char> {
    "    \"n"@ + dec_str(i as nat) + "\" [label=\""@ + n.symbol.name + "\""@ + (if n.external {
        ", style=dashed"@
    } else {
        Seq::<char>::empty()
    }) + (if n.incomplete {
        ", color=red"@
    } else {
        Seq::<char>::empty()
    }) + "];\n"@
}

/// The DOT line declaring an edge.
pub open spec fn edge_line(e: CallEdgeView) -> Seq<char> {
    "    \"n"@ + dec_str(e.caller as nat) + "\" -> \"n"@ + dec_str(e.callee as nat) + "\";\n"@
}

/// The node lines of the first `k` nodes, in index order.
pub open spec fn dot_nodes(nodes: Seq<CallNodeView>, k: int) -> Seq<char>
    decreases k,
{
    if k <= 0 {
        Seq::empty()
    } else {
        dot_nodes(nodes, k - 1) + node_line(nodes[k - 1], k - 1)
    }
}

/// The edge lines of the first `k` edges, in order.
pub open spec fn dot_edges(edges: Seq<CallEdgeView>, k: int) -> Seq<char>
    decreases k,
{
    if k <= 0 {
        Seq::empty()
    } else {
        dot_edges(edges, k - 1) + edge_line(edges[k - 1])
    }
}

/// The whole graph description.
pub open spec fn dot_text(g: GraphView) -> Seq<char> {
    "digraph CallGraph {\n    rankdir=TB;\n"@ + dot_nodes(g.nodes, g.nodes.len() as int)
        + dot_edges(g.edges, g.edges.len() as int) + "}\n"@
}

fn push_node_line(s: &mut String, graph: &CallGraph, i: usize)
    requires
        i < graph@.nodes.len(),
    ensures
        final(s)@ == old(s)@ + node_line(graph@.nodes[i as int], i as int),
{
    let node = graph.get_node(i);
    s.append("    \"n");
    push_usize_dec(s, i);
    s.append("\" [label=\"");
    s.append(node.symbol.name.as_str());
    s.append("\"");
    if node.external {
        s.append(", style=dashed");
    }
    if node.incomplete {
        s.append(", color=red");
    }
    s.append("];\n");
    proof {
        assert(final(s)@ =~= old(s)@ + node_line(graph@.nodes[i as int], i as int));
    }
}

fn push_edge_line(s: &mut String, graph: &CallGraph, e: usize)
    requires
        e < graph@.edges.len(),
    ensures
        final(s)@ == old(s)@ + edge_line(graph@.edges[e as int]),
{
    let edge = graph.get_edge(e);
    s.append("    \"n");
    push_usize_dec(s, edge.caller);
    s.append("\" -> \"n");
    push_usize_dec(s, edge.callee);
    s.append("\";\n");
    proof {
        assert(final(s)@ =~= old(s)@ + edge_line(graph@.edges[e as int]));
    }
}

/// Renders a call graph as DOT text.
pub struct DotGenerator {}

impl DotGenerator {
    /// A renderer for the given configuration.
    pub fn new(_config: &Config) -> DotGenerator {
        DotGenerator {  }
    }

    /// The DOT text of the graph: header, every node in index order, every
    /// edge in insertion order, closing brace.
    pub fn generate(&self, graph: &CallGraph) -> (r: String)
        ensures
            r@ == dot_text(graph@),
    {
        let mut s = String::new();
        s.append("digraph CallGraph {\n    rankdir=TB;\n");
        proof {
            assert(s@ =~= "digraph CallGraph {\n    rankdir=TB;\n"@);
        }
        let ghost header = s@;
        let mut i: usize = 0;
        while i < graph.node_count()
            invariant
                i <= graph@.nodes.len(),
                s@ == header + dot_nodes(graph@.nodes, i as int),
                header == "digraph CallGraph {\n    rankdir=TB;\n"@,
            decreases graph@.nodes.len() - i,
        {
            push_node_line(&mut s, graph, i);
            proof {
                assert(s@ =~= header + dot_nodes(graph@.nodes, i as int + 1));
            }
            i += 1;
        }
        let ghost with_nodes = s@;
        let mut e: usize = 0;
        while e < graph.edge_count()
            invariant
                e <= graph@.edges.len(),
                s@ == with_nodes + dot_edges(graph@.edges, e as int),
                with_nodes == header + dot_nodes(graph@.nodes, graph@.nodes.len() as int),
                header == "digraph CallGraph {\n    rankdir=TB;\n"@,
            decreases graph@.edges.len() - e,
        {
            push_edge_line(&mut s, graph, e);
            proof {
                assert(s@ =~= with_nodes + dot_edges(graph@.edges, e as int + 1));
            }
            e += 1;
        }
        s.append("}\n");
        proof {
            assert(s@ =~= dot_text(graph@));
        }
        s
    }
}

} // verus!

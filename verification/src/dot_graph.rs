//! Graphs: a tree of nodes, edges, attributes and nested graphs, read from
//! text and written back to it.

use crate::attributs::{Attributs, Entries};
use crate::block::{extract_subgraphes_position, spans, subgraph_positions};
use crate::edge::{edge_views, extend_edges, render_edge, Edge, EdgeView};
use crate::graph_type::GraphType;
use crate::node::{extend_nodes, node_views, render_node, Node, NodeView};
use crate::parsing_error::{Failure, ParsingError};
use crate::statement::{classify, classify_statements, line_content};
use crate::text::{
    append, ascii_trimmed, begins_with, chars_of, join, join_with, lemma_find,
    lemma_split_once_shorter, split, split_in, split_once, split_once_in, starts_with, string_of,
    subvec, trim, trim_ascii, trimmed, views,
};
use vstd::prelude::*;

verus! {

/// A graph, with the graphs nested in it. The nodes and edges held here are
/// those of this level only.
#[derive(PartialEq, Eq, Debug)]
pub struct DotGraph {
    pub family: GraphType,
    pub nodes: Vec<Node>,
    pub edges: Vec<Edge>,
    pub sous_graphes: Vec<DotGraph>,
    pub attributs: Attributs,
    pub name: String,
}

/// What a `DotGraph` stands for.
#[verifier::ext_equal]
pub struct GraphView {
    pub family: GraphType,
    pub nodes: Seq<NodeView>,
    pub edges: Seq<EdgeView>,
    pub subgraphs: Seq<GraphView>,
    pub attributs: Option<Entries>,
    pub name: Seq<char>,
}

/// What the graph `g` stands for: its own parts by their views, and the
/// graphs nested in it by theirs.
pub open spec fn graph_view(g: DotGraph) -> GraphView
    decreases g,
{
    GraphView {
        family: g.family,
        nodes: node_views(g.nodes@),
        edges: edge_views(g.edges@),
        subgraphs: Seq::new(
            g.sous_graphes@.len(),
            |i: int|
                if 0 <= i < g.sous_graphes@.len() {
                    graph_view(g.sous_graphes@[i])
                } else {
                    arbitrary()
                },
        ),
        attributs: g.attributs@,
        name: g.name@,
    }
}

impl View for DotGraph {
    type V = GraphView;

    open spec fn view(&self) -> GraphView {
        graph_view(*self)
    }
}

/// The views of the graphs of `v`, in order.
pub open spec fn graph_views(v: Seq<DotGraph>) -> Seq<GraphView> {
    Seq::new(v.len(), |i: int| v[i]@)
}

/// The graph that an empty text stands for: without direction, name or
/// content.
pub open spec fn default_graph() -> GraphView {
    GraphView {
        family: GraphType::Graph,
        nodes: Seq::empty(),
        edges: Seq::empty(),
        subgraphs: Seq::empty(),
        attributs: None,
        name: Seq::empty(),
    }
}

/// The family of the block with the header `head`, nested in a graph of
/// the family `parent` if any: `digraph` and `graph` name their own, and
/// `subgraph` takes that of the graph around it.
pub open spec fn graph_type_of(head: Seq<char>, parent: Option<GraphType>) -> Result<
    GraphType,
    Failure,
> {
    if starts_with(head, "digraph"@) {
        Ok(GraphType::Digraph)
    } else if starts_with(head, "graph"@) {
        Ok(GraphType::Graph)
    } else if starts_with(head, "subgraph"@) {
        match parent {
            Some(family) => Ok(family),
            None => Err(Failure::MissingParentType),
        }
    } else {
        Err(Failure::UnknownGraphKeyword(head))
    }
}

/// The name that the header `head` gives: what follows its first space,
/// without the white space around it; `NoName` where nothing is left of
/// it, or where the header holds no space.
pub open spec fn graph_name(head: Seq<char>) -> Seq<char> {
    match split_once(head, " "@) {
        Some((_, name)) if trim(name).len() > 0 => trim(name),
        _ => "NoName"@,
    }
}

/// The text of `body` from the first to the second position of `span`,
/// both included; nothing where they are not in that order inside `body`,
/// as happens when a block was closed before the keyword that was found.
pub open spec fn span_text(body: Seq<char>, span: (int, int)) -> Seq<char> {
    if 0 <= span.0 <= span.1 < body.len() {
        body.subrange(span.0, span.1 + 1)
    } else {
        Seq::empty()
    }
}

/// `body` without the text of `span`.
pub open spec fn remove_span(body: Seq<char>, span: (int, int)) -> Seq<char> {
    if 0 <= span.0 <= span.1 < body.len() {
        body.subrange(0, span.0) + body.subrange(span.1 + 1, body.len() as int)
    } else {
        body
    }
}

/// `body` without the texts of `found`, taken out from the last to the
/// first, so that the positions of those still to go stay good.
pub open spec fn remove_spans(body: Seq<char>, found: Seq<(int, int)>) -> Seq<char>
    decreases found.len(),
{
    if found.len() == 0 {
        body
    } else {
        remove_spans(remove_span(body, found.last()), found.drop_last())
    }
}

/// `body` without the closing brace at its end, if it ends with one.
pub open spec fn strip_closing_brace(body: Seq<char>) -> Seq<char> {
    if body.len() > 0 && body.last() == '}' {
        body.drop_last()
    } else {
        body
    }
}

/// The graphs read from the blocks `found` of `body`, in order, each
/// nested in a graph of the family `family`. The first block that is
/// refused gives the failure.
pub open spec fn parse_children(body: Seq<char>, found: Seq<(int, int)>, family: GraphType)
    -> Result<Seq<GraphView>, Failure>
    decreases body.len(), 1int, found.len(),
{
    if found.len() == 0 {
        Ok(Seq::empty())
    } else {
        match parse_children(body, found.drop_last(), family) {
            Err(e) => Err(e),
            Ok(children) => match parse_graph(span_text(body, found.last()), Some(family)) {
                Err(e) => Err(e),
                Ok(child) => Ok(children.push(child)),
            },
        }
    }
}

/// The nested graphs of `body` and what is left of it without their text
/// and without the closing brace at its end, if it ends with one.
pub open spec fn extract(body: Seq<char>, family: GraphType) -> Result<
    (Seq<GraphView>, Seq<char>),
    Failure,
>
    decreases body.len(), 2int,
{
    match subgraph_positions(body, 0) {
        Err(e) => Err(e),
        Ok(found) => match parse_children(body, found, family) {
            Err(e) => Err(e),
            Ok(children) => Ok((children, strip_closing_brace(remove_spans(body, found)))),
        },
    }
}

/// The graph that `content` stands for, nested in a graph of the family
/// `parent` if any. A text of white space alone is the empty graph. Any
/// other is a header, an opening brace and a body: the header gives the
/// family and the name; the nested blocks of the body give the nested
/// graphs; the statements of what is left of the body give the nodes, the
/// edges and the attributes.
pub open spec fn parse_graph(content: Seq<char>, parent: Option<GraphType>) -> Result<
    GraphView,
    Failure,
>
    decreases content.len(), 0int,
{
    if trim(content).len() == 0 {
        Ok(default_graph())
    } else {
        match split_once(content, "{"@) {
            None => Err(Failure::NoBodyFound),
            Some((head, body)) => match graph_type_of(head, parent) {
                Err(e) => Err(e),
                Ok(family) => {
                    proof {
                        lemma_split_once_shorter(content, "{"@);
                        reveal_strlit("{");
                    }
                    match extract(body, family) {
                        Err(e) => Err(e),
                        Ok((children, rest)) => match classify(rest, family) {
                            Err(e) => Err(e),
                            Ok(found) => Ok(
                                GraphView {
                                    family,
                                    nodes: found.nodes,
                                    edges: found.edges,
                                    subgraphs: children,
                                    attributs: Some(found.attributs),
                                    name: graph_name(head),
                                },
                            ),
                        },
                    }
                },
            },
        }
    }
}

/// The nodes of a graph and of the graphs nested in it, at any depth: its
/// own first, then those of each nested graph in turn.
pub open spec fn all_nodes(g: GraphView) -> Seq<NodeView>
    decreases g, 1int,
{
    g.nodes + nodes_of_first(g, g.subgraphs.len() as int)
}

/// The nodes of the first `n` graphs nested in `g`, at any depth.
pub open spec fn nodes_of_first(g: GraphView, n: int) -> Seq<NodeView>
    decreases g, 0int, n,
{
    if n <= 0 || n > g.subgraphs.len() {
        Seq::empty()
    } else {
        nodes_of_first(g, n - 1) + all_nodes(g.subgraphs[n - 1])
    }
}

/// The edges of a graph and of the graphs nested in it, at any depth: its
/// own first, then those of each nested graph in turn.
pub open spec fn all_edges(g: GraphView) -> Seq<EdgeView>
    decreases g, 1int,
{
    g.edges + edges_of_first(g, g.subgraphs.len() as int)
}

/// The edges of the first `n` graphs nested in `g`, at any depth.
pub open spec fn edges_of_first(g: GraphView, n: int) -> Seq<EdgeView>
    decreases g, 0int, n,
{
    if n <= 0 || n > g.subgraphs.len() {
        Seq::empty()
    } else {
        edges_of_first(g, n - 1) + all_edges(g.subgraphs[n - 1])
    }
}

/// The statements of the nodes, each after a line break.
pub open spec fn render_nodes(nodes: Seq<NodeView>) -> Seq<char>
    decreases nodes.len(),
{
    if nodes.len() == 0 {
        Seq::empty()
    } else {
        render_nodes(nodes.drop_last()) + "\r\n"@ + render_node(nodes.last())
    }
}

/// The statements of the edges, each after a line break.
pub open spec fn render_edges(edges: Seq<EdgeView>) -> Seq<char>
    decreases edges.len(),
{
    if edges.len() == 0 {
        Seq::empty()
    } else {
        render_edges(edges.drop_last()) + "\r\n"@ + render_edge(edges.last())
    }
}

/// The text of a graph: the keyword of its family, its name, and between
/// braces its nodes, its edges and the texts of the graphs nested in it. A
/// nested graph is written with the keyword of its family, as any graph.
/// The attributes of the graph itself are not written.
pub open spec fn render_graph(g: GraphView) -> Seq<char>
    decreases g, 1int,
{
    g.family.keyword_text() + " "@ + g.name + " { \r\n"@ + render_nodes(g.nodes) + "\r\n\r\n"@
        + render_edges(g.edges) + "\r\n\r\n"@ + render_first(g, g.subgraphs.len() as int)
        + "\r\n}"@
}

/// The texts of the first `n` graphs nested in `g`, each before a line
/// break.
pub open spec fn render_first(g: GraphView, n: int) -> Seq<char>
    decreases g, 0int, n,
{
    if n <= 0 || n > g.subgraphs.len() {
        Seq::empty()
    } else {
        render_first(g, n - 1) + render_graph(g.subgraphs[n - 1]) + "\r\n"@
    }
}

/// The lines of a text that hold more than a comment and white space, each
/// without them.
pub open spec fn kept_lines(lines: Seq<Seq<char>>) -> Seq<Seq<char>>
    decreases lines.len(),
{
    if lines.len() == 0 {
        Seq::empty()
    } else if line_content(lines.last()).len() == 0 {
        kept_lines(lines.drop_last())
    } else {
        kept_lines(lines.drop_last()).push(line_content(lines.last()))
    }
}

/// A text made ready for reading: its lines without comments and white
/// space around them, the empty ones left out, joined by `;`.
pub open spec fn normalize(text: Seq<char>) -> Seq<char> {
    join(kept_lines(split(text, "\n"@)), ";"@)
}

/// The graph that a whole text stands for.
pub open spec fn parse_document(text: Seq<char>) -> Result<GraphView, Failure> {
    parse_graph(normalize(text), None)
}

/// The lines of a text that hold more than ASCII white space, each without
/// that at its ends.
pub open spec fn kept_ascii_lines(lines: Seq<Seq<char>>) -> Seq<Seq<char>>
    decreases lines.len(),
{
    if lines.len() == 0 {
        Seq::empty()
    } else if trim_ascii(lines.last()).len() == 0 {
        kept_ascii_lines(lines.drop_last())
    } else {
        kept_ascii_lines(lines.drop_last()).push(trim_ascii(lines.last()))
    }
}

/// The content of a file made ready for reading: its lines, which
/// `line_end` separates, without the ASCII white space at their ends, the
/// empty ones left out, joined by a carriage return and a line feed.
pub open spec fn tidy_lines(text: Seq<char>, line_end: Seq<char>) -> Seq<char> {
    join(kept_ascii_lines(split(text, line_end)), "\r\n"@)
}

/// The nested graphs of the view of a graph are the views of its nested
/// graphs.
pub proof fn lemma_view_subgraphs(g: DotGraph)
    ensures
        g@.subgraphs == graph_views(g.sous_graphes@),
{
    assert(g@.subgraphs =~= graph_views(g.sous_graphes@));
}

/// A failure among the first `n` blocks is the failure of them all.
proof fn lemma_child_failure_stays(
    body: Seq<char>,
    found: Seq<(int, int)>,
    family: GraphType,
    n: int,
)
    requires
        0 <= n <= found.len(),
        parse_children(body, found.take(n), family) is Err,
    ensures
        parse_children(body, found, family) == parse_children(body, found.take(n), family),
    decreases found.len() - n,
{
    if n < found.len() {
        assert(found.take(n + 1).drop_last() =~= found.take(n));
        lemma_child_failure_stays(body, found, family, n + 1);
    } else {
        assert(found.take(n) =~= found);
    }
}

/// Finds the family of a block from its header and from the family of the
/// graph around it, if there is one.
pub fn get_type_graph(content: &str, parent: Option<GraphType>) -> (r: Result<
    GraphType,
    ParsingError,
>)
    ensures
        match r {
            Ok(family) => graph_type_of(content@, parent) == Ok::<_, Failure>(family),
            Err(e) => graph_type_of(content@, parent) == Err::<GraphType, _>(e@),
        },
{
    let head = chars_of(content);
    if begins_with(&head, &chars_of("digraph")) {
        return Ok(GraphType::Digraph);
    }
    if begins_with(&head, &chars_of("graph")) {
        return Ok(GraphType::Graph);
    }
    if begins_with(&head, &chars_of("subgraph")) {
        return match parent {
            Some(family) => Ok(family),
            None => Err(ParsingError::MissingParentType),
        };
    }
    Err(ParsingError::UnknownGraphKeyword(String::from_str(content)))
}

impl Default for DotGraph {
    /// The graph without direction, name or content.
    fn default() -> (r: DotGraph)
        ensures
            r@ == default_graph(),
    {
        let r = DotGraph {
            family: GraphType::Graph,
            nodes: Vec::new(),
            edges: Vec::new(),
            sous_graphes: Vec::new(),
            attributs: Attributs::default(),
            name: String::new(),
        };
        assert(r@.nodes =~= Seq::empty());
        assert(r@.edges =~= Seq::empty());
        assert(r@.subgraphs =~= Seq::empty());
        r
    }
}

impl Clone for DotGraph {
    fn clone(&self) -> (r: DotGraph)
        ensures
            r@ == self@,
        decreases self,
    {
        let mut nodes: Vec<Node> = Vec::new();
        assert(node_views(nodes@) =~= Seq::empty());
        extend_nodes(&mut nodes, &self.nodes);
        assert(node_views(nodes@) =~= node_views(self.nodes@));
        let mut edges: Vec<Edge> = Vec::new();
        assert(edge_views(edges@) =~= Seq::empty());
        extend_edges(&mut edges, &self.edges);
        assert(edge_views(edges@) =~= edge_views(self.edges@));
        let mut sous_graphes: Vec<DotGraph> = Vec::new();
        let mut i: usize = 0;
        assert(graph_views(self.sous_graphes@).take(0) =~= graph_views(sous_graphes@));
        while i < self.sous_graphes.len()
            invariant
                i <= self.sous_graphes.len(),
                graph_views(sous_graphes@) == graph_views(self.sous_graphes@).take(i as int),
            decreases self.sous_graphes.len() - i,
        {
            let ghost so_far = graph_views(sous_graphes@);
            let inner = self.sous_graphes[i].clone();
            sous_graphes.push(inner);
            assert(graph_views(sous_graphes@) =~= so_far.push(inner@));
            assert(graph_views(self.sous_graphes@).take(i + 1) =~= graph_views(
                self.sous_graphes@,
            ).take(i as int).push(inner@));
            i += 1;
        }
        assert(graph_views(self.sous_graphes@).take(i as int) =~= graph_views(
            self.sous_graphes@,
        ));
        let r = DotGraph {
            family: self.family,
            nodes,
            edges,
            sous_graphes,
            attributs: self.attributs.clone(),
            name: self.name.clone(),
        };
        proof {
            lemma_view_subgraphs(r);
            lemma_view_subgraphs(*self);
        }
        r
    }
}

impl DotGraph {
    /// The graph made of the given parts.
    pub fn new(
        family: GraphType,
        nodes: Vec<Node>,
        edges: Vec<Edge>,
        sous_graphes: Vec<DotGraph>,
        attributs: Attributs,
        name: String,
    ) -> (r: DotGraph)
        ensures
            r == (DotGraph { family, nodes, edges, sous_graphes, attributs, name }),
    {
        DotGraph { family, name, nodes, edges, attributs, sous_graphes }
    }

    /// The name of the graph.
    pub fn name(&self) -> (r: &String)
        ensures
            r == &self.name,
    {
        &self.name
    }

    /// The nodes of the graph and of the graphs nested in it, at any depth:
    /// its own first, then those of each nested graph in turn.
    pub fn nodes(&self) -> (r: Vec<Node>)
        ensures
            node_views(r@) == all_nodes(self@),
        decreases self,
    {
        let mut nodes: Vec<Node> = Vec::new();
        assert(node_views(nodes@) =~= Seq::empty());
        extend_nodes(&mut nodes, &self.nodes);
        assert(node_views(nodes@) =~= node_views(self.nodes@));
        proof {
            lemma_view_subgraphs(*self);
        }
        let mut k: usize = 0;
        while k < self.sous_graphes.len()
            invariant
                k <= self.sous_graphes.len(),
                self@.subgraphs == graph_views(self.sous_graphes@),
                node_views(nodes@) == self@.nodes + nodes_of_first(self@, k as int),
            decreases self.sous_graphes.len() - k,
        {
            let inner = self.sous_graphes[k].nodes();
            extend_nodes(&mut nodes, &inner);
            k += 1;
        }
        nodes
    }

    /// The edges of the graph and of the graphs nested in it, at any depth:
    /// its own first, then those of each nested graph in turn.
    pub fn edges(&self) -> (r: Vec<Edge>)
        ensures
            edge_views(r@) == all_edges(self@),
        decreases self,
    {
        let mut edges: Vec<Edge> = Vec::new();
        assert(edge_views(edges@) =~= Seq::empty());
        extend_edges(&mut edges, &self.edges);
        assert(edge_views(edges@) =~= edge_views(self.edges@));
        proof {
            lemma_view_subgraphs(*self);
        }
        let mut k: usize = 0;
        while k < self.sous_graphes.len()
            invariant
                k <= self.sous_graphes.len(),
                self@.subgraphs == graph_views(self.sous_graphes@),
                edge_views(edges@) == self@.edges + edges_of_first(self@, k as int),
            decreases self.sous_graphes.len() - k,
        {
            let inner = self.sous_graphes[k].edges();
            extend_edges(&mut edges, &inner);
            k += 1;
        }
        edges
    }

    /// The graph as text.
    pub fn as_dot_content(&self) -> (r: String)
        ensures
            r@ == render_graph(self@),
        decreases self,
    {
        let mut content = self.family.to_string();
        content.append(" ");
        content.append(self.name.as_str());
        content.append(" { \r\n");
        let ghost head = content@;
        let mut i: usize = 0;
        assert(self@.nodes.take(0) =~= Seq::empty());
        while i < self.nodes.len()
            invariant
                i <= self.nodes.len(),
                content@ == head + render_nodes(self@.nodes.take(i as int)),
            decreases self.nodes.len() - i,
        {
            proof {
                assert(self@.nodes.take(i + 1).drop_last() =~= self@.nodes.take(i as int));
                assert(self@.nodes.take(i + 1).last() == self.nodes@[i as int]@);
            }
            content.append("\r\n");
            let node = self.nodes[i].to_string();
            content.append(node.as_str());
            i += 1;
        }
        assert(self@.nodes.take(i as int) =~= self@.nodes);
        content.append("\r\n\r\n");
        let ghost head = content@;
        let mut i: usize = 0;
        assert(self@.edges.take(0) =~= Seq::empty());
        while i < self.edges.len()
            invariant
                i <= self.edges.len(),
                content@ == head + render_edges(self@.edges.take(i as int)),
            decreases self.edges.len() - i,
        {
            proof {
                assert(self@.edges.take(i + 1).drop_last() =~= self@.edges.take(i as int));
                assert(self@.edges.take(i + 1).last() == self.edges@[i as int]@);
            }
            content.append("\r\n");
            let edge = self.edges[i].to_string();
            content.append(edge.as_str());
            i += 1;
        }
        assert(self@.edges.take(i as int) =~= self@.edges);
        content.append("\r\n\r\n");
        let ghost head = content@;
        proof {
            lemma_view_subgraphs(*self);
        }
        let mut k: usize = 0;
        while k < self.sous_graphes.len()
            invariant
                k <= self.sous_graphes.len(),
                self@.subgraphs == graph_views(self.sous_graphes@),
                content@ == head + render_first(self@, k as int),
            decreases self.sous_graphes.len() - k,
        {
            let inner = self.sous_graphes[k].as_dot_content();
            content.append(inner.as_str());
            content.append("\r\n");
            k += 1;
        }
        content.append("\r\n}");
        content
    }

    /// Reads a graph from a whole text. Comments, which run from `//` to
    /// the end of their line, do not count, and a line break ends a
    /// statement as `;` does.
    pub fn try_from(content: &str) -> (r: Result<DotGraph, ParsingError>)
        ensures
            match r {
                Ok(graph) => parse_document(content@) == Ok::<_, Failure>(graph@),
                Err(e) => parse_document(content@) == Err::<GraphView, _>(e@),
            },
    {
        let lines = split_in(&chars_of(content), &chars_of("\n"));
        let mut kept: Vec<Vec<char>> = Vec::new();
        let ghost all = views(lines@);
        let mut i: usize = 0;
        proof {
            assert(all.take(0) =~= Seq::empty());
            assert(views(kept@) =~= Seq::empty());
        }
        while i < lines.len()
            invariant
                i <= lines.len(),
                all == views(lines@),
                views(kept@) == kept_lines(all.take(i as int)),
            decreases lines.len() - i,
        {
            proof {
                assert(all.take(i + 1).drop_last() =~= all.take(i as int));
                assert(all.take(i + 1).last() == lines@[i as int]@);
            }
            let line = crate::statement::cleaned(&lines[i]);
            if line.len() > 0 {
                let ghost before = views(kept@);
                kept.push(line);
                assert(views(kept@) =~= before.push(line@));
            }
            i += 1;
        }
        assert(all.take(i as int) =~= all);
        let mut cleaned_content = string_of(&join_with(&kept, &chars_of(";")));
        DotGraph::create_graph(&mut cleaned_content, None)
    }

    /// Reads a graph from the content of a file whose lines `line_end`
    /// separates: the lines lose the ASCII white space at their ends, the
    /// empty ones are left out, and what is left is read as a whole text.
    fn from_lines(content: &str, line_end: &str) -> (r: Result<DotGraph, ParsingError>)
        ensures
            match r {
                Ok(graph) => parse_document(tidy_lines(content@, line_end@)) == Ok::<_, Failure>(
                    graph@,
                ),
                Err(e) => parse_document(tidy_lines(content@, line_end@)) == Err::<GraphView, _>(
                    e@,
                ),
            },
    {
        let lines = split_in(&chars_of(content), &chars_of(line_end));
        let mut kept: Vec<Vec<char>> = Vec::new();
        let ghost all = views(lines@);
        let mut i: usize = 0;
        proof {
            assert(all.take(0) =~= Seq::empty());
            assert(views(kept@) =~= Seq::empty());
        }
        while i < lines.len()
            invariant
                i <= lines.len(),
                all == views(lines@),
                views(kept@) == kept_ascii_lines(all.take(i as int)),
            decreases lines.len() - i,
        {
            proof {
                assert(all.take(i + 1).drop_last() =~= all.take(i as int));
                assert(all.take(i + 1).last() == lines@[i as int]@);
            }
            let line = ascii_trimmed(&lines[i]);
            if line.len() > 0 {
                let ghost before = views(kept@);
                kept.push(line);
                assert(views(kept@) =~= before.push(line@));
            }
            i += 1;
        }
        assert(all.take(i as int) =~= all);
        let cleaned_file = string_of(&join_with(&kept, &chars_of("\r\n")));
        DotGraph::try_from(cleaned_file.as_str())
    }

    /// Reads a graph from the content of a file, with a line feed at the
    /// end of each line. The lines are tidied first, which changes nothing
    /// of what is read: the result is that of reading the content as a
    /// whole text.
    pub fn from_file_content(content: &str) -> (r: Result<DotGraph, ParsingError>)
        ensures
            match r {
                Ok(graph) => parse_document(content@) == Ok::<_, Failure>(graph@),
                Err(e) => parse_document(content@) == Err::<GraphView, _>(e@),
            },
    {
        proof {
            crate::file_lines::lemma_tidy_lines(content@, "\n"@);
        }
        DotGraph::from_lines(content, "\n")
    }

    /// Reads a graph from the content of a file, with a carriage return and
    /// a line feed between each two lines. The lines are tidied first,
    /// which changes nothing of what is read: the result is that of reading
    /// the content as a whole text.
    pub fn from_crlf_file_content(content: &str) -> (r: Result<DotGraph, ParsingError>)
        ensures
            match r {
                Ok(graph) => parse_document(content@) == Ok::<_, Failure>(graph@),
                Err(e) => parse_document(content@) == Err::<GraphView, _>(e@),
            },
    {
        proof {
            crate::file_lines::lemma_tidy_lines(content@, "\r\n"@);
        }
        DotGraph::from_lines(content, "\r\n")
    }

    /// The name that a header gives, or `NoName` where it gives none.
    fn name_of(head: &Vec<char>) -> (r: String)
        ensures
            r@ == graph_name(head@),
    {
        match split_once_in(head, &chars_of(" ")) {
            Some((_, rest)) => {
                let name = trimmed(&rest);
                if name.len() > 0 {
                    string_of(&name)
                } else {
                    String::from_str("NoName")
                }
            },
            None => String::from_str("NoName"),
        }
    }

    /// Reads a graph from `content`, nested in a graph of the family
    /// `parent` if any. The text is left as it was.
    pub fn create_graph(content: &mut String, parent: Option<GraphType>) -> (r: Result<
        DotGraph,
        ParsingError,
    >)
        ensures
            final(content)@ == old(content)@,
            match r {
                Ok(graph) => parse_graph(old(content)@, parent) == Ok::<_, Failure>(graph@),
                Err(e) => parse_graph(old(content)@, parent) == Err::<GraphView, _>(e@),
            },
        decreases old(content)@.len(), 0int,
    {
        let chars = chars_of(content.as_str());
        if trimmed(&chars).len() == 0 {
            return Ok(DotGraph::default());
        }
        match split_once_in(&chars, &chars_of("{")) {
            None => Err(ParsingError::NoBodyFound),
            Some((head, body)) => {
                proof {
                    lemma_find(chars@, "{"@);
                    reveal_strlit("{");
                }
                let head_text = string_of(&head);
                match get_type_graph(head_text.as_str(), parent) {
                    Err(e) => Err(e),
                    Ok(family) => {
                        let name = DotGraph::name_of(&head);
                        let mut body_text = string_of(&body);
                        match DotGraph::extract_subgraphes(&mut body_text, family) {
                            Err(e) => Err(e),
                            Ok(children) => match classify_statements(body_text.as_str(), family) {
                                Err(e) => Err(e),
                                Ok(found) => {
                                    let graph = DotGraph {
                                        family,
                                        nodes: found.nodes,
                                        edges: found.edges,
                                        sous_graphes: children,
                                        attributs: found.attributs,
                                        name,
                                    };
                                    proof {
                                        lemma_view_subgraphs(graph);
                                    }
                                    Ok(graph)
                                },
                            },
                        }
                    },
                }
            },
        }
    }

    /// Takes the nested blocks out of `body`: returns the graphs read from
    /// them, each nested in a graph of the family `parent`, and leaves in
    /// `body` what stands outside the blocks, without the closing brace at
    /// its end. Where a block is refused, `body` is left as it was.
    pub fn extract_subgraphes(body: &mut String, parent: GraphType) -> (r: Result<
        Vec<DotGraph>,
        ParsingError,
    >)
        ensures
            match r {
                Ok(children) => extract(old(body)@, parent) == Ok::<_, Failure>(
                    (graph_views(children@), final(body)@),
                ),
                Err(e) => extract(old(body)@, parent) == Err::<(Seq<GraphView>, Seq<char>), _>(e@)
                    && final(body)@ == old(body)@,
            },
        decreases old(body)@.len(), 2int,
    {
        let found = match extract_subgraphes_position(body.as_str()) {
            Ok(found) => found,
            Err(e) => {
                return Err(e);
            },
        };
        let chars = chars_of(body.as_str());
        let ghost all = spans(found@);
        let mut children: Vec<DotGraph> = Vec::new();
        let mut i: usize = 0;
        proof {
            assert(all.take(0) =~= Seq::empty());
            assert(graph_views(children@) =~= Seq::empty());
        }
        while i < found.len()
            invariant
                i <= found.len(),
                all == spans(found@),
                chars@ == old(body)@,
                chars@ == body@,
                subgraph_positions(chars@, 0) == Ok::<_, Failure>(all),
                parse_children(chars@, all.take(i as int), parent) == Ok::<_, Failure>(
                    graph_views(children@),
                ),
            decreases found.len() - i,
        {
            proof {
                assert(all.take(i + 1).drop_last() =~= all.take(i as int));
                assert(all.take(i + 1).last() == all[i as int]);
            }
            let start: usize = found[i].0;
            let end: usize = found[i].1;
            let mut text = if start <= end && end < chars.len() {
                string_of(&subvec(&chars, start, end + 1))
            } else {
                String::new()
            };
            match DotGraph::create_graph(&mut text, Some(parent)) {
                Ok(child) => {
                    let ghost before = graph_views(children@);
                    children.push(child);
                    assert(graph_views(children@) =~= before.push(child@));
                },
                Err(e) => {
                    proof {
                        lemma_child_failure_stays(chars@, all, parent, i + 1);
                    }
                    return Err(e);
                },
            }
            i += 1;
        }
        assert(all.take(i as int) =~= all);
        let mut rest = subvec(&chars, 0, chars.len());
        assert(rest@ =~= chars@);
        let mut k: usize = found.len();
        while k > 0
            invariant
                k <= found.len(),
                all == spans(found@),
                remove_spans(chars@, all) == remove_spans(rest@, all.take(k as int)),
            decreases k,
        {
            proof {
                assert(all.take(k as int).drop_last() =~= all.take(k - 1));
                assert(all.take(k as int).last() == all[k - 1]);
            }
            k -= 1;
            let start: usize = found[k].0;
            let end: usize = found[k].1;
            if start <= end && end < rest.len() {
                let mut kept = subvec(&rest, 0, start);
                let tail = subvec(&rest, end + 1, rest.len());
                append(&mut kept, &tail);
                rest = kept;
            }
        }
        assert(all.take(0) =~= Seq::empty());
        if rest.len() > 0 && rest[rest.len() - 1] == '}' {
            rest.pop();
        }
        *body = string_of(&rest);
        Ok(children)
    }
}

} // verus!

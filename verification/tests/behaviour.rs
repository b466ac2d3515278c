use dot_parser::attribut::{as_key_value, Attribut};
use dot_parser::attributs::Attributs;
use dot_parser::block::{extract_subgraphes_position, next_block_range};
use dot_parser::dot_graph::{get_type_graph, DotGraph};
use dot_parser::edge::Edge;
use dot_parser::graph_type::GraphType;
use dot_parser::node::Node;
use dot_parser::parsing_error::ParsingError;
use dot_parser::statement::{clean_line, classify_statements};
use dot_parser::type_relation::TypeRelation;

fn list(entries: &[(&str, &str)]) -> Attributs {
    Attributs::from(entries.iter().map(|(k, v)| (k.to_string(), v.to_string())).collect())
}

fn identifiers(nodes: &[Node]) -> Vec<String> {
    nodes.iter().map(|n| n.identifier.clone()).collect()
}

fn ends(edges: &[Edge]) -> Vec<(String, String)> {
    edges.iter().map(|e| (e.node_out.clone(), e.node_in.clone())).collect()
}

#[test]
fn single_level_digraph() {
    let graph = DotGraph::try_from("digraph G { A; B; A -> B; }").unwrap();
    assert_eq!(graph.name, "G");
    assert!(graph.family == GraphType::Digraph);
    assert_eq!(graph.nodes, vec![Node::new("A", Attributs::default()), Node::new("B", Attributs::default())]);
    assert_eq!(ends(&graph.edges), vec![("A".to_string(), "B".to_string())]);
    assert_eq!(graph.edges[0].relation, TypeRelation::Oriente);
    assert!(graph.sous_graphes.is_empty());
}

#[test]
fn single_level_graph_without_direction() {
    let graph = DotGraph::try_from("graph Pairs { A; B; A -- B; }").unwrap();
    assert_eq!(graph.name, "Pairs");
    assert!(graph.family == GraphType::Graph);
    assert_eq!(identifiers(&graph.nodes), vec!["A", "B"]);
    assert_eq!(ends(&graph.edges), vec![("A".to_string(), "B".to_string())]);
    assert_eq!(graph.edges[0].relation, TypeRelation::NonOriente);
}

#[test]
fn arrow_in_a_graph_without_direction_is_a_node() {
    let graph = DotGraph::try_from("graph G { A -> B; }").unwrap();
    assert!(graph.edges.is_empty());
    assert_eq!(identifiers(&graph.nodes), vec!["A -> B"]);
}

#[test]
fn three_blocks_side_by_side() {
    let body = "x;subgraph a{A;} y;subgraph b{B;{}} z subgraph c{C;}w}";
    assert_eq!(
        extract_subgraphes_position(body).unwrap(),
        vec![(2, 15), (19, 34), (38, 51)]
    );
    let mut content = body.to_string();
    let children = DotGraph::extract_subgraphes(&mut content, GraphType::Digraph).unwrap();
    assert_eq!(children.len(), 3);
    assert_eq!(content, "x; y; z w");
    assert_eq!(children[0].name, "a");
    assert_eq!(children[1].name, "b");
    assert_eq!(children[2].name, "c");
    assert_eq!(identifiers(&children[2].nodes), vec!["C"]);
}

#[test]
fn keyword_inside_a_block_is_passed_over() {
    let body = "subgraph out{subgraph inner{A;}B;}C;}";
    assert_eq!(extract_subgraphes_position(body).unwrap(), vec![(0, 33)]);
    let mut content = body.to_string();
    let children = DotGraph::extract_subgraphes(&mut content, GraphType::Graph).unwrap();
    assert_eq!(content, "C;");
    assert_eq!(children.len(), 1);
    assert_eq!(children[0].sous_graphes.len(), 1);
    assert_eq!(children[0].sous_graphes[0].name, "inner");
    assert!(children[0].sous_graphes[0].family == GraphType::Graph);
}

#[test]
fn body_without_block_keeps_its_text() {
    let mut content = "A;B;A->B;".to_string();
    let children = DotGraph::extract_subgraphes(&mut content, GraphType::Digraph).unwrap();
    assert!(children.is_empty());
    assert_eq!(content, "A;B;A->B;");
}

#[test]
fn refused_block_leaves_the_body() {
    let mut content = "A;subgraph{B[x];}C;}".to_string();
    let error = DotGraph::extract_subgraphes(&mut content, GraphType::Digraph).unwrap_err();
    assert!(matches!(error, ParsingError::MalformedAttribute(ref s) if s == "x"));
    assert_eq!(content, "A;subgraph{B[x];}C;}");
}

#[test]
fn brace_scanner() {
    assert_eq!(next_block_range("{test -> a;}").unwrap(), (0, 11));
    assert_eq!(next_block_range("{{}}").unwrap(), (0, 3));
    assert_eq!(next_block_range("{{{{}}}}").unwrap(), (0, 7));
    assert!(matches!(next_block_range("}x{}"), Err(ParsingError::UnbalancedBraces)));
    assert!(matches!(next_block_range("{x"), Err(ParsingError::UnterminatedBlock)));
    assert!(matches!(next_block_range("no brace"), Err(ParsingError::UnterminatedBlock)));
    assert!(matches!(next_block_range(""), Err(ParsingError::UnterminatedBlock)));
}

#[test]
fn brace_scanner_counts_characters() {
    assert_eq!(next_block_range("é{ü}").unwrap(), (1, 3));
}

#[test]
fn attribute_list() {
    assert_eq!(
        Attributs::try_from(&"label=test,encore=toto".to_string()).unwrap(),
        list(&[("label", "test"), ("encore", "toto")])
    );
    assert_eq!(Attributs::try_from(&"toto=tutu".to_string()).unwrap(), list(&[("toto", "tutu")]));
    let error = Attributs::try_from(&"badsegment".to_string()).unwrap_err();
    assert!(matches!(error, ParsingError::MalformedAttribute(ref s) if s == "badsegment"));
}

#[test]
fn attribute_list_names_the_first_bad_segment() {
    let error = Attributs::try_from(&"a=1, b ,c".to_string()).unwrap_err();
    assert!(matches!(error, ParsingError::MalformedAttribute(ref s) if s == " b "));
}

#[test]
fn empty_attribute_list() {
    let empty = Attributs::try_from(&String::new()).unwrap();
    assert_eq!(empty.attributs(), Some(vec![]));
    assert_eq!(empty.to_string(), "");
    let node = Node::try_from(&"A[]".to_string()).unwrap();
    assert_eq!(node.identifier, "A");
    assert_eq!(node.attributes, empty);
    assert!(node.attributes != Attributs::default());
    assert_eq!(Attributs::default().attributs(), None);
}

#[test]
fn last_assignment_wins() {
    let node = Node::try_from(&"X[a=1,a=2]".to_string()).unwrap();
    assert_eq!(node.attributes, list(&[("a", "2")]));
    assert_eq!(node.attributes.get("a"), Some(&"2".to_string()));
    assert_eq!(node.attributes.attributs(), Some(vec![("a".to_string(), "2".to_string())]));
    let mixed = list(&[("a", "1"), ("b", "x"), ("a", "3")]);
    assert_eq!(
        mixed.attributs(),
        Some(vec![("a".to_string(), "3".to_string()), ("b".to_string(), "x".to_string())])
    );
}

#[test]
fn last_bare_assignment_wins() {
    let graph = DotGraph::try_from("digraph G { rank=1; rank=2; }").unwrap();
    assert_eq!(graph.attributs, list(&[("rank", "2")]));
}

#[test]
fn keys_and_values_lose_their_white_space() {
    assert_eq!(as_key_value(" label = a b ").unwrap(), ("label".to_string(), "a b".to_string()));
    assert_eq!(as_key_value("a=b=c").unwrap(), ("a".to_string(), "b=c".to_string()));
    assert_eq!(
        Attribut::try_from("size = 4").unwrap(),
        Attribut { key: "size".to_string(), value: "4".to_string() }
    );
    assert!(matches!(Attribut::try_from("size"), Err(ParsingError::MalformedAttribute(ref s)) if s == "size"));
    assert_eq!(Attribut { key: "k".to_string(), value: "v".to_string() }.to_string(), "k:v");
}

#[test]
fn attributes_compare_as_mappings() {
    let one = list(&[("a", "1"), ("b", "2")]);
    let other = list(&[("b", "2"), ("a", "1")]);
    assert_eq!(one, other);
    assert!(one != list(&[("a", "1")]));
    assert!(one != list(&[("a", "1"), ("b", "3")]));
    assert!(list(&[]) != Attributs::default());
    assert_eq!(one.clone(), one);
    assert_eq!(one.label(), None);
    assert_eq!(list(&[("label", "L")]).label(), Some(&"L".to_string()));
    assert_eq!(one.get("b"), Some(&"2".to_string()));
    assert_eq!(one.get("c"), None);
    assert_eq!(Attributs::default().get("a"), None);
}

#[test]
fn nested_block_takes_the_family_around_it() {
    let graph = DotGraph::try_from("digraph G { subgraph { A -> B; } }").unwrap();
    assert_eq!(graph.sous_graphes.len(), 1);
    let inner = &graph.sous_graphes[0];
    assert!(inner.family == GraphType::Digraph);
    assert_eq!(ends(&inner.edges), vec![("A".to_string(), "B".to_string())]);
    assert_eq!(inner.edges[0].relation, TypeRelation::Oriente);
    assert!(graph.edges.is_empty());
    assert!(matches!(DotGraph::try_from("subgraph { A; }"), Err(ParsingError::MissingParentType)));
}

#[test]
fn reserved_identifiers_set_defaults() {
    let found = classify_statements("node[color=red]; A; B;", GraphType::Digraph).unwrap();
    assert_eq!(found.nodes, vec![Node::new("A", Attributs::default()), Node::new("B", Attributs::default())]);
    assert_eq!(found.default_node_attribute, list(&[("color", "red")]));
    assert_eq!(found.default_edge_attribute, Attributs::default());
    let graph = DotGraph::try_from("digraph G { node[color=red]; edge[w=1]; A; B; }").unwrap();
    assert_eq!(identifiers(&graph.nodes), vec!["A", "B"]);
    assert_eq!(graph.nodes[0].attributes.get("color"), None);
}

#[test]
fn statements_are_classified_in_order() {
    let found = classify_statements("A->B; x=1; C [k=v]; D // note; ; y = 2", GraphType::Digraph).unwrap();
    assert_eq!(identifiers(&found.nodes), vec!["C", "D"]);
    assert_eq!(ends(&found.edges), vec![("A".to_string(), "B".to_string())]);
    assert_eq!(found.attributs, list(&[("x", "1"), ("y", "2")]));
    let error = classify_statements("A; B[k]; C[", GraphType::Digraph).unwrap_err();
    assert!(matches!(error, ParsingError::MalformedAttribute(ref s) if s == "k"));
}

#[test]
fn every_failure_has_an_input() {
    assert!(matches!(DotGraph::try_from("digraph G"), Err(ParsingError::NoBodyFound)));
    assert!(matches!(DotGraph::try_from("strict {A;}"), Err(ParsingError::UnknownGraphKeyword(ref s)) if s == "strict "));
    assert!(matches!(DotGraph::try_from("subgraph s {A;}"), Err(ParsingError::MissingParentType)));
    assert!(matches!(DotGraph::try_from("digraph G {A;} subgraph {}}"), Err(ParsingError::UnbalancedBraces)));
    assert!(matches!(DotGraph::try_from("digraph G {subgraph {A;"), Err(ParsingError::UnterminatedBlock)));
    assert!(matches!(Edge::try_from(("A B", "->")), Err(ParsingError::MalformedEdge(ref s)) if s == "A B"));
    assert!(matches!(Edge::try_from(("A=>B", "=>")), Err(ParsingError::MalformedEdge(ref s)) if s == "=>"));
    assert!(matches!(DotGraph::try_from("digraph G {A[b];}"), Err(ParsingError::MalformedAttribute(ref s)) if s == "b"));
    assert!(matches!(GraphType::try_from("Graph"), Err(ParsingError::UnknownGraphKeyword(ref s)) if s == "Graph"));
    assert!(matches!(TypeRelation::try_from("<-"), Err(ParsingError::MalformedEdge(ref s)) if s == "<-"));
}

#[test]
fn messages() {
    assert_eq!(ParsingError::NoBodyFound.to_string(), "An error occured: No body found");
    assert_eq!(
        ParsingError::UnknownGraphKeyword("strict ".to_string()).to_string(),
        "An error occured: No graph type detected: strict "
    );
    assert_eq!(ParsingError::MissingParentType.to_string(), "An error occured: Should have a parent");
    assert_eq!(ParsingError::UnbalancedBraces.to_string(), "An error occured: Too many }");
    assert_eq!(ParsingError::UnterminatedBlock.to_string(), "An error occured: Missing ending }");
    assert_eq!(
        ParsingError::MalformedEdge("A B".to_string()).to_string(),
        "An error occured: Could not parse Edge: A B"
    );
    assert_eq!(
        ParsingError::MalformedAttribute("b".to_string()).to_string(),
        "An error occured: Could not parse Attribute: b"
    );
    assert_eq!(
        ParsingError::IoFailure("/tmp/g.dot".to_string()).to_string(),
        "An error occured: Could not access file: /tmp/g.dot"
    );
}

#[test]
fn keywords_and_tokens() {
    assert_eq!(GraphType::Graph.symbol(), "--");
    assert_eq!(GraphType::Digraph.symbol(), "->");
    assert_eq!(GraphType::Graph.to_string(), "graph");
    assert_eq!(GraphType::Digraph.to_string(), "digraph");
    assert!(GraphType::try_from("digraph").unwrap() == GraphType::Digraph);
    assert!(GraphType::try_from("graph").unwrap() == GraphType::Graph);
    assert_eq!(TypeRelation::Oriente.to_string(), "->");
    assert_eq!(TypeRelation::NonOriente.to_string(), "--");
    assert_eq!(TypeRelation::try_from("->").unwrap(), TypeRelation::Oriente);
    assert_eq!(TypeRelation::try_from("--").unwrap(), TypeRelation::NonOriente);
}

#[test]
fn headers() {
    assert!(get_type_graph("digraph G ", None).unwrap() == GraphType::Digraph);
    assert!(get_type_graph("graph", Some(GraphType::Digraph)).unwrap() == GraphType::Graph);
    assert!(get_type_graph("subgraph x", Some(GraphType::Digraph)).unwrap() == GraphType::Digraph);
    assert!(matches!(get_type_graph("subgraph x", None), Err(ParsingError::MissingParentType)));
    assert!(matches!(get_type_graph(" digraph", None), Err(ParsingError::UnknownGraphKeyword(ref s)) if s == " digraph"));
    assert_eq!(DotGraph::try_from("digraph{A;}").unwrap().name, "NoName");
    assert_eq!(DotGraph::try_from("digraph {A;}").unwrap().name, "NoName");
    assert_eq!(DotGraph::try_from("digraph \t {A;}").unwrap().name, "NoName");
    assert_eq!(DotGraph::try_from("digraph  My graph  {A;}").unwrap().name, "My graph");
}

#[test]
fn block_without_name_has_the_placeholder() {
    let mut content = "digraph {A;}".to_string();
    let graph = DotGraph::create_graph(&mut content, None).unwrap();
    assert_eq!(graph.name(), "NoName");
    assert_eq!(content, "digraph {A;}");
    let mut tight = "digraph{A;}".to_string();
    assert_eq!(DotGraph::create_graph(&mut tight, None).unwrap().name(), "NoName");
    let nested = DotGraph::try_from("graph G { subgraph { A; } subgraph s { B; } }").unwrap();
    assert_eq!(nested.sous_graphes[0].name, "NoName");
    assert_eq!(nested.sous_graphes[1].name, "s");
}

#[test]
fn empty_text_is_the_empty_graph() {
    for text in ["", "   ", "\r\n\t", "// only a comment"] {
        let graph = DotGraph::try_from(text).unwrap();
        assert!(graph == DotGraph::default());
        assert_eq!(graph.name, "");
        assert!(graph.family == GraphType::Graph);
        assert_eq!(graph.attributs, Attributs::default());
    }
}

#[test]
fn lines_and_comments() {
    assert_eq!(clean_line("  A -> B // to B  "), "A -> B");
    assert_eq!(clean_line("// all of it"), "");
    assert_eq!(clean_line("\u{a0}\tA\u{3000}\r"), "A");
    let text = "digraph G {\n  // the nodes\n  A // first\n  B\n\n  A -> B\n}\n";
    let graph = DotGraph::try_from(text).unwrap();
    assert_eq!(identifiers(&graph.nodes), vec!["A", "B"]);
    assert_eq!(ends(&graph.edges), vec![("A".to_string(), "B".to_string())]);
}

#[test]
fn file_content() {
    let text = "\t digraph G { \r\n\r\n   A; \x0C\r\n B;\r\nA -> B;\r\n}\r\n";
    let graph = DotGraph::from_file_content(text).unwrap();
    assert_eq!(graph.name, "G");
    assert_eq!(identifiers(&graph.nodes), vec!["A", "B"]);
    assert_eq!(ends(&graph.edges), vec![("A".to_string(), "B".to_string())]);
    let same = DotGraph::from_crlf_file_content(text).unwrap();
    assert!(same == graph);
    let lone = DotGraph::from_crlf_file_content("digraph G {A\nB}").unwrap();
    assert_eq!(identifiers(&lone.nodes), vec!["A", "B"]);
    for content in [text, " \n\t digraph G {A // a\r\n \n B \x0C\n}", "subgraph {A;}\r\n", "digraph G"] {
        let whole = DotGraph::try_from(content);
        for tidied in [DotGraph::from_file_content(content), DotGraph::from_crlf_file_content(content)] {
            match (&whole, &tidied) {
                (Ok(a), Ok(b)) => assert!(a == b),
                (Err(a), Err(b)) => assert_eq!(a.to_string(), b.to_string()),
                _ => panic!("the tidied content is read otherwise"),
            }
        }
    }
}

#[test]
fn statements_as_text() {
    assert_eq!(Node::new("A", Attributs::default()).to_string(), "A;");
    assert_eq!(Node::new("A", list(&[])).to_string(), "A;");
    assert_eq!(Node::new("B", list(&[("label", "b"), ("w", "2")])).to_string(), "B[label=b,w=2];");
    let plain = Edge::try_from(("A -- B", "--")).unwrap();
    assert_eq!(plain.relation, TypeRelation::NonOriente);
    assert_eq!(plain.to_string(), "A -> B ;");
    let labelled = Edge::try_from(("A->B[label=x]", "->")).unwrap();
    assert_eq!(labelled.to_string(), "A -> B [label=x];");
    assert_eq!(list(&[("k", "v")]).to_string(), "[k=v]");
    assert_eq!(Attributs::default().to_string(), "");
}

#[test]
fn graph_as_text() {
    let inner = DotGraph::new(
        GraphType::Digraph,
        vec![Node::new("C", Attributs::default())],
        vec![],
        vec![],
        Attributs::default(),
        "In".to_string(),
    );
    let graph = DotGraph::new(
        GraphType::Digraph,
        vec![Node::new("A", Attributs::default()), Node::new("B", list(&[("k", "v")]))],
        vec![Edge::try_from(("A->B", "->")).unwrap()],
        vec![inner],
        list(&[("rank", "1")]),
        "G".to_string(),
    );
    assert_eq!(graph.name(), "G");
    assert_eq!(
        graph.as_dot_content(),
        "digraph G { \r\n\r\nA;\r\nB[k=v];\r\n\r\n\r\nA -> B ;\r\n\r\ndigraph In { \r\n\r\nC;\r\n\r\n\r\n\r\n\r\n}\r\n\r\n}"
    );
    assert_eq!(
        DotGraph::default().as_dot_content(),
        "graph  { \r\n\r\n\r\n\r\n\r\n\r\n}"
    );
}

#[test]
fn written_graph_reads_back() {
    let graph = DotGraph::new(
        GraphType::Digraph,
        vec![Node::new("A", Attributs::default()), Node::new("long name", list(&[("label", "b"), ("w", "2")]))],
        vec![Edge::try_from(("A->long name", "->")).unwrap(), Edge::try_from(("long name -> A [k=v]", "->")).unwrap()],
        vec![],
        Attributs::default(),
        "G".to_string(),
    );
    let read = DotGraph::try_from(graph.as_dot_content().as_str()).unwrap();
    assert_eq!(identifiers(&read.nodes), identifiers(&graph.nodes));
    assert_eq!(ends(&read.edges), ends(&graph.edges));
    assert_eq!(read.nodes, graph.nodes);
    assert_eq!(read.edges, graph.edges);
    assert_eq!(read.name, "G");
    assert!(read.sous_graphes.is_empty());
}

#[test]
fn nodes_and_edges_of_every_depth() {
    let graph = DotGraph::try_from(
        "digraph G { A; subgraph one { B; subgraph two { C; C -> B; } B -> A; } D; subgraph three { E; } A -> D; }",
    )
    .unwrap();
    assert_eq!(identifiers(&graph.nodes), vec!["A", "D"]);
    assert_eq!(identifiers(&graph.nodes()), vec!["A", "D", "B", "C", "E"]);
    assert_eq!(
        ends(&graph.edges()),
        vec![
            ("A".to_string(), "D".to_string()),
            ("B".to_string(), "A".to_string()),
            ("C".to_string(), "B".to_string())
        ]
    );
    let copy = graph.clone();
    assert!(copy == graph);
    assert_eq!(identifiers(&copy.sous_graphes[0].sous_graphes[0].nodes), vec!["C"]);
}

#[test]
fn edges_with_odd_ends() {
    let edge = Edge::try_from(("A->B->C", "->")).unwrap();
    assert_eq!((edge.node_out.as_str(), edge.node_in.as_str()), ("A", "B->C"));
    let open = Edge::try_from(("A->B[", "->")).unwrap();
    assert_eq!(open.attributs, Attributs::default());
    assert_eq!(open.node_in, "B");
    let spread = Edge::try_from(("A->B[a=1] [b=2]", "->")).unwrap();
    assert_eq!(spread.attributs, list(&[("a", "1 [b=2")]));
}

use dot_parser::attribut::Attribut;
use dot_parser::attributs::Attributs;
use dot_parser::block::{extract_subgraphes_position, next_block_range};
use dot_parser::dot_graph::DotGraph;
use dot_parser::edge::Edge;
use dot_parser::graph_type::GraphType;
use dot_parser::node::Node;
use dot_parser::type_relation::TypeRelation;

fn pairs(entries: &[(&str, &str)]) -> Vec<(String, String)> {
    entries.iter().map(|(k, v)| (k.to_string(), v.to_string())).collect()
}

#[test]
fn test_extract_attributes() {
    let combinations: Vec<(&str, Attribut)> = vec![
        ("ata=3", Attribut { key: "ata".to_string(), value: "3".to_string() }),
        ("encore=\"encore\"", Attribut { key: "encore".to_string(), value: "\"encore\"".to_string() }),
        ("2=label", Attribut { key: "2".to_string(), value: "label".to_string() }),
    ];

    combinations.iter().for_each(|combinaisons| {
        assert_eq!(Attribut::try_from(combinaisons.0).unwrap(), combinaisons.1)
    });
}

#[test]
fn test_find_ending_pos_combinations() {
    let combinations: Vec<(&str, (usize, usize))> = vec![
        ("{test -> a;}", (0, 11)),
        ("{{}}", (0, 3)),
        ("{icitoutvabien}", (0, 14)),
        ("{{{{}}}}", (0, 7)),
        ("{{{{}}}}}", (0, 7)),
        ("graph Test {A;subgraph{D;}A->C}", (11, 30)),
    ];

    combinations
        .iter()
        .for_each(|combinaisons| assert_eq!(next_block_range(combinaisons.0).unwrap(), combinaisons.1));
}

#[test]
fn test_find_ending_pos_combinations_ko() {
    let combinations: Vec<(&str, &str)> = vec![
        ("}test{}", "Too many }"),
        ("{testt", "Missing ending }"),
        ("{test{}", "Missing ending }"),
    ];

    combinations.iter().for_each(|combinaisons| {
        assert_eq!(
            next_block_range(combinaisons.0).unwrap_err().to_string(),
            format!("An error occured: {}", combinaisons.1)
        )
    });
}

#[test]
fn graph_try_from() {
    let input = "digraph Test {A; B [label=test, encore=toto]; A -> B;subgraph{C;D;C->D;}B -> A [label=\"to B\"];value=type;subgraph{C;D;C->D;}A->C;}";

    let result = DotGraph::try_from(input).unwrap();
    let mut map_attribut = Vec::new();
    map_attribut.push(("label".to_string(), "test".to_string()));
    map_attribut.push(("encore".to_string(), "toto".to_string()));
    assert_eq!(result.name, "Test".to_string());
    assert_eq!(
        result.nodes,
        vec![Node::new("A", Attributs::default()), Node::new("B", Attributs::from(map_attribut))]
    );
    assert_eq!(
        result.edges,
        vec![
            Edge::try_from(("A->B", "->")).unwrap(),
            Edge::try_from(("B->A[label=\"to B\"", "->")).unwrap(),
            Edge::try_from(("A->C", "->")).unwrap()
        ]
    );
    assert_eq!(result.sous_graphes.len(), 2);
}

#[test]
fn graph_try_from_with_new_line_instead_of_semilicons() {
    let input = "digraph Test {A\r\n B [label=test, encore=toto]; A -> B;subgraph{C;D\r\nC->D;}B -> A [label=\"to B\"]\r\nvalue=type;subgraph{C;D;C->D;}A->C;}";

    let result = DotGraph::try_from(input).unwrap();
    let mut map_attribut = Vec::new();
    map_attribut.push(("encore".to_string(), "toto".to_string()));
    map_attribut.push(("label".to_string(), "test".to_string()));
    assert_eq!(result.name, "Test".to_string());
    assert_eq!(
        result.nodes,
        vec![Node::new("A", Attributs::default()), Node::new("B", Attributs::from(map_attribut))]
    );
    assert_eq!(
        result.edges,
        vec![
            Edge::try_from(("A->B", "->")).unwrap(),
            Edge::try_from(("B->A[label=\"to B\"", "->")).unwrap(),
            Edge::try_from(("A->C", "->")).unwrap()
        ]
    );
    assert_eq!(result.sous_graphes.len(), 2);
}

#[test]
fn extract_subgraphes_position_ok() {
    let combinations: Vec<(&str, Vec<(usize, usize)>)> = vec![
        ("subgraph{tetsautres}", vec![(0, 19)]),
        ("another what ?subgraph{tetsautres}", vec![(14, 33)]),
        ("subgraph{} subgraph{}", vec![(0, 9), (11, 20)]),
        ("subgraph{E;} subgraph{H;}", vec![(0, 11), (13, 24)]),
        (
            "encore un test subgraph{tetsautres} et au subgraph{ } voila du boulout",
            vec![(15, 34), (42, 52)],
        ),
        ("subgraph{C;D;C->D;}\r\n", vec![(0, 18)]),
        ("no sub grhaph", vec![]),
    ];

    combinations.iter().for_each(|combinaisons| {
        let result = extract_subgraphes_position(combinaisons.0).unwrap();
        assert_eq!(result, combinaisons.1);
    });
}

#[test]
fn extract_subgraphes_ok() {
    let combinations: Vec<(&str, usize, &str)> = vec![
        ("subgraph{A->B}", 1, ""),
        ("another what ?subgraph{C->D}", 1, "another what ?"),
        ("subgraph{E;} subgraph{H;}", 2, " "),
        (
            "encore un test subgraph {G->D;} et au subgraph {A;} voila du boulout",
            2,
            "encore un test  et au  voila du boulout",
        ),
        ("subgraph{X;Y;Z->E;}\r\n", 1, "\r\n"),
    ];

    combinations.iter().for_each(|combinaisons| {
        let mut content = combinaisons.0.to_string();
        let result = DotGraph::extract_subgraphes(&mut content, GraphType::Digraph).unwrap();
        assert_eq!(result.len(), combinaisons.1);
        assert_eq!(content, combinaisons.2)
    });
}

#[test]
fn edge_try_from_ok() {
    let map = pairs(&[("toto", "tutu")]);
    let combinations: Vec<(&str, Edge)> = vec![
        (
            "A->B",
            Edge {
                node_out: "A".to_string(),
                node_in: "B".to_string(),
                relation: TypeRelation::Oriente,
                attributs: Attributs::default(),
            },
        ),
        (
            " A -> B ",
            Edge {
                node_out: "A".to_string(),
                node_in: "B".to_string(),
                relation: TypeRelation::Oriente,
                attributs: Attributs::default(),
            },
        ),
        (
            "A->B[toto=tutu]",
            Edge {
                node_out: "A".to_string(),
                node_in: "B".to_string(),
                relation: TypeRelation::Oriente,
                attributs: Attributs::from(map),
            },
        ),
    ];

    combinations
        .iter()
        .for_each(|combinaisons| assert_eq!(Edge::try_from((combinaisons.0, "->")).unwrap(), combinaisons.1));
}

#[test]
fn node_try_from_ok() {
    let first_map = pairs(&[("label", "\"toto\"")]);
    let second_map = pairs(&[("label", "\"toto\""), ("encore", "2")]);
    let combinations: Vec<(&str, Node)> = vec![
        ("A", Node::new("A", Attributs::default())),
        ("A_long_name", Node::new("A_long_name", Attributs::default())),
        ("Bepourquoi[label=\"toto\"]", Node::new("Bepourquoi", Attributs::from(first_map))),
        ("Bepourquoi[label=\"toto\",encore=2]", Node::new("Bepourquoi", Attributs::from(second_map))),
    ];

    combinations
        .iter()
        .for_each(|combinaisons| assert_eq!(Node::try_from(&combinaisons.0.to_string()).unwrap(), combinaisons.1));
}

//! A parser and renderer for a subset of the DOT graph description language.
//!
//! A text is read into a tree of graphs, each with its nodes, its edges,
//! its attributes and the graphs nested in it, and such a tree is written
//! back as text. Every function that reads or writes states what it returns
//! over sequences of characters, and the statements are proved.

pub mod attribut;
pub mod attributs;
pub mod block;
pub mod dot_graph;
pub mod edge;
pub mod file_lines;
pub mod graph_type;
pub mod node;
pub mod parsing_error;
pub mod round_trip;
pub mod siblings;
pub mod single_level;
pub mod statement;
pub mod text;
pub mod text_laws;
pub mod type_relation;

pub use attributs::Attributs;
pub use dot_graph::DotGraph;
pub use edge::Edge;
pub use node::Node;
pub use type_relation::TypeRelation;

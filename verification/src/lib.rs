//! Terraform dependency graphs: a verified parser for the `digraph` subset of DOT that
//! `terraform graph` prints, the decisions around running `terraform graph` and reading its
//! output, and the small pieces of state that the graph pane keeps.

pub mod dot_laws;
pub mod dot_layout;
pub mod flow_state_config;
pub mod graph_refresh;
pub mod layout_options;
pub mod node_label;
pub mod petgraph_spec;
pub mod std_text;
pub mod terraform_graph;

pub use dot_layout::{
    check_graph_for_layout, is_dag, is_id_continue, is_id_start, parse_dot_to_digraph,
    try_parse_dot_to_digraph, ParsedDot,
};
pub use flow_state_config::configure_flow_state_for_fit;
pub use layout_options::{
    TerraformDependencyFlow, TerraformLayoutDirection, TerraformLayoutOptions,
};

# graph_view

A Terraform dependency-graph view. The library (`src/`) is verified with Verus:

- `dot_layout`: a byte-level parser for the `digraph` subset of DOT that `terraform graph`
  prints, specified by the accepted language (`spec_parse_dot`) and the graph it builds;
  the graph is a `petgraph::Graph<String, ()>` reached through the trusted items in
  `petgraph_spec`. `dot_laws` proves that the graph has one node per distinct id and one
  edge per `->` statement, in order.
- `terraform_graph`: the decisions around running `terraform graph` (retry without
  `-type=plan`, reading standard output, shaping error output); the std text functions it
  relies on are declared in `std_text`.
- `graph_refresh`, `node_label`, `flow_state_config`, `layout_options`: the state and the
  small decisions of the editor pane.

`app/` holds what Verus does not see: running the `terraform` process, the layout settings
file (serde, dirs), `anyhow` error messages, and the editor pane and node renderer, which
need the editor's UI crates and are built with the `editor` feature only.

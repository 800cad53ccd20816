use graph_view::flow_state_config::{configure_flow_state_for_fit, FlowZoomLimits};
use graph_view::graph_refresh::{is_terraform_extension, GraphRefreshState};
use graph_view::layout_options::{
    TerraformDependencyFlow, TerraformLayoutDirection, TerraformLayoutOptions,
};

#[test]
fn terraform_extension_ignores_ascii_case() {
    assert!(is_terraform_extension(b"tf"));
    assert!(is_terraform_extension(b"TF"));
    assert!(is_terraform_extension(b"tF"));
    assert!(!is_terraform_extension(b"tfvars"));
    assert!(!is_terraform_extension(b"t"));
    assert!(!is_terraform_extension(b"rs"));
}

#[test]
fn refresh_needs_a_saved_file_and_a_directory() {
    let mut state = GraphRefreshState::new();
    assert_eq!(state.begin_refresh(false, true), None);
    assert_eq!(
        state.last_error.as_deref(),
        Some("Save the `.tf` file to generate the graph.")
    );
    assert_eq!(state.begin_refresh(true, false), None);
    assert_eq!(
        state.last_error.as_deref(),
        Some("Could not determine Terraform working directory from the file path.")
    );
    assert_eq!(state.generation, 0);
    assert_eq!(state.running, None);
}

#[test]
fn any_new_request_drops_the_run_under_way() {
    let mut state = GraphRefreshState::new();
    let first = state.begin_refresh(true, true).unwrap();
    assert_eq!(state.begin_refresh(false, true), None);
    assert_eq!(state.generation, first);
    assert_eq!(state.running, None);
    assert!(!state.finish_refresh(first, Err("late".to_string())));
    assert_eq!(
        state.last_error.as_deref(),
        Some("Save the `.tf` file to generate the graph.")
    );
    assert!(!state.pending_fit_view);
}

#[test]
fn only_the_latest_refresh_is_taken() {
    let mut state = GraphRefreshState::new();
    let first = state.begin_refresh(true, true).unwrap();
    let second = state.begin_refresh(true, true).unwrap();
    assert_eq!((first, second), (1, 2));
    assert!(!state.finish_refresh(first, Err("old".to_string())));
    assert_eq!(state.last_error, None);
    assert!(state.finish_refresh(second, Err("boom".to_string())));
    assert_eq!(state.last_error.as_deref(), Some("boom"));
    assert!(!state.pending_fit_view);
    // the run is over once taken
    assert!(!state.finish_refresh(second, Ok(())));
    let third = state.begin_refresh(true, true).unwrap();
    assert!(state.finish_refresh(third, Ok(())));
    assert_eq!(state.last_error, None);
    assert!(state.pending_fit_view);
}

#[test]
fn generation_wraps() {
    let mut state = GraphRefreshState::new();
    state.generation = u64::MAX;
    assert_eq!(state.begin_refresh(true, true), Some(0));
}

#[test]
fn fit_request_is_consumed() {
    let mut state = GraphRefreshState::new();
    assert!(!state.take_fit_request(false));
    assert!(state.take_fit_request(true));
    let g = state.begin_refresh(true, true).unwrap();
    assert!(state.finish_refresh(g, Ok(())));
    assert!(state.take_fit_request(false));
    assert!(!state.take_fit_request(false));
}

#[test]
fn zoom_limits_for_fit() {
    let mut limits = FlowZoomLimits { min_zoom_per_mille: 800, max_zoom_per_mille: 2000 };
    configure_flow_state_for_fit(&mut limits);
    assert_eq!(limits, FlowZoomLimits { min_zoom_per_mille: 50, max_zoom_per_mille: 4000 });
}

#[test]
fn default_layout_is_top_to_bottom() {
    let options = TerraformLayoutOptions::default();
    assert_eq!(options.direction, TerraformLayoutDirection::Tb);
    assert_eq!(options.dependency_flow, TerraformDependencyFlow::DependenciesAtTop);
}

use graph_view::node_label::{node_label_lines, NodeLabelLines};

fn two_lines(t: &str, n: &str) -> NodeLabelLines {
    NodeLabelLines::TypeAndName { type_line: t.to_string(), name_line: n.to_string() }
}

#[test]
fn node_label_splits_at_first_line_feed() {
    assert_eq!(node_label_lines(""), NodeLabelLines::NodeId);
    assert_eq!(node_label_lines("aws_instance\nweb"), two_lines("aws_instance", "web"));
    assert_eq!(node_label_lines("a\nb\nc"), two_lines("a", "b\nc"));
    assert_eq!(node_label_lines("\nb"), two_lines("", "b"));
    assert_eq!(node_label_lines("caf\u{e9}\n\u{20ac}"), two_lines("caf\u{e9}", "\u{20ac}"));
}

#[test]
fn node_label_without_a_name_stays_whole() {
    assert_eq!(node_label_lines("plain"), NodeLabelLines::Single("plain".to_string()));
    assert_eq!(node_label_lines("a\n"), NodeLabelLines::Single("a\n".to_string()));
}

#[test]
fn two_line_label_rejoins() {
    for label in ["null_resource\nvercel_project", "x\ny\nz", "\nq"] {
        match node_label_lines(label) {
            NodeLabelLines::TypeAndName { type_line, name_line } => {
                assert_eq!(format!("{type_line}\n{name_line}"), label);
                assert!(!type_line.contains('\n'));
                assert!(!name_line.is_empty());
            }
            other => panic!("unexpected {other:?}"),
        }
    }
}

//! Viewport zoom limits so that fitting the view can zoom out far enough for wide graphs.
//!
//! The flow view's default smallest zoom of 0.8 keeps a graph wider than about 1.25 times
//! the panel from fitting; these limits let it shrink to a twentieth.

use vstd::prelude::*;

verus! {

/// Zoom limits of a flow view, in thousandths of the natural size.
#[derive(Debug, Clone, Copy, PartialEq, Eq, Structural)]
pub struct FlowZoomLimits {
    pub min_zoom_per_mille: u32,
    pub max_zoom_per_mille: u32,
}

/// Smallest zoom: 0.05.
pub const FIT_MIN_ZOOM_PER_MILLE: u32 = 50;

/// Largest zoom: 4.0.
pub const FIT_MAX_ZOOM_PER_MILLE: u32 = 4000;

/// Sets the zoom limits used when the view is fitted to the graph: 0.05 to 4.0.
pub fn configure_flow_state_for_fit(state: &mut FlowZoomLimits)
    ensures
        final(state).min_zoom_per_mille == FIT_MIN_ZOOM_PER_MILLE,
        final(state).max_zoom_per_mille == FIT_MAX_ZOOM_PER_MILLE,
{
    state.min_zoom_per_mille = FIT_MIN_ZOOM_PER_MILLE;
    state.max_zoom_per_mille = FIT_MAX_ZOOM_PER_MILLE;
}

} // verus!

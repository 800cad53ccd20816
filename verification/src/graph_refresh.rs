//! The decisions of the graph pane: which buffers it serves, when a refresh starts, which
//! finished refresh it takes, and when the view is fitted.

use vstd::prelude::*;

verus! {

/// ASCII lowercase of a byte.
pub open spec fn ascii_lower(b: u8) -> u8 {
    if 0x41 <= b <= 0x5a {
        (b + 0x20) as u8
    } else {
        b
    }
}

/// A file extension is `tf`, ignoring ASCII case.
pub open spec fn spec_is_terraform_extension(ext: Seq<u8>) -> bool {
    ext.len() == 2 && ascii_lower(ext[0]) == 0x74 && ascii_lower(ext[1]) == 0x66
}

/// Whether a file extension (its bytes) is `tf`, ignoring ASCII case.
pub fn is_terraform_extension(ext: &[u8]) -> (r: bool)
    ensures
        r == spec_is_terraform_extension(ext@),
{
    ext.len() == 2 && (ext[0] == 0x74 || ext[0] == 0x54) && (ext[1] == 0x66 || ext[1] == 0x46)
}

/// Shown when the source buffer has no saved `.tf` path.
pub open spec fn unsaved_message() -> Seq<char> {
    "Save the `.tf` file to generate the graph."@
}

/// Shown when the saved path has no parent directory to run Terraform in.
pub open spec fn no_working_dir_message() -> Seq<char> {
    "Could not determine Terraform working directory from the file path."@
}

/// What the pane remembers between refreshes.
#[derive(Debug)]
pub struct GraphRefreshState {
    /// Counts started refreshes, wrapping.
    pub generation: u64,
    /// The generation of the run under way, if any. Every request for a refresh drops it;
    /// only the result of this run is taken.
    pub running: Option<u64>,
    /// The next render fits the view to the graph.
    pub pending_fit_view: bool,
    /// The error shown over the graph, if any.
    pub last_error: Option<String>,
}

/// The refresh state as plain values.
pub struct RefreshView {
    pub generation: u64,
    pub running: Option<u64>,
    pub pending_fit_view: bool,
    pub last_error: Option<Seq<char>>,
}

impl View for GraphRefreshState {
    type V = RefreshView;

    open spec fn view(&self) -> RefreshView {
        RefreshView {
            generation: self.generation,
            running: self.running,
            pending_fit_view: self.pending_fit_view,
            last_error: match self.last_error {
                Some(e) => Some(e@),
                None => None,
            },
        }
    }
}

/// The generation after `g`, wrapping at `u64::MAX`.
pub open spec fn next_generation(g: u64) -> u64 {
    if g == u64::MAX {
        0
    } else {
        (g + 1) as u64
    }
}

/// The state after asking for a refresh, and the generation of the run to start, if any.
/// Every request drops the run under way. Without a saved `.tf` path or a directory to run
/// in, no run starts, the generation stays, and the message says why; otherwise the
/// generation advances and the new run is the one under way.
pub open spec fn spec_begin_refresh(
    st: RefreshView,
    has_terraform_path: bool,
    has_working_dir: bool,
) -> (RefreshView, Option<u64>) {
    if !has_terraform_path {
        (RefreshView { running: None, last_error: Some(unsaved_message()), ..st }, None)
    } else if !has_working_dir {
        (RefreshView { running: None, last_error: Some(no_working_dir_message()), ..st }, None)
    } else {
        let g = next_generation(st.generation);
        (RefreshView { generation: g, running: Some(g), ..st }, Some(g))
    }
}

/// The state after the run of generation `g` finishes with `outcome` (the error text on
/// failure), and whether the pane took it: only the run under way is taken, and it is then
/// over; success clears the error and asks for a fit, failure shows its error.
pub open spec fn spec_finish_refresh(
    st: RefreshView,
    g: u64,
    outcome: Result<(), Seq<char>>,
) -> (RefreshView, bool) {
    if st.running != Some(g) {
        (st, false)
    } else {
        match outcome {
            Ok(()) => (
                RefreshView { running: None, last_error: None, pending_fit_view: true, ..st },
                true,
            ),
            Err(e) => (RefreshView { running: None, last_error: Some(e), ..st }, true),
        }
    }
}

/// The view of a refresh outcome.
pub open spec fn outcome_view(outcome: Result<(), String>) -> Result<(), Seq<char>> {
    match outcome {
        Ok(()) => Ok(()),
        Err(e) => Err(e@),
    }
}

impl GraphRefreshState {
    /// No refresh started, no error, no fit pending.
    pub fn new() -> (r: Self)
        ensures
            r@ == (RefreshView {
                generation: 0,
                running: None,
                pending_fit_view: false,
                last_error: None,
            }),
    {
        GraphRefreshState { generation: 0, running: None, pending_fit_view: false, last_error: None }
    }

    /// Asks for a refresh, dropping the run under way; returns the generation of the run to
    /// start, if any.
    pub fn begin_refresh(&mut self, has_terraform_path: bool, has_working_dir: bool) -> (r:
        Option<u64>)
        ensures
            (final(self)@, r) == spec_begin_refresh(old(self)@, has_terraform_path, has_working_dir),
    {
        self.running = None;
        if !has_terraform_path {
            self.last_error = Some("Save the `.tf` file to generate the graph.".to_owned());
            return None;
        }
        if !has_working_dir {
            self.last_error = Some(
                "Could not determine Terraform working directory from the file path.".to_owned(),
            );
            return None;
        }
        self.generation = self.generation.wrapping_add(1);
        self.running = Some(self.generation);
        Some(self.generation)
    }

    /// Takes the outcome of the run of generation `generation` if it is the run under way;
    /// returns whether it was taken.
    pub fn finish_refresh(&mut self, generation: u64, outcome: Result<(), String>) -> (taken:
        bool)
        ensures
            (final(self)@, taken) == spec_finish_refresh(old(self)@, generation, outcome_view(outcome)),
    {
        if self.running != Some(generation) {
            return false;
        }
        self.running = None;
        match outcome {
            Ok(()) => {
                self.last_error = None;
                self.pending_fit_view = true;
            },
            Err(message) => {
                self.last_error = Some(message);
            },
        }
        true
    }

    /// Whether this render fits the view: when a fit is pending or the panel changed size.
    /// The pending request is consumed.
    pub fn take_fit_request(&mut self, size_changed: bool) -> (fit: bool)
        ensures
            fit == (old(self).pending_fit_view || size_changed),
            final(self)@ == (RefreshView {
                pending_fit_view: if fit {
                    false
                } else {
                    old(self).pending_fit_view
                },
                ..old(self)@
            }),
    {
        let fit = self.pending_fit_view || size_changed;
        if fit {
            self.pending_fit_view = false;
        }
        fit
    }
}

/// A refresh whose run is under way is dropped by any later request for a refresh, whether
/// or not that request starts a run: when the dropped run finishes, whatever its outcome, the
/// state stays as it is.
pub proof fn lemma_superseded_refresh_is_ignored(
    st: RefreshView,
    has_terraform_path: bool,
    has_working_dir: bool,
    outcome: Result<(), Seq<char>>,
)
    ensures
        ({
            let (s1, g1) = spec_begin_refresh(st, true, true);
            let (s2, _) = spec_begin_refresh(s1, has_terraform_path, has_working_dir);
            spec_finish_refresh(s2, g1->Some_0, outcome) == (s2, false)
        }),
{
}

/// The latest refresh is taken when it finishes: on success the error is cleared and the
/// view is fitted at the next render; on failure its error is shown.
pub proof fn lemma_latest_refresh_is_taken(st: RefreshView, outcome: Result<(), Seq<char>>)
    ensures
        ({
            let (s1, g1) = spec_begin_refresh(st, true, true);
            let (s2, taken) = spec_finish_refresh(s1, g1->Some_0, outcome);
            &&& taken
            &&& s2.generation == s1.generation
            &&& match outcome {
                Ok(()) => s2.last_error is None && s2.pending_fit_view,
                Err(e) => s2.last_error == Some(e),
            }
        }),
{
}

/// A refresh that cannot start (no saved `.tf` path, or no directory to run in) starts no
/// run, shows why, keeps the generation, and still drops the run under way: no result of an
/// earlier run is taken afterwards.
pub proof fn lemma_blocked_refresh_drops_run(
    st: RefreshView,
    has_terraform_path: bool,
    has_working_dir: bool,
    earlier: u64,
    outcome: Result<(), Seq<char>>,
)
    requires
        !has_terraform_path || !has_working_dir,
    ensures
        ({
            let (s1, g) = spec_begin_refresh(st, has_terraform_path, has_working_dir);
            &&& g is None
            &&& s1.generation == st.generation
            &&& s1.last_error is Some
            &&& spec_finish_refresh(s1, earlier, outcome) == (s1, false)
        }),
{
}

/// Without a saved `.tf` path the refresh asks for the file to be saved, whatever the
/// working directory; the missing directory is reported only when the path is there. In
/// both cases no run starts.
pub proof fn lemma_blocked_refresh_messages(st: RefreshView, has_working_dir: bool)
    ensures
        ({
            let (s1, g) = spec_begin_refresh(st, false, has_working_dir);
            &&& g is None
            &&& s1.last_error == Some("Save the `.tf` file to generate the graph."@)
        }),
        ({
            let (s1, g) = spec_begin_refresh(st, true, false);
            &&& g is None
            &&& s1.last_error == Some(
                "Could not determine Terraform working directory from the file path."@,
            )
        }),
        ({
            let (s1, g) = spec_begin_refresh(st, true, true);
            &&& g is Some
            &&& s1.last_error == st.last_error
        }),
{
}

/// A file is a Terraform file exactly when its extension is two bytes, `t` or `T` then `f`
/// or `F`; every extension of another length, such as `hcl` or `tfvars`, is refused.
pub proof fn lemma_terraform_extension_is_tf(ext: Seq<u8>)
    ensures
        spec_is_terraform_extension(ext) <==> (ext.len() == 2 && (ext[0] == 0x74u8 || ext[0]
            == 0x54u8) && (ext[1] == 0x66u8 || ext[1] == 0x46u8)),
        ext.len() != 2 ==> !spec_is_terraform_extension(ext),
{
}

} // verus!

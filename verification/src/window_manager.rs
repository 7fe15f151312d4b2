use vstd::prelude::*;

verus! {

/// Opaque OS window handle. Unique and stable for a window's lifetime.
pub type WindowId = u64;

/// One cycle-able target window. Identity is always by `id`; the `title` is
/// display-only and may change over a window's lifetime.
pub struct Window {
    pub id: WindowId,
    pub title: String,
}

impl Clone for Window {
    fn clone(&self) -> (r: Window)
        ensures
            r == *self,
    {
        Window { id: self.id, title: self.title.clone() }
    }
}

/// Errors reported by a window-manager binding.
#[derive(Clone, Copy, PartialEq, Eq, Structural, Debug)]
pub enum WmError {
    /// No window has focus, or the active-window query could not be performed.
    ActiveWindowQueryFailure,
    /// The candidate-window enumeration could not be performed.
    WindowListQueryFailure,
    /// The window no longer exists or the focus request was rejected.
    ActivationFailure,
}

/// The window-manager capability. The core consumes this interface and never
/// implements it; a concrete binding (one per window system) lives outside the
/// verified core, so nothing is promised here about what its calls return.
pub trait WindowManager {
    /// Query the window that actually has focus right now.
    fn get_active_window(&self) -> Result<WindowId, WmError>;

    /// Enumerate the cycle-able windows, in an order that is stable
    /// run-to-run for a fixed window set.
    fn list_candidate_windows(&self) -> Result<Vec<Window>, WmError>;

    /// Ask the OS to bring the given window to foreground focus.
    fn activate_window(&self, id: WindowId) -> Result<(), WmError>;
}

} // verus!

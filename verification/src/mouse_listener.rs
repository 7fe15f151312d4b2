use crate::cycle_state::{
    spec_cycle_bwd, spec_cycle_fwd, spec_sync, CycleError, CycleState, StateView,
};
use crate::window_manager::{WindowId, WindowManager};
use vstd::prelude::*;

verus! {

/// Input-source configuration, loaded once at startup and immutable after.
#[derive(Clone)]
pub struct Config {
    /// Whether the input source should run at all.
    pub enable_mouse_buttons: bool,
    /// Key code of the button that cycles forward.
    pub forward_button: u16,
    /// Key code of the button that cycles backward.
    pub backward_button: u16,
    /// Device node to open, or `None` to probe for a device that has the
    /// side-button capability.
    pub mouse_device_path: Option<String>,
}

/// The state reached by first reconciling with the reported active window,
/// when that query succeeded at all.
pub open spec fn synced_of(s: StateView, active: Option<WindowId>) -> StateView {
    match active {
        Some(a) => spec_sync(s, a),
        None => s,
    }
}

/// What one input event asks of the cycle engine.
#[derive(Clone, Copy, PartialEq, Eq, Structural, Debug)]
pub enum ButtonAction {
    CycleForward,
    CycleBackward,
    Ignore,
}

/// The input event source: on a qualifying button press it reconciles the
/// shared state with the real active window and then cycles. Device
/// discovery and the blocking read loop live outside the core; the cycling
/// decisions are here.
pub struct MouseListener {
    pub config: Config,
}

impl MouseListener {
    pub fn new(config: Config) -> (r: MouseListener)
        ensures
            r.config == config,
    {
        MouseListener { config }
    }

    /// Decide what one key event asks for: only a key-down (value 1) of a
    /// configured button triggers a cycle — releases and repeats are
    /// ignored, and when both buttons share a code, forward wins.
    pub fn classify_event(&self, code: u16, value: i32) -> (r: ButtonAction)
        ensures
            r == ButtonAction::CycleForward <==> (value == 1 && code
                == self.config.forward_button),
            r == ButtonAction::CycleBackward <==> (value == 1 && code
                != self.config.forward_button && code == self.config.backward_button),
    {
        if value == 1 {
            if code == self.config.forward_button {
                ButtonAction::CycleForward
            } else if code == self.config.backward_button {
                ButtonAction::CycleBackward
            } else {
                ButtonAction::Ignore
            }
        } else {
            ButtonAction::Ignore
        }
    }

    /// Handle one forward-button press: reconcile with the window that is
    /// actually active (skipped when the query fails), then cycle forward.
    /// Whatever the window manager answered, the result is a sync followed
    /// by a forward step that committed only on confirmed activation.
    pub fn cycle_forward<W: WindowManager>(wm: &W, state: &mut CycleState) -> (r: Result<
        (),
        CycleError,
    >)
        requires
            old(state)@.wf(),
        ensures
            final(state)@.wf(),
            final(state)@.windows == old(state)@.windows,
            old(state)@.windows.len() == 0 ==> final(state)@ == old(state)@ && (r matches Err(e)
                && e == CycleError::EmptyList),
            (exists|active: Option<WindowId>|
                {
                    let mid = #[trigger] synced_of(old(state)@, active);
                    &&& (r is Ok ==> final(state)@ == spec_cycle_fwd(mid))
                    &&& (r is Err ==> final(state)@ == mid)
                }),
            old(state)@.windows.len() > 0 ==> (r matches Err(e) ==> e
                == CycleError::ActivationFailed),
    {
        let ghost pre = state@;
        let ghost mut queried: Option<WindowId> = None;
        match wm.get_active_window() {
            Ok(active) => {
                state.sync_with_active(active);
                proof {
                    queried = Some(active);
                }
            },
            Err(_) => {},
        }
        let r = state.cycle_forward(wm);
        proof {
            assert(state@ == if r is Ok {
                spec_cycle_fwd(synced_of(pre, queried))
            } else {
                synced_of(pre, queried)
            });
        }
        r
    }

    /// Handle one backward-button press; the exact mirror of `cycle_forward`.
    pub fn cycle_backward<W: WindowManager>(wm: &W, state: &mut CycleState) -> (r: Result<
        (),
        CycleError,
    >)
        requires
            old(state)@.wf(),
        ensures
            final(state)@.wf(),
            final(state)@.windows == old(state)@.windows,
            old(state)@.windows.len() == 0 ==> final(state)@ == old(state)@ && (r matches Err(e)
                && e == CycleError::EmptyList),
            (exists|active: Option<WindowId>|
                {
                    let mid = #[trigger] synced_of(old(state)@, active);
                    &&& (r is Ok ==> final(state)@ == spec_cycle_bwd(mid))
                    &&& (r is Err ==> final(state)@ == mid)
                }),
            old(state)@.windows.len() > 0 ==> (r matches Err(e) ==> e
                == CycleError::ActivationFailed),
    {
        let ghost pre = state@;
        let ghost mut queried: Option<WindowId> = None;
        match wm.get_active_window() {
            Ok(active) => {
                state.sync_with_active(active);
                proof {
                    queried = Some(active);
                }
            },
            Err(_) => {},
        }
        let r = state.cycle_backward(wm);
        proof {
            assert(state@ == if r is Ok {
                spec_cycle_bwd(synced_of(pre, queried))
            } else {
                synced_of(pre, queried)
            });
        }
        r
    }
}

} // verus!

use std::cell::RefCell;
use window_cycler::cycle_state::{CycleError, CycleState};
use window_cycler::window_manager::{Window, WindowId, WindowManager, WmError};

/// In-memory window-manager double: serves a fixed active window and records
/// every activation request, or rejects them all when told to fail.
struct FakeWm {
    active: Option<WindowId>,
    fail_activation: bool,
    activations: RefCell<Vec<WindowId>>,
}

impl FakeWm {
    fn new(active: Option<WindowId>) -> FakeWm {
        FakeWm {
            active,
            fail_activation: false,
            activations: RefCell::new(Vec::new()),
        }
    }

    fn failing() -> FakeWm {
        FakeWm {
            active: None,
            fail_activation: true,
            activations: RefCell::new(Vec::new()),
        }
    }
}

impl WindowManager for FakeWm {
    fn get_active_window(&self) -> Result<WindowId, WmError> {
        match self.active {
            Some(id) => Ok(id),
            None => Err(WmError::ActiveWindowQueryFailure),
        }
    }

    fn list_candidate_windows(&self) -> Result<Vec<Window>, WmError> {
        Err(WmError::WindowListQueryFailure)
    }

    fn activate_window(&self, id: WindowId) -> Result<(), WmError> {
        if self.fail_activation {
            Err(WmError::ActivationFailure)
        } else {
            self.activations.borrow_mut().push(id);
            Ok(())
        }
    }
}

fn win(id: WindowId, title: &str) -> Window {
    Window {
        id,
        title: String::from(title),
    }
}

fn state_with(windows: Vec<Window>) -> CycleState {
    let mut s = CycleState::new();
    s.update_windows(windows);
    s
}

#[test]
fn new_state_is_empty() {
    let s = CycleState::new();
    assert!(s.get_windows().is_empty());
    assert_eq!(s.get_current_index(), None);
}

#[test]
fn update_on_empty_selects_first() {
    let mut s = CycleState::new();
    s.update_windows(vec![win(1, "A"), win(2, "B")]);
    assert_eq!(s.get_current_index(), Some(0));
    let ws = s.get_windows();
    assert_eq!(ws.len(), 2);
    assert_eq!(ws[0].id, 1);
    assert_eq!(ws[0].title, "A");
    assert_eq!(ws[1].id, 2);
    assert_eq!(ws[1].title, "B");
}

#[test]
fn scenario_update_sync_cycle() {
    let wm = FakeWm::new(None);
    let mut s = CycleState::new();
    s.update_windows(vec![win(1, "A"), win(2, "B")]);
    assert_eq!(s.get_current_index(), Some(0));
    s.sync_with_active(2);
    assert_eq!(s.get_current_index(), Some(1));
    assert_eq!(s.cycle_forward(&wm), Ok(()));
    assert_eq!(*wm.activations.borrow(), vec![1]);
    assert_eq!(s.get_current_index(), Some(0));
}

#[test]
fn cycle_forward_empty_fails() {
    let wm = FakeWm::new(None);
    let mut s = CycleState::new();
    assert_eq!(s.cycle_forward(&wm), Err(CycleError::EmptyList));
    assert_eq!(s.get_current_index(), None);
    assert!(wm.activations.borrow().is_empty());
}

#[test]
fn cycle_backward_empty_fails() {
    let wm = FakeWm::new(None);
    let mut s = CycleState::new();
    assert_eq!(s.cycle_backward(&wm), Err(CycleError::EmptyList));
    assert_eq!(s.get_current_index(), None);
    assert!(wm.activations.borrow().is_empty());
}

#[test]
fn update_to_empty_unsets_and_cycles_fail() {
    let wm = FakeWm::new(None);
    let mut s = state_with(vec![win(1, "A"), win(2, "B"), win(3, "C")]);
    s.sync_with_active(2);
    assert_eq!(s.get_current_index(), Some(1));
    s.update_windows(Vec::new());
    assert_eq!(s.get_current_index(), None);
    assert!(s.get_windows().is_empty());
    assert_eq!(s.cycle_forward(&wm), Err(CycleError::EmptyList));
    assert_eq!(s.cycle_backward(&wm), Err(CycleError::EmptyList));
    assert_eq!(s.get_current_index(), None);
}

#[test]
fn full_rotation_returns_to_start() {
    let wm = FakeWm::new(None);
    let mut s = state_with(vec![win(10, "A"), win(20, "B"), win(30, "C")]);
    s.sync_with_active(20);
    assert_eq!(s.get_current_index(), Some(1));
    for _ in 0..3 {
        assert_eq!(s.cycle_forward(&wm), Ok(()));
    }
    assert_eq!(s.get_current_index(), Some(1));
    assert_eq!(*wm.activations.borrow(), vec![30, 10, 20]);
}

#[test]
fn forward_then_backward_round_trip() {
    let wm = FakeWm::new(None);
    let mut s = state_with(vec![win(1, "A"), win(2, "B"), win(3, "C")]);
    assert_eq!(s.get_current_index(), Some(0));
    assert_eq!(s.cycle_forward(&wm), Ok(()));
    assert_eq!(s.get_current_index(), Some(1));
    assert_eq!(s.cycle_backward(&wm), Ok(()));
    assert_eq!(s.get_current_index(), Some(0));
}

#[test]
fn backward_wraps_to_last() {
    let wm = FakeWm::new(None);
    let mut s = state_with(vec![win(1, "A"), win(2, "B"), win(3, "C")]);
    assert_eq!(s.cycle_backward(&wm), Ok(()));
    assert_eq!(s.get_current_index(), Some(2));
    assert_eq!(*wm.activations.borrow(), vec![3]);
}

#[test]
fn activation_failure_keeps_index() {
    let wm = FakeWm::failing();
    let mut s = state_with(vec![win(1, "A"), win(2, "B"), win(3, "C")]);
    s.sync_with_active(2);
    assert_eq!(s.cycle_forward(&wm), Err(CycleError::ActivationFailed));
    assert_eq!(s.get_current_index(), Some(1));
    assert_eq!(s.cycle_backward(&wm), Err(CycleError::ActivationFailed));
    assert_eq!(s.get_current_index(), Some(1));
}

#[test]
fn sync_without_match_keeps_index() {
    let mut s = state_with(vec![win(1, "A"), win(2, "B")]);
    s.sync_with_active(2);
    assert_eq!(s.get_current_index(), Some(1));
    s.sync_with_active(99);
    assert_eq!(s.get_current_index(), Some(1));
    let mut empty = CycleState::new();
    empty.sync_with_active(1);
    assert_eq!(empty.get_current_index(), None);
}

#[test]
fn sync_with_match_moves_index() {
    let mut s = state_with(vec![win(5, "A"), win(6, "B"), win(7, "C")]);
    s.sync_with_active(7);
    assert_eq!(s.get_current_index(), Some(2));
    s.sync_with_active(5);
    assert_eq!(s.get_current_index(), Some(0));
}

#[test]
fn sync_is_idempotent() {
    let mut s = state_with(vec![win(5, "A"), win(6, "B"), win(7, "C")]);
    s.sync_with_active(6);
    assert_eq!(s.get_current_index(), Some(1));
    s.sync_with_active(6);
    assert_eq!(s.get_current_index(), Some(1));
}

#[test]
fn update_preserves_selection_by_identity() {
    // windows [A,B,C], current B; re-scanned as [C,B,A]: B is still at 1.
    let mut s = state_with(vec![win(1, "A"), win(2, "B"), win(3, "C")]);
    s.sync_with_active(2);
    assert_eq!(s.get_current_index(), Some(1));
    s.update_windows(vec![win(3, "C"), win(2, "B"), win(1, "A")]);
    assert_eq!(s.get_current_index(), Some(1));
    // re-scanned as [B,A,C]: current follows B to position 0.
    s.update_windows(vec![win(2, "B"), win(1, "A"), win(3, "C")]);
    assert_eq!(s.get_current_index(), Some(0));
}

#[test]
fn update_with_current_gone_resets_to_first() {
    let mut s = state_with(vec![win(1, "A"), win(2, "B"), win(3, "C")]);
    s.sync_with_active(2);
    s.update_windows(vec![win(3, "C"), win(1, "A")]);
    assert_eq!(s.get_current_index(), Some(0));
    let ws = s.get_windows();
    assert_eq!(ws[0].id, 3);
}

#[test]
fn targets_name_the_neighbouring_windows() {
    let mut s = state_with(vec![win(10, "A"), win(20, "B"), win(30, "C")]);
    s.sync_with_active(20);
    assert_eq!(s.forward_target(), (2, 30));
    assert_eq!(s.backward_target(), (0, 10));
}

#[test]
fn targets_wrap_around_the_cycle() {
    let mut s = state_with(vec![win(10, "A"), win(20, "B"), win(30, "C")]);
    assert_eq!(s.backward_target(), (2, 30));
    s.sync_with_active(30);
    assert_eq!(s.forward_target(), (0, 10));
}

#[test]
fn commit_step_commits_on_confirmed_activation() {
    let mut s = state_with(vec![win(1, "A"), win(2, "B"), win(3, "C")]);
    assert_eq!(s.commit_step(2, Ok(())), Ok(()));
    assert_eq!(s.get_current_index(), Some(2));
}

#[test]
fn commit_step_keeps_state_on_rejected_activation() {
    let mut s = state_with(vec![win(1, "A"), win(2, "B"), win(3, "C")]);
    assert_eq!(
        s.commit_step(2, Err(WmError::ActivationFailure)),
        Err(CycleError::ActivationFailed)
    );
    assert_eq!(s.get_current_index(), Some(0));
}

#[test]
fn get_windows_is_a_snapshot() {
    let s = state_with(vec![win(8, "first"), win(9, "second")]);
    let a = s.get_windows();
    let b = s.get_windows();
    assert_eq!(a.len(), 2);
    assert_eq!(b.len(), 2);
    assert_eq!(a[1].id, 9);
    assert_eq!(a[1].title, "second");
}

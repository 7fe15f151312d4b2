//! Cycle keyboard focus among a tracked set of same-application windows.
//!
//! The core is `cycle_state::CycleState`: an ordered window list plus a
//! current index, reconciled against the window manager's real active window
//! and advanced by forward/backward cycling that commits only on a confirmed
//! activation. The window-manager binding itself is abstract: the
//! `window_manager::WindowManager` capability trait is consumed here and
//! implemented by an OS-specific layer elsewhere.

pub mod cycle_state;
pub mod laws;
pub mod mouse_listener;
pub mod window_manager;

use crate::cycle_state::{
    fwd, id_in, lemma_bwd_step, lemma_cycle_bwd_wf, lemma_cycle_fwd_wf, lemma_fwd_step,
    lemma_index_of_id_first, lemma_sync_wf, lemma_update_wf, spec_cycle_bwd, spec_cycle_fwd,
    spec_sync, spec_update, unique_ids, StateView,
};
use crate::window_manager::{Window, WindowId};
use vstd::arithmetic::div_mod::{
    lemma_add_mod_noop_right, lemma_mod_add_multiples_vanish, lemma_small_mod,
};
use vstd::prelude::*;

verus! {

/// The state after `n` successful forward cycles.
pub open spec fn cycle_fwd_n(s: StateView, n: nat) -> StateView
    decreases n,
{
    if n == 0 {
        s
    } else {
        spec_cycle_fwd(cycle_fwd_n(s, (n - 1) as nat))
    }
}

/// After `n` successful forward cycles the windows are untouched and the
/// current index has advanced `n` steps around the cycle.
pub proof fn lemma_cycle_fwd_n_index(s: StateView, n: nat)
    requires
        s.wf(),
        s.windows.len() > 0,
    ensures
        cycle_fwd_n(s, n).windows == s.windows,
        cycle_fwd_n(s, n).wf(),
        cycle_fwd_n(s, n).current == Some((s.current->Some_0 + n) % (s.windows.len() as int)),
    decreases n,
{
    let len = s.windows.len() as int;
    let ci = s.current->Some_0;
    if n == 0 {
        lemma_small_mod(ci as nat, len as nat);
    } else {
        lemma_cycle_fwd_n_index(s, (n - 1) as nat);
        let prev = cycle_fwd_n(s, (n - 1) as nat);
        lemma_cycle_fwd_wf(prev);
        assert(prev.current->Some_0 == (ci + n - 1) % len);
        assert(cycle_fwd_n(s, n).current == Some((1 + (ci + n - 1) % len) % len));
        lemma_add_mod_noop_right(1, ci + n - 1, len);
    }
}

/// Law: for any well-formed state with a non-empty window list, cycling
/// forward once per tracked window — each activation succeeding — returns
/// the state, and in particular the current index, to where it started.
pub proof fn lemma_full_rotation(s: StateView)
    requires
        s.wf(),
        s.windows.len() > 0,
    ensures
        cycle_fwd_n(s, s.windows.len()) == s,
{
    let len = s.windows.len() as int;
    let ci = s.current->Some_0;
    lemma_cycle_fwd_n_index(s, s.windows.len());
    lemma_mod_add_multiples_vanish(ci, len);
    lemma_small_mod(ci as nat, len as nat);
    assert(cycle_fwd_n(s, s.windows.len()) =~= s);
}

/// Law: a successful forward cycle followed by a successful backward cycle
/// is a round trip — the state, and so the current index, is unchanged.
pub proof fn lemma_round_trip(s: StateView)
    requires
        s.wf(),
        s.windows.len() > 0,
    ensures
        spec_cycle_bwd(spec_cycle_fwd(s)) == s,
{
    let len = s.windows.len() as int;
    let ci = s.current->Some_0;
    lemma_fwd_step(ci, len);
    lemma_bwd_step(fwd(ci, len), len);
    assert(spec_cycle_bwd(spec_cycle_fwd(s)) =~= s);
}

/// Law: reconciliation is idempotent — a second sync against the same
/// active window changes nothing, so it is safe on every event and tick.
pub proof fn lemma_sync_idempotent(s: StateView, active: WindowId)
    ensures
        spec_sync(spec_sync(s, active), active) == spec_sync(s, active),
{
    assert(spec_sync(spec_sync(s, active), active) =~= spec_sync(s, active));
}

/// Law: replacing the window list preserves the selection by identity — as
/// long as the previously current window's id is still present, the current
/// index points at that same window in the new list, wherever it moved.
pub proof fn lemma_update_preserves_selection(s: StateView, new_list: Seq<Window>)
    requires
        s.wf(),
        unique_ids(new_list),
        s.current is Some,
        id_in(new_list, s.windows[s.current->Some_0].id),
    ensures
        spec_update(s, new_list).current matches Some(ni) && 0 <= ni < new_list.len()
            && new_list[ni].id == s.windows[s.current->Some_0].id,
{
    lemma_index_of_id_first(new_list, s.windows[s.current->Some_0].id);
}

/// Law: after the window list is replaced by an empty one the selection is
/// unset, and no amount of (necessarily failing) cycling moves it.
pub proof fn lemma_update_empty(s: StateView)
    ensures
        spec_update(s, Seq::<Window>::empty()).windows.len() == 0,
        spec_update(s, Seq::<Window>::empty()).current is None,
        spec_cycle_fwd(spec_update(s, Seq::<Window>::empty())) == spec_update(
            s,
            Seq::<Window>::empty(),
        ),
        spec_cycle_bwd(spec_update(s, Seq::<Window>::empty())) == spec_update(
            s,
            Seq::<Window>::empty(),
        ),
{
}

/// One call that may mutate the shared state, as the lock serializes them:
/// a list refresh, a reconciliation, or a cycling step whose activation
/// either succeeded or failed (a failed or empty-list step leaves the state
/// untouched, which `apply_op` reflects).
pub enum Op {
    Update { list: Seq<Window> },
    Sync { active: WindowId },
    CycleForward { activated: bool },
    CycleBackward { activated: bool },
}

/// An `Update` is only ever handed a duplicate-free list.
pub open spec fn op_valid(op: Op) -> bool {
    match op {
        Op::Update { list } => unique_ids(list),
        _ => true,
    }
}

/// The state transition of one serialized call.
pub open spec fn apply_op(s: StateView, op: Op) -> StateView {
    match op {
        Op::Update { list } => spec_update(s, list),
        Op::Sync { active } => spec_sync(s, active),
        Op::CycleForward { activated } => if activated {
            spec_cycle_fwd(s)
        } else {
            s
        },
        Op::CycleBackward { activated } => if activated {
            spec_cycle_bwd(s)
        } else {
            s
        },
    }
}

/// The state after a whole sequence of serialized calls.
pub open spec fn apply_ops(s: StateView, ops: Seq<Op>) -> StateView
    decreases ops.len(),
{
    if ops.len() == 0 {
        s
    } else {
        apply_op(apply_ops(s, ops.drop_last()), ops.last())
    }
}

/// Each single serialized call keeps the state well-formed.
pub proof fn lemma_op_preserves_wf(s: StateView, op: Op)
    requires
        s.wf(),
        op_valid(op),
    ensures
        apply_op(s, op).wf(),
{
    match op {
        Op::Update { list } => lemma_update_wf(s, list),
        Op::Sync { active } => lemma_sync_wf(s, active),
        Op::CycleForward { activated } => if activated {
            lemma_cycle_fwd_wf(s)
        },
        Op::CycleBackward { activated } => if activated {
            lemma_cycle_bwd_wf(s)
        },
    }
}

/// Law: interleaving refreshes and reconciliations from one thread with
/// cycling steps from another — in whatever total order the lock hands out —
/// keeps the state well-formed from a well-formed start, so the current
/// index never goes out of range.
pub proof fn lemma_ops_preserve_wf(s: StateView, ops: Seq<Op>)
    requires
        s.wf(),
        forall|i: int| 0 <= i < ops.len() ==> op_valid(#[trigger] ops[i]),
    ensures
        apply_ops(s, ops).wf(),
    decreases ops.len(),
{
    if ops.len() > 0 {
        lemma_ops_preserve_wf(s, ops.drop_last());
        assert(op_valid(ops[ops.len() - 1]));
        lemma_op_preserves_wf(apply_ops(s, ops.drop_last()), ops.last());
    }
}

} // verus!

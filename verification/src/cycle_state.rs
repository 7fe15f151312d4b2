use crate::window_manager::{Window, WindowId, WindowManager, WmError};
use vstd::arithmetic::div_mod::{
    lemma_mod_add_multiples_vanish, lemma_mod_self_0, lemma_small_mod,
};
use vstd::prelude::*;

verus! {

/// Errors from cycling operations.
#[derive(Clone, Copy, PartialEq, Eq, Structural, Debug)]
pub enum CycleError {
    /// Cycling was attempted while no windows are tracked.
    EmptyList,
    /// The window-manager binding rejected the activation request; the
    /// current index was left untouched.
    ActivationFailed,
}

/// Mathematical view of the cycle state: the tracked windows in cycle order,
/// and the position of the logically current one (`None` iff no windows are
/// tracked).
#[verifier::ext_equal]
pub struct StateView {
    pub windows: Seq<Window>,
    pub current: Option<int>,
}

/// No two tracked windows share an id.
pub open spec fn unique_ids(s: Seq<Window>) -> bool {
    forall|i: int, j: int| 0 <= i < j < s.len() ==> s[i].id != s[j].id
}

/// Some window in `s` has the given id.
pub open spec fn id_in(s: Seq<Window>, id: WindowId) -> bool {
    exists|i: int| 0 <= i < s.len() && s[i].id == id
}

/// Position of the first window in `s` with the given id
/// (`s.len()` when no window has it).
pub open spec fn index_of_id(s: Seq<Window>, id: WindowId) -> int
    decreases s.len(),
{
    if s.len() == 0 {
        0
    } else if s[0].id == id {
        0
    } else {
        1 + index_of_id(s.subrange(1, s.len() as int), id)
    }
}

impl StateView {
    /// Invariant of the cycle state: ids are unique, the current index is
    /// set exactly when some window is tracked, and then it is in range.
    pub open spec fn wf(self) -> bool {
        &&& unique_ids(self.windows)
        &&& (self.windows.len() == 0 <==> self.current is None)
        &&& (self.current matches Some(i) ==> 0 <= i < self.windows.len())
    }
}

/// The index one step forward in the cycle.
pub open spec fn fwd(i: int, len: int) -> int {
    (i + 1) % len
}

/// The index one step backward in the cycle.
pub open spec fn bwd(i: int, len: int) -> int {
    (i + len - 1) % len
}

/// What `update_windows` does: the list is replaced, and the selection is
/// carried over by identity — if the previously current window's id is still
/// present, the current index follows it to its new position; otherwise it
/// falls back to the first window, or to unset when the new list is empty.
pub open spec fn spec_update(s: StateView, new_list: Seq<Window>) -> StateView {
    StateView {
        windows: new_list,
        current: if new_list.len() == 0 {
            None
        } else if s.current is Some && id_in(new_list, s.windows[s.current->Some_0].id) {
            Some(index_of_id(new_list, s.windows[s.current->Some_0].id))
        } else {
            Some(0)
        },
    }
}

/// What `sync_with_active` does: on a match the current index moves to the
/// matching window's position; on no match the state is untouched.
pub open spec fn spec_sync(s: StateView, active: WindowId) -> StateView {
    if id_in(s.windows, active) {
        StateView { windows: s.windows, current: Some(index_of_id(s.windows, active)) }
    } else {
        s
    }
}

/// What a *successful* forward cycle does (activation confirmed).
pub open spec fn spec_cycle_fwd(s: StateView) -> StateView {
    if s.windows.len() == 0 {
        s
    } else {
        StateView {
            windows: s.windows,
            current: Some(fwd(s.current->Some_0, s.windows.len() as int)),
        }
    }
}

/// What a *successful* backward cycle does (activation confirmed).
pub open spec fn spec_cycle_bwd(s: StateView) -> StateView {
    if s.windows.len() == 0 {
        s
    } else {
        StateView {
            windows: s.windows,
            current: Some(bwd(s.current->Some_0, s.windows.len() as int)),
        }
    }
}

/// The first matching position is a real, least match.
pub proof fn lemma_index_of_id_first(s: Seq<Window>, id: WindowId)
    requires
        id_in(s, id),
    ensures
        0 <= index_of_id(s, id) < s.len(),
        s[index_of_id(s, id)].id == id,
        forall|j: int| 0 <= j < index_of_id(s, id) ==> s[j].id != id,
    decreases s.len(),
{
    if s.len() == 0 {
        assert(false);
    } else if s[0].id == id {
    } else {
        let t = s.subrange(1, s.len() as int);
        let w = choose|i: int| 0 <= i < s.len() && s[i].id == id;
        assert(w != 0);
        assert(t[w - 1].id == id);
        assert(id_in(t, id));
        lemma_index_of_id_first(t, id);
        let k = index_of_id(t, id);
        assert(s[1 + k].id == t[k].id);
        assert(forall|j: int| 1 <= j < 1 + k ==> s[j].id == t[j - 1].id && t[j - 1].id != id);
    }
}

/// One forward step stays in range and lands where the cycle order says.
pub proof fn lemma_fwd_step(i: int, len: int)
    requires
        0 <= i < len,
    ensures
        fwd(i, len) == if i + 1 == len { 0int } else { i + 1 },
        0 <= fwd(i, len) < len,
{
    if i + 1 == len {
        lemma_mod_self_0(len);
    } else {
        lemma_small_mod((i + 1) as nat, len as nat);
    }
}

/// One backward step stays in range and lands where the cycle order says.
pub proof fn lemma_bwd_step(i: int, len: int)
    requires
        0 <= i < len,
    ensures
        bwd(i, len) == if i == 0 { len - 1 } else { i - 1 },
        0 <= bwd(i, len) < len,
{
    if i == 0 {
        lemma_small_mod((len - 1) as nat, len as nat);
    } else {
        lemma_mod_add_multiples_vanish(i - 1, len);
        lemma_small_mod((i - 1) as nat, len as nat);
    }
}

/// `spec_update` keeps the invariant for any unique new list.
pub proof fn lemma_update_wf(s: StateView, new_list: Seq<Window>)
    requires
        unique_ids(new_list),
    ensures
        spec_update(s, new_list).wf(),
{
    if new_list.len() > 0 && s.current is Some && id_in(
        new_list,
        s.windows[s.current->Some_0].id,
    ) {
        lemma_index_of_id_first(new_list, s.windows[s.current->Some_0].id);
    }
}

/// `spec_sync` keeps the invariant.
pub proof fn lemma_sync_wf(s: StateView, active: WindowId)
    requires
        s.wf(),
    ensures
        spec_sync(s, active).wf(),
        spec_sync(s, active).windows == s.windows,
{
    if id_in(s.windows, active) {
        lemma_index_of_id_first(s.windows, active);
    }
}

/// A successful forward cycle keeps the invariant and the window list.
pub proof fn lemma_cycle_fwd_wf(s: StateView)
    requires
        s.wf(),
    ensures
        spec_cycle_fwd(s).wf(),
        spec_cycle_fwd(s).windows == s.windows,
{
    if s.windows.len() > 0 {
        lemma_fwd_step(s.current->Some_0, s.windows.len() as int);
    }
}

/// A successful backward cycle keeps the invariant and the window list.
pub proof fn lemma_cycle_bwd_wf(s: StateView)
    requires
        s.wf(),
    ensures
        spec_cycle_bwd(s).wf(),
        spec_cycle_bwd(s).windows == s.windows,
{
    if s.windows.len() > 0 {
        lemma_bwd_step(s.current->Some_0, s.windows.len() as int);
    }
}

/// The core state machine: the ordered list of tracked windows and the index
/// of the logically current one. Shared across threads behind a lock held by
/// the callers; every mutation below is one short critical section.
pub struct CycleState {
    windows: Vec<Window>,
    current_index: Option<usize>,
}

impl View for CycleState {
    type V = StateView;

    closed spec fn view(&self) -> StateView {
        StateView {
            windows: self.windows@,
            current: match self.current_index {
                Some(i) => Some(i as int),
                None => None,
            },
        }
    }
}

impl CycleState {
    /// A fresh, empty state: no windows, selection unset.
    pub fn new() -> (s: CycleState)
        ensures
            s@.windows == Seq::<Window>::empty(),
            s@.current is None,
            s@.wf(),
    {
        let s = CycleState { windows: Vec::new(), current_index: None };
        proof {
            assert(s@.windows =~= Seq::<Window>::empty());
        }
        s
    }

    /// Position of the first window with the given id, if any.
    fn find_id(ws: &Vec<Window>, id: WindowId) -> (r: Option<usize>)
        ensures
            r matches Some(j) ==> id_in(ws@, id) && j == index_of_id(ws@, id),
            r is None ==> !id_in(ws@, id),
    {
        let n = ws.len();
        let mut i: usize = 0;
        while i < n
            invariant
                n == ws@.len(),
                0 <= i <= n,
                forall|k: int| 0 <= k < i ==> ws@[k].id != id,
            decreases n - i,
        {
            if ws[i].id == id {
                proof {
                    assert(id_in(ws@, id));
                    lemma_index_of_id_first(ws@, id);
                    let f = index_of_id(ws@, id);
                    if f < i {
                        assert(ws@[f].id != id);
                    }
                    if f > i {
                        assert(ws@[i as int].id != id);
                    }
                }
                return Some(i);
            }
            i += 1;
        }
        proof {
            if id_in(ws@, id) {
                let w = choose|k: int| 0 <= k < ws@.len() && ws@[k].id == id;
                assert(ws@[w].id != id);
            }
        }
        None
    }

    /// Replace the tracked list, carrying the selection over by identity:
    /// if the previously current window (by id) is still present, the index
    /// follows it; otherwise it resets to the first window, or to unset when
    /// the new list is empty.
    pub fn update_windows(&mut self, new_list: Vec<Window>)
        requires
            old(self)@.wf(),
            unique_ids(new_list@),
        ensures
            final(self)@ == spec_update(old(self)@, new_list@),
            final(self)@.wf(),
            final(self)@.windows == new_list@,
            new_list@.len() == 0 ==> final(self)@.current is None,
            old(self)@.current matches Some(ci) ==> id_in(new_list@, old(self)@.windows[ci].id)
                ==> (final(self)@.current matches Some(ni) && 0 <= ni < new_list@.len()
                && new_list@[ni].id == old(self)@.windows[ci].id),
    {
        let ghost pre = self@;
        let prev_id: Option<WindowId> = match self.current_index {
            Some(i) => Some(self.windows[i].id),
            None => None,
        };
        self.windows = new_list;
        if self.windows.len() == 0 {
            self.current_index = None;
        } else {
            let found: Option<usize> = match prev_id {
                Some(pid) => Self::find_id(&self.windows, pid),
                None => None,
            };
            self.current_index = match found {
                Some(j) => Some(j),
                None => Some(0),
            };
        }
        proof {
            lemma_update_wf(pre, new_list@);
            assert(self@ =~= spec_update(pre, new_list@));
            if pre.current is Some && id_in(new_list@, pre.windows[pre.current->Some_0].id) {
                lemma_index_of_id_first(new_list@, pre.windows[pre.current->Some_0].id);
            }
        }
    }

    /// Reconcile with the window that actually has focus: if `active_id`
    /// names a tracked window, the current index moves to it; otherwise the
    /// externally active window is not one of ours and nothing changes.
    pub fn sync_with_active(&mut self, active_id: WindowId)
        requires
            old(self)@.wf(),
        ensures
            final(self)@ == spec_sync(old(self)@, active_id),
            final(self)@.wf(),
            final(self)@.windows == old(self)@.windows,
            !id_in(old(self)@.windows, active_id) ==> final(self)@ == old(self)@,
    {
        let ghost pre = self@;
        match Self::find_id(&self.windows, active_id) {
            Some(j) => {
                self.current_index = Some(j);
            },
            None => {},
        }
        proof {
            lemma_sync_wf(pre, active_id);
            assert(self@ =~= spec_sync(pre, active_id));
        }
    }

    /// The commit rule for one cycling step, spelled out over the window
    /// manager's answer: the cursor moves to `next` exactly when the
    /// activation was confirmed; a rejected activation leaves the state
    /// untouched and is surfaced as an error.
    pub fn commit_step(&mut self, next: usize, activation: Result<(), WmError>) -> (r: Result<
        (),
        CycleError,
    >)
        requires
            old(self)@.wf(),
            next < old(self)@.windows.len(),
        ensures
            final(self)@.wf(),
            final(self)@.windows == old(self)@.windows,
            activation is Ok ==> r is Ok && final(self)@.current == Some(next as int),
            activation is Err ==> r == Result::<(), CycleError>::Err(CycleError::ActivationFailed)
                && final(self)@ == old(self)@,
    {
        match activation {
            Ok(_) => {
                self.current_index = Some(next);
                Ok(())
            },
            Err(_) => Err(CycleError::ActivationFailed),
        }
    }

    /// The forward cycling step's target: the position one step forward in
    /// cycle order, and the id of the window there — the window whose
    /// activation `cycle_forward` requests.
    pub fn forward_target(&self) -> (r: (usize, WindowId))
        requires
            self@.wf(),
            self@.windows.len() > 0,
        ensures
            r.0 < self@.windows.len(),
            r.0 as int == fwd(self@.current->Some_0, self@.windows.len() as int),
            r.1 == self@.windows[r.0 as int].id,
    {
        let len = self.windows.len();
        let ci = match self.current_index {
            Some(i) => i,
            None => 0,
        };
        let next = if ci + 1 == len {
            0
        } else {
            ci + 1
        };
        proof {
            lemma_fwd_step(ci as int, len as int);
        }
        (next, self.windows[next].id)
    }

    /// The backward cycling step's target: the position one step backward in
    /// cycle order, and the id of the window there — the window whose
    /// activation `cycle_backward` requests.
    pub fn backward_target(&self) -> (r: (usize, WindowId))
        requires
            self@.wf(),
            self@.windows.len() > 0,
        ensures
            r.0 < self@.windows.len(),
            r.0 as int == bwd(self@.current->Some_0, self@.windows.len() as int),
            r.1 == self@.windows[r.0 as int].id,
    {
        let len = self.windows.len();
        let ci = match self.current_index {
            Some(i) => i,
            None => 0,
        };
        let prev = if ci == 0 {
            len - 1
        } else {
            ci - 1
        };
        proof {
            lemma_bwd_step(ci as int, len as int);
        }
        (prev, self.windows[prev].id)
    }

    /// Activate the next window in cycle order: request activation of the
    /// window `forward_target` names, then commit by `commit_step`'s rule.
    /// The index moves only on confirmed activation: on any failure the
    /// state is exactly as before, and the error says whether the list was
    /// empty or the activation request was rejected.
    pub fn cycle_forward<W: WindowManager>(&mut self, wm: &W) -> (r: Result<(), CycleError>)
        requires
            old(self)@.wf(),
        ensures
            final(self)@.wf(),
            final(self)@.windows == old(self)@.windows,
            r is Err ==> final(self)@ == old(self)@,
            r is Ok ==> old(self)@.windows.len() > 0 && final(self)@ == spec_cycle_fwd(
                old(self)@,
            ),
            r matches Err(e) ==> (e == CycleError::EmptyList <==> old(self)@.windows.len() == 0),
    {
        let ghost pre = self@;
        if self.windows.len() == 0 {
            return Err(CycleError::EmptyList);
        }
        let target = self.forward_target();
        let activation = wm.activate_window(target.1);
        let r = self.commit_step(target.0, activation);
        proof {
            if r is Ok {
                assert(self@ =~= spec_cycle_fwd(pre));
            }
        }
        r
    }

    /// Activate the previous window in cycle order; the exact mirror of
    /// `cycle_forward`, with `backward_target` naming the window whose
    /// activation is requested and the same commit-only-on-success rule.
    pub fn cycle_backward<W: WindowManager>(&mut self, wm: &W) -> (r: Result<(), CycleError>)
        requires
            old(self)@.wf(),
        ensures
            final(self)@.wf(),
            final(self)@.windows == old(self)@.windows,
            r is Err ==> final(self)@ == old(self)@,
            r is Ok ==> old(self)@.windows.len() > 0 && final(self)@ == spec_cycle_bwd(
                old(self)@,
            ),
            r matches Err(e) ==> (e == CycleError::EmptyList <==> old(self)@.windows.len() == 0),
    {
        let ghost pre = self@;
        if self.windows.len() == 0 {
            return Err(CycleError::EmptyList);
        }
        let target = self.backward_target();
        let activation = wm.activate_window(target.1);
        let r = self.commit_step(target.0, activation);
        proof {
            if r is Ok {
                assert(self@ =~= spec_cycle_bwd(pre));
            }
        }
        r
    }

    /// Snapshot of the tracked windows, in cycle order.
    pub fn get_windows(&self) -> (r: Vec<Window>)
        ensures
            r@ == self@.windows,
    {
        let mut r: Vec<Window> = Vec::new();
        let n = self.windows.len();
        let mut i: usize = 0;
        while i < n
            invariant
                n == self.windows@.len(),
                0 <= i <= n,
                r@ == self.windows@.subrange(0, i as int),
            decreases n - i,
        {
            r.push(self.windows[i].clone());
            proof {
                assert(r@ =~= self.windows@.subrange(0, i + 1));
            }
            i += 1;
        }
        proof {
            assert(r@ =~= self.windows@);
        }
        r
    }

    /// The current index, or `None` when no windows are tracked.
    pub fn get_current_index(&self) -> (r: Option<usize>)
        ensures
            match r {
                Some(i) => self@.current == Some(i as int),
                None => self@.current is None,
            },
    {
        self.current_index
    }
}

} // verus!

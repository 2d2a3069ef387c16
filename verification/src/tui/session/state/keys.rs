//! How keys and the mouse reach the session.
use vstd::prelude::*;

use crate::tui::app::{AppAction, AppModel, AppState, ActionModel, key_step, keys_ok};
use super::{SessionModel, TuiSession, arranged, tasks_rebuilt, view_refreshed};
use crate::tui::session::ViewOverrides;
use super::moves::{moved_by, moved_to_edge};
use super::requests::{RequestModel, SessionRequest, action_effect, picker_ok};

verus! {

// -- Keys and the mouse -------------------------------------------------------------

/// What a key does to a session: the application state handles it, then
/// a move goes to the focused cursor and any other action to the session
/// (see `action_effect`).
pub open spec fn key_effect(o: SessionModel, key: Seq<char>, n: SessionModel, r: RequestModel) -> bool {
    let st = key_step(o.app, key);
    let m = SessionModel { app: st.app, ..o };
    match st.action {
        None => n == m && r == RequestModel::Nothing,
        Some(ActionModel::MoveDown) => moved_by(m, 1, n) && r == RequestModel::Nothing,
        Some(ActionModel::MoveUp) => moved_by(m, -1, n) && r == RequestModel::Nothing,
        Some(ActionModel::MoveTop) => n == moved_to_edge(m, true) && r == RequestModel::Nothing,
        Some(ActionModel::MoveBottom) => n == moved_to_edge(m, false) && r == RequestModel::Nothing,
        Some(a) => action_effect(m, a, n, r),
    }
}

/// Only an open picker selects, and the key that selects leaves it as it
/// was.
pub proof fn lemma_picker_select(m: AppModel, key: Seq<char>)
    requires
        picker_ok(m),
    ensures
        key_step(m, key).action == Some(ActionModel::PickerSelect) ==> picker_ok(key_step(m, key).app),
{
    reveal(key_step);
}

impl TuiSession {
    /// The application state, to hand to the store's save.
    pub fn app_mut(&mut self) -> (r: &mut AppState)
        requires
            old(self).wf(),
        ensures
            r@ == old(self)@.app,
            final(self)@ == (SessionModel { app: final(r)@, ..old(self)@ }),
    {
        &mut self.app
    }

    /// Handles a key (see `key_effect`).
    #[verifier::rlimit(80)]
    #[verifier::spinoff_prover]
    pub fn dispatch_key(&mut self, key: &str) -> (r: SessionRequest)
        requires
            old(self).wf(),
            keys_ok(old(self)@.app),
            picker_ok(old(self)@.app),
        ensures
            final(self).wf(),
            key_effect(old(self)@, key@, final(self)@, r@),
    {
        proof {
            lemma_picker_select(self@.app, key@);
        }
        let action = self.app.handle_key(key);
        match action {
            None => SessionRequest::Nothing,
            Some(AppAction::MoveDown) => {
                self.move_selection(1);
                SessionRequest::Nothing
            },
            Some(AppAction::MoveUp) => {
                self.move_selection(-1);
                SessionRequest::Nothing
            },
            Some(AppAction::MoveTop) => {
                self.move_to_edge(true);
                SessionRequest::Nothing
            },
            Some(AppAction::MoveBottom) => {
                self.move_to_edge(false);
                SessionRequest::Nothing
            },
            Some(other) => self.apply_action(other),
        }
    }
}

/// Reversing the sort twice gives the overrides back, and the tasks then
/// shown are arranged from the very inputs that were in effect before the
/// first reversal: the same snapshot, item, lists, search and sort.
pub proof fn law_reverse_twice(s0: SessionModel, s1: SessionModel, s2: SessionModel)
    requires
        view_refreshed(
            (SessionModel { overrides: ViewOverrides { reversed: !s0.overrides.reversed, ..s0.overrides }, ..s0 }),
            s1,
        ),
        view_refreshed(
            (SessionModel { overrides: ViewOverrides { reversed: !s1.overrides.reversed, ..s1.overrides }, ..s1 }),
            s2,
        ),
    ensures
        s2.overrides == s0.overrides,
        s2.snapshot == s0.snapshot,
        s2.active == s0.active,
        s2.lists == s0.lists,
        s2.app.search_query == s0.app.search_query,
        arranged(s0, s2.visible, s2.groups),
{
    reveal(view_refreshed);
    reveal(tasks_rebuilt);
    let f0 = SessionModel { overrides: ViewOverrides { reversed: !s0.overrides.reversed, ..s0.overrides }, ..s0 };
    let f1 = SessionModel { overrides: ViewOverrides { reversed: !s1.overrides.reversed, ..s1.overrides }, ..s1 };
    let m1 = choose|mid: SessionModel| #[trigger] tasks_rebuilt(f0, mid) && s1 == super::reselected(mid, super::selected_target(f0));
    let m2 = choose|mid: SessionModel| #[trigger] tasks_rebuilt(f1, mid) && s2 == super::reselected(mid, super::selected_target(f1));
    assert(arranged(f1, m2.visible, m2.groups));
    assert(f1.overrides == s0.overrides);
}

} // verus!

//! What the parts of the interface ask of each other.

use crate::input::KeyEvent;
use crate::tabs::ActiveTab;
use vstd::prelude::*;

verus! {

/// Something to be done.
#[derive(Clone, Copy, Debug, PartialEq, Eq, Structural)]
pub enum Action {
    Tick,
    Render,
    Resize { width: u16, height: u16 },
    Quit,
    NewSession,
    CloseActiveSession,
    Fork,
    SwitchTab(ActiveTab),
    CloseSession(u32),
    OpenAgentPicker,
    CloseAgentPicker,
    AgentPickerSelectPrev,
    AgentPickerSelectNext,
    CreateSession(usize),
    SessionSubmitPrompt(u32),
    SessionInsertNewline(u32),
    SessionToggleStderr(u32),
    SessionCycleFocus(u32),
    SessionFocusConversation(u32),
    SessionFocusStderr(u32),
    SessionScrollConversation { tab_id: u32, delta: i16 },
    SessionScrollStderr { tab_id: u32, delta: i16 },
    SessionInput { tab_id: u32, key: KeyEvent },
    SessionsSelectNext,
    SessionsSelectPrev,
    SessionsOpenDetail,
    SessionsCloseDetail,
    SessionsBack,
    SessionsRefresh,
    SessionsScrollDetail(i16),
}

/// The session that an action is for, if it is for one.
pub open spec fn target_tab(action: Action) -> Option<u32> {
    match action {
        Action::SessionInput { tab_id, .. } => Some(tab_id),
        Action::SessionScrollConversation { tab_id, .. } => Some(tab_id),
        Action::SessionScrollStderr { tab_id, .. } => Some(tab_id),
        Action::SessionInsertNewline(tab_id) => Some(tab_id),
        Action::SessionToggleStderr(tab_id) => Some(tab_id),
        Action::SessionCycleFocus(tab_id) => Some(tab_id),
        Action::SessionFocusConversation(tab_id) => Some(tab_id),
        Action::SessionFocusStderr(tab_id) => Some(tab_id),
        _ => None,
    }
}

/// The session that an action is for, if it is for one.
pub fn action_target_tab_id(action: &Action) -> (id: Option<u32>)
    ensures
        id == target_tab(*action),
{
    match action {
        Action::SessionInput { tab_id, .. } => Some(*tab_id),
        Action::SessionScrollConversation { tab_id, .. } => Some(*tab_id),
        Action::SessionScrollStderr { tab_id, .. } => Some(*tab_id),
        Action::SessionInsertNewline(tab_id) => Some(*tab_id),
        Action::SessionToggleStderr(tab_id) => Some(*tab_id),
        Action::SessionCycleFocus(tab_id) => Some(*tab_id),
        Action::SessionFocusConversation(tab_id) => Some(*tab_id),
        Action::SessionFocusStderr(tab_id) => Some(*tab_id),
        _ => None,
    }
}

/// What is done in a session is for that session; what is done among the
/// recorded sessions, with the list of agents or to the interface is for none.
pub proof fn actions_name_their_session(id: u32, delta: i16, key: KeyEvent)
    ensures
        target_tab(Action::SessionInput { tab_id: id, key }) == Some(id),
        target_tab(Action::SessionInsertNewline(id)) == Some(id),
        target_tab(Action::SessionToggleStderr(id)) == Some(id),
        target_tab(Action::SessionCycleFocus(id)) == Some(id),
        target_tab(Action::SessionFocusConversation(id)) == Some(id),
        target_tab(Action::SessionFocusStderr(id)) == Some(id),
        target_tab(Action::SessionScrollConversation { tab_id: id, delta }) == Some(id),
        target_tab(Action::SessionScrollStderr { tab_id: id, delta }) == Some(id),
        target_tab(Action::SessionsSelectNext) is None,
        target_tab(Action::SessionsSelectPrev) is None,
        target_tab(Action::SessionsScrollDetail(delta)) is None,
        target_tab(Action::Quit) is None,
        target_tab(Action::NewSession) is None,
{
}

} // verus!

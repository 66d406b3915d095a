//! The terminal interface: where keys and the mouse go, and what actions do.

use crate::action::Action;
use crate::components::list_navigation::list_of;
use crate::components::sessions::{
    browser_after, browser_key, SessionsBrowserComponent, SessionsPanelFocus, SessionsRequest,
};
use crate::input::{wheel_delta, KeyCode, KeyEvent, MouseEvent};
use vstd::prelude::*;

verus! {

/// The interface.
pub struct App {
    pub should_quit: bool,
    pub sessions_browser: SessionsBrowserComponent,
}

/// What is to be done for an action: to draw, and what has to be read.
#[derive(Clone, Copy, Debug, PartialEq, Eq, Structural)]
pub struct AppRequest {
    pub draw: bool,
    pub sessions: SessionsRequest,
}

impl App {
    /// An interface that shows nothing yet.
    pub fn new() -> (app: App)
        ensures
            !app.should_quit,
            app.sessions_browser.sessions@.len() == 0,
            app.sessions_browser.detail is None,
            app.sessions_browser.focus == SessionsPanelFocus::List,
            list_of(app.sessions_browser.list_state).selected is None,
            app.sessions_browser.wf(),
    {
        App { should_quit: false, sessions_browser: SessionsBrowserComponent::new() }
    }

    /// What is done first: the sessions are read, and drawn.
    pub fn first_actions() -> (actions: Vec<Action>)
        ensures
            actions@ == seq![Action::SessionsRefresh, Action::Render],
    {
        let mut actions: Vec<Action> = Vec::new();
        actions.push(Action::SessionsRefresh);
        actions.push(Action::Render);
        assert(actions@ =~= seq![Action::SessionsRefresh, Action::Render]);
        actions
    }

    /// What a key asks for: Ctrl+C ends the interface, and the rest go to the
    /// browser.
    pub fn route_key(&self, key: KeyEvent) -> (action: Option<Action>)
        ensures
            action == (if key.code == KeyCode::Char('c') && key.control {
                Some(Action::Quit)
            } else {
                browser_key(key.code)
            }),
    {
        if key.code == KeyCode::Char('c') && key.control {
            Some(Action::Quit)
        } else {
            self.sessions_browser.handle_key_event(key)
        }
    }

    /// What the mouse asks for.
    pub fn route_mouse(&self, mouse: MouseEvent) -> (action: Option<Action>)
        ensures
            action == (match wheel_delta(mouse.kind) {
                Some(delta) => Some(Action::SessionsScrollDetail(delta)),
                None => None,
            }),
    {
        self.sessions_browser.handle_mouse_event(mouse)
    }

    /// Does what an action asks, and says what has to be done for it.
    pub fn handle_action(&mut self, action: &Action) -> (request: AppRequest)
        requires
            old(self).sessions_browser.wf(),
        ensures
            final(self).sessions_browser.wf(),
            request.draw == (*action == Action::Render),
            final(self).should_quit == (old(self).should_quit || *action == Action::Quit),
            browser_after(
                old(self).sessions_browser,
                final(self).sessions_browser,
                *action,
                request.sessions,
            ),
    {
        let draw = *action == Action::Render;
        if *action == Action::Quit {
            self.should_quit = true;
        }
        let sessions = self.sessions_browser.update(action);
        AppRequest { draw, sessions }
    }
}

} // verus!

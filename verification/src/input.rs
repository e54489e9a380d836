use vstd::prelude::*;
use crate::model::{App, AppV, Effect, EffectV, action_spec, effects_view, keys_unique};
use crate::screen::Action;

verus! {

/// A key press, as far as the key bindings tell keys apart.
#[derive(Clone, Copy, PartialEq, Eq, Structural, Debug)]
pub enum Key {
    Char(char),
    Ctrl(char),
    Enter,
    Esc,
    Up,
    Down,
    Left,
    Right,
    Other,
}

/// What has been typed of a two-key binding (`gg`).
#[derive(Clone, Copy, PartialEq, Eq, Structural, Debug)]
pub struct KeyState {
    pub pending_g: bool,
}

/// The action bound to a single key.
pub open spec fn key_action(key: Key) -> Option<Action> {
    match key {
        Key::Char('j') | Key::Down => Some(Action::MoveDown),
        Key::Char('k') | Key::Up => Some(Action::MoveUp),
        Key::Char('G') => Some(Action::GoBottom),
        Key::Ctrl('d') => Some(Action::PageDown),
        Key::Ctrl('u') => Some(Action::PageUp),
        Key::Enter => Some(Action::Enter),
        Key::Char(' ') => Some(Action::OpenComments),
        Key::Char('l') | Key::Right => Some(Action::Expand),
        Key::Char('h') | Key::Left => Some(Action::Collapse),
        Key::Char('c') => Some(Action::ToggleCollapse),
        Key::Char('o') => Some(Action::OpenPrimaryBrowser),
        Key::Char('O') => Some(Action::OpenSecondaryBrowser),
        Key::Char('r') => Some(Action::Refresh),
        Key::Char('?') => Some(Action::ToggleHelp),
        Key::Char('q') | Key::Esc => Some(Action::BackOrQuit),
        _ => None,
    }
}

/// A key press taken in: `g` waits for a second `g` (go to the top); any other key
/// ends the wait and acts on its own.
pub open spec fn on_key_spec(st: KeyState, key: Key) -> (KeyState, Option<Action>) {
    if key == Key::Char('g') {
        if st.pending_g {
            (KeyState { pending_g: false }, Some(Action::GoTop))
        } else {
            (KeyState { pending_g: true }, None)
        }
    } else {
        (KeyState { pending_g: false }, key_action(key))
    }
}

impl KeyState {
    /// A key state with nothing pending.
    pub fn new() -> (r: KeyState)
        ensures
            !r.pending_g,
    {
        KeyState { pending_g: false }
    }

    /// Takes in a key press; says which action it completes, if any.
    pub fn on_key(&mut self, key: Key) -> (r: Option<Action>)
        ensures
            (*final(self), r) == on_key_spec(*old(self), key),
    {
        if key == Key::Char('g') {
            if self.pending_g {
                self.pending_g = false;
                return Some(Action::GoTop);
            }
            self.pending_g = true;
            return None;
        }
        self.pending_g = false;
        match key {
            Key::Char('j') | Key::Down => Some(Action::MoveDown),
            Key::Char('k') | Key::Up => Some(Action::MoveUp),
            Key::Char('G') => Some(Action::GoBottom),
            Key::Ctrl('d') => Some(Action::PageDown),
            Key::Ctrl('u') => Some(Action::PageUp),
            Key::Enter => Some(Action::Enter),
            Key::Char(' ') => Some(Action::OpenComments),
            Key::Char('l') | Key::Right => Some(Action::Expand),
            Key::Char('h') | Key::Left => Some(Action::Collapse),
            Key::Char('c') => Some(Action::ToggleCollapse),
            Key::Char('o') => Some(Action::OpenPrimaryBrowser),
            Key::Char('O') => Some(Action::OpenSecondaryBrowser),
            Key::Char('r') => Some(Action::Refresh),
            Key::Char('?') => Some(Action::ToggleHelp),
            Key::Char('q') | Key::Esc => Some(Action::BackOrQuit),
            _ => None,
        }
    }
}

/// `g` twice in a row goes to the top, whatever was pending before.
pub proof fn double_g_goes_to_top(st: KeyState)
    ensures
        on_key_spec(on_key_spec(st, Key::Char('g')).0, Key::Char('g')).1 == Some(Action::GoTop)
            || on_key_spec(st, Key::Char('g')).1 == Some(Action::GoTop),
{
}


/// `handle_key`: a key press at `now` marks the user active, then the action it
/// completes is carried out.
pub open spec fn key_spec(a: AppV, st: KeyState, key: Key, now: u64) -> (AppV, KeyState, Seq<EffectV>) {
    let a1 = AppV { last_user_activity: now, ..a };
    let (st2, act) = on_key_spec(st, key);
    match act {
        Some(action) => {
            let (a2, e2) = action_spec(a1, action, now);
            (a2, st2, e2)
        },
        None => (a1, st2, Seq::empty()),
    }
}

impl App {
    /// Takes in a key press at `now`.
    #[verifier::rlimit(40)]
    pub fn handle_key(&mut self, keys: &mut KeyState, key: Key, now: u64, effects: &mut Vec<Effect>)
        requires
            keys_unique(old(self)@),
        ensures
            final(self)@ == key_spec(old(self)@, *old(keys), key, now).0,
            *final(keys) == key_spec(old(self)@, *old(keys), key, now).1,
            effects_view(final(effects)@) == effects_view(old(effects)@) + key_spec(
                old(self)@,
                *old(keys),
                key,
                now,
            ).2,
            keys_unique(final(self)@),
    {
        self.note_user_activity(now);
        match keys.on_key(key) {
            Some(action) => {
                self.handle_action(action, now, effects);
            },
            None => {
                assert(effects_view(effects@) + Seq::<EffectV>::empty() =~= effects_view(effects@));
            },
        }
    }
}

} // verus!

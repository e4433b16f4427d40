//! Input-binding bookkeeping: named actions bound to a key or mouse
//! button, each carrying the state the input polling derived for it on the
//! last pass. The host polls the device; this module holds the decision of
//! what each bind's state becomes and what the queries return.
use vstd::prelude::*;

use crate::dict::Dict;

verus! {

/// What an action is bound to. The codes are the host's key and button
/// numbers.
#[derive(Clone, Copy, PartialEq, Eq, Debug)]
pub enum Bind {
    Key(u32),
    Mouse(u32),
    Unset,
}

/// The state of one bind after a polling pass.
#[derive(Clone, Copy, PartialEq, Eq, Debug)]
pub enum IsRun {
    Not,
    ReleaseRun,
    Run,
    OnceRun,
}

/// The named binds and their current states.
pub struct ControlBinds {
    pub binds: Dict<(IsRun, Bind)>,
}

/// The state a bind enters after one polling pass, from what the host
/// reports of its key or button: freshly pressed wins, then held, then
/// freshly released, else idle.
pub fn next_state(pressed: bool, just_pressed: bool, just_released: bool) -> (r: IsRun)
    ensures
        r == (if just_pressed {
            IsRun::OnceRun
        } else if pressed {
            IsRun::Run
        } else if just_released {
            IsRun::ReleaseRun
        } else {
            IsRun::Not
        }),
{
    if just_pressed {
        IsRun::OnceRun
    } else if pressed {
        IsRun::Run
    } else if just_released {
        IsRun::ReleaseRun
    } else {
        IsRun::Not
    }
}

impl ControlBinds {
    pub fn new() -> (r: Self)
        ensures
            r.binds.wf(),
            r.binds.spec_len() == 0,
    {
        ControlBinds { binds: Dict::new() }
    }

    /// Declare an action with nothing bound to it yet.
    pub fn register(&mut self, name: &str)
        requires
            old(self).binds.wf(),
        ensures
            final(self).binds.wf(),
            final(self).binds.contents() == old(self).binds.contents().insert(
                name@,
                (IsRun::Not, Bind::Unset),
            ),
    {
        self.binds.insert(String::from_str(name), (IsRun::Not, Bind::Unset));
    }

    /// Bind an action, keeping its current state; an unknown action is
    /// registered on the spot with the bind.
    pub fn set(&mut self, name: &str, bind: Bind)
        requires
            old(self).binds.wf(),
        ensures
            final(self).binds.wf(),
            old(self).binds.contents().contains_key(name@) ==> final(self).binds.contents() == old(
                self,
            ).binds.contents().insert(name@, (old(self).binds.contents()[name@].0, bind)),
            !old(self).binds.contents().contains_key(name@) ==> final(self).binds.contents()
                == old(self).binds.contents().insert(name@, (IsRun::Not, bind)),
    {
        let state = match self.binds.get(name) {
            Some(p) => p.0,
            None => IsRun::Not,
        };
        self.binds.insert(String::from_str(name), (state, bind));
    }

    /// Record what the host reported for an action's key or button this
    /// pass. An action that was never registered is left alone, and so is
    /// one with nothing bound to it: only a bound action has a device to
    /// report for, so an unset bind's recorded state stays frozen.
    pub fn apply(&mut self, name: &str, pressed: bool, just_pressed: bool, just_released: bool)
        requires
            old(self).binds.wf(),
        ensures
            final(self).binds.wf(),
            old(self).binds.contents().contains_key(name@) && !(old(self).binds.contents()[name@].1
                is Unset) ==> final(self).binds.contents() == old(self).binds.contents().insert(
                name@,
                (
                    if just_pressed {
                        IsRun::OnceRun
                    } else if pressed {
                        IsRun::Run
                    } else if just_released {
                        IsRun::ReleaseRun
                    } else {
                        IsRun::Not
                    },
                    old(self).binds.contents()[name@].1,
                ),
            ),
            !(old(self).binds.contents().contains_key(name@) && !(old(
                self,
            ).binds.contents()[name@].1 is Unset)) ==> final(self).binds == old(self).binds,
    {
        let bind = match self.binds.get(name) {
            Some(p) => p.1,
            None => {
                return ;
            },
        };
        if matches!(bind, Bind::Unset) {
            return ;
        }
        let state = next_state(pressed, just_pressed, just_released);
        self.binds.insert(String::from_str(name), (state, bind));
    }

    /// Whether the action's input is down at all; an unregistered action
    /// is never pressed.
    pub fn is_pressed(&self, name: &str) -> (r: bool)
        requires
            self.binds.wf(),
        ensures
            r == (self.binds.contents().contains_key(name@) && !(self.binds.contents()[name@].0
                is Not)),
    {
        match self.binds.get(name) {
            Some(p) => !matches!(p.0, IsRun::Not),
            None => false,
        }
    }

    /// Whether the action's input went down on the last pass.
    pub fn is_just_pressed(&self, name: &str) -> (r: bool)
        requires
            self.binds.wf(),
        ensures
            r == (self.binds.contents().contains_key(name@) && self.binds.contents()[name@].0
                is OnceRun),
    {
        match self.binds.get(name) {
            Some(p) => matches!(p.0, IsRun::OnceRun),
            None => false,
        }
    }

    /// Whether the action's input came up on the last pass.
    pub fn is_just_released(&self, name: &str) -> (r: bool)
        requires
            self.binds.wf(),
        ensures
            r == (self.binds.contents().contains_key(name@) && self.binds.contents()[name@].0
                is ReleaseRun),
    {
        match self.binds.get(name) {
            Some(p) => matches!(p.0, IsRun::ReleaseRun),
            None => false,
        }
    }
}

} // verus!

//! A reflex controller driven by raw text commands.

use vstd::prelude::*;
use vstd::string::StrSliceExecFns;

use crate::agent::Action;
use crate::tui::parse_direction;
use crate::tui::parse_direction_spec;

verus! {

/// The action a raw command names: `mv` and `sh` with a direction letter,
/// `cl` to climb; anything else names none.
pub open spec fn keyboard_action_spec(c: Seq<char>) -> Option<Action> {
    if c.len() >= 3 && c[0] == 'm' && c[1] == 'v' && c[2] == ' ' {
        match parse_direction_spec(c) {
            Some(d) => Some(Action::Move(d)),
            None => None,
        }
    } else if c.len() >= 3 && c[0] == 's' && c[1] == 'h' && c[2] == ' ' {
        match parse_direction_spec(c) {
            Some(d) => Some(Action::Shoot(d)),
            None => None,
        }
    } else if c =~= seq!['c', 'l'] {
        Some(Action::Climb)
    } else {
        None
    }
}

/// An agent that turns the last text command it was handed into an action.
pub struct KeyboardAgent {
    cmd: Option<String>,
}

impl KeyboardAgent {
    /// The pending command's characters, if one is set.
    pub closed spec fn cmd_spec(self) -> Option<Seq<char>> {
        match self.cmd {
            Some(c) => Some(c@),
            None => None,
        }
    }

    pub fn new() -> (r: Self)
        ensures
            r.cmd_spec() is None,
    {
        KeyboardAgent { cmd: None }
    }

    pub fn set_cmd(&mut self, cmd: String)
        ensures
            final(self).cmd_spec() == Some(cmd@),
    {
        self.cmd = Some(cmd);
    }

    /// Consumes the pending command and returns the action it names.
    pub fn act(&mut self) -> (r: Option<Action>)
        ensures
            final(self).cmd_spec() is None,
            r == (match old(self).cmd_spec() {
                Some(c) => keyboard_action_spec(c),
                None => None::<Action>,
            }),
    {
        let action: Option<Action> = match &self.cmd {
            Some(cmd) => {
                let s: &str = cmd.as_str();
                let len = s.unicode_len();
                let is_mv = len >= 3 && s.get_char(0) == 'm' && s.get_char(1) == 'v'
                    && s.get_char(2) == ' ';
                let is_sh = len >= 3 && s.get_char(0) == 's' && s.get_char(1) == 'h'
                    && s.get_char(2) == ' ';
                let is_cl = len == 2 && s.get_char(0) == 'c' && s.get_char(1) == 'l';
                if is_mv {
                    match parse_direction(s) {
                        Some(d) => Some(Action::Move(d)),
                        None => None,
                    }
                } else if is_sh {
                    match parse_direction(s) {
                        Some(d) => Some(Action::Shoot(d)),
                        None => None,
                    }
                } else if is_cl {
                    proof {
                        assert(s@ =~= seq!['c', 'l']);
                    }
                    Some(Action::Climb)
                } else {
                    proof {
                        assert(!(s@ =~= seq!['c', 'l']));
                    }
                    None
                }
            },
            None => None,
        };
        self.cmd = None;
        action
    }
}

} // verus!

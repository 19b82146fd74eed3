use crate::text::{str_eq, str_uppercase, uppercase};
use vstd::prelude::*;
use vstd::string::StringExecFns;

verus! {

/// What a key is doing.
#[derive(Debug, PartialEq, Eq, Clone, Copy, Structural)]
pub enum KeyState {
    Down,
    Up,
    Hold,
}

/// The name under which a state appears in rendered text.
pub open spec fn state_name(state: KeyState) -> Seq<char> {
    match state {
        KeyState::Down => "Down"@,
        KeyState::Up => "Up"@,
        KeyState::Hold => "Hold"@,
    }
}

impl KeyState {
    /// The state that a raw event value stands for: 0 is a release, 1 a
    /// press, 2 a hold. No other value stands for a state.
    pub open spec fn of_raw(value: int) -> Option<KeyState> {
        if value == 0 {
            Some(KeyState::Up)
        } else if value == 1 {
            Some(KeyState::Down)
        } else if value == 2 {
            Some(KeyState::Hold)
        } else {
            None
        }
    }

    /// The state that an upper-case name stands for.
    pub open spec fn of_upper(upper: Seq<char>) -> Option<KeyState> {
        if upper == "DOWN"@ {
            Some(KeyState::Down)
        } else if upper == "UP"@ {
            Some(KeyState::Up)
        } else if upper == "HOLD"@ {
            Some(KeyState::Hold)
        } else {
            None
        }
    }

    pub fn from_raw(value: i32) -> (state: Option<KeyState>)
        ensures
            state == Self::of_raw(value as int),
    {
        match value {
            0 => Some(KeyState::Up),
            1 => Some(KeyState::Down),
            2 => Some(KeyState::Hold),
            _ => None,
        }
    }

    /// Reads a name that is already in upper case.
    pub fn from_upper(upper: &str) -> (state: Option<KeyState>)
        ensures
            state == Self::of_upper(upper@),
    {
        if str_eq(upper, "DOWN") {
            Some(KeyState::Down)
        } else if str_eq(upper, "UP") {
            Some(KeyState::Up)
        } else if str_eq(upper, "HOLD") {
            Some(KeyState::Hold)
        } else {
            None
        }
    }

    /// Reads a name in any mix of upper and lower case.
    pub fn from_name(name: &str) -> (state: Option<KeyState>)
        ensures
            state == Self::of_upper(str_uppercase(name@)),
    {
        let upper = uppercase(name);
        Self::from_upper(upper.as_str())
    }

    pub fn to_string(&self) -> (name: String)
        ensures
            name@ == state_name(*self),
    {
        match self {
            KeyState::Down => String::from_str("Down"),
            KeyState::Up => String::from_str("Up"),
            KeyState::Hold => String::from_str("Hold"),
        }
    }
}

} // verus!

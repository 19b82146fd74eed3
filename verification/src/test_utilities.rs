//! Helpers for writing out events by hand.

use crate::stuffs::key_code::{key_code_of_name, KeyCode};
use crate::stuffs::key_identifier::{KeyIdentifier, KeyView};
use crate::stuffs::key_state::KeyState;
use crate::stuffs::keyboard::Keyboard;
use crate::stuffs::keyboard_event::{EventView, KeyboardEvent};
use crate::stuffs::timestamp::{Timestamp, NANOS_PER_MILLI};
use crate::text::str_uppercase;
use vstd::prelude::*;

verus! {

/// The moment `milis` milliseconds after the Unix epoch.
pub fn mipoch(milis: u64) -> (moment: Timestamp)
    ensures
        moment@ == milis * NANOS_PER_MILLI,
{
    Timestamp::from_millis(milis)
}

/// The event that `tke` builds from its arguments, where the names of the
/// key and of the state are known ones.
pub open spec fn tke_view(alias: Seq<char>, key: Seq<char>, value: Seq<char>, milis: u64) -> Option<
    EventView,
> {
    match (key_code_of_name(key), KeyState::of_upper(str_uppercase(value))) {
        (Some(code), Some(state)) => Some(
            EventView {
                key: KeyView { alias, code: code.0 },
                state,
                time: (milis * NANOS_PER_MILLI) as nat,
            },
        ),
        _ => None,
    }
}

/// An event written out by names: the key of `device` with the short name
/// `key`, in the state named `value`, `milis` milliseconds after the Unix
/// epoch. There is no such event where one of the names is unknown.
pub fn tke<'a>(device: &'a Keyboard, key: &str, value: &str, milis: u64) -> (event: Option<
    KeyboardEvent<'a>,
>)
    ensures
        match event {
            Some(e) => tke_view(device@.alias, key@, value@, milis) == Some(e@),
            None => tke_view(device@.alias, key@, value@, milis) is None,
        },
{
    match (KeyCode::from_name(key), KeyState::from_name(value)) {
        (Some(code), Some(state)) => Some(
            KeyboardEvent::new(KeyIdentifier::new(device, code), state, mipoch(milis)),
        ),
        _ => None,
    }
}

} // verus!

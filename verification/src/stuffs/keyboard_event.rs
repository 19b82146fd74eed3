use super::key_identifier::{key_text, KeyIdentifier, KeyView};
use super::key_state::{state_name, KeyState};
use super::timestamp::Timestamp;
use vstd::prelude::*;
use vstd::std_specs::cmp::PartialEqSpecImpl;
use vstd::string::StringExecFns;

verus! {

/// A key, what it did, and when.
#[derive(Debug, Clone, Copy)]
pub struct KeyboardEvent<'a> {
    key: KeyIdentifier<'a>,
    value: KeyState,
    timestamp: Timestamp,
}

/// What an event says: which key, which state, at which nanosecond.
pub struct EventView {
    pub key: KeyView,
    pub state: KeyState,
    pub time: nat,
}

/// An event as text: the key, a space, the name of the state.
pub open spec fn event_text(event: EventView) -> Seq<char> {
    key_text(event.key) + " "@ + state_name(event.state)
}

impl<'a> View for KeyboardEvent<'a> {
    type V = EventView;

    closed spec fn view(&self) -> EventView {
        EventView { key: self.key@, state: self.value, time: self.timestamp@ }
    }
}

impl<'a> DeepView for KeyboardEvent<'a> {
    type V = EventView;

    open spec fn deep_view(&self) -> EventView {
        self@
    }
}

impl<'a> PartialEq for KeyboardEvent<'a> {
    fn eq(&self, other: &Self) -> (same: bool) {
        self.key == other.key && self.value == other.value && self.timestamp == other.timestamp
    }
}

impl<'a> PartialEqSpecImpl for KeyboardEvent<'a> {
    open spec fn obeys_eq_spec() -> bool {
        true
    }

    open spec fn eq_spec(&self, other: &Self) -> bool {
        self@ == other@
    }
}

impl<'a> Eq for KeyboardEvent<'a> {}

impl<'a> KeyboardEvent<'a> {
    pub fn new(key: KeyIdentifier<'a>, value: KeyState, timestamp: Timestamp) -> (event: Self)
        ensures
            event@ == (EventView { key: key@, state: value, time: timestamp@ }),
    {
        Self { key, value, timestamp }
    }

    pub fn key(&self) -> (key: &KeyIdentifier<'a>)
        ensures
            key@ == self@.key,
    {
        &self.key
    }

    pub fn value(&self) -> (value: &KeyState)
        ensures
            *value == self@.state,
    {
        &self.value
    }

    pub fn timestamp(&self) -> (timestamp: &Timestamp)
        ensures
            timestamp@ == self@.time,
    {
        &self.timestamp
    }

    pub fn to_string(&self) -> (text: String)
        ensures
            text@ == event_text(self@),
    {
        let mut text = self.key.to_string();
        text.append(" ");
        let state = self.value.to_string();
        text.append(state.as_str());
        text
    }
}

} // verus!

//! From key events to chords.

use crate::stuffs::key_state::KeyState;
use crate::stuffs::keyboard_event::{EventView, KeyboardEvent};
use vstd::prelude::*;

pub mod canonical;
pub mod laws;
pub mod model;
pub mod neo_sequence_manager;
pub mod sequence_manager;

verus! {

/// The keys held, as a stack: what follows a stack of presses and an event.
/// A press goes on top. The release of the key on top takes it off; any
/// other release, and every hold, changes nothing.
pub open spec fn stack_step(sequence: Seq<EventView>, event: EventView) -> Seq<EventView> {
    match event.state {
        KeyState::Down => sequence.push(event),
        KeyState::Up => if sequence.len() > 0 && sequence.last().key == event.key {
            sequence.drop_last()
        } else {
            sequence
        },
        KeyState::Hold => sequence,
    }
}

/// The simplest recorder of held keys: a stack of presses.
pub struct SequenceManager<'a> {
    sequence: Vec<KeyboardEvent<'a>>,
}

impl<'a> View for SequenceManager<'a> {
    type V = Seq<EventView>;

    closed spec fn view(&self) -> Seq<EventView> {
        self.sequence.deep_view()
    }
}

impl<'a> SequenceManager<'a> {
    pub fn new() -> (manager: Self)
        ensures
            manager@ == Seq::<EventView>::empty(),
    {
        let manager = Self { sequence: Vec::new() };
        assert(manager.sequence.deep_view() =~= Seq::empty());
        manager
    }

    pub fn receive(&mut self, event: KeyboardEvent<'a>)
        ensures
            final(self)@ == stack_step(old(self)@, event@),
    {
        let ghost before = self.sequence.deep_view();
        match event.value() {
            KeyState::Down => {
                self.sequence.push(event);
                assert(self.sequence.deep_view() =~= before.push(event@));
            },
            KeyState::Up => {
                let n = self.sequence.len();
                if n > 0 && *event.key() == *self.sequence[n - 1].key() {
                    self.sequence.pop();
                    assert(self.sequence.deep_view() =~= before.drop_last());
                }
            },
            KeyState::Hold => (),
        }
    }

    pub fn sequence(&self) -> (sequence: &Vec<KeyboardEvent<'a>>)
        ensures
            sequence.deep_view() == self@,
    {
        &self.sequence
    }
}

} // verus!

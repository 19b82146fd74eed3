//! A recorder of chords that knows presses only, and names a chord by the
//! keys that were pressed.

use crate::stuffs::key_identifier::key_text;
use crate::stuffs::key_state::KeyState;
use crate::stuffs::keyboard_event::{EventView, KeyboardEvent};
use crate::text::{join, lemma_join_push};
use vstd::prelude::*;
use vstd::string::StringExecFns;

verus! {

/// The keys of the events as text, joined by a comma and a space.
pub open spec fn joined_keys(events: Seq<EventView>) -> Seq<char> {
    join(events.map_values(|e: EventView| key_text(e.key)), ", "@)
}

struct Sequence<'a> {
    elements: Vec<KeyboardEvent<'a>>,
}

impl<'a> Sequence<'a> {
    fn add(&mut self, event: KeyboardEvent<'a>)
        ensures
            final(self).elements.deep_view() == old(self).elements.deep_view().push(event@),
    {
        let ghost before = self.elements.deep_view();
        self.elements.push(event);
        assert(self.elements.deep_view() =~= before.push(event@));
    }

    fn to_string(&self) -> (text: String)
        ensures
            text@ == joined_keys(self.elements.deep_view()),
    {
        let ghost texts = self.elements.deep_view().map_values(|e: EventView| key_text(e.key));
        let mut text = String::new();
        let mut i: usize = 0;
        assert(texts.take(0) =~= Seq::empty());
        while i < self.elements.len()
            invariant
                i <= self.elements.len(),
                texts == self.elements.deep_view().map_values(|e: EventView| key_text(e.key)),
                text@ == join(texts.take(i as int), ", "@),
            decreases self.elements.len() - i,
        {
            proof {
                lemma_join_push(texts.take(i as int), ", "@, texts[i as int]);
                assert(texts.take(i + 1) =~= texts.take(i as int).push(texts[i as int]));
            }
            if i > 0 {
                text.append(", ");
            }
            let part = self.elements[i].key().to_string();
            text.append(part.as_str());
            i += 1;
        }
        assert(texts.take(self.elements.len() as int) =~= texts);
        text
    }
}

pub struct NeoSequenceManager<'a> {
    sequence: Sequence<'a>,
}

impl<'a> View for NeoSequenceManager<'a> {
    type V = Seq<EventView>;

    closed spec fn view(&self) -> Seq<EventView> {
        self.sequence.elements.deep_view()
    }
}

impl<'a> NeoSequenceManager<'a> {
    pub fn new() -> (manager: Self)
        ensures
            manager@ == Seq::<EventView>::empty(),
    {
        let manager = Self { sequence: Sequence { elements: Vec::new() } };
        assert(manager.sequence.elements.deep_view() =~= Seq::empty());
        manager
    }

    /// Records a press. Releases and holds are not for this recorder.
    pub fn receive(&mut self, event: KeyboardEvent<'a>)
        requires
            event@.state == KeyState::Down,
        ensures
            final(self)@ == old(self)@.push(event@),
    {
        self.sequence.add(event);
    }

    /// The keys pressed so far, in the order of the presses.
    pub fn output(&self) -> (text: String)
        ensures
            text@ == joined_keys(self@),
    {
        self.sequence.to_string()
    }
}

} // verus!

//! The engine: it takes key events one at a time, keeps the chord in the
//! making, and puts out the canonical string of the chord when a release
//! completes a step.

use super::canonical::{canonical_string, canonical_text, separator};
use super::laws::lemma_step_keeps_well_formed;
use super::model::{
    first_of_key, holds_key, initial, is_key, is_other_key, modifiers_after, orphan_is_valid,
    output_of, sequence_after_cleanup, sequence_after_orphan, step, well_formed, with_key,
    without_key, EngineView,
};
use crate::stuffs::key_identifier::KeyIdentifier;
use crate::stuffs::key_state::KeyState;
use crate::stuffs::keyboard_event::KeyboardEvent;
use crate::text::{contains_comma_space, contains_text};
use vstd::prelude::*;

verus! {

/// Presses further apart than this many milliseconds start a new union.
pub const INTERVAL_LIMIT: u64 = 50;

/// A key released out of order after more than this many milliseconds
/// counts as a step of its own.
pub const ORPHAN_THRESHOLD: u64 = 150;

/// The codes of the modifier keys: backspace, the control, shift, alt and
/// meta keys of both sides.
pub open spec fn modifier_codes() -> Seq<u16> {
    seq![14u16, 29u16, 42u16, 54u16, 56u16, 97u16, 100u16, 125u16, 126u16]
}

/// The engine. It holds the chord in the making and the keys that are
/// held, and what the last event put out.
pub struct SequenceManager<'a> {
    sequence: Vec<KeyboardEvent<'a>>,
    output: String,
    emitted: bool,
    modifiers: Vec<u16>,
    currently_down_events: Vec<KeyboardEvent<'a>>,
    interval_limit: u64,
    orphan_threshold: u64,
    modifier_codes: Vec<u16>,
}

impl<'a> View for SequenceManager<'a> {
    type V = EngineView;

    closed spec fn view(&self) -> EngineView {
        EngineView {
            sequence: self.sequence.deep_view(),
            down: self.currently_down_events.deep_view(),
            modifiers: self.modifiers@,
            emitted: self.emitted,
            output: self.output@,
            interval_limit: self.interval_limit as nat,
            orphan_threshold: self.orphan_threshold as nat,
            modifier_codes: self.modifier_codes@,
        }
    }
}

/// Whether `code` is among `codes`.
pub fn contains_code(codes: &Vec<u16>, code: u16) -> (found: bool)
    ensures
        found == codes@.contains(code),
{
    let mut i: usize = 0;
    while i < codes.len()
        invariant
            i <= codes.len(),
            forall|j: int| 0 <= j < i ==> codes@[j] != code,
        decreases codes.len() - i,
    {
        if codes[i] == code {
            return true;
        }
        i += 1;
    }
    false
}

/// The place of the first event of the given key.
pub fn position_of_key(events: &Vec<KeyboardEvent<'_>>, key: &KeyIdentifier<'_>) -> (at: Option<
    usize,
>)
    ensures
        match at {
            Some(i) => i < events.len() && holds_key(events.deep_view(), key@) && events[i as int]@
                == first_of_key(events.deep_view(), key@),
            None => !holds_key(events.deep_view(), key@),
        },
{
    let ghost all = events.deep_view();
    let mut i: usize = 0;
    assert(all.take(0) =~= Seq::empty());
    assert(with_key(all.take(0), key@).len() == 0) by {
        reveal(Seq::filter);
    }
    while i < events.len()
        invariant
            i <= events.len(),
            all == events.deep_view(),
            with_key(all.take(i as int), key@).len() == 0,
            forall|j: int| 0 <= j < i ==> (#[trigger] all[j]).key != key@,
        decreases events.len() - i,
    {
        proof {
            assert(all.take(i + 1) =~= all.take(i as int).push(all[i as int]));
            all.take(i as int).lemma_filter_push(all[i as int], is_key(key@));
        }
        if *events[i].key() == *key {
            proof {
                assert(all =~= all.take(i + 1) + all.skip(i + 1));
                assert(with_key(all.take(i + 1), key@) =~= seq![all[i as int]]);
                Seq::filter_distributes_over_add(all.take(i + 1), all.skip(i + 1), is_key(key@));
            }
            return Some(i);
        }
        i += 1;
    }
    assert(all.take(events.len() as int) =~= all);
    None
}

/// The events of all keys but the given one, in order.
pub fn remove_key<'a>(events: &Vec<KeyboardEvent<'a>>, key: &KeyIdentifier<'_>) -> (rest: Vec<
    KeyboardEvent<'a>,
>)
    ensures
        rest.deep_view() == without_key(events.deep_view(), key@),
{
    let ghost all = events.deep_view();
    let mut rest: Vec<KeyboardEvent<'a>> = Vec::new();
    let mut i: usize = 0;
    assert(all.take(0) =~= Seq::empty());
    assert(rest.deep_view() =~= without_key(all.take(0), key@)) by {
        reveal(Seq::filter);
    }
    while i < events.len()
        invariant
            i <= events.len(),
            all == events.deep_view(),
            rest.deep_view() == without_key(all.take(i as int), key@),
        decreases events.len() - i,
    {
        let ghost before = rest.deep_view();
        proof {
            assert(all.take(i + 1) =~= all.take(i as int).push(all[i as int]));
            all.take(i as int).lemma_filter_push(all[i as int], is_other_key(key@));
        }
        if *events[i].key() != *key {
            rest.push(events[i]);
            assert(rest.deep_view() =~= before.push(all[i as int]));
        }
        i += 1;
    }
    assert(all.take(events.len() as int) =~= all);
    rest
}

impl<'a> SequenceManager<'a> {
    /// An engine with the usual limits and modifier keys, which has seen
    /// no event.
    pub fn new() -> (manager: Self)
        ensures
            manager@ == initial(INTERVAL_LIMIT as nat, ORPHAN_THRESHOLD as nat, modifier_codes()),
            well_formed(manager@),
    {
        let mut codes: Vec<u16> = Vec::new();
        codes.push(14);
        codes.push(29);
        codes.push(42);
        codes.push(54);
        codes.push(56);
        codes.push(97);
        codes.push(100);
        codes.push(125);
        codes.push(126);
        assert(codes@ =~= modifier_codes());
        Self::with_config(INTERVAL_LIMIT, ORPHAN_THRESHOLD, codes)
    }

    /// An engine with limits and modifier keys of the caller's choice,
    /// which has seen no event. The limits are in milliseconds.
    pub fn with_config(interval_limit: u64, orphan_threshold: u64, modifier_codes: Vec<u16>) -> (manager: Self)
        ensures
            manager@ == initial(interval_limit as nat, orphan_threshold as nat, modifier_codes@),
            well_formed(manager@),
    {
        let manager = Self {
            sequence: Vec::new(),
            output: String::new(),
            emitted: false,
            modifiers: Vec::new(),
            currently_down_events: Vec::new(),
            interval_limit,
            orphan_threshold,
            modifier_codes,
        };
        assert(manager.sequence.deep_view() =~= Seq::empty());
        assert(manager.currently_down_events.deep_view() =~= Seq::empty());
        manager
    }

    /// Takes one event: the state of the engine becomes the one that
    /// follows the state before and the event.
    pub fn receive(&mut self, event: KeyboardEvent<'a>)
        ensures
            final(self)@ == step(old(self)@, event@),
            well_formed(old(self)@) ==> well_formed(final(self)@),
    {
        proof {
            if well_formed(self@) {
                lemma_step_keeps_well_formed(self@, event@);
            }
        }
        self.output = String::new();
        self.update_modifiers(&event);
        match event.value() {
            KeyState::Down => {
                self.add_event(event);
                self.emitted = false;
                let ghost before = self.currently_down_events.deep_view();
                self.currently_down_events.push(event);
                assert(self.currently_down_events.deep_view() =~= before.push(event@));
            },
            KeyState::Up => {
                if position_of_key(&self.currently_down_events, event.key()).is_some() {
                    let last = self.currently_down_events.len() - 1;
                    let last_down_key = *self.currently_down_events[last].key();
                    self.handle_orphan_event(&event, &last_down_key);
                    self.update_output(&event);
                    self.key_up_event_cleanup(&event, &last_down_key);
                }
            },
            KeyState::Hold => (),
        }
    }

    fn handle_orphan_event(&mut self, event: &KeyboardEvent<'a>, last_down_key: &KeyIdentifier<'_>)
        requires
            holds_key(old(self)@.down, event@.key),
            last_down_key@ == old(self)@.down.last().key,
        ensures
            final(self)@ == (EngineView {
                sequence: sequence_after_orphan(old(self)@, event@),
                ..old(self)@
            }),
    {
        if *event.key() != *last_down_key {
            if self.orphan_is_valid(event) {
                self.add_event(*event);
            } else {
                self.sequence = remove_key(&self.sequence, event.key());
            }
        }
    }

    fn orphan_is_valid(&self, event: &KeyboardEvent<'_>) -> (valid: bool)
        requires
            holds_key(self@.down, event@.key),
        ensures
            valid == orphan_is_valid(self@, event@),
    {
        match position_of_key(&self.currently_down_events, event.key()) {
            Some(at) => {
                let orphan_counterpart = &self.currently_down_events[at];
                event.timestamp().exceeds(orphan_counterpart.timestamp(), self.orphan_threshold)
            },
            None => false,
        }
    }

    fn key_up_event_cleanup(&mut self, event: &KeyboardEvent<'_>, last_down_key: &KeyIdentifier<'_>)
        requires
            last_down_key@ == old(self)@.down.last().key,
        ensures
            final(self)@ == (EngineView {
                sequence: sequence_after_cleanup(
                    old(self)@.sequence,
                    old(self)@.down,
                    event@.key,
                ),
                down: without_key(old(self)@.down, event@.key),
                ..old(self)@
            }),
    {
        self.currently_down_events = remove_key(&self.currently_down_events, event.key());
        if *event.key() == *last_down_key {
            self.sequence = remove_key(&self.sequence, event.key());
        }
        if self.currently_down_events.len() == 0 {
            self.sequence = Vec::new();
            assert(self.sequence.deep_view() =~= Seq::empty());
        }
    }

    fn update_output(&mut self, event: &KeyboardEvent<'_>)
        requires
            old(self)@.output.len() == 0,
        ensures
            final(self)@ == (EngineView {
                output: output_of(old(self)@.sequence, event@.key, old(self)@.interval_limit),
                ..old(self)@
            }),
    {
        let n = self.sequence.len();
        if n > 0 && *self.sequence[n - 1].key() == *event.key() {
            self.output = self.produce_output();
        }
        assert(self.output@ =~= output_of(old(self)@.sequence, event@.key, old(self)@.interval_limit));
    }

    /// The code of the first key of the sequence.
    pub fn first_code(&self) -> (code: Option<u16>)
        ensures
            code == if self@.sequence.len() > 0 {
                Some(self@.sequence[0].key.code)
            } else {
                None
            },
    {
        if self.sequence.len() > 0 {
            Some(self.sequence[0].key().code().0)
        } else {
            None
        }
    }

    /// Whether the output holds a separator, as it does where it joins
    /// several events.
    pub fn is_combined(&self) -> (combined: bool)
        ensures
            combined == contains_text(self@.output, separator()),
    {
        contains_comma_space(self.output.as_str())
    }

    fn update_modifiers(&mut self, event: &KeyboardEvent<'_>)
        ensures
            final(self)@ == (EngineView {
                modifiers: modifiers_after(old(self)@, event@),
                ..old(self)@
            }),
    {
        let code = event.key().code().0;
        if self.emitted || self.sequence.len() == 0 {
            self.modifiers = Vec::new();
        } else if contains_code(&self.modifier_codes, code) {
            self.modifiers.push(code);
        }
    }

    fn add_event(&mut self, event: KeyboardEvent<'a>)
        ensures
            final(self)@ == (EngineView {
                sequence: old(self)@.sequence.push(event@),
                ..old(self)@
            }),
    {
        let ghost before = self.sequence.deep_view();
        self.sequence.push(event);
        assert(self.sequence.deep_view() =~= before.push(event@));
    }

    fn produce_output(&self) -> (text: String)
        ensures
            text@ == canonical_text(self@.sequence, self@.interval_limit),
    {
        canonical_string(&self.sequence, self.interval_limit)
    }

    /// The chord in the making.
    pub fn sequence(&self) -> (sequence: &Vec<KeyboardEvent<'a>>)
        ensures
            sequence.deep_view() == self@.sequence,
    {
        &self.sequence
    }

    /// What the last event put out: a canonical string, or nothing.
    pub fn output(&self) -> (output: &String)
        ensures
            output@ == self@.output,
    {
        &self.output
    }

    /// Whether the consumer has acted on the chord.
    pub fn emitted(&self) -> (emitted: &bool)
        ensures
            *emitted == self@.emitted,
    {
        &self.emitted
    }

    /// Marks the chord as acted on, or as not acted on.
    pub fn set_emitted(&mut self, val: bool)
        ensures
            final(self)@ == (EngineView { emitted: val, ..old(self)@ }),
    {
        self.emitted = val;
    }

    /// The codes of the modifier keys seen while the chord was made.
    pub fn modifiers(&self) -> (modifiers: &Vec<u16>)
        ensures
            modifiers@ == self@.modifiers,
    {
        &self.modifiers
    }
}

} // verus!

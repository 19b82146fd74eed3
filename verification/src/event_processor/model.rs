//! The engine as mathematics: its state, and the state that follows a
//! state and an event.

use super::canonical::canonical_text;
use crate::stuffs::key_identifier::KeyView;
use crate::stuffs::key_state::KeyState;
use crate::stuffs::keyboard_event::EventView;
use crate::stuffs::timestamp::elapsed_exceeds;
use vstd::prelude::*;

verus! {

/// The state of the engine.
pub struct EngineView {
    /// The events that make up the chord in the making, in arrival order.
    pub sequence: Seq<EventView>,
    /// The presses that no release has answered yet, in arrival order.
    pub down: Seq<EventView>,
    /// The codes of the modifier keys seen while the chord was made.
    pub modifiers: Seq<u16>,
    /// Whether the consumer has acted on the chord.
    pub emitted: bool,
    /// The canonical string that the last event produced, if it produced one.
    pub output: Seq<char>,
    /// Presses further apart than this many milliseconds start a new union.
    pub interval_limit: nat,
    /// A key released out of order, after more than this many milliseconds,
    /// counts as a step of its own.
    pub orphan_threshold: nat,
    /// The codes that count as modifier keys.
    pub modifier_codes: Seq<u16>,
}

/// The state of an engine that has seen no event.
pub open spec fn initial(
    interval_limit: nat,
    orphan_threshold: nat,
    modifier_codes: Seq<u16>,
) -> EngineView {
    EngineView {
        sequence: Seq::empty(),
        down: Seq::empty(),
        modifiers: Seq::empty(),
        emitted: false,
        output: Seq::empty(),
        interval_limit,
        orphan_threshold,
        modifier_codes,
    }
}

/// No key is held and no chord is in the making.
pub open spec fn idle(state: EngineView) -> bool {
    state.sequence.len() == 0 && state.down.len() == 0
}

/// The test that tells the events of a key from the others.
pub open spec fn is_key(key: KeyView) -> spec_fn(EventView) -> bool {
    |e: EventView| e.key == key
}

/// The test that tells the events of all other keys from those of a key.
pub open spec fn is_other_key(key: KeyView) -> spec_fn(EventView) -> bool {
    |e: EventView| e.key != key
}

/// The events of the given key, in order.
pub open spec fn with_key(events: Seq<EventView>, key: KeyView) -> Seq<EventView> {
    events.filter(is_key(key))
}

/// The events of all other keys, in order.
pub open spec fn without_key(events: Seq<EventView>, key: KeyView) -> Seq<EventView> {
    events.filter(is_other_key(key))
}

/// Whether some event is of the given key.
pub open spec fn holds_key(events: Seq<EventView>, key: KeyView) -> bool {
    exists|i: int| 0 <= i < events.len() && (#[trigger] events[i]).key == key
}

/// The first event of the given key.
pub open spec fn first_of_key(events: Seq<EventView>, key: KeyView) -> EventView {
    with_key(events, key)[0]
}

/// Whether the events hold a release of the given key.
pub open spec fn holds_release(events: Seq<EventView>, key: KeyView) -> bool {
    exists|i: int|
        0 <= i < events.len() && (#[trigger] events[i]).key == key && events[i].state
            == KeyState::Up
}

/// What holds of the state of an engine at all times.
///
/// The held keys are presses, and each has an entry in the sequence. The
/// sequence holds presses and releases only; each of its entries is of a
/// key that is still held, or of a key whose release the sequence holds
/// too. When no key is held, the sequence is empty. Every collected
/// modifier is a code from the table of modifier codes.
pub open spec fn well_formed(state: EngineView) -> bool {
    &&& forall|i: int|
        0 <= i < state.modifiers.len() ==> state.modifier_codes.contains(
            #[trigger] state.modifiers[i],
        )
    &&& forall|i: int|
        0 <= i < state.down.len() ==> (#[trigger] state.down[i]).state == KeyState::Down
    &&& forall|i: int|
        0 <= i < state.sequence.len() ==> (#[trigger] state.sequence[i]).state != KeyState::Hold
    &&& forall|i: int|
        0 <= i < state.down.len() ==> holds_key(state.sequence, (#[trigger] state.down[i]).key)
    &&& forall|i: int|
        0 <= i < state.sequence.len() ==> holds_key(
            state.down,
            (#[trigger] state.sequence[i]).key,
        ) || holds_release(state.sequence, state.sequence[i].key)
    &&& state.down.len() == 0 ==> state.sequence.len() == 0
}

/// The modifiers after an event: none once the chord was emitted, and none
/// while no chord is in the making; else the code of the event joins them
/// if it is a modifier's.
pub open spec fn modifiers_after(state: EngineView, event: EventView) -> Seq<u16> {
    if state.emitted || state.sequence.len() == 0 {
        Seq::empty()
    } else if state.modifier_codes.contains(event.key.code) {
        state.modifiers.push(event.key.code)
    } else {
        state.modifiers
    }
}

/// Whether a release is an orphan: it is not of the key pressed last among
/// those still held.
pub open spec fn is_orphan(state: EngineView, release: EventView) -> bool {
    release.key != state.down.last().key
}

/// Whether an orphan counts as a step of its own: its key was held for
/// longer than the threshold.
pub open spec fn orphan_is_valid(state: EngineView, release: EventView) -> bool {
    elapsed_exceeds(
        first_of_key(state.down, release.key).time,
        release.time,
        state.orphan_threshold,
    )
}

/// The sequence once an orphan has been dealt with. A valid orphan is
/// added to the sequence as a release; the entries of any other orphan
/// leave it. A release that is no orphan changes nothing here.
pub open spec fn sequence_after_orphan(state: EngineView, release: EventView) -> Seq<EventView> {
    if !is_orphan(state, release) {
        state.sequence
    } else if orphan_is_valid(state, release) {
        state.sequence.push(release)
    } else {
        without_key(state.sequence, release.key)
    }
}

/// What a release puts out: the canonical string of the sequence where
/// the last entry of the sequence is of the released key, else nothing.
pub open spec fn output_of(sequence: Seq<EventView>, key: KeyView, limit: nat) -> Seq<char> {
    if sequence.len() > 0 && sequence.last().key == key {
        canonical_text(sequence, limit)
    } else {
        Seq::empty()
    }
}

/// The sequence once a release is over: the entries of the key pressed
/// last leave with it, and nothing stays when no key is held any more.
pub open spec fn sequence_after_cleanup(
    sequence: Seq<EventView>,
    down: Seq<EventView>,
    key: KeyView,
) -> Seq<EventView> {
    if without_key(down, key).len() == 0 {
        Seq::empty()
    } else if key == down.last().key {
        without_key(sequence, key)
    } else {
        sequence
    }
}

/// The state after the release of a key. The release of a key that is not
/// held changes nothing.
pub open spec fn release(state: EngineView, event: EventView) -> EngineView {
    if !holds_key(state.down, event.key) {
        state
    } else {
        let sequence = sequence_after_orphan(state, event);
        EngineView {
            sequence: sequence_after_cleanup(sequence, state.down, event.key),
            down: without_key(state.down, event.key),
            output: output_of(sequence, event.key, state.interval_limit),
            ..state
        }
    }
}

/// The state after a press: the event joins the sequence and the held
/// keys, and the chord counts as not emitted.
pub open spec fn press(state: EngineView, event: EventView) -> EngineView {
    EngineView {
        sequence: state.sequence.push(event),
        down: state.down.push(event),
        emitted: false,
        ..state
    }
}

/// The state that follows a state and an event. Every event clears the
/// output and settles the modifiers first; then a press is recorded, a
/// release is worked off, and a hold changes nothing more.
pub open spec fn step(state: EngineView, event: EventView) -> EngineView {
    let cleared = EngineView {
        output: Seq::empty(),
        modifiers: modifiers_after(state, event),
        ..state
    };
    match event.state {
        KeyState::Down => press(cleared, event),
        KeyState::Up => release(cleared, event),
        KeyState::Hold => cleared,
    }
}

/// The state after a run of events.
pub open spec fn run(state: EngineView, events: Seq<EventView>) -> EngineView
    decreases events.len(),
{
    if events.len() == 0 {
        state
    } else {
        step(run(state, events.drop_last()), events.last())
    }
}

} // verus!

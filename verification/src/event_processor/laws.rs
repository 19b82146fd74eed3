//! What holds of the engine in every state and over every run of events.

use super::canonical::{
    anchor, canonical_text, insert_sorted, joined_events, lemma_sorted_by_key, lemma_unions,
    separator, sorted_by_key, starts_union, union_text, unions,
};
use super::model::{
    holds_key, holds_release, idle, initial, is_orphan, is_other_key, modifiers_after,
    orphan_is_valid, press, release, run, sequence_after_orphan, step, well_formed, without_key,
    EngineView,
};
use crate::stuffs::key_identifier::{key_le, lemma_key_le_total_order, KeyView};
use crate::stuffs::key_state::KeyState;
use crate::stuffs::keyboard_event::{event_text, EventView};
use crate::stuffs::timestamp::elapsed_exceeds;
use crate::text::{
    comma_space_at, contains_text, lemma_contains_comma_space, lemma_contains_text_in_middle,
    lemma_join_holds_separator, lemma_join_pair,
};
use vstd::prelude::*;

verus! {

/// The members of a sequence without a key: those of the other keys, all
/// of them, and no others.
pub proof fn lemma_without_key_members(events: Seq<EventView>, key: KeyView)
    ensures
        forall|i: int|
            0 <= i < without_key(events, key).len() ==> (#[trigger] without_key(
                events,
                key,
            )[i]).key != key && events.contains(without_key(events, key)[i]),
        forall|i: int|
            0 <= i < events.len() && (#[trigger] events[i]).key != key ==> without_key(
                events,
                key,
            ).contains(events[i]),
{
    let rest = without_key(events, key);
    assert forall|i: int| 0 <= i < rest.len() implies (#[trigger] rest[i]).key != key
        && events.contains(rest[i]) by {
        events.lemma_filter_pred(is_other_key(key), i);
        assert(rest.contains(rest[i]));
        events.lemma_filter_contains_rev(is_other_key(key), rest[i]);
    }
    assert forall|i: int| 0 <= i < events.len() && (#[trigger] events[i]).key != key implies
        rest.contains(events[i]) by {
        events.lemma_filter_contains(is_other_key(key), i);
    }
}

/// A sequence without a key holds every other key that it held before,
/// and not the key that left.
pub proof fn lemma_holds_key_without(events: Seq<EventView>, removed: KeyView, key: KeyView)
    ensures
        holds_key(without_key(events, removed), key) <==> holds_key(events, key) && key
            != removed,
{
    let rest = without_key(events, removed);
    lemma_without_key_members(events, removed);
    if holds_key(rest, key) {
        let i = choose|i: int| 0 <= i < rest.len() && (#[trigger] rest[i]).key == key;
        assert(events.contains(rest[i]));
        let j = choose|j: int| 0 <= j < events.len() && events[j] == rest[i];
        assert(events[j].key == key);
    }
    if holds_key(events, key) && key != removed {
        let i = choose|i: int| 0 <= i < events.len() && (#[trigger] events[i]).key == key;
        assert(rest.contains(events[i]));
        let j = choose|j: int| 0 <= j < rest.len() && rest[j] == events[i];
        assert(rest[j].key == key);
    }
}

/// A sequence without a key holds the releases of every other key that
/// it held before.
pub proof fn lemma_holds_release_without(events: Seq<EventView>, removed: KeyView, key: KeyView)
    ensures
        holds_release(without_key(events, removed), key) <==> holds_release(events, key)
            && key != removed,
{
    let rest = without_key(events, removed);
    lemma_without_key_members(events, removed);
    if holds_release(rest, key) {
        let i = choose|i: int|
            0 <= i < rest.len() && (#[trigger] rest[i]).key == key && rest[i].state
                == KeyState::Up;
        assert(events.contains(rest[i]));
        let j = choose|j: int| 0 <= j < events.len() && events[j] == rest[i];
        assert(events[j].key == key && events[j].state == KeyState::Up);
    }
    if holds_release(events, key) && key != removed {
        let i = choose|i: int|
            0 <= i < events.len() && (#[trigger] events[i]).key == key && events[i].state
                == KeyState::Up;
        assert(rest.contains(events[i]));
        let j = choose|j: int| 0 <= j < rest.len() && rest[j] == events[i];
        assert(rest[j].key == key && rest[j].state == KeyState::Up);
    }
}

/// An engine that has seen no event is in a well-formed state.
pub proof fn lemma_initial_is_well_formed(
    interval_limit: nat,
    orphan_threshold: nat,
    modifier_codes: Seq<u16>,
)
    ensures
        well_formed(initial(interval_limit, orphan_threshold, modifier_codes)),
        idle(initial(interval_limit, orphan_threshold, modifier_codes)),
{
}

proof fn lemma_press_keeps_well_formed(state: EngineView, event: EventView)
    requires
        well_formed(state),
        event.state == KeyState::Down,
    ensures
        well_formed(press(state, event)),
{
    let after = press(state, event);
    let n = state.sequence.len() as int;
    let m = state.down.len() as int;
    assert(after.sequence[n] == event);
    assert(after.down[m] == event);
    assert forall|i: int| 0 <= i < after.down.len() implies holds_key(
        after.sequence,
        (#[trigger] after.down[i]).key,
    ) by {
        if i < m {
            let j = choose|j: int|
                0 <= j < state.sequence.len() && (#[trigger] state.sequence[j]).key
                    == state.down[i].key;
            assert(after.sequence[j].key == after.down[i].key);
        }
    }
    assert forall|i: int| 0 <= i < after.sequence.len() implies holds_key(
        after.down,
        (#[trigger] after.sequence[i]).key,
    ) || holds_release(after.sequence, after.sequence[i].key) by {
        if i < n {
            let key = state.sequence[i].key;
            if holds_key(state.down, key) {
                let j = choose|j: int|
                    0 <= j < state.down.len() && (#[trigger] state.down[j]).key == key;
                assert(after.down[j].key == key);
            } else {
                let j = choose|j: int|
                    0 <= j < state.sequence.len() && (#[trigger] state.sequence[j]).key == key
                        && state.sequence[j].state == KeyState::Up;
                assert(after.sequence[j].key == key && after.sequence[j].state == KeyState::Up);
            }
        }
    }
}

proof fn lemma_release_keeps_well_formed(state: EngineView, event: EventView)
    requires
        well_formed(state),
        event.state == KeyState::Up,
    ensures
        well_formed(release(state, event)),
{
    if holds_key(state.down, event.key) {
        let key = event.key;
        let after = release(state, event);
        let last = state.down.last();
        let middle = sequence_after_orphan(state, event);
        lemma_without_key_members(state.down, key);
        lemma_without_key_members(state.sequence, key);
        lemma_without_key_members(middle, key);

        // What the sequence holds once the orphan is dealt with.
        assert forall|k: KeyView| k != key && holds_key(state.sequence, k) implies holds_key(
            middle,
            k,
        ) by {
            lemma_holds_key_without(state.sequence, key, k);
            let j = choose|j: int|
                0 <= j < state.sequence.len() && (#[trigger] state.sequence[j]).key == k;
            if middle == state.sequence.push(event) {
                assert(middle[j].key == k);
            }
        }
        assert forall|k: KeyView| k != key && holds_release(state.sequence, k) implies
            holds_release(middle, k) by {
            lemma_holds_release_without(state.sequence, key, k);
            let j = choose|j: int|
                0 <= j < state.sequence.len() && (#[trigger] state.sequence[j]).key == k
                    && state.sequence[j].state == KeyState::Up;
            if middle == state.sequence.push(event) {
                assert(middle[j].key == k && middle[j].state == KeyState::Up);
            }
        }
        assert forall|i: int| 0 <= i < middle.len() implies (#[trigger] middle[i]).state
            != KeyState::Hold && (middle[i].key == key || holds_key(state.sequence, middle[i].key))
        by {
            if middle == state.sequence.push(event) {
                if i < state.sequence.len() {
                    assert(middle[i] == state.sequence[i]);
                }
            } else if middle == without_key(state.sequence, key) {
                assert(state.sequence.contains(middle[i]));
                let j = choose|j: int| 0 <= j < state.sequence.len() && state.sequence[j] == middle[i];
                assert(state.sequence[j].key == middle[i].key);
            }
        }
        let valid_orphan = is_orphan(state, event) && orphan_is_valid(state, event);
        if valid_orphan {
            assert(middle[state.sequence.len() as int] == event);
            assert(holds_release(middle, key));
        }
        // The sequence at the end is the middle one, or the middle one
        // without the key, or empty.
        assert forall|i: int| 0 <= i < after.down.len() implies (#[trigger] after.down[i]).state
            == KeyState::Down && holds_key(after.sequence, after.down[i].key) by {
            assert(state.down.contains(after.down[i]));
            let j = choose|j: int| 0 <= j < state.down.len() && state.down[j] == after.down[i];
            let k = after.down[i].key;
            assert(holds_key(state.sequence, state.down[j].key));
            assert(holds_key(middle, k));
            lemma_holds_key_without(middle, key, k);
        }
        assert forall|i: int| 0 <= i < after.sequence.len() implies (#[trigger] after.sequence[i]).state
            != KeyState::Hold && (holds_key(after.down, after.sequence[i].key) || holds_release(
            after.sequence,
            after.sequence[i].key,
        )) by {
            let entry = after.sequence[i];
            let k = entry.key;
            if after.sequence == middle {
                // The release was an orphan: its key is not the last held.
                if k == key {
                    // Entries of the key stay only with a valid orphan.
                    assert(holds_release(middle, key));
                } else {
                    assert(holds_key(state.sequence, k));
                    let j = choose|j: int|
                        0 <= j < state.sequence.len() && (#[trigger] state.sequence[j]).key == k;
                    lemma_holds_key_without(state.down, key, k);
                }
            } else {
                assert(after.sequence == without_key(middle, key));
                assert(middle.contains(entry));
                let j = choose|j: int| 0 <= j < middle.len() && middle[j] == entry;
                assert(middle[j].key == k);
                assert(k != key);
                assert(holds_key(state.sequence, k));
                let h = choose|h: int|
                    0 <= h < state.sequence.len() && (#[trigger] state.sequence[h]).key == k;
                lemma_holds_key_without(state.down, key, k);
                lemma_holds_release_without(middle, key, k);
            }
        }
    }
}

/// Every step leads from a well-formed state to a well-formed state.
pub proof fn lemma_step_keeps_well_formed(state: EngineView, event: EventView)
    requires
        well_formed(state),
    ensures
        well_formed(step(state, event)),
{
    let cleared = EngineView {
        output: Seq::empty(),
        modifiers: modifiers_after(state, event),
        ..state
    };
    assert forall|i: int| 0 <= i < cleared.modifiers.len() implies state.modifier_codes.contains(
        #[trigger] cleared.modifiers[i],
    ) by {
        if i < state.modifiers.len() {
            assert(cleared.modifiers[i] == state.modifiers[i]);
        }
    }
    assert(well_formed(cleared));
    match event.state {
        KeyState::Down => lemma_press_keeps_well_formed(cleared, event),
        KeyState::Up => lemma_release_keeps_well_formed(cleared, event),
        KeyState::Hold => {},
    }
}

/// Every run of events leads from a well-formed state to a well-formed
/// state.
pub proof fn lemma_run_keeps_well_formed(state: EngineView, events: Seq<EventView>)
    requires
        well_formed(state),
    ensures
        well_formed(run(state, events)),
    decreases events.len(),
{
    if events.len() > 0 {
        lemma_run_keeps_well_formed(state, events.drop_last());
        lemma_step_keeps_well_formed(run(state, events.drop_last()), events.last());
    }
}

/// Presses only add to the sequence: after a run of presses the sequence
/// is what it was, followed by the presses in the order in which they came.
/// The same holds of the held keys.
pub proof fn lemma_presses_extend_sequence(state: EngineView, presses: Seq<EventView>)
    requires
        forall|i: int| 0 <= i < presses.len() ==> (#[trigger] presses[i]).state == KeyState::Down,
    ensures
        run(state, presses).sequence == state.sequence + presses,
        run(state, presses).down == state.down + presses,
    decreases presses.len(),
{
    if presses.len() == 0 {
        assert(state.sequence + presses =~= state.sequence);
        assert(state.down + presses =~= state.down);
    } else {
        let earlier = presses.drop_last();
        lemma_presses_extend_sequence(state, earlier);
        assert((state.sequence + earlier).push(presses.last()) =~= state.sequence + presses);
        assert((state.down + earlier).push(presses.last()) =~= state.down + presses);
    }
}

/// A sequence of one event has one union, and its canonical string is the
/// text of the event.
pub proof fn lemma_canonical_text_of_one(event: EventView, limit: nat)
    ensures
        canonical_text(seq![event], limit) == event_text(event),
{
    let sequence = seq![event];
    assert(sequence.drop_last() =~= Seq::empty());
    assert(unions(sequence.drop_last(), limit) =~= Seq::empty());
    let groups = unions(sequence, limit);
    assert(groups =~= seq![seq![event]]);
    assert(groups.map_values(|u: Seq<EventView>| union_text(u)) =~= seq![event_text(event)]);
}

/// The unions of a sequence of two events: one union where the second
/// came within the limit of the first, two unions where it did not.
pub proof fn lemma_unions_of_two(first: EventView, second: EventView, limit: nat)
    ensures
        unions(seq![first, second], limit) == if elapsed_exceeds(first.time, second.time, limit) {
            seq![seq![first], seq![second]]
        } else {
            seq![seq![first, second]]
        },
{
    let sequence = seq![first, second];
    let head = sequence.drop_last();
    assert(head =~= seq![first]);
    assert(head.drop_last() =~= Seq::empty());
    assert(unions(head.drop_last(), limit) =~= Seq::empty());
    assert(unions(head, limit) =~= seq![seq![first]]);
    assert(anchor(sequence, 0, limit) == first.time);
    if elapsed_exceeds(first.time, second.time, limit) {
        assert(starts_union(sequence, 1, limit));
        assert(unions(sequence, limit) =~= seq![seq![first], seq![second]]);
    } else {
        assert(!starts_union(sequence, 1, limit));
        assert(seq![first].push(second) =~= seq![first, second]);
        assert(unions(sequence, limit) =~= seq![seq![first, second]]);
    }
}

/// Two events in the order of their keys.
pub proof fn lemma_sorted_pair(first: EventView, second: EventView)
    ensures
        sorted_by_key(seq![first, second]) == if key_le(first.key, second.key) {
            seq![first, second]
        } else {
            seq![second, first]
        },
{
    let pair = seq![first, second];
    let head = pair.drop_last();
    assert(head =~= seq![first]);
    assert(head.drop_last() =~= Seq::empty());
    assert(sorted_by_key(head.drop_last()) =~= Seq::empty());
    assert(sorted_by_key(head) =~= seq![first]);
    if key_le(first.key, second.key) {
        assert(seq![first].push(second) =~= pair);
    } else {
        assert(seq![first].drop_last() =~= Seq::empty());
        assert(insert_sorted(seq![first].drop_last(), second) =~= seq![second]);
        assert(seq![second].push(first) =~= seq![second, first]);
    }
}

/// The text of two events, joined.
pub proof fn lemma_joined_pair(first: EventView, second: EventView)
    ensures
        joined_events(seq![first, second]) == event_text(first) + separator() + event_text(second),
{
    let texts = seq![first, second].map_values(|e: EventView| event_text(e));
    assert(texts =~= seq![event_text(first), event_text(second)]);
    lemma_join_pair(event_text(first), event_text(second), separator());
}

/// A union of two events is rendered in the order of their keys, in square
/// brackets.
pub proof fn lemma_union_text_of_two(first: EventView, second: EventView)
    ensures
        union_text(seq![first, second]) == if key_le(first.key, second.key) {
            "["@ + event_text(first) + separator() + event_text(second) + "]"@
        } else {
            "["@ + event_text(second) + separator() + event_text(first) + "]"@
        },
{
    lemma_sorted_pair(first, second);
    lemma_joined_pair(first, second);
    lemma_joined_pair(second, first);
    let inner = joined_events(sorted_by_key(seq![first, second]));
    if key_le(first.key, second.key) {
        assert("["@ + inner + "]"@ =~= "["@ + event_text(first) + separator() + event_text(second)
            + "]"@);
    } else {
        assert("["@ + inner + "]"@ =~= "["@ + event_text(second) + separator() + event_text(first)
            + "]"@);
    }
}

/// The rendering of a union of two keys does not depend on which of them
/// was pressed first.
pub proof fn lemma_union_text_ignores_press_order(first: EventView, second: EventView)
    requires
        first.key != second.key,
    ensures
        union_text(seq![first, second]) == union_text(seq![second, first]),
{
    lemma_key_le_total_order(first.key, second.key);
    lemma_union_text_of_two(first, second);
    lemma_union_text_of_two(second, first);
}

/// The state after two presses and the release of the second key, from an
/// idle state, where it matters for what is put out.
proof fn lemma_two_presses_then_release(
    state: EngineView,
    first: EventView,
    second: EventView,
    up: EventView,
)
    requires
        idle(state),
        first.state == KeyState::Down,
        second.state == KeyState::Down,
        up.state == KeyState::Up,
        up.key == second.key,
    ensures
        step(step(step(state, first), second), up).output == canonical_text(
            seq![first, second],
            state.interval_limit,
        ),
{
    let one = step(state, first);
    let two = step(one, second);
    assert(one.sequence =~= seq![first]);
    assert(one.down =~= seq![first]);
    assert(two.sequence =~= seq![first, second]);
    assert(two.down =~= seq![first, second]);
    assert(two.down[1].key == up.key);
}

/// Pressing a key and releasing it, with the engine idle before, is a
/// step of its own: the release puts out the text of the press, which is
/// not empty, and leaves the engine idle.
pub proof fn lemma_press_then_release(state: EngineView, down: EventView, up: EventView)
    requires
        idle(state),
        down.state == KeyState::Down,
        up.state == KeyState::Up,
        up.key == down.key,
    ensures
        step(step(state, down), up).output == event_text(down),
        step(step(state, down), up).output.len() > 0,
        idle(step(step(state, down), up)),
{
    let one = step(state, down);
    assert(one.sequence =~= seq![down]);
    assert(one.down =~= seq![down]);
    assert(one.down[0].key == up.key);
    lemma_canonical_text_of_one(down, state.interval_limit);
    lemma_without_key_members(one.down, up.key);
    let rest = without_key(one.down, up.key);
    if rest.len() > 0 {
        assert(one.down.contains(rest[0]));
    }
    reveal_strlit(" ");
}

/// Two presses within the interval limit of each other, with the engine
/// idle before, and then the release of the second key: the release puts
/// out one union of both presses, in the order of their keys and in square
/// brackets.
pub proof fn lemma_close_presses_make_one_union(
    state: EngineView,
    first: EventView,
    second: EventView,
    up: EventView,
)
    requires
        idle(state),
        first.state == KeyState::Down,
        second.state == KeyState::Down,
        up.state == KeyState::Up,
        up.key == second.key,
        !elapsed_exceeds(first.time, second.time, state.interval_limit),
    ensures
        step(step(step(state, first), second), up).output == if key_le(first.key, second.key) {
            "["@ + event_text(first) + separator() + event_text(second) + "]"@
        } else {
            "["@ + event_text(second) + separator() + event_text(first) + "]"@
        },
{
    lemma_two_presses_then_release(state, first, second, up);
    lemma_unions_of_two(first, second, state.interval_limit);
    lemma_union_text_of_two(first, second);
    let groups = unions(seq![first, second], state.interval_limit);
    assert(groups.map_values(|u: Seq<EventView>| union_text(u)) =~= seq![
        union_text(seq![first, second]),
    ]);
}

/// Two presses further apart than the interval limit, with the engine
/// idle before, and then the release of the second key: the release puts
/// out two unions, each the text of one press, in the order of the
/// presses, with the separator between them and no brackets.
pub proof fn lemma_distant_presses_make_two_unions(
    state: EngineView,
    first: EventView,
    second: EventView,
    up: EventView,
)
    requires
        idle(state),
        first.state == KeyState::Down,
        second.state == KeyState::Down,
        up.state == KeyState::Up,
        up.key == second.key,
        elapsed_exceeds(first.time, second.time, state.interval_limit),
    ensures
        step(step(step(state, first), second), up).output == event_text(first) + separator()
            + event_text(second),
{
    lemma_two_presses_then_release(state, first, second, up);
    lemma_unions_of_two(first, second, state.interval_limit);
    let groups = unions(seq![first, second], state.interval_limit);
    let texts = groups.map_values(|u: Seq<EventView>| union_text(u));
    assert(texts =~= seq![event_text(first), event_text(second)]);
    lemma_join_pair(event_text(first), event_text(second), separator());
}

/// Once no key is held, nothing is left of the chord before: the sequence
/// is empty, and the next press starts a sequence of that press alone,
/// with no modifiers, no output, and not emitted.
pub proof fn lemma_press_after_all_released(state: EngineView, down: EventView)
    requires
        well_formed(state),
        state.down.len() == 0,
        down.state == KeyState::Down,
    ensures
        idle(state),
        step(state, down).sequence == seq![down],
        step(state, down).down == seq![down],
        step(state, down).modifiers == Seq::<u16>::empty(),
        step(state, down).output == Seq::<char>::empty(),
        !step(state, down).emitted,
{
    assert(step(state, down).sequence =~= seq![down]);
    assert(step(state, down).down =~= seq![down]);
}

/// The canonical string holds a separator exactly where the sequence has
/// two entries or more, as long as no entry has a comma in its own text.
pub proof fn lemma_separator_means_several_events(sequence: Seq<EventView>, limit: nat)
    requires
        forall|i: int|
            0 <= i < sequence.len() ==> !event_text(#[trigger] sequence[i]).contains(','),
    ensures
        contains_text(canonical_text(sequence, limit), separator()) <==> sequence.len() >= 2,
{
    let text = canonical_text(sequence, limit);
    let groups = unions(sequence, limit);
    let texts = groups.map_values(|u: Seq<EventView>| union_text(u));
    lemma_unions(sequence, limit);
    lemma_contains_comma_space(text);
    if sequence.len() == 0 {
        assert(groups =~= Seq::empty());
        assert(texts =~= Seq::empty());
    } else if sequence.len() == 1 {
        assert(sequence =~= seq![sequence[0]]);
        lemma_canonical_text_of_one(sequence[0], limit);
        if exists|i: int| comma_space_at(text, i) {
            let i = choose|i: int| comma_space_at(text, i);
            assert(text[i] == ',');
        }
    } else if groups.len() >= 2 {
        lemma_join_holds_separator(texts, separator());
    } else {
        assert(groups.len() == 1);
        assert(groups =~= seq![groups[0]]);
        groups.lemma_flatten_one_element();
        let union = groups[0];
        assert(union == sequence);
        lemma_sorted_by_key(union);
        let parts = sorted_by_key(union).map_values(|e: EventView| event_text(e));
        lemma_join_holds_separator(parts, separator());
        lemma_contains_text_in_middle("["@, joined_events(sorted_by_key(union)), "]"@, separator());
        assert(texts =~= seq![union_text(union)]);
    }
}

/// The release of a key that is not held is ignored: the sequence, the
/// held keys and the mark stay as they are. The output is empty, and the
/// modifiers are settled as for every event.
pub proof fn lemma_release_of_unheld_key(state: EngineView, up: EventView)
    requires
        up.state == KeyState::Up,
        !holds_key(state.down, up.key),
    ensures
        step(state, up) == (EngineView {
            output: Seq::empty(),
            modifiers: modifiers_after(state, up),
            ..state
        }),
{
}

/// A hold leaves the sequence, the held keys and the mark as they are.
/// The output is empty, and the modifiers are settled as for every event.
pub proof fn lemma_hold(state: EngineView, hold: EventView)
    requires
        hold.state == KeyState::Hold,
    ensures
        step(state, hold) == (EngineView {
            output: Seq::empty(),
            modifiers: modifiers_after(state, hold),
            ..state
        }),
{
}

/// The release of a held key that was not pressed last: the key is held no
/// more, and the other keys still are. Where the key was held for longer
/// than the threshold, the release joins the sequence as an entry of its
/// own and the canonical string of the sequence is put out; else the
/// entries of the key leave the sequence.
pub proof fn lemma_orphan_release(state: EngineView, up: EventView)
    requires
        up.state == KeyState::Up,
        holds_key(state.down, up.key),
        up.key != state.down.last().key,
    ensures
        step(state, up).down == without_key(state.down, up.key),
        step(state, up).down.len() > 0,
        orphan_is_valid(state, up) ==> step(state, up).sequence == state.sequence.push(up)
            && step(state, up).output == canonical_text(
            state.sequence.push(up),
            state.interval_limit,
        ),
        !orphan_is_valid(state, up) ==> step(state, up).sequence == without_key(
            state.sequence,
            up.key,
        ),
{
    let last = state.down.len() - 1;
    lemma_without_key_members(state.down, up.key);
    assert(state.down[last].key != up.key);
    assert(without_key(state.down, up.key).contains(state.down[last]));
    let cleared = EngineView {
        output: Seq::empty(),
        modifiers: modifiers_after(state, up),
        ..state
    };
    assert(orphan_is_valid(cleared, up) == orphan_is_valid(state, up));
    assert(is_orphan(cleared, up));
}

} // verus!

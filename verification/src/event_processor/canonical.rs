//! The canonical string of a sequence of events: the events are split into
//! unions of presses that came close together in time, each union is
//! rendered, and the renderings are joined.

use super::model::{is_key, with_key};
use crate::stuffs::key_identifier::{
    key_le, lemma_key_le_total_order, lemma_key_le_transitive, KeyView,
};
use crate::stuffs::keyboard_event::{event_text, EventView, KeyboardEvent};
use crate::stuffs::timestamp::{elapsed_exceeds, Timestamp};
use crate::text::{join, lemma_join_push};
use vstd::prelude::*;
use vstd::string::StringExecFns;

verus! {

/// What stands between two unions, and between two members of a union.
pub open spec fn separator() -> Seq<char> {
    ", "@
}

/// `sorted` with `event` put behind the last member whose key does not come
/// after the key of `event`.
pub open spec fn insert_sorted(sorted: Seq<EventView>, event: EventView) -> Seq<EventView>
    decreases sorted.len(),
{
    if sorted.len() == 0 || key_le(sorted.last().key, event.key) {
        sorted.push(event)
    } else {
        insert_sorted(sorted.drop_last(), event).push(sorted.last())
    }
}

/// The events in the order of their keys. Events of one key keep the order
/// in which they came.
pub open spec fn sorted_by_key(events: Seq<EventView>) -> Seq<EventView>
    decreases events.len(),
{
    if events.len() == 0 {
        events
    } else {
        insert_sorted(sorted_by_key(events.drop_last()), events.last())
    }
}

/// The moment from which entry `i` measures the interval: the time of the
/// entry that started the union which entry `i` belongs to.
pub open spec fn anchor(sequence: Seq<EventView>, i: int, limit: nat) -> nat
    decreases i,
{
    if i <= 0 {
        sequence[0].time
    } else {
        let before = anchor(sequence, i - 1, limit);
        if elapsed_exceeds(before, sequence[i].time, limit) {
            sequence[i].time
        } else {
            before
        }
    }
}

/// Whether entry `i` starts a union: the first entry does, and so does
/// every entry that comes more than `limit` milliseconds after the start of
/// the union before it.
pub open spec fn starts_union(sequence: Seq<EventView>, i: int, limit: nat) -> bool {
    i == 0 || elapsed_exceeds(anchor(sequence, i - 1, limit), sequence[i].time, limit)
}

/// The sequence cut into its unions, in order.
pub open spec fn unions(sequence: Seq<EventView>, limit: nat) -> Seq<Seq<EventView>>
    decreases sequence.len(),
{
    if sequence.len() == 0 {
        Seq::empty()
    } else {
        let before = unions(sequence.drop_last(), limit);
        if starts_union(sequence, sequence.len() - 1, limit) {
            before.push(seq![sequence.last()])
        } else {
            before.drop_last().push(before.last().push(sequence.last()))
        }
    }
}

/// The texts of the events, joined by the separator.
pub open spec fn joined_events(events: Seq<EventView>) -> Seq<char> {
    join(events.map_values(|e: EventView| event_text(e)), separator())
}

/// A union as text: a single member stands as it is; several members stand
/// in the order of their keys, joined and set in square brackets.
pub open spec fn union_text(union: Seq<EventView>) -> Seq<char> {
    if union.len() == 1 {
        event_text(union[0])
    } else {
        "["@ + joined_events(sorted_by_key(union)) + "]"@
    }
}

/// The canonical string of a sequence.
pub open spec fn canonical_text(sequence: Seq<EventView>, limit: nat) -> Seq<char> {
    join(unions(sequence, limit).map_values(|u: Seq<EventView>| union_text(u)), separator())
}

/// The anchor of an entry depends only on the entries up to it.
pub proof fn lemma_anchor_of_prefix(sequence: Seq<EventView>, n: int, i: int, limit: nat)
    requires
        0 <= i < n <= sequence.len(),
    ensures
        anchor(sequence.take(n), i, limit) == anchor(sequence, i, limit),
    decreases i,
{
    if i > 0 {
        lemma_anchor_of_prefix(sequence, n, i - 1, limit);
    }
}

/// Whether the events stand in the order of their keys.
pub open spec fn ordered_by_key(events: Seq<EventView>) -> bool {
    forall|i: int, j: int|
        0 <= i < j < events.len() ==> key_le((#[trigger] events[i]).key, (#[trigger] events[j]).key)
}

/// What `insert_sorted` gives holds the event and the members of
/// `sorted`, and nothing else.
pub proof fn lemma_insert_sorted_members(sorted: Seq<EventView>, event: EventView)
    ensures
        insert_sorted(sorted, event).len() == sorted.len() + 1,
        insert_sorted(sorted, event).to_multiset() == sorted.to_multiset().insert(event),
        forall|i: int|
            0 <= i < insert_sorted(sorted, event).len() ==> (#[trigger] insert_sorted(
                sorted,
                event,
            )[i]) == event || sorted.contains(insert_sorted(sorted, event)[i]),
    decreases sorted.len(),
{
    broadcast use vstd::seq_lib::to_multiset_build;

    let after = insert_sorted(sorted, event);
    if sorted.len() == 0 || key_le(sorted.last().key, event.key) {
        assert forall|i: int| 0 <= i < after.len() implies (#[trigger] after[i]) == event
            || sorted.contains(after[i]) by {
            if i < sorted.len() {
                assert(after[i] == sorted[i]);
            }
        }
    } else {
        let shorter = sorted.drop_last();
        let inner = insert_sorted(shorter, event);
        lemma_insert_sorted_members(shorter, event);
        assert(sorted =~= shorter.push(sorted.last()));
        assert(shorter.to_multiset().insert(event).insert(sorted.last())
            =~= shorter.to_multiset().insert(sorted.last()).insert(event));
        assert forall|i: int| 0 <= i < after.len() implies (#[trigger] after[i]) == event
            || sorted.contains(after[i]) by {
            if i < inner.len() {
                assert(after[i] == inner[i]);
                if inner[i] != event {
                    let j = choose|j: int| 0 <= j < shorter.len() && shorter[j] == inner[i];
                    assert(sorted[j] == inner[i]);
                }
            } else {
                assert(after[i] == sorted[sorted.len() - 1]);
            }
        }
    }
}

/// Putting an event into events that stand in the order of their keys
/// leaves them in that order.
pub proof fn lemma_insert_sorted_keeps_order(sorted: Seq<EventView>, event: EventView)
    requires
        ordered_by_key(sorted),
    ensures
        ordered_by_key(insert_sorted(sorted, event)),
    decreases sorted.len(),
{
    let after = insert_sorted(sorted, event);
    if sorted.len() == 0 || key_le(sorted.last().key, event.key) {
        assert forall|i: int, j: int| 0 <= i < j < after.len() implies key_le(
            (#[trigger] after[i]).key,
            (#[trigger] after[j]).key,
        ) by {
            if j == sorted.len() {
                assert(after[i] == sorted[i]);
                if i < sorted.len() - 1 {
                    lemma_key_le_transitive(sorted[i].key, sorted.last().key, event.key);
                }
            } else {
                assert(after[i] == sorted[i] && after[j] == sorted[j]);
            }
        }
    } else {
        let shorter = sorted.drop_last();
        let inner = insert_sorted(shorter, event);
        assert(ordered_by_key(shorter)) by {
            assert forall|i: int, j: int| 0 <= i < j < shorter.len() implies key_le(
                (#[trigger] shorter[i]).key,
                (#[trigger] shorter[j]).key,
            ) by {
                assert(shorter[i] == sorted[i] && shorter[j] == sorted[j]);
            }
        }
        lemma_insert_sorted_keeps_order(shorter, event);
        lemma_insert_sorted_members(shorter, event);
        lemma_key_le_total_order(sorted.last().key, event.key);
        assert forall|i: int, j: int| 0 <= i < j < after.len() implies key_le(
            (#[trigger] after[i]).key,
            (#[trigger] after[j]).key,
        ) by {
            if j < inner.len() {
                assert(after[i] == inner[i] && after[j] == inner[j]);
            } else {
                assert(after[j] == sorted.last());
                assert(after[i] == inner[i]);
                if inner[i] != event {
                    let k = choose|k: int| 0 <= k < shorter.len() && shorter[k] == inner[i];
                    assert(sorted[k] == inner[i]);
                    assert(key_le(sorted[k].key, sorted[sorted.len() - 1].key));
                }
            }
        }
    }
}

/// An event that is put in comes behind the events of its own key: among
/// the events of any one key, the order stays as it was, with the new event
/// last.
pub proof fn lemma_insert_sorted_is_stable(sorted: Seq<EventView>, event: EventView, key: KeyView)
    ensures
        with_key(insert_sorted(sorted, event), key) == if event.key == key {
            with_key(sorted, key).push(event)
        } else {
            with_key(sorted, key)
        },
    decreases sorted.len(),
{
    if sorted.len() == 0 || key_le(sorted.last().key, event.key) {
        sorted.lemma_filter_push(event, is_key(key));
    } else {
        let shorter = sorted.drop_last();
        let last = sorted.last();
        lemma_insert_sorted_is_stable(shorter, event, key);
        lemma_key_le_total_order(last.key, event.key);
        assert(sorted =~= shorter.push(last));
        shorter.lemma_filter_push(last, is_key(key));
        insert_sorted(shorter, event).lemma_filter_push(last, is_key(key));
    }
}

/// Sorting by key gives the same events, in the order of their keys, with
/// the events of each key in the order in which they came.
pub proof fn lemma_sorted_by_key(events: Seq<EventView>)
    ensures
        sorted_by_key(events).len() == events.len(),
        sorted_by_key(events).to_multiset() == events.to_multiset(),
        ordered_by_key(sorted_by_key(events)),
        forall|key: KeyView| #[trigger] with_key(sorted_by_key(events), key) == with_key(events, key),
    decreases events.len(),
{
    broadcast use vstd::seq_lib::to_multiset_build;

    if events.len() > 0 {
        let shorter = events.drop_last();
        let last = events.last();
        lemma_sorted_by_key(shorter);
        lemma_insert_sorted_members(sorted_by_key(shorter), last);
        lemma_insert_sorted_keeps_order(sorted_by_key(shorter), last);
        assert(events =~= shorter.push(last));
        assert forall|key: KeyView| #[trigger]
            with_key(sorted_by_key(events), key) == with_key(events, key) by {
            lemma_insert_sorted_is_stable(sorted_by_key(shorter), last, key);
            shorter.lemma_filter_push(last, is_key(key));
        }
    }
}

/// Whether every member of the union lies within the limit of the first.
pub open spec fn within_limit(union: Seq<EventView>, limit: nat) -> bool {
    forall|m: int|
        0 <= m < union.len() ==> !elapsed_exceeds(union[0].time, (#[trigger] union[m]).time, limit)
}

/// Whether the groups are unions as they should be: none is empty, the
/// members of each lie within the limit of its first member, and the first
/// member of each but the first lies beyond the limit of the first member
/// of the group before it.
pub open spec fn well_cut(groups: Seq<Seq<EventView>>, limit: nat) -> bool {
    &&& forall|u: int| 0 <= u < groups.len() ==> (#[trigger] groups[u]).len() > 0
    &&& forall|u: int| 0 <= u < groups.len() ==> within_limit(#[trigger] groups[u], limit)
    &&& forall|u: int, v: int|
        0 <= u && v == u + 1 && v < groups.len() ==> elapsed_exceeds(
            (#[trigger] groups[u])[0].time,
            (#[trigger] groups[v])[0].time,
            limit,
        )
}

/// The unions of a sequence are its entries, cut into pieces: put together
/// again, they are the sequence, and they are cut as `well_cut` says.
pub proof fn lemma_unions(sequence: Seq<EventView>, limit: nat)
    ensures
        unions(sequence, limit).flatten() == sequence,
        sequence.len() > 0 ==> unions(sequence, limit).len() > 0,
        well_cut(unions(sequence, limit), limit),
{
    lemma_unions_and_anchor(sequence, limit);
}

/// What `lemma_unions` says, and that the last union starts at the anchor
/// of the last entry.
proof fn lemma_unions_and_anchor(sequence: Seq<EventView>, limit: nat)
    ensures
        unions(sequence, limit).flatten() == sequence,
        well_cut(unions(sequence, limit), limit),
        sequence.len() > 0 ==> unions(sequence, limit).len() > 0 && unions(
            sequence,
            limit,
        ).last()[0].time == anchor(sequence, sequence.len() - 1, limit),
    decreases sequence.len(),
{
    let groups = unions(sequence, limit);
    if sequence.len() == 0 {
        assert(groups.flatten() =~= sequence);
    } else {
        let n = sequence.len() as int;
        let shorter = sequence.drop_last();
        let last = sequence.last();
        let before = unions(shorter, limit);
        lemma_unions_and_anchor(shorter, limit);
        assert(shorter =~= sequence.take(n - 1));
        assert(sequence =~= shorter.push(last));
        if n > 1 {
            lemma_anchor_of_prefix(sequence, n - 1, n - 2, limit);
        }
        if starts_union(sequence, n - 1, limit) {
            let single = seq![last];
            before.lemma_flatten_push(single);
            assert(before.flatten() + single =~= sequence);
            assert(groups == before.push(single));
            assert(within_limit(single, limit));
            assert forall|u: int| 0 <= u < groups.len() implies (#[trigger] groups[u]).len() > 0
                && within_limit(groups[u], limit) by {
                if u < before.len() {
                    assert(groups[u] == before[u]);
                }
            }
            assert forall|u: int, v: int| 0 <= u && v == u + 1 && v < groups.len() implies
                elapsed_exceeds(
                (#[trigger] groups[u])[0].time,
                (#[trigger] groups[v])[0].time,
                limit,
            ) by {
                assert(groups[u] == before[u]);
                if v < before.len() {
                    assert(groups[v] == before[v]);
                }
            }
        } else {
            let head = before.drop_last();
            let tail = before.last();
            let longer = tail.push(last);
            assert(before =~= head.push(tail));
            head.lemma_flatten_push(tail);
            head.lemma_flatten_push(longer);
            assert(head.flatten() + longer =~= (head.flatten() + tail).push(last));
            assert(groups == head.push(longer));
            assert(longer[0] == tail[0]);
            assert(within_limit(tail, limit));
            assert(within_limit(longer, limit)) by {
                assert forall|m: int| 0 <= m < longer.len() implies !elapsed_exceeds(
                    longer[0].time,
                    (#[trigger] longer[m]).time,
                    limit,
                ) by {
                    if m < tail.len() {
                        assert(longer[m] == tail[m]);
                    }
                }
            }
            assert forall|u: int| 0 <= u < groups.len() implies (#[trigger] groups[u]).len() > 0
                && within_limit(groups[u], limit) by {
                if u < head.len() {
                    assert(groups[u] == before[u]);
                }
            }
            assert forall|u: int, v: int| 0 <= u && v == u + 1 && v < groups.len() implies
                elapsed_exceeds(
                (#[trigger] groups[u])[0].time,
                (#[trigger] groups[v])[0].time,
                limit,
            ) by {
                assert(groups[u] == before[u]);
                assert(groups[v][0] == before[v][0]);
            }
        }
    }
}

/// Where `insert_sorted` puts an event, counted from the end: the members
/// from `pos` on all come after the event, so the event goes before them.
proof fn lemma_insert_skips_tail(sorted: Seq<EventView>, event: EventView, pos: int)
    requires
        0 <= pos <= sorted.len(),
        forall|j: int| pos <= j < sorted.len() ==> !key_le(#[trigger] sorted[j].key, event.key),
    ensures
        insert_sorted(sorted, event) == insert_sorted(sorted.take(pos), event) + sorted.skip(pos),
    decreases sorted.len() - pos,
{
    if pos == sorted.len() {
        assert(sorted.take(pos) =~= sorted);
        assert(insert_sorted(sorted, event) + sorted.skip(pos) =~= insert_sorted(sorted, event));
    } else {
        let shorter = sorted.drop_last();
        lemma_insert_skips_tail(shorter, event, pos);
        assert(shorter.take(pos) =~= sorted.take(pos));
        assert(shorter.skip(pos).push(sorted.last()) =~= sorted.skip(pos));
        assert(insert_sorted(sorted, event) == insert_sorted(shorter, event).push(sorted.last()));
        assert((insert_sorted(shorter.take(pos), event) + shorter.skip(pos)).push(sorted.last())
            =~= insert_sorted(sorted.take(pos), event) + sorted.skip(pos));
    }
}

/// The events in the order of their keys; events of one key keep their
/// order.
pub fn sort_by_key<'a>(events: &Vec<KeyboardEvent<'a>>) -> (sorted: Vec<KeyboardEvent<'a>>)
    ensures
        sorted.deep_view() == sorted_by_key(events.deep_view()),
{
    let mut sorted: Vec<KeyboardEvent<'a>> = Vec::new();
    let mut i: usize = 0;
    assert(events.deep_view().take(0) =~= Seq::empty());
    assert(sorted.deep_view() =~= Seq::empty());
    while i < events.len()
        invariant
            i <= events.len(),
            sorted.deep_view() == sorted_by_key(events.deep_view().take(i as int)),
        decreases events.len() - i,
    {
        let event = events[i];
        let mut pos: usize = sorted.len();
        while pos > 0 && !sorted[pos - 1].key().le(event.key())
            invariant
                pos <= sorted.len(),
                forall|j: int|
                    pos <= j < sorted.len() ==> !key_le(
                        #[trigger] sorted.deep_view()[j].key,
                        event@.key,
                    ),
            decreases pos,
        {
            pos -= 1;
        }
        proof {
            let before = sorted.deep_view();
            let prefix = events.deep_view().take(i as int);
            let next = events.deep_view().take(i + 1);
            lemma_insert_skips_tail(before, event@, pos as int);
            assert(next.drop_last() =~= prefix);
            assert(next.last() == event@);
            if pos > 0 {
                assert(before.take(pos as int).last() == before[pos - 1]);
            }
            assert(insert_sorted(before.take(pos as int), event@) == before.take(pos as int).push(
                event@,
            ));
            assert(before.take(pos as int).push(event@) + before.skip(pos as int)
                =~= before.insert(pos as int, event@));
        }
        let ghost before = sorted.deep_view();
        sorted.insert(pos, event);
        assert(sorted.deep_view() =~= before.insert(pos as int, event@));
        i += 1;
    }
    assert(events.deep_view().take(events.len() as int) =~= events.deep_view());
    sorted
}

/// Cuts a sequence into its unions.
pub fn split_unions<'a>(sequence: &Vec<KeyboardEvent<'a>>, interval_limit: u64) -> (groups: Vec<
    Vec<KeyboardEvent<'a>>,
>)
    ensures
        groups.deep_view() == unions(sequence.deep_view(), interval_limit as nat),
{
    let ghost all = sequence.deep_view();
    let ghost limit = interval_limit as nat;
    let mut groups: Vec<Vec<KeyboardEvent<'a>>> = Vec::new();
    if sequence.len() == 0 {
        assert(groups.deep_view() =~= Seq::empty());
        return groups;
    }
    let mut last_time: Timestamp = *sequence[0].timestamp();
    let mut i: usize = 0;
    assert(all.take(0) =~= Seq::empty());
    assert(groups.deep_view() =~= Seq::empty());
    while i < sequence.len()
        invariant
            i <= sequence.len(),
            all == sequence.deep_view(),
            limit == interval_limit as nat,
            groups.deep_view() == unions(all.take(i as int), limit),
            i > 0 ==> groups.len() > 0,
            last_time@ == anchor(all, i - 1, limit),
        decreases sequence.len() - i,
    {
        let event = sequence[i];
        let ghost before = groups.deep_view();
        proof {
            let next = all.take(i + 1);
            assert(next.drop_last() =~= all.take(i as int));
            assert(next.last() == event@);
            if i > 0 {
                lemma_anchor_of_prefix(all, i + 1, i - 1, limit);
            }
        }
        if i == 0 || event.timestamp().exceeds(&last_time, interval_limit) {
            let mut group: Vec<KeyboardEvent<'a>> = Vec::new();
            group.push(event);
            assert(group.deep_view() =~= seq![event@]);
            groups.push(group);
            last_time = *event.timestamp();
            assert(groups.deep_view() =~= before.push(seq![event@]));
        } else {
            let mut group = groups.pop().unwrap();
            let ghost shorter = groups.deep_view();
            let ghost members = group.deep_view();
            assert(shorter =~= before.drop_last());
            assert(members == before.last());
            group.push(event);
            assert(group.deep_view() =~= members.push(event@));
            groups.push(group);
            assert(groups.deep_view() =~= before.drop_last().push(before.last().push(event@)));
        }
        i += 1;
    }
    assert(all.take(sequence.len() as int) =~= all);
    groups
}

/// The texts of the events, joined by the separator.
pub fn join_events(events: &Vec<KeyboardEvent<'_>>) -> (text: String)
    ensures
        text@ == joined_events(events.deep_view()),
{
    let ghost texts = events.deep_view().map_values(|e: EventView| event_text(e));
    let mut text = String::new();
    let mut i: usize = 0;
    assert(texts.take(0) =~= Seq::empty());
    while i < events.len()
        invariant
            i <= events.len(),
            texts == events.deep_view().map_values(|e: EventView| event_text(e)),
            text@ == join(texts.take(i as int), separator()),
        decreases events.len() - i,
    {
        proof {
            lemma_join_push(texts.take(i as int), separator(), texts[i as int]);
            assert(texts.take(i + 1) =~= texts.take(i as int).push(texts[i as int]));
        }
        if i > 0 {
            text.append(", ");
        }
        let part = events[i].to_string();
        text.append(part.as_str());
        i += 1;
    }
    assert(texts.take(events.len() as int) =~= texts);
    text
}

/// Renders one union.
pub fn union_string(union: &Vec<KeyboardEvent<'_>>) -> (text: String)
    ensures
        text@ == union_text(union.deep_view()),
{
    if union.len() == 1 {
        union[0].to_string()
    } else {
        let sorted = sort_by_key(union);
        let inner = join_events(&sorted);
        let mut text = String::from_str("[");
        text.append(inner.as_str());
        text.append("]");
        text
    }
}

/// Renders a sequence: its unions, each rendered, joined by the separator.
pub fn canonical_string(sequence: &Vec<KeyboardEvent<'_>>, interval_limit: u64) -> (text: String)
    ensures
        text@ == canonical_text(sequence.deep_view(), interval_limit as nat),
{
    let groups = split_unions(sequence, interval_limit);
    let ghost texts = groups.deep_view().map_values(|u: Seq<EventView>| union_text(u));
    let mut text = String::new();
    let mut i: usize = 0;
    assert(texts.take(0) =~= Seq::empty());
    while i < groups.len()
        invariant
            i <= groups.len(),
            texts == groups.deep_view().map_values(|u: Seq<EventView>| union_text(u)),
            text@ == join(texts.take(i as int), separator()),
        decreases groups.len() - i,
    {
        proof {
            lemma_join_push(texts.take(i as int), separator(), texts[i as int]);
            assert(texts.take(i + 1) =~= texts.take(i as int).push(texts[i as int]));
        }
        if i > 0 {
            text.append(", ");
        }
        let part = union_string(&groups[i]);
        text.append(part.as_str());
        i += 1;
    }
    assert(texts.take(groups.len() as int) =~= texts);
    text
}

} // verus!

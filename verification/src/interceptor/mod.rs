//! Between the devices and the engine: raw events become signals, signals
//! become identified events, and what the engine puts out becomes commands.

use self::rule_output::{react, reaction, Command, CommandView, Output, OutputView, Ruleset};
use crate::devices::input::{EventKindCheck, RawEvent, EV_KEY};
use crate::event_processor::model::{step, EngineView};
use crate::event_processor::sequence_manager::SequenceManager;
use crate::stuffs::key_code::KeyCode;
use crate::stuffs::key_identifier::{KeyIdentifier, KeyView};
use crate::stuffs::key_state::KeyState;
use crate::stuffs::keyboard::Keyboard;
use crate::stuffs::keyboard_event::{EventView, KeyboardEvent};
use crate::stuffs::timestamp::Timestamp;
use crate::text::str_eq;
use vstd::prelude::*;
use vstd::string::StringExecFns;

pub mod rule_output;

verus! {

/// What travels from the devices to the engine.
#[derive(Debug)]
pub enum TransmitSignal {
    /// A key event: the alias of the device, the code, the raw value, the
    /// time.
    Key(String, u16, i32, Timestamp),
    /// Where the editor listens.
    NeovimTCPPort(String),
}

/// What a signal says.
pub enum SignalView {
    Key(Seq<char>, u16, i32, nat),
    NeovimTCPPort(Seq<char>),
}

impl View for TransmitSignal {
    type V = SignalView;

    open spec fn view(&self) -> SignalView {
        match self {
            TransmitSignal::Key(alias, code, value, time) => SignalView::Key(
                alias@,
                *code,
                *value,
                time@,
            ),
            TransmitSignal::NeovimTCPPort(port) => SignalView::NeovimTCPPort(port@),
        }
    }
}

impl DeepView for TransmitSignal {
    type V = SignalView;

    open spec fn deep_view(&self) -> SignalView {
        self@
    }
}

pub open spec fn is_key_event() -> spec_fn(RawEvent) -> bool {
    |e: RawEvent| e.event_type == EV_KEY
}

/// The signals that a batch of raw events of one device gives: one for
/// each key event, in order; events of other types give none.
pub open spec fn signals_of(alias: Seq<char>, events: Seq<RawEvent>) -> Seq<SignalView> {
    events.filter(is_key_event()).map_values(
        |e: RawEvent| SignalView::Key(alias, e.code, e.value, e.timestamp@),
    )
}

/// The signals for a batch of raw events of the device with the given
/// alias.
pub fn key_signals(alias: &str, events: &Vec<RawEvent>) -> (signals: Vec<TransmitSignal>)
    ensures
        signals.deep_view() == signals_of(alias@, events@),
{
    let mut signals: Vec<TransmitSignal> = Vec::new();
    let mut i: usize = 0;
    assert(events@.take(0) =~= Seq::empty());
    assert(signals.deep_view() =~= signals_of(alias@, events@.take(0))) by {
        reveal(Seq::filter);
    }
    while i < events.len()
        invariant
            i <= events.len(),
            signals.deep_view() == signals_of(alias@, events@.take(i as int)),
        decreases events.len() - i,
    {
        let event = events[i];
        let ghost before = signals.deep_view();
        proof {
            assert(events@.take(i + 1) =~= events@.take(i as int).push(event));
            events@.take(i as int).lemma_filter_push(event, is_key_event());
        }
        if event.is_type_key() {
            signals.push(
                TransmitSignal::Key(
                    String::from_str(alias),
                    event.code,
                    event.value,
                    event.timestamp,
                ),
            );
            assert(signals.deep_view() =~= before.push(
                SignalView::Key(alias@, event.code, event.value, event.timestamp@),
            ));
            assert(signals.deep_view() =~= signals_of(alias@, events@.take(i + 1)));
        }
        i += 1;
    }
    assert(events@.take(events.len() as int) =~= events@);
    signals
}

/// The place of the first device with the given alias.
pub fn find_device(devices: &Vec<Keyboard>, alias: &str) -> (at: Option<usize>)
    ensures
        match at {
            Some(i) => i < devices.len() && devices[i as int]@.alias == alias@ && forall|j: int|
                0 <= j < i ==> (#[trigger] devices[j])@.alias != alias@,
            None => forall|j: int| 0 <= j < devices.len() ==> (#[trigger] devices[j])@.alias != alias@,
        },
{
    let mut i: usize = 0;
    while i < devices.len()
        invariant
            i <= devices.len(),
            forall|j: int| 0 <= j < i ==> (#[trigger] devices[j])@.alias != alias@,
        decreases devices.len() - i,
    {
        if str_eq(devices[i].alias().as_str(), alias) {
            return Some(i);
        }
        i += 1;
    }
    None
}

/// Why a key signal gives no event.
#[derive(Debug, PartialEq, Eq, Clone, Copy, Structural)]
pub enum IdentifyError {
    /// No device has the alias.
    UnknownDevice,
    /// The raw value stands for no state of a key.
    InvalidState,
}

/// Why a key signal cannot be worked off.
#[derive(Debug, PartialEq, Eq, Clone, Copy, Structural)]
pub enum DispatchError {
    /// The raw value stands for no state of a key.
    InvalidState,
    /// The rule for the output names a key that there is none of.
    UnknownKey,
}

/// Whether some device has the alias.
pub open spec fn knows_alias(devices: Seq<Keyboard>, alias: Seq<char>) -> bool {
    exists|i: int| 0 <= i < devices.len() && (#[trigger] devices[i])@.alias == alias
}

/// The event that a key signal stands for: the key of the device with the
/// signal's alias, in the state that the raw value stands for, at the
/// signal's time. There is none where no device has the alias, or where
/// the raw value stands for no state.
pub open spec fn event_of(
    devices: Seq<Keyboard>,
    alias: Seq<char>,
    code: u16,
    value: i32,
    time: nat,
) -> Option<EventView> {
    if knows_alias(devices, alias) && KeyState::of_raw(value as int) is Some {
        Some(
            EventView {
                key: KeyView { alias, code },
                state: KeyState::of_raw(value as int).unwrap(),
                time,
            },
        )
    } else {
        None
    }
}

/// Makes the event that a key signal stands for.
pub fn identify<'a>(
    devices: &'a Vec<Keyboard>,
    alias: &str,
    code: u16,
    value: i32,
    timestamp: Timestamp,
) -> (event: Result<KeyboardEvent<'a>, IdentifyError>)
    ensures
        match event {
            Ok(e) => event_of(devices@, alias@, code, value, timestamp@) == Some(e@),
            Err(IdentifyError::UnknownDevice) => !knows_alias(devices@, alias@),
            Err(IdentifyError::InvalidState) => knows_alias(devices@, alias@) && KeyState::of_raw(
                value as int,
            ) is None,
        },
{
    match find_device(devices, alias) {
        None => Err(IdentifyError::UnknownDevice),
        Some(at) => {
            let device = &devices[at];
            match KeyState::from_raw(value) {
                None => Err(IdentifyError::InvalidState),
                Some(state) => Ok(
                    KeyboardEvent::new(KeyIdentifier::new(device, KeyCode::new(code)), state, timestamp),
                ),
            }
        },
    }
}

/// The rule that a table holds for a canonical string.
pub open spec fn rule_for(rules: Map<Seq<char>, Output>, output: Seq<char>) -> Option<OutputView> {
    if rules.contains_key(output) {
        Some(rules[output]@)
    } else {
        None
    }
}

/// What a key signal leads to: the engine takes the event that the signal
/// stands for, the rule for the output of the engine is looked up, and the
/// reaction to both is decided.
///
/// A signal of an unknown device changes nothing and leads to no command.
/// A raw value that stands for no state is an error, and changes nothing.
/// Where the rule names an unknown key, the engine has taken the event,
/// and nothing else has happened.
pub fn dispatch<'a>(
    sm: &mut SequenceManager<'a>,
    devices: &'a Vec<Keyboard>,
    rules: &Ruleset,
    alias: &str,
    code: u16,
    value: i32,
    timestamp: Timestamp,
) -> (commands: Result<Vec<Command>, DispatchError>)
    ensures
        !knows_alias(devices@, alias@) ==> final(sm)@ == old(sm)@ && (commands matches Ok(list)
            && list.deep_view() == Seq::<CommandView>::empty()),
        knows_alias(devices@, alias@) && KeyState::of_raw(value as int) is None ==> final(sm)@
            == old(sm)@ && commands == Err::<Vec<Command>, DispatchError>(
            DispatchError::InvalidState,
        ),
        event_of(devices@, alias@, code, value, timestamp@) matches Some(event) ==> {
            let taken = step(old(sm)@, event);
            match reaction(taken, rule_for(rules@, taken.output), code, value) {
                Some((list, emitted)) => final(sm)@ == (EngineView { emitted, ..taken })
                    && (commands matches Ok(done) && done.deep_view() == list),
                None => final(sm)@ == taken && commands == Err::<Vec<Command>, DispatchError>(
                    DispatchError::UnknownKey,
                ),
            }
        },
{
    match identify(devices, alias, code, value, timestamp) {
        Err(IdentifyError::UnknownDevice) => {
            let none: Vec<Command> = Vec::new();
            assert(none.deep_view() =~= Seq::empty());
            Ok(none)
        },
        Err(IdentifyError::InvalidState) => Err(DispatchError::InvalidState),
        Ok(event) => {
            sm.receive(event);
            let rule = rules.get(sm.output().as_str());
            match react(sm, rule, code, value) {
                Ok(commands) => Ok(commands),
                Err(_) => Err(DispatchError::UnknownKey),
            }
        },
    }
}

} // verus!

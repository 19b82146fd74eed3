//! Rules and what follows from them: the table that maps canonical strings
//! to outputs, and the commands that an output, or the lack of one, leads
//! to.

use crate::event_processor::canonical::separator;
use crate::event_processor::model::EngineView;
use crate::event_processor::sequence_manager::{contains_code, SequenceManager};
use crate::stuffs::key_code::{key_code_of_name, KeyCode};
use crate::text::{contains_text, str_eq};
use vstd::prelude::*;

verus! {

/// What a rule asks for.
#[derive(Debug)]
pub enum Output {
    /// Press and release the key of this name.
    MapKey(&'static str),
    /// Start this program with these arguments.
    Cmd(&'static str, Vec<&'static str>),
    /// Send these keys to the editor.
    Nvim(&'static str),
    /// Send these key events, each a name and a raw value, one by one.
    Sequence(Vec<(&'static str, i32)>),
}

/// What a rule asks for, as mathematics.
pub enum OutputView {
    MapKey(Seq<char>),
    Cmd(Seq<char>, Seq<Seq<char>>),
    Nvim(Seq<char>),
    Sequence(Seq<(Seq<char>, i32)>),
}

impl View for Output {
    type V = OutputView;

    open spec fn view(&self) -> OutputView {
        match self {
            Output::MapKey(name) => OutputView::MapKey(name@),
            Output::Cmd(program, arguments) => OutputView::Cmd(
                program@,
                arguments@.map_values(|a: &'static str| a@),
            ),
            Output::Nvim(keys) => OutputView::Nvim(keys@),
            Output::Sequence(entries) => OutputView::Sequence(
                entries@.map_values(|e: (&'static str, i32)| (e.0@, e.1)),
            ),
        }
    }
}

/// The table of rules: what is asked for under which canonical string.
#[derive(Debug)]
pub struct Ruleset {
    rules: Vec<(&'static str, Output)>,
}

/// The table that a list of rules stands for: a later rule takes the place
/// of an earlier one for the same string.
pub closed spec fn table_of(rules: Seq<(&'static str, Output)>) -> Map<Seq<char>, Output>
    decreases rules.len(),
{
    if rules.len() == 0 {
        Map::empty()
    } else {
        table_of(rules.drop_last()).insert(rules.last().0@, rules.last().1)
    }
}

impl View for Ruleset {
    type V = Map<Seq<char>, Output>;

    closed spec fn view(&self) -> Map<Seq<char>, Output> {
        table_of(self.rules@)
    }
}

impl Ruleset {
    /// A table without rules.
    pub fn new() -> (ruleset: Self)
        ensures
            ruleset@ == Map::<Seq<char>, Output>::empty(),
    {
        Ruleset { rules: Vec::new() }
    }

    /// Sets the rule for a canonical string.
    pub fn insert(&mut self, key: &'static str, output: Output)
        ensures
            final(self)@ == old(self)@.insert(key@, output),
    {
        let ghost before = self.rules@;
        self.rules.push((key, output));
        assert(self.rules@.drop_last() =~= before);
    }

    /// The rule for exactly this canonical string, if there is one.
    pub fn get(&self, key: &str) -> (found: Option<&Output>)
        ensures
            found == if self@.contains_key(key@) {
                Some(&self@[key@])
            } else {
                None
            },
    {
        let mut i: usize = self.rules.len();
        assert(self.rules@.take(i as int) =~= self.rules@);
        while i > 0
            invariant
                i <= self.rules.len(),
                self@.contains_key(key@) == table_of(self.rules@.take(i as int)).contains_key(key@),
                self@.contains_key(key@) ==> self@[key@] == table_of(self.rules@.take(i as int))[key@],
            decreases i,
        {
            proof {
                assert(self.rules@.take(i as int).drop_last() =~= self.rules@.take(i - 1));
            }
            i -= 1;
            if str_eq(self.rules[i].0, key) {
                return Some(&self.rules[i].1);
            }
        }
        None
    }
}

/// What the caller is to do.
#[derive(Debug)]
pub enum Command {
    /// Hand this batch of key events, each a code and a raw value, to the
    /// virtual keyboard.
    Emit(Vec<(u16, i32)>),
    /// Start this program with these arguments.
    Spawn(&'static str, Vec<&'static str>),
    /// Send these keys to the editor.
    SendKeys(&'static str),
    /// Tell the editor of this canonical string.
    Signal(String),
}

/// What the caller is to do, as mathematics.
pub enum CommandView {
    Emit(Seq<(u16, i32)>),
    Spawn(Seq<char>, Seq<Seq<char>>),
    SendKeys(Seq<char>),
    Signal(Seq<char>),
}

impl View for Command {
    type V = CommandView;

    open spec fn view(&self) -> CommandView {
        match self {
            Command::Emit(batch) => CommandView::Emit(batch@),
            Command::Spawn(program, arguments) => CommandView::Spawn(
                program@,
                arguments@.map_values(|a: &'static str| a@),
            ),
            Command::SendKeys(keys) => CommandView::SendKeys(keys@),
            Command::Signal(text) => CommandView::Signal(text@),
        }
    }
}

impl DeepView for Command {
    type V = CommandView;

    open spec fn deep_view(&self) -> CommandView {
        self@
    }
}

/// A rule names a key that there is none of.
#[derive(Debug, PartialEq, Eq, Clone, Copy, Structural)]
pub struct UnknownKey;

/// The code of the caps lock key, which is never passed through.
pub const IGNORED_CODE: u16 = 58;

/// The codes that are passed through as they come: backspace, the
/// control, shift and meta keys of both sides, and the left alt key.
pub open spec fn passed_modifier_codes() -> Seq<u16> {
    seq![14u16, 29u16, 42u16, 54u16, 56u16, 97u16, 125u16, 126u16]
}

/// Each code with the given raw value, in order.
pub open spec fn with_value(codes: Seq<u16>, value: i32) -> Seq<(u16, i32)> {
    codes.map_values(|code: u16| (code, value))
}

/// The key events that pass an event through to the virtual keyboard when
/// no rule has taken it. Caps lock gives none. A modifier from the table
/// above is passed on as it is. Any other key is passed on when it is
/// released: all collected modifiers and the key go down, then all of them
/// go up.
pub open spec fn passthrough(value: i32, code: u16, modifiers: Seq<u16>) -> Seq<(u16, i32)> {
    if code == IGNORED_CODE {
        Seq::empty()
    } else if passed_modifier_codes().contains(code) {
        seq![(code, value)]
    } else if value == 0 {
        with_value(modifiers, 1).push((code, 1i32)) + with_value(modifiers, 0).push((code, 0i32))
    } else {
        Seq::empty()
    }
}

/// The commands for a list of key events by name: one batch of one event
/// for each entry. There are none where a name is unknown.
pub open spec fn sequence_commands(entries: Seq<(Seq<char>, i32)>) -> Option<Seq<CommandView>>
    decreases entries.len(),
{
    if entries.len() == 0 {
        Some(Seq::empty())
    } else {
        match (sequence_commands(entries.drop_last()), key_code_of_name(entries.last().0)) {
            (Some(before), Some(code)) => Some(
                before.push(CommandView::Emit(seq![(code.0, entries.last().1)])),
            ),
            _ => None,
        }
    }
}

/// The commands that a rule leads to. A key is pressed and released, and a
/// program is started, only where the chord was not emitted before. There
/// are none where the rule names an unknown key.
pub open spec fn rule_commands(rule: OutputView, emitted: bool) -> Option<Seq<CommandView>> {
    match rule {
        OutputView::MapKey(name) => match key_code_of_name(name) {
            Some(code) => Some(
                if emitted {
                    Seq::empty()
                } else {
                    seq![CommandView::Emit(seq![(code.0, 1i32), (code.0, 0i32)])]
                },
            ),
            None => None,
        },
        OutputView::Cmd(program, arguments) => Some(
            if emitted {
                Seq::empty()
            } else {
                seq![CommandView::Spawn(program, arguments)]
            },
        ),
        OutputView::Nvim(keys) => Some(seq![CommandView::SendKeys(keys)]),
        OutputView::Sequence(entries) => sequence_commands(entries),
    }
}

/// Whether the output is for the editor: it holds a separator, and the
/// chord does not start with a modifier from the table above.
pub open spec fn signals_editor(state: EngineView) -> bool {
    contains_text(state.output, separator()) && state.sequence.len() > 0
        && !passed_modifier_codes().contains(state.sequence[0].key.code)
}

/// The commands for a passed-through event: the batch, if it holds
/// anything.
pub open spec fn passthrough_commands(value: i32, code: u16, modifiers: Seq<u16>) -> Seq<
    CommandView,
> {
    if passthrough(value, code, modifiers).len() == 0 {
        Seq::empty()
    } else {
        seq![CommandView::Emit(passthrough(value, code, modifiers))]
    }
}

/// What follows from the state of the engine after an event with the given
/// code and raw value, and from the rule found for the output: the
/// commands, and whether the chord counts as emitted afterwards.
///
/// A rule gives its commands, and the chord is emitted. Without a rule,
/// nothing happens where the chord was emitted before; else an output for
/// the editor is signalled, and the chord is emitted; else the event is
/// passed through. There is no reaction where the rule names an unknown
/// key.
pub open spec fn reaction(state: EngineView, rule: Option<OutputView>, code: u16, value: i32) -> Option<
    (Seq<CommandView>, bool),
> {
    match rule {
        Some(found) => match rule_commands(found, state.emitted) {
            Some(commands) => Some((commands, true)),
            None => None,
        },
        None => Some(
            if state.emitted {
                (Seq::empty(), true)
            } else if signals_editor(state) {
                (seq![CommandView::Signal(state.output)], true)
            } else {
                (passthrough_commands(value, code, state.modifiers), false)
            },
        ),
    }
}

/// The table of passed-on modifiers.
fn passed_modifiers() -> (codes: Vec<u16>)
    ensures
        codes@ == passed_modifier_codes(),
{
    let mut codes: Vec<u16> = Vec::new();
    codes.push(14);
    codes.push(29);
    codes.push(42);
    codes.push(54);
    codes.push(56);
    codes.push(97);
    codes.push(125);
    codes.push(126);
    assert(codes@ =~= passed_modifier_codes());
    codes
}

/// Adds each code with the given raw value to the batch.
fn push_with_value(batch: &mut Vec<(u16, i32)>, codes: &Vec<u16>, value: i32)
    ensures
        final(batch)@ == old(batch)@ + with_value(codes@, value),
{
    let ghost before = batch@;
    let mut i: usize = 0;
    assert(before + with_value(codes@.take(0), value) =~= before);
    while i < codes.len()
        invariant
            i <= codes.len(),
            batch@ == before + with_value(codes@.take(i as int), value),
        decreases codes.len() - i,
    {
        batch.push((codes[i], value));
        assert(batch@ =~= before + with_value(codes@.take(i + 1), value));
        i += 1;
    }
    assert(codes@.take(codes.len() as int) =~= codes@);
}

/// The key events that pass an event through to the virtual keyboard.
pub fn passthrough_events(value: i32, code: u16, modifiers: &Vec<u16>) -> (batch: Vec<(u16, i32)>)
    ensures
        batch@ == passthrough(value, code, modifiers@),
{
    let mut batch: Vec<(u16, i32)> = Vec::new();
    if code == IGNORED_CODE {
        return batch;
    }
    let passed = passed_modifiers();
    if contains_code(&passed, code) {
        batch.push((code, value));
        assert(batch@ =~= seq![(code, value)]);
    } else if value == 0 {
        push_with_value(&mut batch, modifiers, 1);
        batch.push((code, 1));
        push_with_value(&mut batch, modifiers, 0);
        batch.push((code, 0));
        assert(batch@ =~= with_value(modifiers@, 1).push((code, 1i32)) + with_value(
            modifiers@,
            0,
        ).push((code, 0i32)));
    }
    batch
}

/// The commands for a list of key events by name.
pub fn sequence_events(entries: &Vec<(&'static str, i32)>) -> (commands: Result<
    Vec<Command>,
    UnknownKey,
>)
    ensures
        match commands {
            Ok(list) => sequence_commands(entries@.map_values(|e: (&'static str, i32)| (e.0@, e.1)))
                == Some(list.deep_view()),
            Err(_) => sequence_commands(entries@.map_values(|e: (&'static str, i32)| (e.0@, e.1)))
                is None,
        },
{
    let ghost all = entries@.map_values(|e: (&'static str, i32)| (e.0@, e.1));
    let mut commands: Vec<Command> = Vec::new();
    let mut i: usize = 0;
    assert(all.take(0) =~= Seq::empty());
    assert(commands.deep_view() =~= Seq::empty());
    while i < entries.len()
        invariant
            i <= entries.len(),
            all == entries@.map_values(|e: (&'static str, i32)| (e.0@, e.1)),
            sequence_commands(all.take(i as int)) == Some(commands.deep_view()),
        decreases entries.len() - i,
    {
        let ghost before = commands.deep_view();
        proof {
            assert(all.take(i + 1).drop_last() =~= all.take(i as int));
            assert(all.take(i + 1).last() == all[i as int]);
        }
        match KeyCode::from_name(entries[i].0) {
            Some(code) => {
                let mut batch: Vec<(u16, i32)> = Vec::new();
                batch.push((code.0, entries[i].1));
                assert(batch@ =~= seq![(code.0, entries[i as int].1)]);
                commands.push(Command::Emit(batch));
                assert(commands.deep_view() =~= before.push(
                    CommandView::Emit(seq![(code.0, entries[i as int].1)]),
                ));
            },
            None => {
                proof {
                    lemma_sequence_commands_fail(all, i + 1);
                    assert(all.take(all.len() as int) =~= all);
                }
                return Err(UnknownKey);
            },
        }
        i += 1;
    }
    assert(all.take(entries.len() as int) =~= all);
    Ok(commands)
}

/// Where the start of a list names an unknown key, so does the list.
proof fn lemma_sequence_commands_fail(entries: Seq<(Seq<char>, i32)>, n: int)
    requires
        0 <= n <= entries.len(),
        sequence_commands(entries.take(n)) is None,
    ensures
        sequence_commands(entries) is None,
    decreases entries.len() - n,
{
    if n < entries.len() {
        assert(entries.take(n + 1).drop_last() =~= entries.take(n));
        lemma_sequence_commands_fail(entries, n + 1);
    } else {
        assert(entries.take(n) =~= entries);
    }
}

/// A copy of a list of arguments.
fn copy_arguments(arguments: &Vec<&'static str>) -> (copy: Vec<&'static str>)
    ensures
        copy@ == arguments@,
{
    let mut copy: Vec<&'static str> = Vec::new();
    let mut i: usize = 0;
    while i < arguments.len()
        invariant
            i <= arguments.len(),
            copy@ == arguments@.take(i as int),
        decreases arguments.len() - i,
    {
        copy.push(arguments[i]);
        assert(copy@ =~= arguments@.take(i + 1));
        i += 1;
    }
    assert(arguments@.take(arguments.len() as int) =~= arguments@);
    copy
}

/// The commands that a rule leads to.
pub fn commands_of_rule(rule: &Output, emitted: bool) -> (commands: Result<Vec<Command>, UnknownKey>)
    ensures
        match commands {
            Ok(list) => rule_commands(rule@, emitted) == Some(list.deep_view()),
            Err(_) => rule_commands(rule@, emitted) is None,
        },
{
    let mut commands: Vec<Command> = Vec::new();
    assert(commands.deep_view() =~= Seq::empty());
    match rule {
        Output::MapKey(name) => {
            match KeyCode::from_name(name) {
                Some(code) => {
                    if !emitted {
                        let mut batch: Vec<(u16, i32)> = Vec::new();
                        batch.push((code.0, 1));
                        batch.push((code.0, 0));
                        assert(batch@ =~= seq![(code.0, 1i32), (code.0, 0i32)]);
                        commands.push(Command::Emit(batch));
                        assert(commands.deep_view() =~= seq![
                            CommandView::Emit(seq![(code.0, 1i32), (code.0, 0i32)]),
                        ]);
                    }
                    Ok(commands)
                },
                None => Err(UnknownKey),
            }
        },
        Output::Cmd(program, arguments) => {
            if !emitted {
                commands.push(Command::Spawn(program, copy_arguments(arguments)));
                assert(commands.deep_view() =~= seq![
                    CommandView::Spawn(program@, arguments@.map_values(|a: &'static str| a@)),
                ]);
            }
            Ok(commands)
        },
        Output::Nvim(keys) => {
            commands.push(Command::SendKeys(keys));
            assert(commands.deep_view() =~= seq![CommandView::SendKeys(keys@)]);
            Ok(commands)
        },
        Output::Sequence(entries) => sequence_events(entries),
    }
}

/// Decides what is to be done after the engine has taken an event with the
/// given code and raw value, where `rule` is what the table of rules holds
/// for the output of the engine. Marks the chord as emitted where the
/// reaction says so. Where the rule names an unknown key, nothing is
/// decided and the engine stays as it is.
pub fn react(sm: &mut SequenceManager<'_>, rule: Option<&Output>, code: u16, value: i32) -> (commands:
    Result<Vec<Command>, UnknownKey>)
    ensures
        match commands {
            Ok(list) => reaction(
                old(sm)@,
                match rule {
                    Some(found) => Some(found@),
                    None => None,
                },
                code,
                value,
            ) == Some((list.deep_view(), final(sm)@.emitted)) && final(sm)@ == (EngineView {
                emitted: final(sm)@.emitted,
                ..old(sm)@
            }),
            Err(_) => reaction(
                old(sm)@,
                match rule {
                    Some(found) => Some(found@),
                    None => None,
                },
                code,
                value,
            ) is None && final(sm)@ == old(sm)@,
        },
{
    match rule {
        Some(found) => {
            let commands = commands_of_rule(found, *sm.emitted())?;
            sm.set_emitted(true);
            Ok(commands)
        },
        None => {
            let mut commands: Vec<Command> = Vec::new();
            assert(commands.deep_view() =~= Seq::empty());
            if !*sm.emitted() {
                let passed = passed_modifiers();
                let for_editor = sm.is_combined() && match sm.first_code() {
                    Some(first) => !contains_code(&passed, first),
                    None => false,
                };
                if for_editor {
                    commands.push(Command::Signal(sm.output().clone()));
                    assert(commands.deep_view() =~= seq![CommandView::Signal(sm@.output)]);
                    sm.set_emitted(true);
                } else {
                    let batch = passthrough_events(value, code, sm.modifiers());
                    if batch.len() > 0 {
                        commands.push(Command::Emit(batch));
                        assert(commands.deep_view() =~= seq![CommandView::Emit(batch@)]);
                    }
                }
            }
            Ok(commands)
        },
    }
}

} // verus!

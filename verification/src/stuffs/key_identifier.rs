use super::key_code::{key_label, KeyCode};
use super::keyboard::Keyboard;
use crate::text::{
    lemma_text_le_antisymmetric, lemma_text_le_reflexive, lemma_text_le_total,
    lemma_text_le_transitive, str_le, text_le,
};
use vstd::prelude::*;
use vstd::std_specs::cmp::PartialEqSpecImpl;
use vstd::string::StringExecFns;

verus! {

/// One key of one keyboard.
#[derive(Debug, Clone, Copy)]
pub struct KeyIdentifier<'a> {
    device: &'a Keyboard,
    code: KeyCode,
}

/// What identifies a key: the alias of its keyboard and its code.
pub struct KeyView {
    pub alias: Seq<char>,
    pub code: u16,
}

/// The order of keys: by code first, then by alias.
pub open spec fn key_le(a: KeyView, b: KeyView) -> bool {
    a.code < b.code || (a.code == b.code && text_le(a.alias, b.alias))
}

/// A key as text: the alias, a space, the short name of the key.
pub open spec fn key_text(key: KeyView) -> Seq<char> {
    key.alias + " "@ + key_label(key.code)
}

/// The order of keys is a total order: every key stands at or before
/// itself, of two keys one stands at or before the other, and two keys that
/// each stand at or before the other are one key.
pub proof fn lemma_key_le_total_order(a: KeyView, b: KeyView)
    ensures
        key_le(a, a),
        key_le(a, b) || key_le(b, a),
        key_le(a, b) && key_le(b, a) ==> a == b,
{
    lemma_text_le_reflexive(a.alias);
    lemma_text_le_total(a.alias, b.alias);
    if key_le(a, b) && key_le(b, a) {
        lemma_text_le_antisymmetric(a.alias, b.alias);
    }
}

/// The order of keys carries over a key in the middle.
pub proof fn lemma_key_le_transitive(a: KeyView, b: KeyView, c: KeyView)
    requires
        key_le(a, b),
        key_le(b, c),
    ensures
        key_le(a, c),
{
    if a.code == b.code && b.code == c.code {
        lemma_text_le_transitive(a.alias, b.alias, c.alias);
    }
}

impl<'a> View for KeyIdentifier<'a> {
    type V = KeyView;

    closed spec fn view(&self) -> KeyView {
        KeyView { alias: self.device@.alias, code: self.code.0 }
    }
}

impl<'a> PartialEq for KeyIdentifier<'a> {
    fn eq(&self, other: &Self) -> (same: bool) {
        self.code.0 == other.code.0 && *self.device.alias() == *other.device.alias()
    }
}

impl<'a> PartialEqSpecImpl for KeyIdentifier<'a> {
    open spec fn obeys_eq_spec() -> bool {
        true
    }

    open spec fn eq_spec(&self, other: &Self) -> bool {
        self@ == other@
    }
}

impl<'a> Eq for KeyIdentifier<'a> {}

impl<'a> KeyIdentifier<'a> {
    pub fn new(device: &'a Keyboard, code: KeyCode) -> (key: Self)
        ensures
            key@ == (KeyView { alias: device@.alias, code: code.0 }),
    {
        Self { device, code }
    }

    pub fn code(&self) -> (code: &KeyCode)
        ensures
            code.0 == self@.code,
    {
        &self.code
    }

    /// Whether this key stands before `other` in the order of keys, or is
    /// the same key.
    pub fn le(&self, other: &Self) -> (le: bool)
        ensures
            le == key_le(self@, other@),
    {
        self.code.0 < other.code.0 || (self.code.0 == other.code.0 && str_le(
            self.device.alias().as_str(),
            other.device.alias().as_str(),
        ))
    }

    pub fn to_string(&self) -> (text: String)
        ensures
            text@ == key_text(self@),
    {
        let mut text = String::from_str(self.device.alias().as_str());
        text.append(" ");
        let label = self.code.to_string();
        text.append(label.as_str());
        text
    }
}

} // verus!

use crate::text::{str_uppercase, strip_prefix, uppercase, without_prefix};
use vstd::prelude::*;
use vstd::string::StringExecFns;

verus! {

/// The number by which the input layer knows a key.
#[derive(Debug, PartialEq, Eq, PartialOrd, Ord, Hash, Clone, Copy, Structural)]
pub struct KeyCode(pub u16);

/// The text that evdev's `Debug` for `Key` prints for a code.
pub uninterp spec fn evdev_key_debug(code: u16) -> Seq<char>;

/// The code of the key that evdev's `FromStr` for `Key` finds under a name.
pub uninterp spec fn evdev_key_from_str(name: Seq<char>) -> Option<u16>;

/// The start of evdev's names for keyboard keys.
pub open spec fn key_prefix() -> Seq<char> {
    "KEY_"@
}

/// The short name of a key: evdev's name for the code, without the `KEY_`
/// that evdev's names of keyboard keys start with.
pub open spec fn key_label(code: u16) -> Seq<char> {
    without_prefix(evdev_key_debug(code), key_prefix())
}

/// The code that a short name stands for: the name is put in upper case,
/// `KEY_` is set before it, and evdev is asked for the key of that name.
pub open spec fn key_code_of_name(name: Seq<char>) -> Option<KeyCode> {
    match evdev_key_from_str(key_prefix() + str_uppercase(name)) {
        Some(code) => Some(KeyCode(code)),
        None => None,
    }
}

/// `Debug` of `evdev::Key`: the constant's name for a code that evdev
/// knows, a text that holds the number for any other. The contract only
/// names the text.
#[verifier::external_body]
fn key_debug(code: u16) -> (text: String)
    ensures
        text@ == evdev_key_debug(code),
{
    format!("{:?}", evdev::Key::new(code))
}

/// `FromStr` of `evdev::Key`: the key whose constant has exactly this name,
/// if there is one. The contract only names the outcome.
#[verifier::external_body]
fn key_from_str(name: &str) -> (code: Option<u16>)
    ensures
        code == evdev_key_from_str(name@),
{
    match name.parse::<evdev::Key>() {
        Ok(key) => Some(key.code()),
        Err(_) => None,
    }
}

impl KeyCode {
    pub fn new(code: u16) -> (key: KeyCode)
        ensures
            key == KeyCode(code),
    {
        KeyCode(code)
    }

    /// The short name that belongs to one of evdev's names.
    pub fn label_of(evdev_name: &str) -> (label: String)
        ensures
            label@ == without_prefix(evdev_name@, key_prefix()),
    {
        strip_prefix(evdev_name, "KEY_")
    }

    /// The name under which evdev knows the key with this upper-case short
    /// name.
    pub fn evdev_name_of(upper: &str) -> (name: String)
        ensures
            name@ == key_prefix() + upper@,
    {
        let mut name = String::from_str("KEY_");
        name.append(upper);
        name
    }

    /// The key with the given short name, such as `LEFTCTRL` or `Esc`.
    pub fn from_name(name: &str) -> (key: Option<KeyCode>)
        ensures
            key == key_code_of_name(name@),
    {
        let upper = uppercase(name);
        let full = Self::evdev_name_of(upper.as_str());
        match key_from_str(full.as_str()) {
            Some(code) => Some(KeyCode(code)),
            None => None,
        }
    }

    /// The short name of the key.
    pub fn to_string(&self) -> (label: String)
        ensures
            label@ == key_label(self.0),
    {
        let text = key_debug(self.0);
        Self::label_of(text.as_str())
    }
}

} // verus!

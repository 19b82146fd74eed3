use vstd::prelude::*;
use vstd::string::StringExecFns;

verus! {

/// A physical keyboard: a short alias, a readable name and the platform
/// path by which the device is found.
#[derive(Debug)]
pub struct Keyboard {
    alias: String,
    name: String,
    path: String,
}

/// What a `Keyboard` holds, as texts.
pub struct KeyboardView {
    pub alias: Seq<char>,
    pub name: Seq<char>,
    pub path: Seq<char>,
}

impl View for Keyboard {
    type V = KeyboardView;

    closed spec fn view(&self) -> KeyboardView {
        KeyboardView { alias: self.alias@, name: self.name@, path: self.path@ }
    }
}

impl Keyboard {
    pub fn new(alias: &str, name: &str, path: &str) -> (keyboard: Self)
        ensures
            keyboard@ == (KeyboardView { alias: alias@, name: name@, path: path@ }),
    {
        Self {
            alias: String::from_str(alias),
            name: String::from_str(name),
            path: String::from_str(path),
        }
    }

    pub fn alias(&self) -> (alias: &String)
        ensures
            alias@ == self@.alias,
    {
        &self.alias
    }

    pub fn name(&self) -> (name: &String)
        ensures
            name@ == self@.name,
    {
        &self.name
    }

    pub fn path(&self) -> (path: &String)
        ensures
            path@ == self@.path,
    {
        &self.path
    }
}

} // verus!

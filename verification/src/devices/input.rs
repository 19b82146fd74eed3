use crate::stuffs::timestamp::Timestamp;
use crate::text::str_eq;
use vstd::prelude::*;

verus! {

/// The type number of key events.
pub const EV_KEY: u16 = 1;

/// One event as a device reports it.
#[derive(Debug, PartialEq, Eq, Clone, Copy, Structural)]
pub struct RawEvent {
    pub event_type: u16,
    pub code: u16,
    pub value: i32,
    pub timestamp: Timestamp,
}

pub trait EventKindCheck {
    fn is_type_key(&self) -> bool;
}

/// `InputEvent::kind` of evdev, asked whether it is the kind `Key`: that is
/// the kind of the events whose type is `EventType::KEY`, the number 1, and
/// of no others.
#[verifier::external_body]
fn kind_is_key(event_type: u16, code: u16, value: i32) -> (is_key: bool)
    ensures
        is_key == (event_type == EV_KEY),
{
    matches!(
        evdev::InputEvent::new(evdev::EventType(event_type), code, value).kind(),
        evdev::InputEventKind::Key(_)
    )
}

impl EventKindCheck for RawEvent {
    fn is_type_key(&self) -> (is_key: bool)
        ensures
            is_key == (self.event_type == EV_KEY),
    {
        kind_is_key(self.event_type, self.code, self.value)
    }
}

/// Whether a device has the given physical path.
pub open spec fn has_path(device_path: Option<String>, path: Seq<char>) -> bool {
    device_path matches Some(p) && p@ == path
}

/// The place of the first device with the given physical path, among the
/// physical paths of the devices. A device may have none.
pub fn index_of_path(paths: &Vec<Option<String>>, path: &str) -> (at: Option<usize>)
    ensures
        match at {
            Some(i) => i < paths.len() && has_path(paths[i as int], path@) && forall|j: int|
                0 <= j < i ==> !has_path(#[trigger] paths[j], path@),
            None => forall|j: int| 0 <= j < paths.len() ==> !has_path(#[trigger] paths[j], path@),
        },
{
    let mut i: usize = 0;
    while i < paths.len()
        invariant
            i <= paths.len(),
            forall|j: int| 0 <= j < i ==> !has_path(#[trigger] paths[j], path@),
        decreases paths.len() - i,
    {
        match &paths[i] {
            Some(p) => {
                if str_eq(p.as_str(), path) {
                    return Some(i);
                }
            },
            None => {},
        }
        i += 1;
    }
    None
}

} // verus!

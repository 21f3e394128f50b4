//! How a header from the authorization service meets one that is already there.
use vstd::prelude::*;

verus! {

/// What to do with a header that may exist already.
#[derive(Clone, Copy, Debug, PartialEq, Eq, Hash, PartialOrd, Ord)]
pub enum HeaderAppendAction {
    AppendIfExistsOrAdd,
    AddIfAbsent,
    OverwriteIfExistsOrAdd,
    OverwriteIfExists,
}

impl Default for HeaderAppendAction {
    fn default() -> (action: Self)
        ensures
            action is AppendIfExistsOrAdd,
    {
        HeaderAppendAction::AppendIfExistsOrAdd
    }
}

impl HeaderAppendAction {
    /// The number by which the action is encoded.
    pub open spec fn spec_number(self) -> i32 {
        match self {
            HeaderAppendAction::AppendIfExistsOrAdd => 0,
            HeaderAppendAction::AddIfAbsent => 1,
            HeaderAppendAction::OverwriteIfExistsOrAdd => 2,
            HeaderAppendAction::OverwriteIfExists => 3,
        }
    }

    /// The number by which the action is encoded.
    pub fn number(self) -> (number: i32)
        ensures
            number == self.spec_number(),
    {
        match self {
            HeaderAppendAction::AppendIfExistsOrAdd => 0,
            HeaderAppendAction::AddIfAbsent => 1,
            HeaderAppendAction::OverwriteIfExistsOrAdd => 2,
            HeaderAppendAction::OverwriteIfExists => 3,
        }
    }

    /// The action with the given number.
    pub fn from_number(number: i32) -> (action: Option<HeaderAppendAction>)
        ensures
            match action {
                Some(action) => action.spec_number() == number,
                None => number < 0 || number > 3,
            },
    {
        match number {
            0 => Some(HeaderAppendAction::AppendIfExistsOrAdd),
            1 => Some(HeaderAppendAction::AddIfAbsent),
            2 => Some(HeaderAppendAction::OverwriteIfExistsOrAdd),
            3 => Some(HeaderAppendAction::OverwriteIfExists),
            _ => None,
        }
    }
}

} // verus!

//! Whether an event may be served to the user who asks for it.
use vstd::prelude::*;

verus! {

/// Why an event is not served.
#[derive(PartialEq, Eq, Structural, Debug, Clone, Copy)]
pub enum ReadError {
    /// There is no such event.
    NotFound,
    /// The user may not see the event.
    Forbidden,
}

/// Decides on serving an event: it must exist, be visible to the user, and
/// not come from a user whom they ignore.
pub fn check_event_access(found: bool, visible: bool, ignored: bool) -> (r: Result<(), ReadError>)
    ensures
        !found ==> r == Err::<(), ReadError>(ReadError::NotFound),
        found && (!visible || ignored) ==> r == Err::<(), ReadError>(ReadError::Forbidden),
        found && visible && !ignored ==> r == Ok::<(), ReadError>(()),
{
    if !found {
        Err(ReadError::NotFound)
    } else if !visible || ignored {
        Err(ReadError::Forbidden)
    } else {
        Ok(())
    }
}

} // verus!

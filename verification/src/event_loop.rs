use vstd::prelude::*;

verus! {

/// What an event loop does after it has handled one event.
#[derive(Debug, Clone, Copy, PartialEq, Eq, Structural)]
pub enum EventLoopAction {
    /// Keep running the loop.
    Continue,
    /// Leave the loop.
    Stop,
}

/// The action that follows the outcome of a send: a delivered message keeps the
/// loop running, a failed one stops it.
pub open spec fn action_of<E>(value: Result<(), E>) -> EventLoopAction {
    match value {
        Ok(_) => EventLoopAction::Continue,
        Err(_) => EventLoopAction::Stop,
    }
}

impl<E> From<Result<(), E>> for EventLoopAction {
    fn from(value: Result<(), E>) -> (r: Self) {
        match value {
            Ok(_) => EventLoopAction::Continue,
            Err(_) => EventLoopAction::Stop,
        }
    }
}

impl<E> vstd::std_specs::convert::FromSpecImpl<Result<(), E>> for EventLoopAction {
    open spec fn obeys_from_spec() -> bool {
        true
    }

    open spec fn from_spec(value: Result<(), E>) -> Self {
        action_of(value)
    }
}

impl EventLoopAction {
    /// The action that follows the outcome of a send (`From<Result<(), E>>`).
    pub fn from_result<E>(value: Result<(), E>) -> (r: Self)
        ensures
            r == action_of(value),
    {
        EventLoopAction::from(value)
    }
}

} // verus!

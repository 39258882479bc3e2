//! The control connection, over which client connections are handed over.
use vstd::prelude::*;

verus! {

/// What a message on the control connection held.
#[derive(Debug, Clone, Copy, PartialEq, Eq, Structural)]
pub enum ControlError {
    /// The system refused.
    System,
    /// There was no file in it.
    NoFile,
    /// What was in it is no file.
    BadFile,
}

/// The file that a message hands over, if it is one.
pub open spec fn message_file(received: int, has_file: bool, fd: i32) -> Result<
    Option<i32>,
    ControlError,
> {
    if received == 0 {
        Ok(None)
    } else if received < 0 {
        Err(ControlError::System)
    } else if !has_file {
        Err(ControlError::NoFile)
    } else if fd < 0 {
        Err(ControlError::BadFile)
    } else {
        Ok(Some(fd))
    }
}

/// What came of receiving a message: `received` bytes, or the peer closed, or an error; `has_file`
/// says whether it holds the right to a file, and `fd` is that file.
pub fn read_message(received: i64, has_file: bool, fd: i32) -> (r: Result<
    Option<i32>,
    ControlError,
>)
    ensures
        r == (if received == 0 {
            Ok(None)
        } else if received < 0 {
            Err(ControlError::System)
        } else if !has_file {
            Err(ControlError::NoFile)
        } else if fd < 0 {
            Err(ControlError::BadFile)
        } else {
            Ok(Some(fd))
        }),
        r == message_file(received as int, has_file, fd),
{
    if received == 0 {
        Ok(None)
    } else if received < 0 {
        Err(ControlError::System)
    } else if !has_file {
        Err(ControlError::NoFile)
    } else if fd < 0 {
        Err(ControlError::BadFile)
    } else {
        Ok(Some(fd))
    }
}

/// What came of one try at the control connection.
#[derive(Debug, Clone, Copy, PartialEq, Eq, Structural)]
pub enum ControlEvent {
    /// This connection was handed over.
    File(i32),
    /// The peer closed.
    Closed,
    /// There is nothing for now.
    Drained,
    Interrupted,
    Failed,
}

/// What to do.
#[derive(Debug, Clone, Copy, PartialEq, Eq, Structural)]
pub enum ControlAction {
    /// Serve this connection, and try again.
    Register(i32),
    TryAgain,
    /// Wait for the next event.
    Stop,
    /// Close the control connection.
    Close,
}

/// What follows a try at the control connection.
pub open spec fn control_action(event: ControlEvent, closes: bool) -> ControlAction {
    match event {
        ControlEvent::File(fd) => ControlAction::Register(fd),
        ControlEvent::Interrupted => ControlAction::TryAgain,
        ControlEvent::Drained => ControlAction::Stop,
        ControlEvent::Closed | ControlEvent::Failed => if closes {
            ControlAction::Close
        } else {
            ControlAction::Stop
        },
    }
}

/// What follows a try at the control connection. The event loop closes a connection that is gone;
/// the ring only stops.
pub fn drain_control(event: ControlEvent, closes: bool) -> (action: ControlAction)
    ensures
        action == (match event {
            ControlEvent::File(fd) => ControlAction::Register(fd),
            ControlEvent::Interrupted => ControlAction::TryAgain,
            ControlEvent::Drained => ControlAction::Stop,
            ControlEvent::Closed | ControlEvent::Failed => if closes {
                ControlAction::Close
            } else {
                ControlAction::Stop
            },
        }),
        action == control_action(event, closes),
{
    match event {
        ControlEvent::File(fd) => ControlAction::Register(fd),
        ControlEvent::Interrupted => ControlAction::TryAgain,
        ControlEvent::Drained => ControlAction::Stop,
        ControlEvent::Closed | ControlEvent::Failed => if closes {
            ControlAction::Close
        } else {
            ControlAction::Stop
        },
    }
}

/// Whose event it is.
#[derive(Debug, Clone, Copy, PartialEq, Eq, Structural)]
pub enum Owner {
    /// The socket that control connections come to.
    Listener,
    Control,
    Client,
    /// Nobody's: the file was closed.
    Unknown,
}

/// Whose event it is, given the files that are known.
pub open spec fn owner(fd: i32, listener: i32, is_control: bool, is_client: bool) -> Owner {
    if fd == listener {
        Owner::Listener
    } else if is_control {
        Owner::Control
    } else if is_client {
        Owner::Client
    } else {
        Owner::Unknown
    }
}

/// Whose event it is, given the files that are known.
pub fn owner_of(fd: i32, listener: i32, is_control: bool, is_client: bool) -> (owner: Owner)
    ensures
        owner == (if fd == listener {
            Owner::Listener
        } else if is_control {
            Owner::Control
        } else if is_client {
            Owner::Client
        } else {
            Owner::Unknown
        }),
        owner == self::owner(fd, listener, is_control, is_client),
{
    if fd == listener {
        Owner::Listener
    } else if is_control {
        Owner::Control
    } else if is_client {
        Owner::Client
    } else {
        Owner::Unknown
    }
}

} // verus!

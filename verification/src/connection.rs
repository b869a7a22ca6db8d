//! What a client's websocket connection does with each thing that arrives
//! on it, and when it ends.

use vstd::prelude::*;

verus! {

/// What arrived on a client's websocket.
#[derive(Debug, Clone, Copy, PartialEq, Eq, Structural)]
pub enum Frame {
    /// A text message.
    Text,
    /// A binary message.
    Binary,
    /// A ping, which carries data to echo.
    Ping,
    /// A pong.
    Pong,
    /// A close frame.
    Close,
    /// The stream ended.
    Ended,
    /// Reading from the socket failed.
    Failed,
}

/// What the connection does next.
#[derive(Debug, Clone, Copy, PartialEq, Eq, Structural)]
pub enum FrameAction {
    /// Hand the text to the relay rules.
    Handle,
    /// Answer with a pong carrying the ping's data.
    AnswerPong,
    /// Wait for the next frame.
    Ignore,
    /// End the connection, then unregister the session.
    Stop,
}

/// Text is handled, a ping answered; a close frame, the end of the stream
/// or a failed read ends the connection; anything else is ignored.
pub open spec fn frame_action(frame: Frame) -> FrameAction {
    match frame {
        Frame::Text => FrameAction::Handle,
        Frame::Ping => FrameAction::AnswerPong,
        Frame::Close | Frame::Ended | Frame::Failed => FrameAction::Stop,
        Frame::Binary | Frame::Pong => FrameAction::Ignore,
    }
}

/// What the connection does with an incoming frame.
pub fn on_frame(frame: Frame) -> (res: FrameAction)
    ensures
        res == frame_action(frame),
{
    match frame {
        Frame::Text => FrameAction::Handle,
        Frame::Ping => FrameAction::AnswerPong,
        Frame::Close | Frame::Ended | Frame::Failed => FrameAction::Stop,
        Frame::Binary | Frame::Pong => FrameAction::Ignore,
    }
}

/// After writing to the socket (a queued message or a pong): a failed write
/// ends the connection.
pub fn on_write(succeeded: bool) -> (res: FrameAction)
    ensures
        succeeded ==> res == FrameAction::Ignore,
        !succeeded ==> res == FrameAction::Stop,
{
    if succeeded {
        FrameAction::Ignore
    } else {
        FrameAction::Stop
    }
}

} // verus!

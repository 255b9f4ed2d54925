//! What a state machine asks of the code that drives it.

use vstd::prelude::*;

use crate::error::{InvalidFrameReason, WebSocketError};
use crate::websocket::message::{Message, MessageView};
use crate::websocket::reassembly::{Assembled, Outcome};

verus! {

/// The answer to an event: a value, or nothing until the next event.
#[derive(Debug)]
pub enum Step<T> {
    /// There is nothing to hand out yet.
    Pending,
    /// A value to hand out.
    Ready(T),
}

/// What a stream of messages hands out: a message, an error, or `None` at its end.
pub type MessageStep = Step<Option<Result<Message, WebSocketError>>>;

/// Whether a step of a message stream reports what a frame completed.
pub open spec fn reports(step: MessageStep, outcome: Outcome) -> bool {
    match outcome {
        Outcome::Nothing => step is Pending,
        Outcome::Complete(message) => step matches Step::Ready(Some(Ok(m))) && m@ == message,
        Outcome::BadUtf8 => step == Step::Ready(
            Some(
                Err::<Message, WebSocketError>(
                    WebSocketError::InvalidFrame(InvalidFrameReason::BadUtf8),
                ),
            ),
        ),
    }
}

impl Assembled {
    /// The step of a message stream that reports what a frame completed.
    pub fn report(self) -> (r: MessageStep)
        ensures
            reports(r, self@),
    {
        match self {
            Assembled::Nothing => Step::Pending,
            Assembled::Complete(message) => Step::Ready(Some(Ok(message))),
            Assembled::BadUtf8 => Step::Ready(
                Some(Err(WebSocketError::InvalidFrame(InvalidFrameReason::BadUtf8))),
            ),
        }
    }
}

/// A step reports a message by the very message, its lack by waiting, and text that is not UTF-8 by
/// the error for it.
pub proof fn law_steps_report_faithfully(step: MessageStep, bytes: Seq<u8>, text: Seq<char>)
    ensures
        reports(step, Outcome::Nothing) <==> step is Pending,
        reports(step, Outcome::Complete(MessageView::Binary(bytes))) <==> (step matches Step::Ready(
            Some(Ok(Message::Binary(read))),
        ) && read@ == bytes),
        reports(step, Outcome::Complete(MessageView::Text(text))) <==> (step matches Step::Ready(
            Some(Ok(Message::Text(read))),
        ) && read@ == text),
        reports(step, Outcome::BadUtf8) <==> step == MessageStep::Ready(
            Some(Err(WebSocketError::InvalidFrame(InvalidFrameReason::BadUtf8))),
        ),
{
}

} // verus!

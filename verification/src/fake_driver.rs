//! The driver that passes on what a test hands it.
use crate::channel::Outbox;
use crate::errors::RuntimeError;
use crate::source::MdDriverEvent;
use vstd::prelude::*;

verus! {

/// Passes on what was received, and says whether and how the driver ends: with the stop that it
/// passed on, where the source is gone, or where nobody is left to hand it anything.
pub fn forward_event<P>(
    received: Option<MdDriverEvent<P>>,
    tx: &mut Outbox<MdDriverEvent<P>>,
) -> (end: Option<Result<(), RuntimeError>>)
    ensures
        match (received, end) {
            (None, Some(Err(error))) => {
                &&& error == RuntimeError::ChannelReceive
                &&& *final(tx) == *old(tx)
            },
            (Some(event), None) => {
                &&& !(event is Stop)
                &&& final(tx)@ == old(tx)@.push(event)
                &&& final(tx).refused() == old(tx).refused()
            },
            (Some(event), Some(Ok(_))) => {
                &&& event is Stop
                &&& final(tx)@ == old(tx)@.push(event)
                &&& final(tx).refused() == old(tx).refused()
            },
            (Some(event), Some(Err(error))) => {
                &&& error == RuntimeError::ChannelSend
                &&& final(tx)@ == old(tx)@
                &&& final(tx).refused() == old(tx).refused().push(event)
            },
            _ => false,
        },
{
    match received {
        None => Some(Err(RuntimeError::ChannelReceive)),
        Some(event) => {
            let is_stop: bool = matches!(event, MdDriverEvent::Stop);
            match tx.send(event) {
                Ok(_) => if is_stop {
                    Some(Ok(()))
                } else {
                    None
                },
                Err(error) => Some(Err(error)),
            }
        },
    }
}

/// What is handed to the driver goes on to the source as it is; the driver ends after a stop, where the
/// source is gone, or where nothing can come any more.
pub proof fn law_events_are_passed_on<P>(
    received: Option<MdDriverEvent<P>>,
    tx: &mut Outbox<MdDriverEvent<P>>,
    end: Option<Result<(), RuntimeError>>,
)
    requires
        call_ensures(forward_event::<P>, (received, tx), end),
    ensures
        received is None ==> final(tx)@ == old(tx)@ && end == Some(
            Err::<(), RuntimeError>(RuntimeError::ChannelReceive),
        ),
        received matches Some(event) ==> {
            ||| final(tx)@ == old(tx)@.push(event) && (if event is Stop {
                end matches Some(Ok(_))
            } else {
                end is None
            })
            ||| final(tx).refused() == old(tx).refused().push(event) && final(tx)@ == old(tx)@ && end
                == Some(Err::<(), RuntimeError>(RuntimeError::ChannelSend))
        },
{
}

} // verus!

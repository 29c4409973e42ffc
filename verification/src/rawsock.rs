//! The raw link-layer transport's control state.
//!
//! The channel handles live in the surrounding program; verified here
//! are the open/send verdicts and the receive-slot lifecycle.  The
//! underlying receive primitive blocks with no native timeout, so a
//! receive is raced against a timer by a detached context: when the
//! timer fires first the receiver is still on loan inside that context
//! and cannot be reclaimed at that instant.  That state is tracked
//! explicitly — `Lost`, a checked error path — rather than silently
//! creating a second concurrent receiver.

use vstd::prelude::*;

verus! {

/// Errors of the raw transport.
#[derive(Debug, Clone, PartialEq, Eq)]
pub enum RawSocketError {
    /// No interface of the requested name exists.
    InterfaceNotFound,
    /// The platform returned a channel that is not a link-layer
    /// datagram channel.
    UnsupportedChannel,
    /// A lower-level failure, with its message.
    Io(String),
    /// The transport rejected a frame, with the diagnostic.
    SendError(String),
    /// A receive failed, with the diagnostic.
    RecvError(String),
}

/// Where the inbound receiver is.
#[derive(Debug, Clone, Copy, PartialEq, Eq, Structural)]
pub enum RecvSlot {
    /// The transport holds the receiver; a receive may begin.
    Idle,
    /// The receiver is on loan to the blocking receive context.
    Receiving,
    /// A timeout fired while the receiver was on loan; it was never
    /// returned.  Further receives are refused until the transport is
    /// recovered.
    Lost,
}

/// The control state of one raw channel.
#[derive(Debug, Clone, Copy, PartialEq, Eq, Structural)]
pub struct RawChannelState {
    /// Where the inbound receiver is.
    pub slot: RecvSlot,
}

/// What the platform's channel open came back with, as plain values.
#[derive(Debug, Clone, PartialEq, Eq)]
pub enum ChannelOutcome {
    /// A link-layer datagram channel was opened.
    Ethernet,
    /// A channel of some other type was returned.
    OtherType,
    /// The open failed, with its diagnostic.
    Failed(String),
}

/// Judge an attempt to open a raw channel: no interface of the name is
/// fatal with `InterfaceNotFound`; a channel of the wrong type with
/// `UnsupportedChannel`; a platform failure with `Io`.  On success the
/// transport starts with its receiver held.
pub fn open_verdict(outcome: Option<&ChannelOutcome>) -> (r: Result<
    RawChannelState,
    RawSocketError,
>)
    ensures
        outcome is None ==> r == Err::<RawChannelState, RawSocketError>(
            RawSocketError::InterfaceNotFound,
        ),
        outcome matches Some(oc) ==> match oc {
            ChannelOutcome::Ethernet => r == Ok::<RawChannelState, RawSocketError>(
                RawChannelState { slot: RecvSlot::Idle },
            ),
            ChannelOutcome::OtherType => r == Err::<RawChannelState, RawSocketError>(
                RawSocketError::UnsupportedChannel,
            ),
            ChannelOutcome::Failed(m) => r matches Err(e) && e matches RawSocketError::Io(em)
                && em@ == m@,
        },
{
    match outcome {
        None => Err(RawSocketError::InterfaceNotFound),
        Some(oc) => match oc {
            ChannelOutcome::Ethernet => Ok(RawChannelState { slot: RecvSlot::Idle }),
            ChannelOutcome::OtherType => Err(RawSocketError::UnsupportedChannel),
            ChannelOutcome::Failed(m) => Err(RawSocketError::Io(clone_str(m))),
        },
    }
}

/// Copy a string.
fn clone_str(s: &String) -> (r: String)
    ensures
        r@ == s@,
{
    s.clone()
}

/// Judge one send: the transport either accepted the whole frame or
/// rejected it, which surfaces as `SendError`.
pub fn send_verdict(accepted: bool) -> (r: Result<(), RawSocketError>)
    ensures
        accepted ==> r is Ok,
        !accepted ==> (r matches Err(e) && e matches RawSocketError::SendError(m) && m@
            == "send_to returned None"@),
{
    if accepted {
        Ok(())
    } else {
        Err(RawSocketError::SendError("send_to returned None".to_owned()))
    }
}

impl RawChannelState {
    /// A freshly opened channel holds its receiver.
    pub fn new() -> (r: RawChannelState)
        ensures
            r.slot == RecvSlot::Idle,
    {
        RawChannelState { slot: RecvSlot::Idle }
    }

    /// Begin a receive: the receiver is handed to the blocking
    /// context.  On a transport whose receiver was lost to an earlier
    /// timeout this is refused with a distinct `RecvError` — never a
    /// second concurrent receiver.
    pub fn begin_recv(&mut self) -> (r: Result<(), RawSocketError>)
        ensures
            old(self).slot == RecvSlot::Idle ==> r is Ok && final(self).slot == RecvSlot::Receiving,
            old(self).slot != RecvSlot::Idle ==> final(self).slot == old(self).slot && (r matches
                Err(e) && e matches RawSocketError::RecvError(m) && m@
                == "Receiver already taken"@),
    {
        match self.slot {
            RecvSlot::Idle => {
                self.slot = RecvSlot::Receiving;
                Ok(())
            },
            _ => Err(RawSocketError::RecvError("Receiver already taken".to_owned())),
        }
    }

    /// A frame arrived within the timeout: the blocking context hands
    /// the receiver back and the transport is ready for reuse.
    pub fn frame_received(&mut self)
        requires
            old(self).slot == RecvSlot::Receiving,
        ensures
            final(self).slot == RecvSlot::Idle,
    {
        self.slot = RecvSlot::Idle;
    }

    /// The receive failed and the blocking context handed the receiver
    /// back: the transport is ready for reuse; the caller surfaces the
    /// diagnostic as `RecvError`.
    pub fn recv_failed(&mut self)
        requires
            old(self).slot == RecvSlot::Receiving,
        ensures
            final(self).slot == RecvSlot::Idle,
    {
        self.slot = RecvSlot::Idle;
    }

    /// The timeout fired first: no frame is available, and the
    /// receiver is still on loan inside the blocking context.  The
    /// transport records the loss; it refuses further receives until
    /// recovered.
    pub fn timed_out(&mut self)
        requires
            old(self).slot == RecvSlot::Receiving,
        ensures
            final(self).slot == RecvSlot::Lost,
    {
        self.slot = RecvSlot::Lost;
    }

    /// The transport was recovered (reopened): it holds a receiver
    /// again.
    pub fn recovered(&mut self)
        requires
            old(self).slot == RecvSlot::Lost,
        ensures
            final(self).slot == RecvSlot::Idle,
    {
        self.slot = RecvSlot::Idle;
    }
}

} // verus!

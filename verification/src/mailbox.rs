//! The per-actor mailbox: an ordered, unbounded queue of protocol messages.
//!
//! Each actor owns exactly one mailbox and is the only one to dequeue from
//! it; anyone holding mutable access may enqueue. The transport is a tokio
//! unbounded mpsc channel whose two halves live together inside [`Mailbox`],
//! so the channel is never closed while the mailbox exists: enqueueing
//! cannot fail and dequeueing from a non-empty mailbox cannot fail.
//!
//! The contents are modelled as a sequence, front at index 0; `push`
//! appends at the back and `try_recv` takes from the front, so messages
//! between a fixed sender and this mailbox come out in the order they
//! went in.

use vstd::prelude::*;

use crate::status::ParticipantStatus;

verus! {

/// An ordered, unbounded message queue owned by one actor.
///
/// The two channel halves are kept together so that the queue's contents
/// are a function of this one value; both are hidden from verification and
/// reached only through the trusted operations below.
#[verifier::external_body]
pub struct Mailbox {
    sender: tokio::sync::mpsc::UnboundedSender<ParticipantStatus>,
    receiver: tokio::sync::mpsc::UnboundedReceiver<ParticipantStatus>,
}

/// The messages queued in a mailbox, front first.
pub uninterp spec fn mailbox_msgs(m: Mailbox) -> Seq<ParticipantStatus>;

impl View for Mailbox {
    type V = Seq<ParticipantStatus>;

    open spec fn view(&self) -> Seq<ParticipantStatus> {
        mailbox_msgs(*self)
    }
}

impl Mailbox {
    /// Relies on tokio::sync::mpsc::unbounded_channel: a fresh channel
    /// holds no messages.
    #[verifier::external_body]
    pub fn new() -> (m: Mailbox)
        ensures
            mailbox_msgs(m) == Seq::<ParticipantStatus>::empty(),
    {
        let (sender, receiver) = tokio::sync::mpsc::unbounded_channel();
        Mailbox { sender, receiver }
    }

    /// Relies on tokio::sync::mpsc::UnboundedSender::send: the message is
    /// enqueued behind all earlier ones, and sending only fails once the
    /// receiving half is closed or dropped, which cannot happen while both
    /// halves sit in this mailbox.
    #[verifier::external_body]
    pub fn push(&mut self, msg: ParticipantStatus)
        ensures
            mailbox_msgs(*final(self)) == mailbox_msgs(*old(self)).push(msg),
    {
        let _ = self.sender.send(msg);
    }

    /// Relies on tokio::sync::mpsc::UnboundedReceiver::try_recv: it hands
    /// out the front message if one is queued and reports `Empty` when none
    /// is; `Disconnected` cannot happen while the sending half sits in this
    /// mailbox.
    #[verifier::external_body]
    pub fn try_recv(&mut self) -> (r: Option<ParticipantStatus>)
        ensures
            mailbox_msgs(*old(self)).len() == 0 ==> r is None && mailbox_msgs(*final(self))
                == mailbox_msgs(*old(self)),
            mailbox_msgs(*old(self)).len() > 0 ==> r == Some(mailbox_msgs(*old(self))[0])
                && mailbox_msgs(*final(self)) == mailbox_msgs(*old(self)).drop_first(),
    {
        match self.receiver.try_recv() {
            Ok(msg) => Some(msg),
            Err(tokio::sync::mpsc::error::TryRecvError::Empty) => None,
            Err(tokio::sync::mpsc::error::TryRecvError::Disconnected) => None,
        }
    }
}

} // verus!

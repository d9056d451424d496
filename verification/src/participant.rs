//! The participant actor: its local transaction state, its inbound mailbox
//! and the handlers for the coordinator's commands.
//!
//! A participant never touches another actor's state. Draining its mailbox
//! yields the replies it wants delivered to the coordinator; the caller —
//! whoever still holds a handle to the coordinator's mailbox — enqueues
//! them, and simply discards them if the coordinator is already gone. That
//! keeps the back-reference non-owning: a participant cannot keep the
//! coordinator alive, and an unresolvable coordinator merely loses replies.

use vstd::prelude::*;

use crate::fault::FaultInjector;
use crate::mailbox::{mailbox_msgs, Mailbox};
use crate::status::ParticipantStatus;

verus! {

/// One transition of a participant's abstract state `(status, committed)`
/// on a delivered message, given the fault injector's drop decision for
/// the reply. Yields the new status, the new committed flag, and the reply
/// to the coordinator, if any.
///
/// A prepare command moves a `Ready` participant to `Prepared`; a commit
/// command moves a `Prepared` participant to `Commited` and sets the
/// committed flag; both reply with the new status unless the drop decision
/// swallows the whole effect. A fail command moves a `Ready` or `Prepared`
/// participant to `Failure`, a rollback command moves anything but a
/// `Failure` participant to `Rollback`; aborts clear the committed flag,
/// are never dropped and are never acknowledged. Any other delivery
/// changes nothing.
pub open spec fn participant_step(
    id: u8,
    status: ParticipantStatus,
    committed: bool,
    msg: ParticipantStatus,
    dropped: bool,
) -> (ParticipantStatus, bool, Option<ParticipantStatus>) {
    match msg {
        ParticipantStatus::Ready(_) => (status, committed, None),
        ParticipantStatus::Prepared(_) => if !dropped && status is Ready {
            (
                ParticipantStatus::Prepared(id),
                false,
                Some(ParticipantStatus::Prepared(id)),
            )
        } else {
            (status, committed, None)
        },
        ParticipantStatus::Commited(_) => if !dropped && status is Prepared {
            (
                ParticipantStatus::Commited(id),
                true,
                Some(ParticipantStatus::Commited(id)),
            )
        } else {
            (status, committed, None)
        },
        ParticipantStatus::Failure(_) => if status is Ready || status is Prepared {
            (ParticipantStatus::Failure(id), false, None)
        } else {
            (status, committed, None)
        },
        ParticipantStatus::Rollback(_) => if status is Failure {
            (status, committed, None)
        } else {
            (ParticipantStatus::Rollback(id), false, None)
        },
    }
}

/// The effect of draining a whole batch of messages in order, with one
/// drop decision per message: the final status, the final committed flag,
/// and the replies in the order they were produced.
pub open spec fn participant_drain(
    id: u8,
    status: ParticipantStatus,
    committed: bool,
    msgs: Seq<ParticipantStatus>,
    drops: Seq<bool>,
) -> (ParticipantStatus, bool, Seq<ParticipantStatus>)
    decreases msgs.len(),
{
    if msgs.len() == 0 {
        (status, committed, Seq::empty())
    } else {
        let stepped = participant_step(id, status, committed, msgs[0], drops[0]);
        let rest = participant_drain(id, stepped.0, stepped.1, msgs.drop_first(), drops.drop_first());
        (
            rest.0,
            rest.1,
            match stepped.2 {
                None => rest.2,
                Some(reply) => seq![reply] + rest.2,
            },
        )
    }
}

/// What the fault injector guarantees of a sequence of drop decisions:
/// a drop probability of zero never drops, a probability of one always
/// does.
pub open spec fn drops_wf(fault: FaultInjector, drops: Seq<bool>) -> bool {
    &&& fault.num == 0 ==> forall|k: int| 0 <= k < drops.len() ==> !(#[trigger] drops[k])
    &&& fault.num == fault.den ==> forall|k: int| 0 <= k < drops.len() ==> #[trigger] drops[k]
}

/// Draining one more message behind an already drained batch first drains
/// the batch and then takes a single step on the extra message.
pub proof fn lemma_drain_snoc(
    id: u8,
    status: ParticipantStatus,
    committed: bool,
    msgs: Seq<ParticipantStatus>,
    drops: Seq<bool>,
    msg: ParticipantStatus,
    dropped: bool,
)
    requires
        msgs.len() == drops.len(),
    ensures
        ({
            let pre = participant_drain(id, status, committed, msgs, drops);
            let stepped = participant_step(id, pre.0, pre.1, msg, dropped);
            participant_drain(id, status, committed, msgs.push(msg), drops.push(dropped)) == (
                stepped.0,
                stepped.1,
                match stepped.2 {
                    None => pre.2,
                    Some(reply) => pre.2.push(reply),
                },
            )
        }),
    decreases msgs.len(),
{
    if msgs.len() == 0 {
        assert(msgs.push(msg)[0] == msg);
        assert(drops.push(dropped)[0] == dropped);
        assert(msgs.push(msg).drop_first() =~= Seq::<ParticipantStatus>::empty());
        assert(drops.push(dropped).drop_first() =~= Seq::<bool>::empty());
        let stepped = participant_step(id, status, committed, msg, dropped);
        assert(participant_drain(id, stepped.0, stepped.1, Seq::empty(), Seq::empty()) == (
            stepped.0,
            stepped.1,
            Seq::<ParticipantStatus>::empty(),
        ));
        assert(participant_drain(id, status, committed, msgs, drops) == (
            status,
            committed,
            Seq::<ParticipantStatus>::empty(),
        ));
        if stepped.2 is Some {
            assert(seq![stepped.2->0] + Seq::<ParticipantStatus>::empty() =~= Seq::<
                ParticipantStatus,
            >::empty().push(stepped.2->0));
        }
    } else {
        assert(msgs.push(msg)[0] == msgs[0]);
        assert(drops.push(dropped)[0] == drops[0]);
        assert(msgs.push(msg).drop_first() =~= msgs.drop_first().push(msg));
        assert(drops.push(dropped).drop_first() =~= drops.drop_first().push(dropped));
        let first = participant_step(id, status, committed, msgs[0], drops[0]);
        lemma_drain_snoc(id, first.0, first.1, msgs.drop_first(), drops.drop_first(), msg, dropped);
        let pre_rest = participant_drain(id, first.0, first.1, msgs.drop_first(), drops.drop_first());
        let stepped = participant_step(id, pre_rest.0, pre_rest.1, msg, dropped);
        if first.2 is Some && stepped.2 is Some {
            assert(seq![first.2->0] + pre_rest.2.push(stepped.2->0) =~= (seq![first.2->0]
                + pre_rest.2).push(stepped.2->0));
        }
    }
}

/// Draining a single message is a single step.
pub proof fn lemma_drain_one(
    id: u8,
    status: ParticipantStatus,
    committed: bool,
    msg: ParticipantStatus,
    drops: Seq<bool>,
)
    requires
        drops.len() == 1,
    ensures
        ({
            let stepped = participant_step(id, status, committed, msg, drops[0]);
            participant_drain(id, status, committed, seq![msg], drops) == (
                stepped.0,
                stepped.1,
                match stepped.2 {
                    None => Seq::<ParticipantStatus>::empty(),
                    Some(reply) => seq![reply],
                },
            )
        }),
{
    let stepped = participant_step(id, status, committed, msg, drops[0]);
    assert(seq![msg][0] == msg);
    assert(seq![msg].drop_first() =~= Seq::<ParticipantStatus>::empty());
    assert(drops.drop_first() =~= Seq::<bool>::empty());
    assert(participant_drain(id, stepped.0, stepped.1, Seq::empty(), Seq::empty()) == (
        stepped.0,
        stepped.1,
        Seq::<ParticipantStatus>::empty(),
    ));
    if stepped.2 is Some {
        assert(seq![stepped.2->0] + Seq::<ParticipantStatus>::empty() =~= seq![stepped.2->0]);
    }
}

/// Draining two messages is two steps, with the replies in order.
pub proof fn lemma_drain_two(
    id: u8,
    status: ParticipantStatus,
    committed: bool,
    msg0: ParticipantStatus,
    msg1: ParticipantStatus,
    drops: Seq<bool>,
)
    requires
        drops.len() == 2,
    ensures
        ({
            let first = participant_step(id, status, committed, msg0, drops[0]);
            let second = participant_step(id, first.0, first.1, msg1, drops[1]);
            let first_replies = match first.2 {
                None => Seq::<ParticipantStatus>::empty(),
                Some(reply) => seq![reply],
            };
            let second_replies = match second.2 {
                None => Seq::<ParticipantStatus>::empty(),
                Some(reply) => seq![reply],
            };
            participant_drain(id, status, committed, seq![msg0, msg1], drops) == (
                second.0,
                second.1,
                first_replies + second_replies,
            )
        }),
{
    let first = participant_step(id, status, committed, msg0, drops[0]);
    assert(seq![msg0, msg1][0] == msg0);
    assert(seq![msg0, msg1].drop_first() =~= seq![msg1]);
    lemma_drain_one(id, first.0, first.1, msg1, drops.drop_first());
    assert(drops.drop_first()[0] == drops[1]);
    let second = participant_step(id, first.0, first.1, msg1, drops[1]);
    if first.2 is Some {
        if second.2 is Some {
            assert(seq![first.2->0] + seq![second.2->0] =~= seq![first.2->0, second.2->0]);
        } else {
            assert(seq![first.2->0] + Seq::<ParticipantStatus>::empty() =~= seq![first.2->0]);
        }
    } else {
        if second.2 is Some {
            assert(Seq::<ParticipantStatus>::empty() + seq![second.2->0] =~= seq![second.2->0]);
        } else {
            assert(Seq::<ParticipantStatus>::empty() + Seq::<ParticipantStatus>::empty() =~= Seq::<
                ParticipantStatus,
            >::empty());
        }
    }
}

/// Law: a participant whose status is terminal is deaf — draining any
/// batch of messages leaves its status and committed flag unchanged and
/// produces no reply. The one exception, carved out by the second
/// precondition, is a rollback command reaching a `Commited` participant:
/// the coordinator's rollback decision overrides a local commit.
pub proof fn lemma_terminal_idempotence(
    id: u8,
    status: ParticipantStatus,
    committed: bool,
    msgs: Seq<ParticipantStatus>,
    drops: Seq<bool>,
)
    requires
        status.spec_is_terminal(),
        status.tag() == id,
        committed == (status is Commited),
        status is Commited ==> forall|k: int| 0 <= k < msgs.len() ==> !(#[trigger] msgs[k] is Rollback),
    ensures
        participant_drain(id, status, committed, msgs, drops) == (status, committed, Seq::<ParticipantStatus>::empty()),
    decreases msgs.len(),
{
    if msgs.len() > 0 {
        assert(participant_step(id, status, committed, msgs[0], drops[0]) == (status, committed, Option::<ParticipantStatus>::None));
        assert(status is Commited ==> forall|k: int|
            0 <= k < msgs.drop_first().len() ==> !(#[trigger] msgs.drop_first()[k] is Rollback)) by {
            assert(forall|k: int| 0 <= k < msgs.drop_first().len() ==> msgs.drop_first()[k] == msgs[k + 1]);
        }
        lemma_terminal_idempotence(id, status, committed, msgs.drop_first(), drops.drop_first());
    }
}

/// How a full drain relates a participant's state before and after: the
/// mailbox ends empty, id and injector persist, and some sequence of drop
/// decisions — constrained by the injector at the probability's edges —
/// explains the new status, committed flag and replies.
pub open spec fn participant_recv_rel(pre: Participant, post: Participant, replies: Seq<ParticipantStatus>) -> bool {
    &&& post.id == pre.id
    &&& post.fault == pre.fault
    &&& mailbox_msgs(post.mailbox).len() == 0
    &&& exists|ds: Seq<bool>| {
        &&& ds.len() == mailbox_msgs(pre.mailbox).len()
        &&& drops_wf(pre.fault, ds)
        &&& (#[trigger] participant_drain(pre.id, pre.status, pre.committed, mailbox_msgs(pre.mailbox), ds)) == (
            post.status,
            post.committed,
            replies,
        )
    }
}

/// A participant actor. `committed` is its local durable-commit flag, set
/// exactly when its status reaches `Commited` honestly and cleared by any
/// abort.
pub struct Participant {
    pub id: u8,
    pub committed: bool,
    pub status: ParticipantStatus,
    pub fault: FaultInjector,
    pub mailbox: Mailbox,
}

impl Participant {
    /// Well-formedness: the status carries the participant's own id, the
    /// committed flag tracks the `Commited` status, the injector is a
    /// valid probability, and nothing ever put a `Ready` message — a
    /// protocol violation — into the mailbox.
    pub open spec fn wf(self) -> bool {
        &&& self.status.tag() == self.id
        &&& self.committed == (self.status is Commited)
        &&& self.fault.wf()
        &&& forall|k: int| 0 <= k < mailbox_msgs(self.mailbox).len()
            ==> !(#[trigger] mailbox_msgs(self.mailbox)[k] is Ready)
    }

    /// A fresh participant: `Ready`, not committed, empty mailbox.
    pub fn new(id: u8, fault: FaultInjector) -> (p: Participant)
        requires
            fault.wf(),
        ensures
            p.wf(),
            p.id == id,
            p.status == ParticipantStatus::Ready(id),
            !p.committed,
            p.fault == fault,
            mailbox_msgs(p.mailbox) == Seq::<ParticipantStatus>::empty(),
    {
        Participant {
            id,
            committed: false,
            status: ParticipantStatus::Ready(id),
            fault,
            mailbox: Mailbox::new(),
        }
    }

    /// Whether this participant has reached a terminal status.
    pub fn transaction_end(&self) -> (r: bool)
        ensures
            r == self.status.spec_is_terminal(),
    {
        match self.status {
            ParticipantStatus::Failure(_) => true,
            ParticipantStatus::Commited(_) => true,
            ParticipantStatus::Rollback(_) => true,
            _ => false,
        }
    }

    /// Enqueues a prepare command into this participant's mailbox.
    pub fn prepare(&mut self)
        ensures
            *final(self) == (Participant { mailbox: final(self).mailbox, ..*old(self) }),
            mailbox_msgs(final(self).mailbox)
                == mailbox_msgs(old(self).mailbox).push(ParticipantStatus::Prepared(old(self).id)),
    {
        let msg = ParticipantStatus::Prepared(self.id);
        self.mailbox.push(msg);
    }

    /// Enqueues a commit command into this participant's mailbox.
    pub fn commit(&mut self)
        ensures
            *final(self) == (Participant { mailbox: final(self).mailbox, ..*old(self) }),
            mailbox_msgs(final(self).mailbox)
                == mailbox_msgs(old(self).mailbox).push(ParticipantStatus::Commited(old(self).id)),
    {
        let msg = ParticipantStatus::Commited(self.id);
        self.mailbox.push(msg);
    }

    /// Intentionally does nothing: the coordinator alone drives any
    /// compensating action, and a participant that has only reserved
    /// resources locally needs no explicit undo signal — the eventual
    /// fail or rollback command is sufficient.
    pub fn undo_prepare(&self) {
    }

    /// Enqueues a fail command into this participant's mailbox.
    pub fn fail(&mut self)
        ensures
            *final(self) == (Participant { mailbox: final(self).mailbox, ..*old(self) }),
            mailbox_msgs(final(self).mailbox)
                == mailbox_msgs(old(self).mailbox).push(ParticipantStatus::Failure(old(self).id)),
    {
        let msg = ParticipantStatus::Failure(self.id);
        self.mailbox.push(msg);
    }

    /// Enqueues a rollback command into this participant's mailbox.
    pub fn rollback(&mut self)
        ensures
            *final(self) == (Participant { mailbox: final(self).mailbox, ..*old(self) }),
            mailbox_msgs(final(self).mailbox)
                == mailbox_msgs(old(self).mailbox).push(ParticipantStatus::Rollback(old(self).id)),
    {
        let msg = ParticipantStatus::Rollback(self.id);
        self.mailbox.push(msg);
    }

    /// Reacts to a prepare command, with the injector's drop decision for
    /// the reply already sampled.
    fn handle_prepared(&mut self, dropped: bool) -> (reply: Option<ParticipantStatus>)
        ensures
            !dropped && old(self).status is Ready ==> {
                &&& *final(self) == (Participant {
                    status: ParticipantStatus::Prepared(old(self).id),
                    committed: false,
                    ..*old(self)
                })
                &&& reply == Some(ParticipantStatus::Prepared(old(self).id))
            },
            !(!dropped && old(self).status is Ready) ==> *final(self) == *old(self) && reply is None,
    {
        if dropped {
            return None;
        }
        match self.status {
            ParticipantStatus::Ready(_) => {
                self.status = ParticipantStatus::Prepared(self.id);
                self.committed = false;
                Some(ParticipantStatus::Prepared(self.id))
            }
            _ => None,
        }
    }

    /// Reacts to a commit command, with the injector's drop decision for
    /// the reply already sampled.
    fn handle_commited(&mut self, dropped: bool) -> (reply: Option<ParticipantStatus>)
        ensures
            !dropped && old(self).status is Prepared ==> {
                &&& *final(self) == (Participant {
                    status: ParticipantStatus::Commited(old(self).id),
                    committed: true,
                    ..*old(self)
                })
                &&& reply == Some(ParticipantStatus::Commited(old(self).id))
            },
            !(!dropped && old(self).status is Prepared) ==> *final(self) == *old(self) && reply is None,
    {
        if dropped {
            return None;
        }
        match self.status {
            ParticipantStatus::Prepared(_) => {
                self.committed = true;
                self.status = ParticipantStatus::Commited(self.id);
                Some(ParticipantStatus::Commited(self.id))
            }
            _ => None,
        }
    }

    /// Reacts to a fail command: `Ready` and `Prepared` give up; terminal
    /// statuses ignore it.
    fn handle_failure(&mut self)
        ensures
            old(self).status is Ready || old(self).status is Prepared ==> *final(self) == (Participant {
                status: ParticipantStatus::Failure(old(self).id),
                committed: false,
                ..*old(self)
            }),
            !(old(self).status is Ready || old(self).status is Prepared) ==> *final(self) == *old(self),
    {
        match self.status {
            ParticipantStatus::Ready(_) | ParticipantStatus::Prepared(_) => {
                self.status = ParticipantStatus::Failure(self.id);
                self.committed = false;
            }
            _ => {}
        }
    }

    /// Reacts to a rollback command: everything but a `Failure` participant
    /// rolls back and clears its committed flag.
    fn handle_roll_back(&mut self)
        ensures
            old(self).status is Failure ==> *final(self) == *old(self),
            !(old(self).status is Failure) ==> *final(self) == (Participant {
                status: ParticipantStatus::Rollback(old(self).id),
                committed: false,
                ..*old(self)
            }),
    {
        match self.status {
            ParticipantStatus::Failure(_) => {}
            _ => {
                self.status = ParticipantStatus::Rollback(self.id);
                self.committed = false;
            }
        }
    }

    /// Drains the inbound mailbox completely, sampling one drop decision
    /// per message, and returns the replies to be delivered to the
    /// coordinator, in the order they were produced. The caller owns the
    /// delivery: if the coordinator is gone, it drops them.
    ///
    /// The outcome is pinned up to the injector's decisions: some sequence
    /// of drop decisions, deterministic at the probability's edges, drives
    /// [`participant_drain`] from the old state to the new one. A terminal
    /// participant is left untouched, except that a rollback command
    /// overrides a local commit.
    pub fn participant_recv(&mut self) -> (replies: Vec<ParticipantStatus>)
        requires
            old(self).wf(),
        ensures
            final(self).wf(),
            participant_recv_rel(*old(self), *final(self), replies@),
            old(self).status is Failure || old(self).status is Rollback ==> {
                &&& final(self).status == old(self).status
                &&& final(self).committed == old(self).committed
                &&& replies@ == Seq::<ParticipantStatus>::empty()
            },
            old(self).status is Commited && (forall|k: int|
                0 <= k < mailbox_msgs(old(self).mailbox).len()
                    ==> !(#[trigger] mailbox_msgs(old(self).mailbox)[k] is Rollback)) ==> {
                &&& final(self).status == old(self).status
                &&& final(self).committed == old(self).committed
                &&& replies@ == Seq::<ParticipantStatus>::empty()
            },
    {
        let ghost id0 = self.id;
        let ghost st0 = self.status;
        let ghost c0 = self.committed;
        let ghost fault0 = self.fault;
        let ghost msgs0 = mailbox_msgs(self.mailbox);
        let ghost mut processed: Seq<ParticipantStatus> = Seq::empty();
        let ghost mut drops: Seq<bool> = Seq::empty();
        let mut replies: Vec<ParticipantStatus> = Vec::new();
        proof {
            assert(processed + mailbox_msgs(self.mailbox) =~= msgs0);
        }
        loop
            invariant
                self.id == id0,
                self.fault == fault0,
                fault0.wf(),
                self.status.tag() == id0,
                self.committed == (self.status is Commited),
                processed.len() == drops.len(),
                msgs0 == processed + mailbox_msgs(self.mailbox),
                forall|k: int| 0 <= k < msgs0.len() ==> !(#[trigger] msgs0[k] is Ready),
                drops_wf(fault0, drops),
                (self.status, self.committed, replies@) == participant_drain(id0, st0, c0, processed, drops),
            ensures
                self.id == id0,
                self.fault == fault0,
                self.status.tag() == id0,
                self.committed == (self.status is Commited),
                processed.len() == drops.len(),
                msgs0 == processed + mailbox_msgs(self.mailbox),
                mailbox_msgs(self.mailbox).len() == 0,
                drops_wf(fault0, drops),
                (self.status, self.committed, replies@) == participant_drain(id0, st0, c0, processed, drops),
            decreases mailbox_msgs(self.mailbox).len(),
        {
            let next = self.mailbox.try_recv();
            match next {
                None => {
                    break;
                }
                Some(msg) => {
                    proof {
                        assert(msg == msgs0[processed.len() as int]);
                        assert(!(msg is Ready));
                    }
                    let dropped = self.fault.should_drop();
                    let reply = self.handle_status(msg, dropped);
                    if let Some(r) = reply {
                        replies.push(r);
                    }
                    proof {
                        lemma_drain_snoc(id0, st0, c0, processed, drops, msg, dropped);
                        processed = processed.push(msg);
                        drops = drops.push(dropped);
                        assert(processed + mailbox_msgs(self.mailbox) =~= msgs0);
                        assert forall|k: int| 0 <= k < drops.len() implies (fault0.num == 0
                            ==> !(#[trigger] drops[k])) && (fault0.num == fault0.den
                            ==> drops[k]) by {}
                    }
                }
            }
        }
        proof {
            assert(processed =~= msgs0);
            assert(participant_drain(id0, st0, c0, mailbox_msgs(old(self).mailbox), drops) == (
                self.status,
                self.committed,
                replies@,
            ));
            if st0 is Failure || st0 is Rollback {
                lemma_terminal_idempotence(id0, st0, c0, msgs0, drops);
            }
            if st0 is Commited && (forall|k: int| 0 <= k < msgs0.len() ==> !(#[trigger] msgs0[k] is Rollback)) {
                lemma_terminal_idempotence(id0, st0, c0, msgs0, drops);
            }
        }
        replies
    }

    /// Dispatches one delivered message. Receiving `Ready` is a protocol
    /// violation and is excluded by the callers' mailbox invariant.
    pub fn handle_status(&mut self, msg: ParticipantStatus, dropped: bool) -> (reply: Option<ParticipantStatus>)
        requires
            !(msg is Ready),
        ensures
            ({
                let stepped = participant_step(old(self).id, old(self).status, old(self).committed, msg, dropped);
                &&& final(self).status == stepped.0
                &&& final(self).committed == stepped.1
                &&& reply == stepped.2
            }),
            final(self).id == old(self).id,
            final(self).fault == old(self).fault,
            final(self).mailbox == old(self).mailbox,
    {
        match msg {
            ParticipantStatus::Ready(_) => vstd::pervasive::unreached(),
            ParticipantStatus::Prepared(_) => self.handle_prepared(dropped),
            ParticipantStatus::Commited(_) => self.handle_commited(dropped),
            ParticipantStatus::Failure(_) => {
                self.handle_failure();
                None
            }
            ParticipantStatus::Rollback(_) => {
                self.handle_roll_back();
                None
            }
        }
    }
}

} // verus!

//! The coordinator actor: it owns the participants and their mailboxes,
//! drives the prepare and commit phases, and forces a uniform abort or
//! rollback once its deadline passes.
//!
//! All cross-actor effects go through mailboxes: the coordinator only ever
//! enqueues commands into a participant's mailbox and reads participant
//! statuses when it scans for a unanimous vote; a participant only ever
//! reports its own status into the coordinator's mailbox.

use std::time::SystemTime;
use std::time::UNIX_EPOCH;
use vstd::prelude::*;

use crate::fault::FaultInjector;
use crate::mailbox::{mailbox_msgs, Mailbox};
use crate::participant::{
    drops_wf, lemma_drain_one, lemma_drain_two, lemma_terminal_idempotence, participant_drain,
    participant_recv_rel, participant_step, Participant,
};
use crate::status::{CoordinatorStatus, ParticipantStatus};

verus! {

/// `post` is `pre` with exactly one command appended to its mailbox and
/// everything else untouched.
pub open spec fn pushed_cmd(pre: Participant, post: Participant, msg: ParticipantStatus) -> bool {
    &&& post == (Participant { mailbox: post.mailbox, ..pre })
    &&& mailbox_msgs(post.mailbox) == mailbox_msgs(pre.mailbox).push(msg)
}

/// Every queued message is a commit command for participant `id`.
pub open spec fn all_commit_cmds(msgs: Seq<ParticipantStatus>, id: u8) -> bool {
    forall|k: int| 0 <= k < msgs.len() ==> msgs[k] == ParticipantStatus::Commited(id)
}

/// A fail command was appended to every participant's mailbox.
pub open spec fn fail_broadcast(pre: Seq<Participant>, post: Seq<Participant>) -> bool {
    &&& post.len() == pre.len()
    &&& forall|i: int| 0 <= i < pre.len() ==> pushed_cmd(
        pre[i],
        #[trigger] post[i],
        ParticipantStatus::Failure(pre[i].id),
    )
}

/// A rollback command was appended to every participant's mailbox.
pub open spec fn rollback_broadcast(pre: Seq<Participant>, post: Seq<Participant>) -> bool {
    &&& post.len() == pre.len()
    &&& forall|i: int| 0 <= i < pre.len() ==> pushed_cmd(
        pre[i],
        #[trigger] post[i],
        ParticipantStatus::Rollback(pre[i].id),
    )
}

/// A commit command was appended to every participant's mailbox.
pub open spec fn commit_broadcast(pre: Seq<Participant>, post: Seq<Participant>) -> bool {
    &&& post.len() == pre.len()
    &&& forall|i: int| 0 <= i < pre.len() ==> pushed_cmd(
        pre[i],
        #[trigger] post[i],
        ParticipantStatus::Commited(pre[i].id),
    )
}

/// A prepare command was appended to every participant's mailbox.
pub open spec fn prepare_broadcast(pre: Seq<Participant>, post: Seq<Participant>) -> bool {
    &&& post.len() == pre.len()
    &&& forall|i: int| 0 <= i < pre.len() ==> pushed_cmd(
        pre[i],
        #[trigger] post[i],
        ParticipantStatus::Prepared(pre[i].id),
    )
}

/// Every participant currently reports `Prepared`.
pub open spec fn all_prepared(ps: Seq<Participant>) -> bool {
    forall|i: int| 0 <= i < ps.len() ==> (#[trigger] ps[i].status) is Prepared
}

/// Every participant currently reports `Commited`.
pub open spec fn all_commited(ps: Seq<Participant>) -> bool {
    forall|i: int| 0 <= i < ps.len() ==> (#[trigger] ps[i].status) is Commited
}

/// What a participant may look like while the coordinator waits for the
/// prepare votes: still `Ready` with the prepare command pending or
/// already consumed and dropped, or `Prepared` with an empty mailbox.
pub open spec fn prepare_phase_ok(p: Participant) -> bool {
    ||| (p.status is Ready && (mailbox_msgs(p.mailbox) == seq![ParticipantStatus::Prepared(p.id)]
        || mailbox_msgs(p.mailbox) == Seq::<ParticipantStatus>::empty()))
    ||| (p.status is Prepared && mailbox_msgs(p.mailbox) == Seq::<ParticipantStatus>::empty())
}

/// What a participant may look like while the coordinator waits for the
/// commit acknowledgments: still `Prepared` with some backlog of commit
/// commands (the coordinator re-broadcasts on every prepare vote it keeps
/// receiving), or `Commited` with an empty mailbox.
pub open spec fn commit_phase_ok(p: Participant) -> bool {
    ||| (p.status is Prepared && all_commit_cmds(mailbox_msgs(p.mailbox), p.id))
    ||| (p.status is Commited && mailbox_msgs(p.mailbox) == Seq::<ParticipantStatus>::empty())
}

/// What a participant may look like once the coordinator gave up during
/// the prepare phase: a fail command is the last thing in its mailbox
/// until it drains and lands in `Failure`.
pub open spec fn failure_phase_ok(p: Participant) -> bool {
    ||| (p.status is Failure && mailbox_msgs(p.mailbox) == Seq::<ParticipantStatus>::empty())
    ||| ((p.status is Ready || p.status is Prepared) && (mailbox_msgs(p.mailbox) == seq![
        ParticipantStatus::Failure(p.id),
    ] || mailbox_msgs(p.mailbox) == seq![
        ParticipantStatus::Prepared(p.id),
        ParticipantStatus::Failure(p.id),
    ]))
}

/// What a participant may look like once the coordinator gave up during
/// the commit phase: a rollback command is the last thing in its mailbox
/// until it drains and lands in `Rollback`.
pub open spec fn rollback_phase_ok(p: Participant) -> bool {
    ||| (p.status is Rollback && mailbox_msgs(p.mailbox) == Seq::<ParticipantStatus>::empty())
    ||| (p.status is Prepared && mailbox_msgs(p.mailbox).len() > 0 && mailbox_msgs(p.mailbox).last()
        == ParticipantStatus::Rollback(p.id) && all_commit_cmds(
        mailbox_msgs(p.mailbox).drop_last(),
        p.id,
    ))
    ||| (p.status is Commited && mailbox_msgs(p.mailbox) == seq![ParticipantStatus::Rollback(p.id)])
}

/// Whatever a participant drains, every reply it produces is one of its
/// own reports: a prepare vote or a commit acknowledgment.
pub proof fn lemma_drain_replies_kinds(
    id: u8,
    status: ParticipantStatus,
    committed: bool,
    msgs: Seq<ParticipantStatus>,
    drops: Seq<bool>,
)
    ensures
        ({
            let replies = participant_drain(id, status, committed, msgs, drops).2;
            forall|k: int| 0 <= k < replies.len() ==> #[trigger] replies[k]
                == ParticipantStatus::Prepared(id) || replies[k] == ParticipantStatus::Commited(id)
        }),
    decreases msgs.len(),
{
    if msgs.len() > 0 {
        let stepped = participant_step(id, status, committed, msgs[0], drops[0]);
        lemma_drain_replies_kinds(id, stepped.0, stepped.1, msgs.drop_first(), drops.drop_first());
    }
}

/// Draining a backlog of commit commands from `Prepared` either drops
/// them all and stays `Prepared`, or commits on the first one that lands
/// and acknowledges exactly once.
pub proof fn lemma_drain_commit_backlog(
    id: u8,
    msgs: Seq<ParticipantStatus>,
    drops: Seq<bool>,
)
    requires
        forall|k: int| 0 <= k < msgs.len() ==> (#[trigger] msgs[k]) is Commited,
    ensures
        participant_drain(id, ParticipantStatus::Prepared(id), false, msgs, drops) == (
            ParticipantStatus::Prepared(id),
            false,
            Seq::<ParticipantStatus>::empty(),
        ) || participant_drain(id, ParticipantStatus::Prepared(id), false, msgs, drops) == (
            ParticipantStatus::Commited(id),
            true,
            seq![ParticipantStatus::Commited(id)],
        ),
    decreases msgs.len(),
{
    if msgs.len() > 0 {
        if drops[0] {
            lemma_drain_commit_backlog(id, msgs.drop_first(), drops.drop_first());
        } else {
            assert(participant_step(id, ParticipantStatus::Prepared(id), false, msgs[0], drops[0])
                == (
                ParticipantStatus::Commited(id),
                true,
                Some(ParticipantStatus::Commited(id)),
            ));
            lemma_terminal_idempotence(
                id,
                ParticipantStatus::Commited(id),
                true,
                msgs.drop_first(),
                drops.drop_first(),
            );
            assert(seq![ParticipantStatus::Commited(id)] + Seq::<ParticipantStatus>::empty()
                =~= seq![ParticipantStatus::Commited(id)]);
        }
    }
}

/// Draining a backlog of commit commands followed by one rollback command
/// from `Commited` always ends in `Rollback` with the committed flag
/// cleared and no reply.
pub proof fn lemma_drain_rollback_from_commited(
    id: u8,
    msgs: Seq<ParticipantStatus>,
    drops: Seq<bool>,
)
    requires
        msgs.len() > 0,
        msgs.last() is Rollback,
        forall|k: int| 0 <= k < msgs.len() - 1 ==> (#[trigger] msgs[k]) is Commited,
    ensures
        participant_drain(id, ParticipantStatus::Commited(id), true, msgs, drops) == (
            ParticipantStatus::Rollback(id),
            false,
            Seq::<ParticipantStatus>::empty(),
        ),
    decreases msgs.len(),
{
    if msgs.len() == 1 {
        assert(participant_step(id, ParticipantStatus::Commited(id), true, msgs[0], drops[0]) == (
            ParticipantStatus::Rollback(id),
            false,
            Option::<ParticipantStatus>::None,
        ));
        assert(msgs.drop_first().len() == 0);
        assert(participant_drain(
            id,
            ParticipantStatus::Rollback(id),
            false,
            msgs.drop_first(),
            drops.drop_first(),
        ) == (ParticipantStatus::Rollback(id), false, Seq::<ParticipantStatus>::empty()));
    } else {
        assert(msgs[0] is Commited);
        assert(participant_step(id, ParticipantStatus::Commited(id), true, msgs[0], drops[0]) == (
            ParticipantStatus::Commited(id),
            true,
            Option::<ParticipantStatus>::None,
        ));
        assert(msgs.drop_first().last() == msgs.last());
        assert(forall|k: int| 0 <= k < msgs.drop_first().len() - 1 ==> (
        #[trigger] msgs.drop_first()[k]) is Commited);
        lemma_drain_rollback_from_commited(id, msgs.drop_first(), drops.drop_first());
    }
}

/// Draining a backlog of commit commands followed by one rollback command
/// from `Prepared` always ends in `Rollback`; at most one commit
/// acknowledgment escapes on the way.
pub proof fn lemma_drain_rollback_from_prepared(
    id: u8,
    msgs: Seq<ParticipantStatus>,
    drops: Seq<bool>,
)
    requires
        msgs.len() > 0,
        msgs.last() is Rollback,
        forall|k: int| 0 <= k < msgs.len() - 1 ==> (#[trigger] msgs[k]) is Commited,
    ensures
        participant_drain(id, ParticipantStatus::Prepared(id), false, msgs, drops) == (
            ParticipantStatus::Rollback(id),
            false,
            Seq::<ParticipantStatus>::empty(),
        ) || participant_drain(id, ParticipantStatus::Prepared(id), false, msgs, drops) == (
            ParticipantStatus::Rollback(id),
            false,
            seq![ParticipantStatus::Commited(id)],
        ),
    decreases msgs.len(),
{
    if msgs.len() == 1 {
        assert(participant_step(id, ParticipantStatus::Prepared(id), false, msgs[0], drops[0]) == (
            ParticipantStatus::Rollback(id),
            false,
            Option::<ParticipantStatus>::None,
        ));
        assert(msgs.drop_first().len() == 0);
        assert(participant_drain(
            id,
            ParticipantStatus::Rollback(id),
            false,
            msgs.drop_first(),
            drops.drop_first(),
        ) == (ParticipantStatus::Rollback(id), false, Seq::<ParticipantStatus>::empty()));
    } else {
        assert(msgs[0] is Commited);
        assert(msgs.drop_first().last() == msgs.last());
        assert(forall|k: int| 0 <= k < msgs.drop_first().len() - 1 ==> (
        #[trigger] msgs.drop_first()[k]) is Commited);
        if drops[0] {
            lemma_drain_rollback_from_prepared(id, msgs.drop_first(), drops.drop_first());
        } else {
            assert(participant_step(id, ParticipantStatus::Prepared(id), false, msgs[0], drops[0])
                == (
                ParticipantStatus::Commited(id),
                true,
                Some(ParticipantStatus::Commited(id)),
            ));
            lemma_drain_rollback_from_commited(id, msgs.drop_first(), drops.drop_first());
            assert(seq![ParticipantStatus::Commited(id)] + Seq::<ParticipantStatus>::empty()
                =~= seq![ParticipantStatus::Commited(id)]);
        }
    }
}

/// The deadline recorded when a transaction starts at `now` with the
/// given budget, saturating at the clock's maximum.
pub open spec fn spec_deadline(now: u128, timeout_millis: u128) -> u128 {
    if now + timeout_millis > u128::MAX {
        u128::MAX
    } else {
        (now + timeout_millis) as u128
    }
}

/// How one poll at clock value `now` relates the coordinator's state
/// before and after. Past the deadline the coordinator aborts: a timeout
/// while waiting for prepare votes broadcasts fail commands and lands in
/// `Failure`, one while waiting for commit acknowledgments broadcasts
/// rollback commands and lands in `Rollback`. Before the deadline an
/// empty mailbox changes nothing; otherwise exactly the front report is
/// consumed: a prepare vote advances to `WaitCommitted` and broadcasts
/// commit commands only if every participant currently reports
/// `Prepared`, and a commit acknowledgment reaches `Success` only if
/// every participant currently reports `Commited`.
pub open spec fn recv_rel(pre: Coordinator, post: Coordinator, now: u128) -> bool {
    &&& post.deadline == pre.deadline
    &&& post.timeout_millis == pre.timeout_millis
    &&& if now > pre.deadline {
        &&& mailbox_msgs(post.mailbox) == mailbox_msgs(pre.mailbox)
        &&& (pre.status is WaitPrepared ==> post.status is Failure && fail_broadcast(
            pre.participants@,
            post.participants@,
        ))
        &&& (pre.status is WaitCommitted ==> post.status is Rollback && rollback_broadcast(
            pre.participants@,
            post.participants@,
        ))
    } else if mailbox_msgs(pre.mailbox).len() == 0 {
        &&& post.status == pre.status
        &&& post.participants@ == pre.participants@
        &&& mailbox_msgs(post.mailbox) == mailbox_msgs(pre.mailbox)
    } else {
        &&& mailbox_msgs(post.mailbox) == mailbox_msgs(pre.mailbox).drop_first()
        &&& ({
            let msg = mailbox_msgs(pre.mailbox)[0];
            &&& (msg is Prepared ==> if all_prepared(pre.participants@) {
                post.status is WaitCommitted && commit_broadcast(
                    pre.participants@,
                    post.participants@,
                )
            } else {
                post.status == pre.status && post.participants@ == pre.participants@
            })
            &&& (msg is Commited ==> post.participants@ == pre.participants@ && if all_commited(
                pre.participants@,
            ) {
                post.status is Success
            } else {
                post.status == pre.status
            })
        })
    }
}

/// Law: the outcome is all-or-nothing. In any reachable state in which
/// the coordinator's status is terminal and every participant has drained
/// its mailbox, `Success` means every participant is `Commited` with its
/// committed flag set, `Failure` means every participant is `Failure`
/// with the flag cleared, and `Rollback` means every participant is
/// `Rollback` with the flag cleared — never a mixed set of terminal
/// participant statuses.
pub proof fn lemma_atomicity(c: Coordinator)
    requires
        c.inv(),
        c.status.spec_is_terminal(),
        forall|i: int| 0 <= i < c.n() ==> mailbox_msgs(
            (#[trigger] c.participants@[i]).mailbox,
        ).len() == 0,
    ensures
        c.status is Success ==> forall|i: int| 0 <= i < c.n() ==> (#[trigger] c.participants@[i]).status
            == ParticipantStatus::Commited(i as u8) && c.participants@[i].committed,
        c.status is Failure ==> forall|i: int| 0 <= i < c.n() ==> (#[trigger] c.participants@[i]).status
            == ParticipantStatus::Failure(i as u8) && !c.participants@[i].committed,
        c.status is Rollback ==> forall|i: int| 0 <= i < c.n() ==> (#[trigger] c.participants@[i]).status
            == ParticipantStatus::Rollback(i as u8) && !c.participants@[i].committed,
{
    assert forall|i: int| 0 <= i < c.n() implies {
        &&& c.status is Success ==> (#[trigger] c.participants@[i]).status
            == ParticipantStatus::Commited(i as u8) && c.participants@[i].committed
        &&& c.status is Failure ==> c.participants@[i].status == ParticipantStatus::Failure(
            i as u8,
        ) && !c.participants@[i].committed
        &&& c.status is Rollback ==> c.participants@[i].status == ParticipantStatus::Rollback(
            i as u8,
        ) && !c.participants@[i].committed
    } by {
        let p = c.participants@[i];
        assert(p.wf());
        assert(mailbox_msgs(p.mailbox).len() == 0);
        if c.status is Failure {
            assert(failure_phase_ok(p));
            assert(p.status is Failure);
        }
        if c.status is Rollback {
            assert(rollback_phase_ok(p));
            assert(p.status is Rollback);
        }
    }
}

/// Law: the quorum is unanimous. A single poll can declare `Success`
/// only when every participant already reports `Commited`, and can move
/// on to the commit phase only when every participant already reports
/// `Prepared` — one missing acknowledgment blocks progress and leaves the
/// timeout path as the only way out.
pub proof fn lemma_unanimous_decision(pre: Coordinator, post: Coordinator, now: u128)
    requires
        pre.inv(),
        pre.status is WaitPrepared || pre.status is WaitCommitted,
        recv_rel(pre, post, now),
    ensures
        post.status is Success ==> all_commited(pre.participants@),
        pre.status is WaitPrepared && post.status is WaitCommitted ==> all_prepared(
            pre.participants@,
        ),
{
    if now > pre.deadline {
    } else if mailbox_msgs(pre.mailbox).len() == 0 {
    } else {
        let msg = mailbox_msgs(pre.mailbox)[0];
        assert(msg is Prepared || msg is Commited);
    }
}

/// The coordinator actor, owning its participants, its own inbound
/// mailbox of participant reports, and the transaction deadline.
pub struct Coordinator {
    pub participants: Vec<Participant>,
    pub status: CoordinatorStatus,
    pub mailbox: Mailbox,
    pub deadline: u128,
    pub timeout_millis: u128,
}

impl Coordinator {
    /// The number of participants.
    pub open spec fn n(self) -> int {
        self.participants@.len() as int
    }

    /// The coordinator's mailbox only ever holds participant reports:
    /// prepare and commit acknowledgments. `Ready` mid-transaction is a
    /// protocol violation and aborts; `Failure` and `Rollback` reports
    /// are never produced by this model's participants.
    pub open spec fn replies_wf(self) -> bool {
        forall|k: int| 0 <= k < mailbox_msgs(self.mailbox).len() ==> ((#[trigger] mailbox_msgs(
            self.mailbox,
        )[k]) is Prepared || mailbox_msgs(self.mailbox)[k] is Commited)
    }

    /// What each participant may look like in the coordinator's current
    /// phase.
    pub open spec fn phase_ok(self) -> bool {
        match self.status {
            CoordinatorStatus::Ready => forall|i: int| 0 <= i < self.n()
                ==> (#[trigger] self.participants@[i]).status is Ready && mailbox_msgs(
                self.participants@[i].mailbox,
            ) == Seq::<ParticipantStatus>::empty(),
            CoordinatorStatus::WaitPrepared => forall|i: int| 0 <= i < self.n()
                ==> prepare_phase_ok(#[trigger] self.participants@[i]),
            CoordinatorStatus::WaitCommitted => forall|i: int| 0 <= i < self.n()
                ==> commit_phase_ok(#[trigger] self.participants@[i]),
            CoordinatorStatus::Success => forall|i: int| 0 <= i < self.n()
                ==> (#[trigger] self.participants@[i]).status is Commited && mailbox_msgs(
                self.participants@[i].mailbox,
            ) == Seq::<ParticipantStatus>::empty(),
            CoordinatorStatus::Failure => forall|i: int| 0 <= i < self.n()
                ==> failure_phase_ok(#[trigger] self.participants@[i]),
            CoordinatorStatus::Rollback => forall|i: int| 0 <= i < self.n()
                ==> rollback_phase_ok(#[trigger] self.participants@[i]),
        }
    }

    /// The protocol invariant: participants are well-formed and stored in
    /// id order, the coordinator's mailbox holds only participant
    /// reports, and every participant's state is consistent with the
    /// coordinator's phase.
    pub open spec fn inv(self) -> bool {
        &&& self.participants@.len() <= 255
        &&& forall|i: int| 0 <= i < self.n() ==> (#[trigger] self.participants@[i]).wf()
        &&& forall|i: int| 0 <= i < self.n() ==> (#[trigger] self.participants@[i]).id == i as u8
        &&& self.replies_wf()
        &&& self.phase_ok()
    }

    /// A fresh coordinator with `num_of_participants` fresh participants,
    /// each configured with the same fault injector, and a timeout budget
    /// in milliseconds.
    #[verifier::loop_isolation(false)]
    pub fn new(num_of_participants: u8, timeout_millis: u128, fault: FaultInjector) -> (c:
        Coordinator)
        requires
            fault.wf(),
        ensures
            c.inv(),
            c.status is Ready,
            c.participants@.len() == num_of_participants,
            c.timeout_millis == timeout_millis,
            mailbox_msgs(c.mailbox) == Seq::<ParticipantStatus>::empty(),
            forall|i: int| 0 <= i < c.n() ==> (#[trigger] c.participants@[i]).fault == fault,
    {
        let mut participants: Vec<Participant> = Vec::new();
        let mut id: u8 = 0;
        while id < num_of_participants
            invariant
                fault.wf(),
                id <= num_of_participants,
                participants@.len() == id as int,
                forall|i: int| 0 <= i < id as int ==> (#[trigger] participants@[i]).wf(),
                forall|i: int| 0 <= i < id as int ==> (#[trigger] participants@[i]).id == i as u8,
                forall|i: int| 0 <= i < id as int ==> (#[trigger] participants@[i]).status
                    == ParticipantStatus::Ready(i as u8),
                forall|i: int| 0 <= i < id as int ==> mailbox_msgs(
                    (#[trigger] participants@[i]).mailbox,
                ) == Seq::<ParticipantStatus>::empty(),
                forall|i: int| 0 <= i < id as int ==> (#[trigger] participants@[i]).fault == fault,
            decreases num_of_participants - id,
        {
            let p = Participant::new(id, fault);
            participants.push(p);
            id = id + 1;
        }
        Coordinator {
            participants,
            status: CoordinatorStatus::Ready,
            mailbox: Mailbox::new(),
            deadline: 0,
            timeout_millis,
        }
    }

    /// Whether the coordinator has reached a terminal status.
    pub fn transaction_end(&self) -> (r: bool)
        ensures
            r == self.status.spec_is_terminal(),
    {
        match self.status {
            CoordinatorStatus::Failure => true,
            CoordinatorStatus::Success => true,
            CoordinatorStatus::Rollback => true,
            _ => false,
        }
    }

    /// Enqueues one participant report into the coordinator's mailbox —
    /// the path a participant's reply takes through its back-reference.
    /// Participants only ever report `Prepared` or `Commited`.
    pub fn async_send(&mut self, msg: ParticipantStatus)
        requires
            msg is Prepared || msg is Commited,
        ensures
            *final(self) == (Coordinator { mailbox: final(self).mailbox, ..*old(self) }),
            mailbox_msgs(final(self).mailbox) == mailbox_msgs(old(self).mailbox).push(msg),
            old(self).inv() ==> final(self).inv(),
    {
        self.mailbox.push(msg);
    }

    /// Starts the transaction at clock value `now`: sends a prepare
    /// command into every participant's mailbox, moves to `WaitPrepared`
    /// and records the deadline.
    #[verifier::loop_isolation(false)]
    pub fn start_transaction_at(&mut self, now: u128)
        requires
            old(self).inv(),
            old(self).status is Ready,
        ensures
            final(self).inv(),
            final(self).status is WaitPrepared,
            final(self).timeout_millis == old(self).timeout_millis,
            final(self).mailbox == old(self).mailbox,
            final(self).deadline == spec_deadline(now, old(self).timeout_millis),
            prepare_broadcast(old(self).participants@, final(self).participants@),
    {
        self.status = CoordinatorStatus::WaitPrepared;
        self.deadline = if now > u128::MAX - self.timeout_millis {
            u128::MAX
        } else {
            now + self.timeout_millis
        };
        let mut i: usize = 0;
        while i < self.participants.len()
            invariant
                i <= self.participants@.len(),
                self.status is WaitPrepared,
                self.deadline == spec_deadline(now, old(self).timeout_millis),
                self.timeout_millis == old(self).timeout_millis,
                self.mailbox == old(self).mailbox,
                self.participants@.len() == old(self).participants@.len(),
                forall|j: int| 0 <= j < i as int ==> pushed_cmd(
                    old(self).participants@[j],
                    #[trigger] self.participants@[j],
                    ParticipantStatus::Prepared(old(self).participants@[j].id),
                ),
                forall|j: int| i as int <= j < self.participants@.len()
                    ==> self.participants@[j] == old(self).participants@[j],
            decreases self.participants@.len() - i as int,
        {
            let p = &mut self.participants[i];
            p.prepare();
            i = i + 1;
        }
        proof {
            assert forall|j: int| 0 <= j < self.n() implies prepare_phase_ok(
                #[trigger] self.participants@[j],
            ) by {
                assert(mailbox_msgs(old(self).participants@[j].mailbox).push(
                    ParticipantStatus::Prepared(old(self).participants@[j].id),
                ) =~= seq![ParticipantStatus::Prepared(self.participants@[j].id)]);
            }
        }
    }

    /// Handles an elapsed deadline: giving up during the prepare phase
    /// fails the transaction, giving up during the commit phase rolls it
    /// back. Any other status has no business reaching a timeout.
    fn handle_timeout(&mut self)
        requires
            old(self).inv(),
            old(self).status is WaitPrepared || old(self).status is WaitCommitted,
        ensures
            final(self).inv(),
            final(self).mailbox == old(self).mailbox,
            final(self).deadline == old(self).deadline,
            final(self).timeout_millis == old(self).timeout_millis,
            final(self).status.spec_is_terminal(),
            old(self).status is WaitPrepared ==> final(self).status is Failure && fail_broadcast(
                old(self).participants@,
                final(self).participants@,
            ),
            old(self).status is WaitCommitted ==> final(self).status is Rollback
                && rollback_broadcast(old(self).participants@, final(self).participants@),
    {
        match self.status {
            CoordinatorStatus::WaitPrepared => {
                self.handle_participant_failure();
            }
            CoordinatorStatus::WaitCommitted => {
                self.handle_timeout_committed();
                self.status = CoordinatorStatus::Rollback;
                proof {
                    assert forall|j: int| 0 <= j < self.n() implies rollback_phase_ok(
                        #[trigger] self.participants@[j],
                    ) by {
                        let pre = old(self).participants@[j];
                        let msgs = mailbox_msgs(pre.mailbox);
                        let cmd = ParticipantStatus::Rollback(pre.id);
                        if pre.status is Commited {
                            assert(msgs.push(cmd) =~= seq![cmd]);
                        } else {
                            assert(msgs.push(cmd).drop_last() =~= msgs);
                        }
                    }
                }
            }
            _ => vstd::pervasive::unreached(),
        }
    }

    /// Fails the transaction: broadcasts a fail command to every
    /// participant and marks the coordinator `Failure`. This is both the
    /// prepare-phase timeout path and the reaction to a reported
    /// participant failure.
    fn handle_participant_failure(&mut self)
        requires
            old(self).inv(),
            old(self).status is WaitPrepared,
        ensures
            final(self).inv(),
            final(self).mailbox == old(self).mailbox,
            final(self).deadline == old(self).deadline,
            final(self).timeout_millis == old(self).timeout_millis,
            final(self).status is Failure,
            fail_broadcast(old(self).participants@, final(self).participants@),
    {
        self.handle_timeout_prepared();
        self.status = CoordinatorStatus::Failure;
        proof {
            assert forall|j: int| 0 <= j < self.n() implies failure_phase_ok(
                #[trigger] self.participants@[j],
            ) by {
                let pre = old(self).participants@[j];
                let msgs = mailbox_msgs(pre.mailbox);
                let cmd = ParticipantStatus::Failure(pre.id);
                if msgs.len() == 0 {
                    assert(msgs.push(cmd) =~= seq![cmd]);
                } else {
                    assert(msgs.push(cmd) =~= seq![ParticipantStatus::Prepared(pre.id), cmd]);
                }
            }
        }
    }

    /// Broadcasts a rollback command to every participant, leaving the
    /// coordinator's own status alone — the reaction to a reported
    /// rollback, which this model's participants never send.
    fn rollback(&mut self)
        ensures
            *final(self) == (Coordinator {
                participants: final(self).participants,
                ..*old(self)
            }),
            rollback_broadcast(old(self).participants@, final(self).participants@),
    {
        self.handle_timeout_committed();
    }

    /// Scans all participants and declares `Success` only if every single
    /// one currently reports `Commited` — the unanimity rule.
    #[verifier::loop_isolation(false)]
    fn try_success(&mut self)
        requires
            old(self).inv(),
            old(self).status is WaitPrepared || old(self).status is WaitCommitted,
        ensures
            final(self).inv(),
            *final(self) == (Coordinator { status: final(self).status, ..*old(self) }),
            all_commited(old(self).participants@) ==> final(self).status is Success,
            !all_commited(old(self).participants@) ==> final(self).status == old(self).status,
    {
        let mut i: usize = 0;
        while i < self.participants.len()
            invariant
                i <= self.participants@.len(),
                *self == *old(self),
                forall|j: int| 0 <= j < i as int ==> (#[trigger] self.participants@[j].status)
                    is Commited,
            decreases self.participants@.len() - i as int,
        {
            let done = match self.participants[i].status {
                ParticipantStatus::Commited(_) => true,
                _ => false,
            };
            if !done {
                return ;
            }
            i = i + 1;
        }
        self.status = CoordinatorStatus::Success;
        proof {
            assert forall|j: int| 0 <= j < self.n() implies (#[trigger] self.participants@[j])
                .status is Commited && mailbox_msgs(self.participants@[j].mailbox) == Seq::<
                ParticipantStatus,
            >::empty() by {
                assert(commit_phase_ok(old(self).participants@[j]) || prepare_phase_ok(
                    old(self).participants@[j],
                ));
            }
        }
    }

    /// Scans all participants; only if every single one currently reports
    /// `Prepared` does the coordinator advance — it broadcasts a commit
    /// command to all and moves to `WaitCommitted`. The scan re-runs on
    /// every prepare vote received, so the broadcast may repeat while the
    /// acknowledgments are still outstanding.
    #[verifier::loop_isolation(false)]
    fn commit_all(&mut self)
        requires
            old(self).inv(),
            old(self).status is WaitPrepared || old(self).status is WaitCommitted,
        ensures
            final(self).inv(),
            final(self).mailbox == old(self).mailbox,
            final(self).deadline == old(self).deadline,
            final(self).timeout_millis == old(self).timeout_millis,
            all_prepared(old(self).participants@) ==> final(self).status is WaitCommitted
                && commit_broadcast(old(self).participants@, final(self).participants@),
            !all_prepared(old(self).participants@) ==> *final(self) == *old(self),
    {
        let mut i: usize = 0;
        while i < self.participants.len()
            invariant
                i <= self.participants@.len(),
                *self == *old(self),
                forall|j: int| 0 <= j < i as int ==> (#[trigger] self.participants@[j].status)
                    is Prepared,
            decreases self.participants@.len() - i as int,
        {
            let voted = match self.participants[i].status {
                ParticipantStatus::Prepared(_) => true,
                _ => false,
            };
            if !voted {
                return ;
            }
            i = i + 1;
        }
        self.status = CoordinatorStatus::WaitCommitted;
        let mut i: usize = 0;
        while i < self.participants.len()
            invariant
                i <= self.participants@.len(),
                *self == (Coordinator {
                    participants: self.participants,
                    status: self.status,
                    ..*old(self)
                }),
                self.status is WaitCommitted,
                self.participants@.len() == old(self).participants@.len(),
                forall|j: int| 0 <= j < i as int ==> pushed_cmd(
                    old(self).participants@[j],
                    #[trigger] self.participants@[j],
                    ParticipantStatus::Commited(old(self).participants@[j].id),
                ),
                forall|j: int| i as int <= j < self.participants@.len()
                    ==> self.participants@[j] == old(self).participants@[j],
            decreases self.participants@.len() - i as int,
        {
            let p = &mut self.participants[i];
            p.commit();
            i = i + 1;
        }
        proof {
            assert forall|j: int| 0 <= j < self.n() implies commit_phase_ok(
                #[trigger] self.participants@[j],
            ) by {
                let pre = old(self).participants@[j];
                let msgs = mailbox_msgs(pre.mailbox);
                let cmd = ParticipantStatus::Commited(pre.id);
                assert(prepare_phase_ok(pre) || commit_phase_ok(pre));
                assert(pre.status is Prepared);
                assert(all_commit_cmds(msgs, pre.id));
                assert(all_commit_cmds(msgs.push(cmd), pre.id));
            }
        }
    }

    /// Dispatches one received participant report. `Ready` is a protocol
    /// violation and cannot be queued; a failure or rollback report would
    /// abort or roll back the transaction, but this model's participants
    /// never send one.
    fn handle_recv(&mut self, status: ParticipantStatus)
        requires
            old(self).inv(),
            old(self).status is WaitPrepared || old(self).status is WaitCommitted,
            status is Prepared || status is Commited,
        ensures
            final(self).inv(),
            final(self).mailbox == old(self).mailbox,
            final(self).deadline == old(self).deadline,
            final(self).timeout_millis == old(self).timeout_millis,
            status is Prepared ==> if all_prepared(old(self).participants@) {
                final(self).status is WaitCommitted && commit_broadcast(
                    old(self).participants@,
                    final(self).participants@,
                )
            } else {
                *final(self) == *old(self)
            },
            status is Commited ==> final(self).participants@ == old(self).participants@
                && if all_commited(old(self).participants@) {
                final(self).status is Success
            } else {
                final(self).status == old(self).status
            },
    {
        match status {
            ParticipantStatus::Ready(_) => vstd::pervasive::unreached(),
            ParticipantStatus::Failure(_) => self.handle_participant_failure(),
            ParticipantStatus::Prepared(_) => self.commit_all(),
            ParticipantStatus::Commited(_) => self.try_success(),
            ParticipantStatus::Rollback(_) => self.rollback(),
        }
    }

    /// Lets participant `i` drain its mailbox — one scheduler tick for
    /// that actor — and delivers its replies into the coordinator's own
    /// mailbox, in order. The driver never touches the participant
    /// directly; this is its sole way of letting the actor run.
    #[verifier::loop_isolation(false)]
    pub fn drain_participant(&mut self, i: usize)
        requires
            old(self).inv(),
            i < old(self).participants@.len(),
        ensures
            final(self).inv(),
            final(self).status == old(self).status,
            final(self).deadline == old(self).deadline,
            final(self).timeout_millis == old(self).timeout_millis,
            final(self).participants@.len() == old(self).participants@.len(),
            forall|j: int| 0 <= j < old(self).participants@.len() && j != i as int
                ==> final(self).participants@[j] == old(self).participants@[j],
            mailbox_msgs(final(self).participants@[i as int].mailbox).len() == 0,
            exists|replies: Seq<ParticipantStatus>| #[trigger] participant_recv_rel(
                old(self).participants@[i as int],
                final(self).participants@[i as int],
                replies,
            ) && mailbox_msgs(final(self).mailbox) == mailbox_msgs(old(self).mailbox) + replies,
    {
        let ghost pre = *old(self);
        let ghost pre_p = old(self).participants@[i as int];
        let p = &mut self.participants[i];
        let replies = p.participant_recv();
        let ghost post_p = self.participants@[i as int];
        let mut k: usize = 0;
        while k < replies.len()
            invariant
                k <= replies@.len(),
                self.status == pre.status,
                self.deadline == pre.deadline,
                self.timeout_millis == pre.timeout_millis,
                self.participants@ == pre.participants@.update(i as int, post_p),
                mailbox_msgs(self.mailbox) == mailbox_msgs(pre.mailbox) + replies@.take(k as int),
            decreases replies@.len() - k as int,
        {
            let msg = replies[k];
            self.mailbox.push(msg);
            proof {
                assert((mailbox_msgs(pre.mailbox) + replies@.take(k as int)).push(
                    replies@[k as int],
                ) =~= mailbox_msgs(pre.mailbox) + replies@.take(k as int + 1));
            }
            k = k + 1;
        }
        proof {
            assert(replies@.take(replies@.len() as int) =~= replies@);
            let rs = replies@;
            let msgs = mailbox_msgs(pre_p.mailbox);
            let ds = choose|ds: Seq<bool>|
                {
                    &&& ds.len() == mailbox_msgs(pre_p.mailbox).len()
                    &&& drops_wf(pre_p.fault, ds)
                    &&& (#[trigger] participant_drain(
                        pre_p.id,
                        pre_p.status,
                        pre_p.committed,
                        mailbox_msgs(pre_p.mailbox),
                        ds,
                    )) == (post_p.status, post_p.committed, rs)
                };
            lemma_drain_replies_kinds(pre_p.id, pre_p.status, pre_p.committed, msgs, ds);
            assert forall|k2: int| 0 <= k2 < mailbox_msgs(self.mailbox).len() implies ((
            #[trigger] mailbox_msgs(self.mailbox)[k2]) is Prepared || mailbox_msgs(
                self.mailbox,
            )[k2] is Commited) by {
                if k2 < mailbox_msgs(pre.mailbox).len() {
                    assert(mailbox_msgs(self.mailbox)[k2] == mailbox_msgs(pre.mailbox)[k2]);
                } else {
                    assert(mailbox_msgs(self.mailbox)[k2] == rs[k2 - mailbox_msgs(
                        pre.mailbox,
                    ).len()]);
                }
            }
            assert(mailbox_msgs(post_p.mailbox) =~= Seq::<ParticipantStatus>::empty());
            let id = pre_p.id;
            match pre.status {
                CoordinatorStatus::Ready | CoordinatorStatus::Success => {
                    assert(msgs.len() == 0);
                    assert(participant_drain(id, pre_p.status, pre_p.committed, msgs, ds) == (
                        pre_p.status,
                        pre_p.committed,
                        Seq::<ParticipantStatus>::empty(),
                    ));
                }
                CoordinatorStatus::WaitPrepared => {
                    assert(prepare_phase_ok(pre_p));
                    if pre_p.status is Ready && msgs == seq![ParticipantStatus::Prepared(id)] {
                        lemma_drain_one(id, pre_p.status, pre_p.committed, msgs[0], ds);
                        assert(prepare_phase_ok(post_p));
                    } else {
                        assert(msgs.len() == 0);
                        assert(participant_drain(id, pre_p.status, pre_p.committed, msgs, ds) == (
                            pre_p.status,
                            pre_p.committed,
                            Seq::<ParticipantStatus>::empty(),
                        ));
                        assert(prepare_phase_ok(post_p));
                    }
                }
                CoordinatorStatus::WaitCommitted => {
                    assert(commit_phase_ok(pre_p));
                    if pre_p.status is Prepared {
                        assert(pre_p.status == ParticipantStatus::Prepared(id));
                        assert(!pre_p.committed);
                        assert(forall|k2: int| 0 <= k2 < msgs.len() ==> (#[trigger] msgs[k2])
                            is Commited);
                        lemma_drain_commit_backlog(id, msgs, ds);
                        assert(commit_phase_ok(post_p));
                    } else {
                        assert(msgs.len() == 0);
                        assert(participant_drain(id, pre_p.status, pre_p.committed, msgs, ds) == (
                            pre_p.status,
                            pre_p.committed,
                            Seq::<ParticipantStatus>::empty(),
                        ));
                        assert(commit_phase_ok(post_p));
                    }
                }
                CoordinatorStatus::Failure => {
                    assert(failure_phase_ok(pre_p));
                    if pre_p.status is Failure {
                        assert(msgs.len() == 0);
                        assert(participant_drain(id, pre_p.status, pre_p.committed, msgs, ds) == (
                            pre_p.status,
                            pre_p.committed,
                            Seq::<ParticipantStatus>::empty(),
                        ));
                        assert(failure_phase_ok(post_p));
                    } else if msgs == seq![ParticipantStatus::Failure(id)] {
                        lemma_drain_one(id, pre_p.status, pre_p.committed, msgs[0], ds);
                        assert(failure_phase_ok(post_p));
                    } else {
                        assert(msgs == seq![
                            ParticipantStatus::Prepared(id),
                            ParticipantStatus::Failure(id),
                        ]);
                        lemma_drain_two(id, pre_p.status, pre_p.committed, msgs[0], msgs[1], ds);
                        assert(failure_phase_ok(post_p));
                    }
                }
                CoordinatorStatus::Rollback => {
                    assert(rollback_phase_ok(pre_p));
                    if pre_p.status is Rollback {
                        assert(msgs.len() == 0);
                        assert(participant_drain(id, pre_p.status, pre_p.committed, msgs, ds) == (
                            pre_p.status,
                            pre_p.committed,
                            Seq::<ParticipantStatus>::empty(),
                        ));
                        assert(rollback_phase_ok(post_p));
                    } else if pre_p.status is Prepared {
                        assert(pre_p.status == ParticipantStatus::Prepared(id));
                        assert forall|k2: int| 0 <= k2 < msgs.len() - 1 implies (#[trigger] msgs[k2])
                            is Commited by {
                            assert(msgs.drop_last()[k2] == msgs[k2]);
                        }
                        lemma_drain_rollback_from_prepared(id, msgs, ds);
                        assert(rollback_phase_ok(post_p));
                    } else {
                        assert(pre_p.status == ParticipantStatus::Commited(id));
                        assert(msgs == seq![ParticipantStatus::Rollback(id)]);
                        lemma_drain_rollback_from_commited(id, msgs, ds);
                        assert(rollback_phase_ok(post_p));
                    }
                }
            }
        }
    }

    /// Lets every participant drain its mailbox once, in id order — one
    /// full scheduler round over the participants.
    #[verifier::loop_isolation(false)]
    pub fn drain_participants(&mut self)
        requires
            old(self).inv(),
        ensures
            final(self).inv(),
            final(self).status == old(self).status,
            final(self).deadline == old(self).deadline,
            final(self).timeout_millis == old(self).timeout_millis,
            final(self).participants@.len() == old(self).participants@.len(),
            forall|i: int| 0 <= i < final(self).participants@.len() ==> mailbox_msgs(
                (#[trigger] final(self).participants@[i]).mailbox,
            ).len() == 0,
    {
        let mut i: usize = 0;
        while i < self.participants.len()
            invariant
                i <= self.participants@.len(),
                self.inv(),
                self.status == old(self).status,
                self.deadline == old(self).deadline,
                self.timeout_millis == old(self).timeout_millis,
                self.participants@.len() == old(self).participants@.len(),
                forall|j: int| 0 <= j < i as int ==> mailbox_msgs(
                    (#[trigger] self.participants@[j]).mailbox,
                ).len() == 0,
            decreases self.participants@.len() - i as int,
        {
            self.drain_participant(i);
            i = i + 1;
        }
    }

    /// Starts the transaction against the wall clock: reads the current
    /// time and defers to [`Self::start_transaction_at`].
    pub fn start_transaction(&mut self)
        requires
            old(self).inv(),
            old(self).status is Ready,
        ensures
            final(self).inv(),
            final(self).status is WaitPrepared,
            final(self).timeout_millis == old(self).timeout_millis,
            final(self).mailbox == old(self).mailbox,
            prepare_broadcast(old(self).participants@, final(self).participants@),
    {
        let now = Util::now();
        self.start_transaction_at(now);
    }

    /// One poll against the wall clock: reads the current time and defers
    /// to [`Self::recv_at`]. The clock value is out of the caller's
    /// hands, so the contract only promises the poll relation for some
    /// clock reading.
    pub fn recv(&mut self)
        requires
            old(self).inv(),
            old(self).status is WaitPrepared || old(self).status is WaitCommitted,
        ensures
            final(self).inv(),
            exists|now: u128| #[trigger] recv_rel(*old(self), *final(self), now),
    {
        let now = Util::now();
        self.recv_at(now);
    }

    /// One poll of the coordinator at clock value `now`. Past the
    /// deadline it aborts the transaction; otherwise it consumes at most
    /// one queued participant report. An empty mailbox is a normal
    /// outcome, not an error.
    pub fn recv_at(&mut self, now: u128)
        requires
            old(self).inv(),
            old(self).status is WaitPrepared || old(self).status is WaitCommitted,
        ensures
            final(self).inv(),
            recv_rel(*old(self), *final(self), now),
            now > old(self).deadline ==> final(self).status.spec_is_terminal(),
    {
        if now > self.deadline {
            self.handle_timeout();
        } else {
            let received = self.mailbox.try_recv();
            match received {
                Some(msg) => {
                    proof {
                        assert(msg == mailbox_msgs(old(self).mailbox)[0]);
                        assert(msg is Prepared || msg is Commited);
                        assert forall|k: int| 0 <= k < mailbox_msgs(self.mailbox).len() implies ((
                        #[trigger] mailbox_msgs(self.mailbox)[k]) is Prepared || mailbox_msgs(
                            self.mailbox,
                        )[k] is Commited) by {
                            assert(mailbox_msgs(self.mailbox)[k] == mailbox_msgs(
                                old(self).mailbox,
                            )[k + 1]);
                        }
                    }
                    self.handle_recv(msg);
                }
                None => {}
            }
        }
    }
    /// Sends a fail command to every participant: the abort of the
    /// prepare phase.
    #[verifier::loop_isolation(false)]
    fn handle_timeout_prepared(&mut self)
        ensures
            *final(self) == (Coordinator {
                participants: final(self).participants,
                ..*old(self)
            }),
            fail_broadcast(old(self).participants@, final(self).participants@),
    {
        let mut i: usize = 0;
        while i < self.participants.len()
            invariant
                i <= self.participants@.len(),
                *self == (Coordinator { participants: self.participants, ..*old(self) }),
                self.participants@.len() == old(self).participants@.len(),
                forall|j: int| 0 <= j < i as int ==> pushed_cmd(
                    old(self).participants@[j],
                    #[trigger] self.participants@[j],
                    ParticipantStatus::Failure(old(self).participants@[j].id),
                ),
                forall|j: int| i as int <= j < self.participants@.len()
                    ==> self.participants@[j] == old(self).participants@[j],
            decreases self.participants@.len() - i as int,
        {
            let p = &mut self.participants[i];
            p.fail();
            i = i + 1;
        }
    }

    /// Sends a rollback command to every participant: the abort of the
    /// commit phase.
    #[verifier::loop_isolation(false)]
    fn handle_timeout_committed(&mut self)
        ensures
            *final(self) == (Coordinator {
                participants: final(self).participants,
                ..*old(self)
            }),
            rollback_broadcast(old(self).participants@, final(self).participants@),
    {
        let mut i: usize = 0;
        while i < self.participants.len()
            invariant
                i <= self.participants@.len(),
                *self == (Coordinator { participants: self.participants, ..*old(self) }),
                self.participants@.len() == old(self).participants@.len(),
                forall|j: int| 0 <= j < i as int ==> pushed_cmd(
                    old(self).participants@[j],
                    #[trigger] self.participants@[j],
                    ParticipantStatus::Rollback(old(self).participants@[j].id),
                ),
                forall|j: int| i as int <= j < self.participants@.len()
                    ==> self.participants@[j] == old(self).participants@[j],
            decreases self.participants@.len() - i as int,
        {
            let p = &mut self.participants[i];
            p.rollback();
            i = i + 1;
        }
    }
}

/// The clock helpers of the simulation.
pub struct Util {}

impl Util {
    /// The fixed timeout budget, in milliseconds, that [`Util::timeout`]
    /// measures against.
    pub const MILLISECONDS_FIVE_SEC: u128 = 1000;

    /// Relies on std::time::SystemTime: `now`, taken as the milliseconds
    /// since the Unix epoch (`duration_since(UNIX_EPOCH)` rendered with
    /// `as_millis`; a clock before the epoch reads as zero). Nothing can
    /// be promised of the wall clock's value.
    #[verifier::external_body]
    pub fn now() -> (t: u128) {
        match SystemTime::now().duration_since(UNIX_EPOCH) {
            Ok(elapsed) => elapsed.as_millis(),
            Err(_) => 0,
        }
    }

    /// Whether more than the fixed budget has passed on the wall clock
    /// since `timestamp`. The clock's reading cannot be pinned down, so
    /// neither can the result; the deadline comparison itself is
    /// [`Util::deadline_passed`].
    pub fn timeout(timestamp: u128) -> (r: bool) {
        let now = Util::now();
        Util::deadline_passed(now, timestamp, Util::MILLISECONDS_FIVE_SEC)
    }

    /// Whether clock value `now` lies more than `budget` past
    /// `timestamp`.
    pub fn deadline_passed(now: u128, timestamp: u128, budget: u128) -> (r: bool)
        ensures
            r == (now > timestamp + budget),
    {
        now > timestamp && now - timestamp > budget
    }
}

} // verus!

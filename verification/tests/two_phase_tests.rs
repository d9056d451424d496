use two_phase_commit::coordinator::{Coordinator, Util};
use two_phase_commit::fault::FaultInjector;
use two_phase_commit::mailbox::Mailbox;
use two_phase_commit::participant::Participant;
use two_phase_commit::status::{CoordinatorStatus, ParticipantStatus};

/// Runs one full randomized transaction on a synthetic clock and checks
/// the all-or-nothing outcome.
fn random_trial() {
    let mut coordinator = Coordinator::new(10, 50, FaultInjector::new(2, 10));
    coordinator.start_transaction_at(0);
    let mut now: u128 = 0;
    let mut ticks: u32 = 0;
    while !coordinator.transaction_end() {
        coordinator.drain_participants();
        coordinator.recv_at(now);
        now += 1;
        ticks += 1;
        assert!(ticks < 10_000, "driver did not reach a terminal status");
    }
    loop {
        coordinator.drain_participants();
        let mut end = true;
        for p in &coordinator.participants {
            if !p.transaction_end() {
                end = false;
            }
        }
        if end {
            break;
        }
        ticks += 1;
        assert!(ticks < 10_000, "participants did not reach terminal statuses");
    }
    assert_result(&coordinator);
}

fn assert_result(coordinator: &Coordinator) {
    match coordinator.status {
        CoordinatorStatus::Failure => assert_fail(coordinator),
        CoordinatorStatus::Success => assert_success(coordinator),
        CoordinatorStatus::Rollback => assert_rollback(coordinator),
        _ => {
            panic!("expected a terminal status");
        }
    }
}

fn assert_success(coordinator: &Coordinator) {
    assert!(matches!(coordinator.status, CoordinatorStatus::Success));
    for participant in &coordinator.participants {
        let id = participant.id;
        assert_eq!(participant.status, ParticipantStatus::Commited(id));
        assert!(participant.committed);
    }
}

fn assert_fail(coordinator: &Coordinator) {
    assert!(matches!(coordinator.status, CoordinatorStatus::Failure));
    for participant in &coordinator.participants {
        let id = participant.id;
        assert_eq!(participant.status, ParticipantStatus::Failure(id));
        assert!(!participant.committed);
    }
}

fn assert_rollback(coordinator: &Coordinator) {
    assert!(matches!(coordinator.status, CoordinatorStatus::Rollback));
    for participant in &coordinator.participants {
        let id = participant.id;
        assert_eq!(participant.status, ParticipantStatus::Rollback(id));
        assert!(!participant.committed);
    }
}

#[test]
fn batch_random_test() {
    for _ in 0..1000 {
        random_trial();
    }
}

#[test]
fn scenario_all_commit() {
    let mut c = Coordinator::new(10, 50, FaultInjector::reliable());
    c.start_transaction_at(0);
    let mut rounds: u32 = 0;
    while !c.transaction_end() {
        c.drain_participants();
        c.recv_at(1);
        rounds += 1;
        assert!(rounds < 100);
    }
    c.drain_participants();
    assert_success(&c);
}

#[test]
fn scenario_prepare_drop_failure() {
    let mut c = Coordinator::new(10, 50, FaultInjector::reliable());
    c.participants[3].fault = FaultInjector::new(1, 1);
    c.start_transaction_at(0);
    c.drain_participants();
    // participant 3's prepare reply is dropped: it never reports Prepared
    assert_eq!(c.participants[3].status, ParticipantStatus::Ready(3));
    // the other nine votes never make the quorum unanimous
    for _ in 0..20 {
        c.recv_at(1);
    }
    assert!(matches!(c.status, CoordinatorStatus::WaitPrepared));
    assert_eq!(c.participants[3].status, ParticipantStatus::Ready(3));
    // past the deadline the coordinator gives up and fails everyone
    c.recv_at(51);
    assert!(matches!(c.status, CoordinatorStatus::Failure));
    c.drain_participants();
    assert_fail(&c);
}

#[test]
fn scenario_commit_drop_rollback() {
    let mut c = Coordinator::new(10, 50, FaultInjector::reliable());
    c.start_transaction_at(0);
    c.drain_participants();
    c.recv_at(1);
    // all ten prepared, so the first vote triggers the commit broadcast
    assert!(matches!(c.status, CoordinatorStatus::WaitCommitted));
    // participant 7's commit acknowledgment is dropped
    c.participants[7].fault = FaultInjector::new(1, 1);
    c.drain_participants();
    assert_eq!(c.participants[7].status, ParticipantStatus::Prepared(7));
    for _ in 0..40 {
        c.recv_at(1);
    }
    assert!(matches!(c.status, CoordinatorStatus::WaitCommitted));
    // past the deadline the coordinator rolls everyone back, including
    // the nine participants that had already committed locally
    c.recv_at(51);
    assert!(matches!(c.status, CoordinatorStatus::Rollback));
    c.drain_participants();
    assert_rollback(&c);
}

#[test]
fn scenario_no_participants_times_out() {
    let mut c = Coordinator::new(0, 50, FaultInjector::reliable());
    c.start_transaction_at(0);
    c.recv_at(1);
    assert!(matches!(c.status, CoordinatorStatus::WaitPrepared));
    c.recv_at(51);
    assert!(matches!(c.status, CoordinatorStatus::Failure));
}

#[test]
fn fifo_per_pair() {
    let mut mailbox = Mailbox::new();
    assert_eq!(mailbox.try_recv(), None);
    mailbox.push(ParticipantStatus::Prepared(1));
    mailbox.push(ParticipantStatus::Commited(2));
    mailbox.push(ParticipantStatus::Failure(3));
    mailbox.push(ParticipantStatus::Rollback(4));
    assert_eq!(mailbox.try_recv(), Some(ParticipantStatus::Prepared(1)));
    assert_eq!(mailbox.try_recv(), Some(ParticipantStatus::Commited(2)));
    assert_eq!(mailbox.try_recv(), Some(ParticipantStatus::Failure(3)));
    assert_eq!(mailbox.try_recv(), Some(ParticipantStatus::Rollback(4)));
    assert_eq!(mailbox.try_recv(), None);
}

#[test]
fn fifo_through_async_send() {
    let mut c = Coordinator::new(2, 50, FaultInjector::reliable());
    c.start_transaction_at(0);
    // a queued stale vote is consumed strictly before a later one
    c.async_send(ParticipantStatus::Commited(0));
    c.async_send(ParticipantStatus::Prepared(1));
    c.recv_at(1);
    // the stale commit acknowledgment finds no unanimous committed set
    assert!(matches!(c.status, CoordinatorStatus::WaitPrepared));
}

#[test]
fn terminal_failure_ignores_later_commands() {
    let mut p = Participant::new(5, FaultInjector::reliable());
    p.fail();
    let replies = p.participant_recv();
    assert!(replies.is_empty());
    assert_eq!(p.status, ParticipantStatus::Failure(5));

    p.prepare();
    p.commit();
    p.rollback();
    let replies = p.participant_recv();
    assert!(replies.is_empty());
    assert_eq!(p.status, ParticipantStatus::Failure(5));
    assert!(!p.committed);
}

#[test]
fn terminal_commited_ignores_all_but_rollback() {
    let mut p = Participant::new(2, FaultInjector::reliable());
    p.prepare();
    let replies = p.participant_recv();
    assert_eq!(replies, vec![ParticipantStatus::Prepared(2)]);
    p.commit();
    let replies = p.participant_recv();
    assert_eq!(replies, vec![ParticipantStatus::Commited(2)]);
    assert!(p.committed);

    // further prepare, commit and fail commands change nothing
    p.prepare();
    p.commit();
    p.fail();
    let replies = p.participant_recv();
    assert!(replies.is_empty());
    assert_eq!(p.status, ParticipantStatus::Commited(2));
    assert!(p.committed);

    // the coordinator's rollback decision overrides a local commit
    p.rollback();
    let replies = p.participant_recv();
    assert!(replies.is_empty());
    assert_eq!(p.status, ParticipantStatus::Rollback(2));
    assert!(!p.committed);
}

#[test]
fn fault_injector_edges() {
    let never = FaultInjector::new(0, 10);
    let always = FaultInjector::new(10, 10);
    for _ in 0..100 {
        assert!(!never.should_drop());
        assert!(always.should_drop());
    }
}

#[test]
fn deadline_bookkeeping() {
    let mut c = Coordinator::new(1, 50, FaultInjector::reliable());
    c.start_transaction_at(5);
    assert_eq!(c.deadline, 55);
    assert_eq!(c.timeout_millis, 50);

    assert!(Util::timeout(0));
    assert!(!Util::timeout(u128::MAX));
    assert!(Util::now() > 0);
}

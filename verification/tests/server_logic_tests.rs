use asna::ingress::{route_message, AcceptBackoff, AcceptStep, Route};
use asna::message::{Message, SubmitJob, SubmitJobKind};
use asna::worker_pool::{BridgeAction, BridgeEvent, JobQueue, WorkerStep};
use asna::DEFAULT_PORT;

#[test]
fn default_port() {
    assert_eq!(DEFAULT_PORT, 8888);
}

#[test]
fn accept_backoff_doubles_then_gives_up() {
    let mut b = AcceptBackoff::new();
    let mut sleeps = Vec::new();
    loop {
        match b.on_accept_error() {
            AcceptStep::Retry { sleep_secs } => sleeps.push(sleep_secs),
            AcceptStep::GiveUp => break,
        }
    }
    assert_eq!(sleeps, vec![1, 2, 4, 8, 16, 32, 64]);
    assert_eq!(b.on_accept_error(), AcceptStep::GiveUp);
}

#[test]
fn route_pings_and_jobs() {
    assert!(matches!(route_message(Message::Ping), Route::Ignore));
    assert!(matches!(route_message(Message::Pong), Route::Ignore));
    let j = SubmitJob::new(SubmitJobKind::Hashing, b"abc".to_vec());
    let id = j.id();
    match route_message(Message::SubmitJob(j)) {
        Route::Enqueue(job) => {
            assert_eq!(job.id(), id);
            assert_eq!(job.payload().as_slice(), b"abc");
        }
        Route::Ignore => panic!("job ignored"),
    }
}

fn run(step: WorkerStep<u32>) -> Option<u32> {
    match step {
        WorkerStep::Run(j) => Some(j),
        _ => None,
    }
}

#[test]
fn queue_hands_out_jobs_in_order() {
    let mut q = JobQueue::new();
    assert!(matches!(q.next_job(), WorkerStep::Wait));
    q.push(1u32);
    q.push(2);
    q.push(3);
    assert_eq!(q.len(), 3);
    assert_eq!(run(q.next_job()), Some(1));
    assert_eq!(run(q.next_job()), Some(2));
    assert_eq!(run(q.next_job()), Some(3));
    assert!(matches!(q.next_job(), WorkerStep::Wait));
}

#[test]
fn queue_drains_before_workers_exit() {
    let mut q = JobQueue::new();
    q.push(10u32);
    q.push(20);
    q.begin_shutdown();
    assert!(q.is_shutdown());
    assert_eq!(run(q.next_job()), Some(10));
    assert_eq!(run(q.next_job()), Some(20));
    assert!(matches!(q.next_job(), WorkerStep::Exit));
    assert!(matches!(q.next_job(), WorkerStep::Exit));
}

#[test]
fn bridge_events() {
    let mut q = JobQueue::new();
    assert_eq!(q.on_bridge_event(BridgeEvent::Job(5u32)), BridgeAction::NotifyOne);
    assert!(!q.is_shutdown());
    assert_eq!(q.on_bridge_event(BridgeEvent::ChannelClosed), BridgeAction::NotifyAllAndStop);
    assert!(q.is_shutdown());
    assert_eq!(run(q.next_job()), Some(5));
    assert!(matches!(q.next_job(), WorkerStep::Exit));

    let mut q2: JobQueue<u32> = JobQueue::new();
    assert_eq!(q2.on_bridge_event(BridgeEvent::ShutdownSignal), BridgeAction::NotifyAllAndStop);
    assert!(matches!(q2.next_job(), WorkerStep::Exit));
}

use hvdevices::throttle::{
    ThrottleAction, ThrottleCommand, ThrottleThreadHandle, ThrottleWorker, WorkerPhase,
    TIMESLICE_MS,
};

#[test]
fn a_worker_goes_through_its_life() {
    let mut handle = ThrottleThreadHandle::new();
    let mut worker = ThrottleWorker::new();
    assert_eq!(
        worker,
        ThrottleWorker {
            phase: WorkerPhase::Waiting,
            cycle: 0,
            next: 0,
        }
    );
    assert_eq!(worker.throttle_step(None), ThrottleAction::AwaitCommand);

    let command = handle.set_throttle_percent(5);
    assert_eq!(command, Some(ThrottleCommand::Throttling(5)));
    assert_eq!(handle.throttle_percent(), 5);
    let pause = TIMESLICE_MS * 5 / 100;
    assert_eq!(worker.throttle_step(command), ThrottleAction::Pause(pause));
    assert_eq!(
        worker.throttle_step(None),
        ThrottleAction::Resume(TIMESLICE_MS - pause)
    );

    let command = handle.set_throttle_percent(10);
    assert_eq!(
        worker.throttle_step(command),
        ThrottleAction::Pause(TIMESLICE_MS / 10)
    );
    assert_eq!(handle.set_throttle_percent(10), None);

    let command = handle.set_throttle_percent(0);
    assert_eq!(command, Some(ThrottleCommand::Waiting));
    assert_eq!(
        worker.throttle_step(command),
        ThrottleAction::ResumeAndAwait
    );

    let command = handle.set_throttle_percent(99);
    assert!(matches!(
        worker.throttle_step(command),
        ThrottleAction::Pause(_)
    ));
    let command = handle.shutdown();
    assert_eq!(command, Some(ThrottleCommand::Exiting));
    assert_eq!(worker.throttle_step(command), ThrottleAction::ResumeAndExit);
    assert_eq!(worker.throttle_step(None), ThrottleAction::Exit);
    for _ in 0..10 {
        assert_eq!(handle.shutdown(), None);
    }
}

#[test]
fn a_waiting_worker_leaves_at_once() {
    let mut handle = ThrottleThreadHandle::new();
    let mut worker = ThrottleWorker::new();
    assert_eq!(
        worker.throttle_step(handle.shutdown()),
        ThrottleAction::Exit
    );
}

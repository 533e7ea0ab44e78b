use std::collections::HashSet;

use one_collect::etw::session::{event_lookup_id, session_plan, skipped_by_pid_filter, SessionStep};

#[test]
fn session_plan_orders_enables_around_hooks() {
    // (needs capture environment, needs rundown)
    let providers = [(false, false), (true, false), (false, true), (true, true)];
    let plan = session_plan(&providers);
    assert_eq!(
        vec![
            SessionStep::EnableCaptureEnvironment(1),
            SessionStep::EnableCaptureEnvironment(3),
            SessionStep::RunStartingHooks,
            SessionStep::Enable(0),
            SessionStep::RunStartedHooks,
            SessionStep::WaitUntilStopped,
            SessionStep::RunStoppingHooks,
            SessionStep::EnableRundown(2),
            SessionStep::EnableRundown(3),
            SessionStep::Disable(0),
            SessionStep::Disable(1),
            SessionStep::RunRundownHooks,
            SessionStep::Stop,
        ],
        plan
    );
}

#[test]
fn session_lookup_id_and_pid_filter() {
    assert_eq!(3, event_lookup_id(true, 3, 70));
    assert_eq!(70, event_lookup_id(false, 3, 70));

    let none: HashSet<u32> = HashSet::new();
    assert!(!skipped_by_pid_filter(&none, Some(5)));

    let targets: HashSet<u32> = [5u32, 6].into_iter().collect();
    assert!(!skipped_by_pid_filter(&targets, Some(5)));
    assert!(skipped_by_pid_filter(&targets, Some(7)));
    assert!(!skipped_by_pid_filter(&targets, Some(0)));
    assert!(!skipped_by_pid_filter(&targets, None));
}

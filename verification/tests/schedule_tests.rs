use system_health_report::config::Schedule;
use system_health_report::schedule::{
    next_run, plan_schedule, start_scheduler, SchedulePlan, SchedulerAction, SchedulerPhase, SchedulerStart,
};

fn schedule(enabled: bool, times: &[&str]) -> Schedule {
    Schedule {
        enabled,
        times: times.iter().map(|t| t.to_string()).collect(),
        timezone: "UTC".to_string(),
    }
}

#[test]
fn disabled_and_empty_schedules() {
    assert!(matches!(plan_schedule(&schedule(false, &["09:00"])), SchedulePlan::Disabled));
    assert!(matches!(plan_schedule(&schedule(true, &[])), SchedulePlan::NoTimes));
}

#[test]
fn invalid_times_are_rejected() {
    match plan_schedule(&schedule(true, &["25:00", "ab"])) {
        SchedulePlan::NoValidTimes { rejected } => {
            assert_eq!(rejected, vec!["25:00".to_string(), "ab".to_string()]);
        }
        other => panic!("unexpected {:?}", other),
    }
}

#[test]
fn valid_times_are_sorted() {
    match plan_schedule(&schedule(true, &["21:00", "09:00", "bad", "12:30", "09:00"])) {
        SchedulePlan::Ready { times, rejected } => {
            assert_eq!(times, vec![32400, 32400, 45000, 75600]);
            assert_eq!(rejected, vec!["bad".to_string()]);
        }
        other => panic!("unexpected {:?}", other),
    }
}

#[test]
fn next_run_picks_soonest_time() {
    let times = vec![32400, 75600];
    // 08:00 -> 09:00 today
    let r = next_run(&times, 28800);
    assert_eq!((r.wait_secs, r.at_secs), (3600, 32400));
    // 10:00 -> 21:00 today
    let r = next_run(&times, 36000);
    assert_eq!((r.wait_secs, r.at_secs), (39600, 75600));
    // 22:00 -> 09:00 tomorrow
    let r = next_run(&times, 79200);
    assert_eq!((r.wait_secs, r.at_secs), (86400 - 79200 + 32400, 32400));
    // exactly at 09:00 -> 21:00
    let r = next_run(&times, 32400);
    assert_eq!((r.wait_secs, r.at_secs), (43200, 75600));
    // exactly at the only time -> a full day
    let r = next_run(&vec![32400], 32400);
    assert_eq!((r.wait_secs, r.at_secs), (86400, 32400));
}

#[test]
fn next_run_lands_on_chosen_time() {
    let times = vec![0, 3600, 43200, 86340];
    for now in [0u32, 1, 3599, 3600, 50000, 86339, 86340, 86399] {
        let r = next_run(&times, now);
        assert!(r.wait_secs >= 1 && r.wait_secs <= 86400);
        assert_eq!((now as u64 + r.wait_secs) % 86400, r.at_secs as u64);
        assert!(times.contains(&r.at_secs));
    }
}

#[test]
fn scheduler_start_outcomes() {
    assert!(matches!(start_scheduler(&schedule(false, &["09:00"])).0, SchedulerStart::Idle));
    assert!(matches!(start_scheduler(&schedule(true, &[])).0, SchedulerStart::Idle));
    let (start, rejected) = start_scheduler(&schedule(true, &["nope"]));
    match start {
        SchedulerStart::Failed(e) => assert_eq!(e, "No valid scheduled times found"),
        other => panic!("unexpected {:?}", other),
    }
    assert_eq!(rejected, vec!["nope".to_string()]);
}

#[test]
fn scheduler_loop_waits_runs_and_pauses_for_ever() {
    let (start, rejected) = start_scheduler(&schedule(true, &["21:00", "bad", "09:00"]));
    assert_eq!(rejected, vec!["bad".to_string()]);
    let mut l = match start {
        SchedulerStart::Loop(l) => l,
        other => panic!("unexpected {:?}", other),
    };
    assert_eq!(l.times, vec![32400, 75600]);
    assert_eq!(l.phase, SchedulerPhase::Waiting);
    for _ in 0..3 {
        match l.step(8 * 3600) {
            SchedulerAction::Wait(r) => {
                assert_eq!(r.at_secs, 32400);
                assert_eq!(r.wait_secs, 3600);
            }
            other => panic!("unexpected {:?}", other),
        }
        assert!(matches!(l.step(9 * 3600), SchedulerAction::RunReport));
        assert!(matches!(l.step(9 * 3600), SchedulerAction::Pause(60)));
    }
    match l.step(22 * 3600) {
        SchedulerAction::Wait(r) => {
            assert_eq!(r.at_secs, 32400);
            assert_eq!(r.wait_secs, 2 * 3600 + 9 * 3600);
        }
        other => panic!("unexpected {:?}", other),
    }
}

#[test]
fn chrono_time_grammar_is_followed() {
    match plan_schedule(&schedule(true, &["9:30", " 21:05", "07: 5", "09:30 ", "123:00", "9 :30", "24:00", "12:60"])) {
        SchedulePlan::Ready { times, rejected } => {
            assert_eq!(times, vec![7 * 3600 + 5 * 60, 9 * 3600 + 30 * 60, 21 * 3600 + 5 * 60]);
            assert_eq!(
                rejected,
                vec!["09:30 ".to_string(), "123:00".to_string(), "9 :30".to_string(), "24:00".to_string(), "12:60".to_string()]
            );
        }
        other => panic!("unexpected {:?}", other),
    }
}

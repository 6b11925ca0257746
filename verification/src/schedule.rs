//! The report scheduler's decisions: which configured times are valid, in
//! what order they run, and how long to wait for the next one.

use chrono::Timelike;
use vstd::prelude::*;

use crate::config::Schedule;
use crate::text::{first_index_of, trim_start, views};

verus! {

broadcast use vstd::seq_lib::group_to_multiset_ensures;

/// Seconds in a day.
pub const SECONDS_PER_DAY: u32 = 86400;

/// The wait used when the computed delay is not positive.
pub const RETRY_SECONDS: u64 = 60;

/// An ASCII digit.
pub open spec fn is_digit(c: char) -> bool {
    '0' <= c && c <= '9'
}

/// The value of a digit.
pub open spec fn digit_value(c: char) -> int {
    (c as u32) - ('0' as u32)
}

/// The value of one or two ASCII digits (`None` for any other text).
pub open spec fn small_number(d: Seq<char>) -> Option<int> {
    if d.len() == 1 && is_digit(d[0]) {
        Some(digit_value(d[0]))
    } else if d.len() == 2 && is_digit(d[0]) && is_digit(d[1]) {
        Some(digit_value(d[0]) * 10 + digit_value(d[1]))
    } else {
        None
    }
}

/// What `chrono::NaiveTime::parse_from_str(s, "%H:%M")` yields for `s`, as
/// seconds after midnight: leading white space, one or two digits of an hour
/// up to 23, a colon, white space, one or two digits of a minute up to 59,
/// and nothing more; `None` for any other text.
pub open spec fn clock_time_seconds(s: Seq<char>) -> Option<u32> {
    let t = trim_start(s);
    if t.contains(':') {
        let k = first_index_of(t, ':');
        match (small_number(t.subrange(0, k)), small_number(trim_start(t.subrange(k + 1, t.len() as int)))) {
            (Some(h), Some(m)) => if h <= 23 && m <= 59 {
                Some((h * 3600 + m * 60) as u32)
            } else {
                None
            },
            _ => None,
        }
    } else {
        None
    }
}

/// A parsed time is a whole minute of one day.
pub proof fn lemma_clock_time_in_day(s: Seq<char>)
    ensures
        clock_time_seconds(s) matches Some(x) ==> x < 86400 && x % 60 == 0,
{
    let t = trim_start(s);
    if t.contains(':') {
        let k = first_index_of(t, ':');
        if let (Some(h), Some(m)) = (small_number(t.subrange(0, k)), small_number(trim_start(t.subrange(k + 1, t.len() as int)))) {
            if h <= 23 && m <= 59 {
                assert(0 <= h && 0 <= m);
                assert(h * 3600 + m * 60 <= 86340) by (nonlinear_arith)
                    requires h <= 23, m <= 59;
                assert((h * 3600 + m * 60) % 60 == 0) by (nonlinear_arith)
                    requires h >= 0, m >= 0;
            }
        }
    }
}

/// Calls `chrono::NaiveTime::parse_from_str(s, "%H:%M")` and returns the
/// parsed time's `num_seconds_from_midnight`, as `clock_time_seconds` states
/// it. chrono reads the format as the items hour, literal `:`, minute
/// (`StrftimeItems`); each number item first drops leading white space
/// (`trim_start`) and then reads one or two ASCII digits (`scan::number`),
/// the literal must follow at once, `set_hour` and `set_minute` refuse hours
/// above 23 and minutes above 59, text left over is refused (`TOO_LONG`),
/// and `to_naive_time` sets the missing seconds to 0.
#[verifier::external_body]
fn parse_clock_time(s: &str) -> (r: Option<u32>)
    ensures
        r == clock_time_seconds(s@),
{
    match chrono::NaiveTime::parse_from_str(s, "%H:%M") {
        Ok(t) => Some(t.num_seconds_from_midnight()),
        Err(_) => None,
    }
}

/// The valid times among `texts`, in their order.
pub open spec fn valid_times(texts: Seq<Seq<char>>) -> Seq<u32>
    decreases texts.len(),
{
    if texts.len() == 0 {
        Seq::<u32>::empty()
    } else {
        let rest = valid_times(texts.drop_last());
        match clock_time_seconds(texts.last()) {
            Some(x) => rest.push(x),
            None => rest,
        }
    }
}

/// The texts among `texts` that are not valid times, in their order.
pub open spec fn invalid_texts(texts: Seq<Seq<char>>) -> Seq<Seq<char>>
    decreases texts.len(),
{
    if texts.len() == 0 {
        Seq::<Seq<char>>::empty()
    } else {
        let rest = invalid_texts(texts.drop_last());
        match clock_time_seconds(texts.last()) {
            Some(x) => rest,
            None => rest.push(texts.last()),
        }
    }
}

/// `s` is in ascending order.
pub open spec fn is_sorted(s: Seq<u32>) -> bool {
    forall|i: int, j: int| 0 <= i <= j < s.len() ==> s[i] <= s[j]
}

/// Every time in `s` lies within one day.
pub open spec fn within_day(s: Seq<u32>) -> bool {
    forall|i: int| 0 <= i < s.len() ==> #[trigger] s[i] < 86400
}

/// How the scheduler starts for a given `schedule` section.
#[derive(Debug)]
pub enum SchedulePlan {
    /// `enabled` is false: nothing is scheduled.
    Disabled,
    /// No times are configured.
    NoTimes,
    /// Times are configured but none is a valid `HH:MM`.
    NoValidTimes { rejected: Vec<String> },
    /// The valid times, ascending, and the texts that were not valid.
    Ready { times: Vec<u32>, rejected: Vec<String> },
}

/// Whether a plan with these times is what `plan_schedule_spec` demands.
pub open spec fn ready_times(texts: Seq<Seq<char>>, times: Seq<u32>) -> bool {
    &&& is_sorted(times)
    &&& times.to_multiset() == valid_times(texts).to_multiset()
}

/// Inserts `x` into the ascending `v`, after the elements not above it.
fn insert_sorted(v: &mut Vec<u32>, x: u32)
    requires
        is_sorted(old(v)@),
    ensures
        is_sorted(final(v)@),
        final(v)@.to_multiset() == old(v)@.to_multiset().insert(x),
{
    let mut k: usize = 0;
    while k < v.len() && v[k] <= x
        invariant
            k <= v.len(),
            forall|m: int| 0 <= m < k ==> v@[m] <= x,
        decreases v.len() - k,
    {
        k = k + 1;
    }
    let ghost before = v@;
    v.insert(k, x);
    proof {
        assert(v@ == before.insert(k as int, x));
        before.insert_ensures(k as int, x);
        assert(v@.remove(k as int) =~= before);
        vstd::seq_lib::to_multiset_remove(v@, k as int);
        assert(v@.to_multiset().remove(x) == before.to_multiset());
        assert(v@.contains(x)) by {
            assert(v@[k as int] == x);
        }
        assert(v@.to_multiset().count(x) > 0);
        broadcast use vstd::multiset::group_multiset_axioms;
        assert(v@.to_multiset() =~= before.to_multiset().insert(x));
        assert forall|i: int, j: int| 0 <= i <= j < v@.len() implies v@[i] <= v@[j] by {
            if k < before.len() {
                assert(x < before[k as int]);
            }
            if i < k && j > k {
                assert(v@[j] == before[j - 1]);
                assert(before[i] <= before[j - 1]);
            }
        }
    }
}

/// Decides how the scheduler starts: whether it runs at all, and at which
/// times of day, ascending (duplicates kept). Texts that are not valid
/// `HH:MM` times are skipped and reported in `rejected`.
pub fn plan_schedule(schedule: &Schedule) -> (plan: SchedulePlan)
    ensures
        !schedule.enabled ==> plan is Disabled,
        schedule.enabled && schedule.times.len() == 0 ==> plan is NoTimes,
        schedule.enabled && schedule.times.len() > 0 ==> match plan {
            SchedulePlan::NoValidTimes { rejected } => {
                &&& valid_times(views(schedule.times@)).len() == 0
                &&& views(rejected@) == invalid_texts(views(schedule.times@))
            },
            SchedulePlan::Ready { times, rejected } => {
                &&& valid_times(views(schedule.times@)).len() > 0
                &&& ready_times(views(schedule.times@), times@)
                &&& within_day(times@)
                &&& views(rejected@) == invalid_texts(views(schedule.times@))
            },
            _ => false,
        },
{
    if !schedule.enabled {
        return SchedulePlan::Disabled;
    }
    if schedule.times.len() == 0 {
        return SchedulePlan::NoTimes;
    }
    let texts = &schedule.times;
    let mut times: Vec<u32> = Vec::new();
    let mut rejected: Vec<String> = Vec::new();
    let mut i: usize = 0;
    while i < texts.len()
        invariant
            i <= texts.len(),
            is_sorted(times@),
            within_day(times@),
            times@.to_multiset() == valid_times(views(texts@).take(i as int)).to_multiset(),
            views(rejected@) == invalid_texts(views(texts@).take(i as int)),
        decreases texts.len() - i,
    {
        let ghost pre = views(texts@).take(i as int);
        let ghost next = views(texts@).take(i + 1);
        proof {
            assert(next.drop_last() == pre);
            assert(next.last() == texts@[i as int]@);
        }
        let parsed = parse_clock_time(texts[i].as_str());
        proof {
            lemma_clock_time_in_day(texts@[i as int]@);
        }
        match parsed {
            Some(x) => {
                let ghost old_times = times@;
                insert_sorted(&mut times, x);
                proof {
                    assert(valid_times(next) == valid_times(pre).push(x));
                    assert forall|m: int| 0 <= m < times@.len() implies #[trigger] times@[m] < 86400 by {
                        assert(times@.to_multiset().count(times@[m]) > 0);
                        if times@[m] != x {
                            assert(old_times.to_multiset().count(times@[m]) > 0);
                            assert(old_times.contains(times@[m]));
                        }
                    }
                }
            },
            None => {
                let ghost old_rejected = views(rejected@);
                rejected.push(texts[i].clone());
                proof {
                    assert(views(rejected@) =~= old_rejected.push(texts@[i as int]@));
                }
            },
        }
        i = i + 1;
    }
    proof {
        assert(views(texts@).take(texts.len() as int) == views(texts@));
    }
    if times.len() == 0 {
        proof {
            assert(valid_times(views(texts@)).to_multiset().len() == 0);
        }
        SchedulePlan::NoValidTimes { rejected }
    } else {
        proof {
            assert(valid_times(views(texts@)).to_multiset().len() > 0);
        }
        SchedulePlan::Ready { times, rejected }
    }
}

/// Seconds from `now` until the time of day `t` comes round, strictly later
/// than `now` (a full day when `t == now`).
pub open spec fn delay(now: int, t: int) -> int {
    if t > now {
        t - now
    } else {
        86400 - now + t
    }
}

/// The index of the first time in `times` later than `now`, or `times.len()`.
pub open spec fn is_first_later(times: Seq<u32>, now: int, k: int) -> bool {
    &&& 0 <= k <= times.len()
    &&& forall|j: int| 0 <= j < k ==> times[j] <= now
    &&& k < times.len() ==> times[k] > now
}

/// `r` runs at the first time after `now` found at index `k` (or, when `k`
/// is past the end, at the earliest time tomorrow), after exactly the
/// seconds until then.
pub open spec fn run_at_index(times: Seq<u32>, now: u32, r: NextRun, k: int) -> bool {
    &&& is_first_later(times, now as int, k)
    &&& if k < times.len() {
        r.at_secs == times[k] && r.wait_secs == times[k] - now
    } else {
        r.at_secs == times[0] && r.wait_secs == 86400 - now + times[0]
    }
}

/// `r` is the run the scheduler picks after the time of day `now`.
pub open spec fn next_run_chosen(times: Seq<u32>, now: u32, r: NextRun) -> bool {
    exists|k: int| run_at_index(times, now, r, k)
}

/// The next scheduled run.
#[derive(Debug, Clone, Copy)]
pub struct NextRun {
    /// Seconds to sleep before the run.
    pub wait_secs: u64,
    /// The scheduled time of day, seconds after midnight.
    pub at_secs: u32,
}

/// The next run after the time of day `now` (seconds after midnight): the
/// first time later than `now`, else the earliest time tomorrow; the wait is
/// the seconds until then, or 60 where that is not positive.
pub fn next_run(times: &Vec<u32>, now: u32) -> (r: NextRun)
    requires
        times.len() > 0,
        now < 86400,
        within_day(times@),
    ensures
        next_run_chosen(times@, now, r),
{
    let mut k: usize = 0;
    while k < times.len() && times[k] <= now
        invariant
            k <= times.len(),
            forall|j: int| 0 <= j < k ==> times@[j] <= now,
        decreases times.len() - k,
    {
        k = k + 1;
    }
    assert(is_first_later(times@, now as int, k as int));
    let (at, add_day) = if k < times.len() {
        (times[k], false)
    } else {
        (times[0], true)
    };
    let secs_until_next: i64 = if add_day {
        86400 - now as i64 + at as i64
    } else {
        at as i64 - now as i64
    };
    let wait_secs: u64 = if secs_until_next <= 0 {
        RETRY_SECONDS
    } else {
        secs_until_next as u64
    };
    let r = NextRun { wait_secs, at_secs: at };
    assert(run_at_index(times@, now, r, k as int));
    r
}

/// What the scheduler does next.
#[derive(Debug, Clone, Copy)]
pub enum SchedulerAction {
    /// Sleep until this run.
    Wait(NextRun),
    /// Produce and send a report (whatever its outcome, only logged).
    RunReport,
    /// Pause this many seconds so a run is not repeated at once.
    Pause(u64),
}

/// Where the scheduler loop stands.
#[derive(Debug, Clone, Copy, PartialEq, Eq, Structural)]
pub enum SchedulerPhase {
    Waiting,
    Running,
    Pausing,
}

/// The phase after `p`: waiting, running, pausing, and round again.
pub open spec fn phase_after(p: SchedulerPhase) -> SchedulerPhase {
    match p {
        SchedulerPhase::Waiting => SchedulerPhase::Running,
        SchedulerPhase::Running => SchedulerPhase::Pausing,
        SchedulerPhase::Pausing => SchedulerPhase::Waiting,
    }
}

/// The scheduler's loop over its valid times. It has no step that ends it.
#[derive(Debug, Clone)]
pub struct SchedulerLoop {
    pub times: Vec<u32>,
    pub phase: SchedulerPhase,
}

impl SchedulerLoop {
    /// The loop's invariant: some times, ascending, all within a day.
    pub open spec fn wf(&self) -> bool {
        &&& self.times.len() > 0
        &&& is_sorted(self.times@)
        &&& within_day(self.times@)
    }

    /// The next step at the time of day `now`: wait for the next scheduled
    /// time, then run a report, then pause a minute, and round again.
    pub fn step(&mut self, now: u32) -> (a: SchedulerAction)
        requires
            old(self).wf(),
            now < 86400,
        ensures
            final(self).wf(),
            final(self).times@ == old(self).times@,
            final(self).phase == phase_after(old(self).phase),
            match old(self).phase {
                SchedulerPhase::Waiting => a matches SchedulerAction::Wait(r) && next_run_chosen(old(self).times@, now, r),
                SchedulerPhase::Running => a is RunReport,
                SchedulerPhase::Pausing => a matches SchedulerAction::Pause(s) && s == 60,
            },
    {
        match self.phase {
            SchedulerPhase::Waiting => {
                let r = next_run(&self.times, now);
                self.phase = SchedulerPhase::Running;
                SchedulerAction::Wait(r)
            },
            SchedulerPhase::Running => {
                self.phase = SchedulerPhase::Pausing;
                SchedulerAction::RunReport
            },
            SchedulerPhase::Pausing => {
                self.phase = SchedulerPhase::Waiting;
                SchedulerAction::Pause(RETRY_SECONDS)
            },
        }
    }
}

/// How the scheduler starts.
#[derive(Debug)]
pub enum SchedulerStart {
    /// Nothing is scheduled: the scheduler returns at once without error.
    Idle,
    /// The scheduler returns at once with this error.
    Failed(String),
    /// The scheduler loops for ever.
    Loop(SchedulerLoop),
}

/// Starts the scheduler for a `schedule` section, with the texts that are
/// not valid times: idle when it is disabled or lists no times, failing when
/// no time is valid, else a loop over the valid times, ascending, that first
/// waits for the next one.
pub fn start_scheduler(schedule: &Schedule) -> (r: (SchedulerStart, Vec<String>))
    ensures
        !schedule.enabled || schedule.times.len() == 0 ==> r.0 is Idle && r.1@.len() == 0,
        schedule.enabled && schedule.times.len() > 0 ==> views(r.1@) == invalid_texts(views(schedule.times@)),
        schedule.enabled && schedule.times.len() > 0 && valid_times(views(schedule.times@)).len() == 0 ==> (
        r.0 matches SchedulerStart::Failed(e) && e@ == "No valid scheduled times found"@),
        schedule.enabled && schedule.times.len() > 0 && valid_times(views(schedule.times@)).len() > 0 ==> (
        r.0 matches SchedulerStart::Loop(l) && l.wf() && ready_times(views(schedule.times@), l.times@)
            && l.phase == SchedulerPhase::Waiting),
{
    match plan_schedule(schedule) {
        SchedulePlan::Disabled => (SchedulerStart::Idle, Vec::new()),
        SchedulePlan::NoTimes => (SchedulerStart::Idle, Vec::new()),
        SchedulePlan::NoValidTimes { rejected } => (
            SchedulerStart::Failed(String::from_str("No valid scheduled times found")),
            rejected,
        ),
        SchedulePlan::Ready { times, rejected } => {
            proof {
                assert(times@.to_multiset().len() == times@.len());
                assert(valid_times(views(schedule.times@)).to_multiset().len() == valid_times(views(schedule.times@)).len());
            }
            (SchedulerStart::Loop(SchedulerLoop { times, phase: SchedulerPhase::Waiting }), rejected)
        },
    }
}

/// The scheduler never stops and reports for ever: every loop keeps its
/// invariant, and of any three consecutive steps one runs a report and the
/// third step brings the loop back to where it was.
pub proof fn lemma_scheduler_runs_forever(p: SchedulerPhase)
    ensures
        p == SchedulerPhase::Running || phase_after(p) == SchedulerPhase::Running
            || phase_after(phase_after(p)) == SchedulerPhase::Running,
        phase_after(phase_after(phase_after(p))) == p,
{
}

/// The scheduler always waits for the soonest scheduled time: for ascending
/// times within a day, the wait is positive, at most a day, lands exactly on
/// the chosen time, and no scheduled time comes round sooner.
pub proof fn lemma_next_run_is_soonest(times: Seq<u32>, now: u32, r: NextRun)
    requires
        times.len() > 0,
        now < 86400,
        within_day(times),
        is_sorted(times),
        next_run_chosen(times, now, r),
    ensures
        1 <= r.wait_secs <= 86400,
        r.wait_secs == delay(now as int, r.at_secs as int),
        (now + r.wait_secs) % 86400 == r.at_secs,
        times.contains(r.at_secs),
        forall|i: int| 0 <= i < times.len() ==> delay(now as int, #[trigger] times[i] as int) >= r.wait_secs,
{
    let k = choose|k: int| run_at_index(times, now, r, k);
    assert(times[0] < 86400);
    if k < times.len() {
        assert(times[k] < 86400);
        assert(times.contains(times[k]));
        assert forall|i: int| 0 <= i < times.len() implies delay(now as int, #[trigger] times[i] as int) >= r.wait_secs by {
            assert(times[i] < 86400);
            if i >= k {
                assert(times[k] <= times[i]);
            }
        }
    } else {
        assert(times.contains(times[0]));
        assert forall|i: int| 0 <= i < times.len() implies delay(now as int, #[trigger] times[i] as int) >= r.wait_secs by {
            assert(times[0] <= times[i]);
        }
    }
}

} // verus!

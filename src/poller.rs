//! The decisions of the polling cycle: fetch the snapshot, resolve the
//! timezone, build the report, publish it, wait, and again.
use vstd::prelude::*;
use crate::calendar::MAX_INSTANT_SECS;
use crate::json::{child, find, member, members_view, take_child, Json};
use crate::report::{aggregate, report_of, Report};

verus! {

/// The pause between two cycles, in milliseconds.
pub const POLL_INTERVAL_MS: u64 = 2000;

/// Timezone names with their offsets from UTC in seconds.
pub struct TimezoneTable {
    pub entries: Vec<(String, i64)>,
}

impl TimezoneTable {
    /// The offset of the timezone named `name`, if the table holds it.
    pub fn offset_of(&self, name: &String) -> (r: Option<i64>)
        ensures
            r == member(members_view(self.entries@), name@),
    {
        proof { crate::json::lemma_position(members_view(self.entries@), name@); }
        match find(&self.entries, name) {
            Some(i) => Some(self.entries[i].1),
            None => None,
        }
    }
}

/// The timezone name recorded for application `app_id` in a list of
/// administered applications: the string at `admin_of`, `app_id`, `timezone`.
pub open spec fn app_timezone(apps: Json, app_id: Seq<char>) -> Option<String> {
    match child(apps, "admin_of"@) {
        Some(admin) => match child(admin, app_id) {
            Some(app) => match child(app, "timezone"@) {
                Some(Json::Str(name)) => Some(name),
                _ => None,
            },
            None => None,
        },
        None => None,
    }
}

/// Finds the timezone name of application `app_id`; `None` when the list has
/// no such application (the credential does not administer it) or no name.
pub fn timezone_of_app(apps: Json, app_id: &String) -> (r: Option<String>)
    ensures
        r == app_timezone(apps, app_id@),
{
    let admin = match take_child(apps, &"admin_of".to_owned()) {
        Some(j) => j,
        None => return None,
    };
    let app = match take_child(admin, app_id) {
        Some(j) => j,
        None => return None,
    };
    match take_child(app, &"timezone".to_owned()) {
        Some(Json::Str(name)) => Some(name),
        _ => None,
    }
}

/// Where a cycle stands.
#[derive(PartialEq, Eq, Structural, Debug, Clone, Copy)]
pub enum PollPhase {
    Idle,
    AwaitingMetrics,
    AwaitingTimezone,
}

/// What the outside world reports back to the cycle.
pub enum PollEvent {
    /// The pause is over, or the process has just started.
    Tick,
    /// The snapshot was fetched and parsed.
    Metrics(Json),
    /// The application's timezone was fetched; `now_secs` is the current
    /// instant in seconds since the epoch.
    Timezone { name: String, now_secs: i64 },
    /// A fetch or a parse failed.
    Failed,
}

/// What the cycle asks the outside world to do next.
pub enum PollAction {
    FetchMetrics,
    FetchTimezone,
    /// Serialize and publish this report (`None` is the empty report `{}`),
    /// then sleep for the interval.
    Publish(Option<Report>),
    /// Report a configuration error, the timezone name being unknown, then
    /// sleep for the interval.
    UnknownTimezone,
    /// Sleep for the interval: this cycle ended without a report.
    Sleep,
}

/// The state of the polling cycle.
pub struct Poller {
    pub phase: PollPhase,
    pub pending: Option<Json>,
    pub timezones: TimezoneTable,
}

impl Poller {
    pub fn new(timezones: TimezoneTable) -> (r: Poller)
        ensures
            r.phase == PollPhase::Idle,
            r.pending is None,
            r.timezones == timezones,
    {
        Poller { phase: PollPhase::Idle, pending: None, timezones }
    }

    /// Takes one event and says what to do next.
    pub fn step(&mut self, event: PollEvent) -> (action: PollAction)
        ensures
            final(self).timezones == old(self).timezones,
            match event {
                PollEvent::Tick => final(self).phase == PollPhase::AwaitingMetrics
                    && final(self).pending is None && action is FetchMetrics,
                PollEvent::Metrics(raw) => if old(self).phase == PollPhase::AwaitingMetrics {
                    final(self).phase == PollPhase::AwaitingTimezone
                        && final(self).pending == Some(raw) && action is FetchTimezone
                } else {
                    final(self).phase == PollPhase::Idle && final(self).pending is None
                        && action is Sleep
                },
                PollEvent::Timezone { name, now_secs } => {
                    &&& final(self).phase == PollPhase::Idle
                    &&& final(self).pending is None
                    &&& match (old(self).phase, old(self).pending,
                        member(members_view(old(self).timezones.entries@), name@)) {
                        (PollPhase::AwaitingTimezone, Some(raw), Some(offset)) =>
                            if -MAX_INSTANT_SECS <= now_secs + offset <= MAX_INSTANT_SECS {
                                match action {
                                    PollAction::Publish(Some(rep)) =>
                                        report_of(raw, now_secs + offset) == Some(rep@),
                                    PollAction::Publish(None) =>
                                        report_of(raw, now_secs + offset) is None,
                                    _ => false,
                                }
                            } else {
                                action is Sleep
                            },
                        (PollPhase::AwaitingTimezone, Some(_), None) => action is UnknownTimezone,
                        _ => action is Sleep,
                    }
                },
                PollEvent::Failed => final(self).phase == PollPhase::Idle
                    && final(self).pending is None && action is Sleep,
            },
    {
        let phase = self.phase;
        let pending = self.pending.take();
        self.phase = PollPhase::Idle;
        match event {
            PollEvent::Tick => {
                self.phase = PollPhase::AwaitingMetrics;
                PollAction::FetchMetrics
            },
            PollEvent::Metrics(raw) => {
                if phase == PollPhase::AwaitingMetrics {
                    self.phase = PollPhase::AwaitingTimezone;
                    self.pending = Some(raw);
                    PollAction::FetchTimezone
                } else {
                    PollAction::Sleep
                }
            },
            PollEvent::Timezone { name, now_secs } => {
                let offset = self.timezones.offset_of(&name);
                match (phase, pending, offset) {
                    (PollPhase::AwaitingTimezone, Some(raw), Some(offset)) => {
                        match now_secs.checked_add(offset) {
                            Some(local) => if -MAX_INSTANT_SECS <= local && local <= MAX_INSTANT_SECS {
                                PollAction::Publish(aggregate(raw, now_secs, offset))
                            } else {
                                PollAction::Sleep
                            },
                            None => PollAction::Sleep,
                        }
                    },
                    (PollPhase::AwaitingTimezone, Some(_), None) => PollAction::UnknownTimezone,
                    _ => PollAction::Sleep,
                }
            },
            PollEvent::Failed => PollAction::Sleep,
        }
    }
}

} // verus!

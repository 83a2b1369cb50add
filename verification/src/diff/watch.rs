//! Watching over a reader that may be stuck.
//!
//! A disk that does not answer can hold a reader for ever. So somebody else
//! watches two things: a time limit for the whole file, and a counter that
//! stopped moving. Times are in nanoseconds since the watch began.
use vstd::prelude::*;

use super::{CompareProgress, ProgressPhase};

verus! {

/// The slowest reading that is waited for, in bytes per second.
pub const HASH_MIN_SPEED_BPS: u64 = 5242880;

/// How long any file may take, in seconds.
pub const HASH_BASE_TIMEOUT_SEC: u64 = 30;

/// How long no file may take, in seconds: a guard against a corrupt size.
pub const HASH_MAX_TIMEOUT_SEC: u64 = 7200;

/// How long a reader may stand still before it is given up, in seconds.
pub const HASH_STALL_LIMIT_SEC: u64 = 15;

/// How often the watch looks, in milliseconds.
pub const HASH_WATCHDOG_POLL_MS: u64 = 500;

/// How long a reader may stand still before that is reported, in seconds.
pub const HASH_STALL_NOTIFY_SEC: u64 = 5;

/// How long it takes before that is reported again, in seconds.
pub const HASH_STALL_REEMIT_SEC: u64 = 2;

/// How long it takes before progress is reported again, in seconds.
pub const HASH_PROGRESS_EMIT_SEC: u64 = 2;

/// How many nanoseconds a second has.
pub const NANOS: u64 = 1000000000;

/// How long a file of the given size may take, in seconds: a base, and the time
/// at the slowest speed, up to a limit.
pub open spec fn allowed(size: u64) -> int {
    let secs = HASH_BASE_TIMEOUT_SEC + size / HASH_MIN_SPEED_BPS;
    if secs < HASH_MAX_TIMEOUT_SEC {
        secs
    } else {
        HASH_MAX_TIMEOUT_SEC as int
    }
}

/// How long a file of the given size may take, in seconds.
pub fn compute_hash_timeout(size: u64) -> (secs: u64)
    ensures
        secs == allowed(size),
{
    let secs: u64 = HASH_BASE_TIMEOUT_SEC + size / HASH_MIN_SPEED_BPS;
    if secs < HASH_MAX_TIMEOUT_SEC {
        secs
    } else {
        HASH_MAX_TIMEOUT_SEC
    }
}

/// A bigger file never gets less time, and no file gets more than the limit.
pub proof fn law_bigger_files_get_more_time(small: u64, big: u64)
    requires
        small <= big,
    ensures
        allowed(small) <= allowed(big),
        HASH_BASE_TIMEOUT_SEC <= allowed(small) <= HASH_MAX_TIMEOUT_SEC,
{
    assert(small / HASH_MIN_SPEED_BPS <= big / HASH_MIN_SPEED_BPS) by (nonlinear_arith)
        requires
            small <= big,
            HASH_MIN_SPEED_BPS == 5242880,
    ;
}

/// A watch over one reader.
#[derive(Debug, Clone, Copy, PartialEq, Eq, Structural)]
pub struct Watchdog {
    /// When the time limit is over.
    pub limit: u64,
    /// What the counter said when it was last looked at.
    pub last_seen: u64,
    /// When the counter last moved.
    pub moved_at: u64,
    /// When it was last reported that it does not move, since it last moved.
    pub notified_at: Option<u64>,
    /// When progress was last reported.
    pub reported_at: Option<u64>,
}

/// What the watch finds.
#[derive(Debug, Clone, Copy, PartialEq, Eq, Structural)]
pub enum Watch {
    /// The reader is waited for.
    Wait,
    /// The reader is waited for, and progress is reported.
    Report,
    /// The reader is waited for, and it is reported that it does not move.
    Stalled,
    /// The reader is given up, stuck as it is.
    GiveUp,
}

/// More than so many seconds lie between two times.
pub open spec fn past(since: u64, now: u64, secs: u64) -> bool {
    now - since > secs * NANOS
}

/// Whether more than so many seconds lie between two times.
fn is_past(since: u64, now: u64, secs: u64) -> (r: bool)
    requires
        since <= now,
        secs <= HASH_MAX_TIMEOUT_SEC,
    ensures
        r == past(since, now, secs),
{
    now - since > secs * NANOS
}

/// The watch after a look at the counter.
pub open spec fn watched(w: Watchdog, now: u64, count: u64) -> (Watchdog, Watch) {
    if now > w.limit {
        (w, Watch::GiveUp)
    } else if count != w.last_seen {
        let moved = Watchdog { last_seen: count, moved_at: now, notified_at: None, ..w };
        if w.reported_at matches Some(t) && !past(t, now, HASH_PROGRESS_EMIT_SEC) {
            (moved, Watch::Wait)
        } else {
            (Watchdog { reported_at: Some(now), ..moved }, Watch::Report)
        }
    } else if past(w.moved_at, now, HASH_STALL_LIMIT_SEC) {
        (w, Watch::GiveUp)
    } else if past(w.moved_at, now, HASH_STALL_NOTIFY_SEC) && !(w.notified_at matches Some(t)
        && !past(t, now, HASH_STALL_REEMIT_SEC)) {
        (Watchdog { notified_at: Some(now), ..w }, Watch::Stalled)
    } else {
        (w, Watch::Wait)
    }
}

impl Watchdog {
    /// The times that the watch remembers have gone by.
    pub open spec fn at(self, now: u64) -> bool {
        &&& self.moved_at <= now
        &&& self.notified_at matches Some(t) ==> t <= now
        &&& self.reported_at matches Some(t) ==> t <= now
    }

    /// Whether the times that the watch remembers have gone by.
    pub fn is_at(&self, now: u64) -> (r: bool)
        ensures
            r == self.at(now),
    {
        let notified = match self.notified_at {
            Some(t) => t <= now,
            None => true,
        };
        let reported = match self.reported_at {
            Some(t) => t <= now,
            None => true,
        };
        self.moved_at <= now && notified && reported
    }

    /// A watch that begins, over a file of the given size.
    pub fn new(size: u64) -> (r: Self)
        ensures
            r == (Watchdog {
                limit: (allowed(size) * NANOS) as u64,
                last_seen: 0,
                moved_at: 0,
                notified_at: None,
                reported_at: None,
            }),
            r.at(0),
    {
        let secs: u64 = compute_hash_timeout(size);
        Watchdog {
            limit: secs * NANOS,
            last_seen: 0,
            moved_at: 0,
            notified_at: None,
            reported_at: None,
        }
    }

    /// A look at the counter.
    pub fn look(&mut self, now: u64, count: u64) -> (r: Watch)
        requires
            old(self).at(now),
        ensures
            (*final(self), r) == watched(*old(self), now, count),
            final(self).at(now),
    {
        if now > self.limit {
            return Watch::GiveUp;
        }
        if count != self.last_seen {
            self.last_seen = count;
            self.moved_at = now;
            self.notified_at = None;
            let quiet = match self.reported_at {
                Some(t) => !is_past(t, now, HASH_PROGRESS_EMIT_SEC),
                None => false,
            };
            if quiet {
                return Watch::Wait;
            }
            self.reported_at = Some(now);
            return Watch::Report;
        }
        if is_past(self.moved_at, now, HASH_STALL_LIMIT_SEC) {
            return Watch::GiveUp;
        }
        if is_past(self.moved_at, now, HASH_STALL_NOTIFY_SEC) {
            let quiet = match self.notified_at {
                Some(t) => !is_past(t, now, HASH_STALL_REEMIT_SEC),
                None => false,
            };
            if !quiet {
                self.notified_at = Some(now);
                return Watch::Stalled;
            }
        }
        Watch::Wait
    }
}

/// What is reported after a look, where anything is.
pub fn watch_report(watch: Watch, path: &str, bytes_done: u64, bytes_total: u64) -> (r: Option<
    CompareProgress<String>,
>)
    ensures
        super::report_of(r) == match watch {
            Watch::Report | Watch::Stalled => Some(
                CompareProgress {
                    phase: if watch == Watch::Report {
                        ProgressPhase::Level3
                    } else {
                        ProgressPhase::Stalled
                    },
                    count: 0,
                    total: 0,
                    current_path: path@,
                    bytes_done,
                    bytes_total,
                },
            ),
            _ => None,
        },
{
    let phase = match watch {
        Watch::Report => ProgressPhase::Level3,
        Watch::Stalled => ProgressPhase::Stalled,
        _ => {
            return None;
        },
    };
    Some(
        CompareProgress {
            phase,
            count: 0,
            total: 0,
            current_path: path.to_owned(),
            bytes_done,
            bytes_total,
        },
    )
}

/// The looks of a watch over time, each with the time and the counter.
pub open spec fn watch_run(w: Watchdog, looks: Seq<(u64, u64)>) -> Watchdog
    decreases looks.len(),
{
    if looks.len() == 0 {
        w
    } else {
        watched(watch_run(w, looks.drop_last()), looks.last().0, looks.last().1).0
    }
}

/// A reader whose counter moves at every look is given up only when the time for
/// the whole file is over; one whose counter stands still is waited for no longer
/// than the limit for that.
pub proof fn law_who_moves_is_waited_for(w: Watchdog, now: u64, count: u64)
    requires
        w.at(now),
    ensures
        count != w.last_seen && now <= w.limit ==> watched(w, now, count).1 != Watch::GiveUp,
        watched(w, now, count).1 != Watch::GiveUp ==> now <= w.limit && (count != w.last_seen
            || now - w.moved_at <= HASH_STALL_LIMIT_SEC * NANOS),
{
}

/// A disk that stands still is reported, but not too often: between two such
/// reports without movement lies more than the time for that.
pub proof fn law_reports_keep_their_distance(w: Watchdog, first: u64, looks: Seq<(u64, u64)>, now: u64)
    requires
        w.notified_at == Some(first),
        forall|i: int| 0 <= i < looks.len() ==> (#[trigger] looks[i]).1 == w.last_seen,
        forall|i: int|
            0 <= i < looks.len() ==> watched(
                watch_run(w, looks.take(i)),
                (#[trigger] looks[i]).0,
                looks[i].1,
            ).1 != Watch::Stalled,
        watched(watch_run(w, looks), now, w.last_seen).1 == Watch::Stalled,
    ensures
        now - first > HASH_STALL_REEMIT_SEC * NANOS,
    decreases looks.len(),
{
    lemma_still(w, looks);
}

proof fn lemma_still(w: Watchdog, looks: Seq<(u64, u64)>)
    requires
        forall|i: int| 0 <= i < looks.len() ==> (#[trigger] looks[i]).1 == w.last_seen,
        forall|i: int|
            0 <= i < looks.len() ==> watched(
                watch_run(w, looks.take(i)),
                (#[trigger] looks[i]).0,
                looks[i].1,
            ).1 != Watch::Stalled,
    ensures
        watch_run(w, looks) == w,
    decreases looks.len(),
{
    if looks.len() > 0 {
        let front = looks.drop_last();
        assert forall|i: int| 0 <= i < front.len() implies (#[trigger] front[i]).1 == w.last_seen
            && watched(watch_run(w, front.take(i)), front[i].0, front[i].1).1 != Watch::Stalled by {
            assert(front[i] == looks[i]);
            assert(front.take(i) =~= looks.take(i));
        }
        lemma_still(w, front);
        assert(looks.take(looks.len() - 1) =~= front);
        assert(looks[looks.len() - 1] == looks.last());
    }
}

/// Every file has thirty seconds and one more for each 5242880 bytes, up to two hours.
pub proof fn law_the_time_a_file_is_given(size: u64, more: u64)
    requires
        size + 5242880 * more <= u64::MAX,
    ensures
        size < 5242880 ==> allowed(size) == 30,
        allowed(size) < 7200 && allowed((size + 5242880 * more) as u64) < 7200 ==> allowed(
            (size + 5242880 * more) as u64,
        ) == allowed(size) + more,
        allowed(size) <= 7200,
        size >= 37591449600 ==> allowed(size) == 7200,
{
    assert((size + 5242880 * more) / 5242880 == size / 5242880 + more) by (nonlinear_arith);
}

/// A reader is given up exactly when its time for the whole file is over, or when its
/// counter has stood still for more than fifteen seconds.
pub proof fn law_when_a_reader_is_given_up(w: Watchdog, now: u64, count: u64)
    requires
        w.at(now),
    ensures
        watched(w, now, count).1 == Watch::GiveUp <==> now > w.limit || (count == w.last_seen && now
            - w.moved_at > 15_000_000_000),
        watched(w, now, count).1 == Watch::GiveUp ==> watched(w, now, count).0 == w,
{
}

/// Standing still is reported after more than five seconds, and again after more than two
/// each time; moving is reported at once, and again after more than two seconds each
/// time. A counter that moved is remembered with the time.
pub proof fn law_when_something_is_reported(w: Watchdog, now: u64, count: u64)
    requires
        w.at(now),
        watched(w, now, count).1 != Watch::GiveUp,
    ensures
        ({
            let (next, news) = watched(w, now, count);
            let moved = count != w.last_seen;
            &&& news == Watch::Report <==> moved && (w.reported_at matches Some(t) ==> now - t
                > 2_000_000_000)
            &&& news == Watch::Stalled <==> !moved && now - w.moved_at > 5_000_000_000 && (
            w.notified_at matches Some(t) ==> now - t > 2_000_000_000)
            &&& moved ==> next.last_seen == count && next.moved_at == now && next.notified_at is None
            &&& !moved ==> next.last_seen == w.last_seen && next.moved_at == w.moved_at
            &&& news == Watch::Report ==> next.reported_at == Some(now)
            &&& news != Watch::Report ==> next.reported_at == w.reported_at
            &&& news == Watch::Stalled ==> next.notified_at == Some(now)
            &&& next.limit == w.limit
        }),
{
}

/// A reader is looked at twice a second: often enough to see every moment at which
/// something is reported or given up.
pub proof fn law_a_reader_is_looked_at_often()
    ensures
        2 * HASH_WATCHDOG_POLL_MS == 1000,
        4 * HASH_WATCHDOG_POLL_MS <= 1000 * HASH_PROGRESS_EMIT_SEC,
        HASH_PROGRESS_EMIT_SEC == 2,
{
}

} // verus!

//! Figures over all sessions of a room.
use vstd::prelude::*;

use crate::session;
use crate::session::{LiveSession, TimedSession};
use crate::stats;

verus! {

/// Figures over all sessions of a room. The mean length of a session is
/// `total_seconds` over `total_sessions`.
#[derive(Clone, Debug, PartialEq, Eq)]
pub struct Aggregate {
    pub total_sessions: u32,
    pub total_seconds: u64,
    pub longest_session_secs: u64,
    pub longest_session_date: Option<String>,
    pub average_start_minutes: Option<u32>,
}

impl Default for Aggregate {
    /// The figures of no session at all.
    fn default() -> (r: Aggregate)
        ensures
            r.is_empty(),
    {
        Aggregate {
            total_sessions: 0,
            total_seconds: 0,
            longest_session_secs: 0,
            longest_session_date: None,
            average_start_minutes: None,
        }
    }
}

impl Aggregate {
    /// Whether these are the figures of no session at all.
    pub open spec fn is_empty(self) -> bool {
        &&& self.total_sessions == 0
        &&& self.total_seconds == 0
        &&& self.longest_session_secs == 0
        &&& self.longest_session_date is None
        &&& self.average_start_minutes is None
    }

    /// Whether these are the figures of the given sessions.
    pub open spec fn sums_up(self, sessions: Seq<TimedSession>) -> bool {
        if sessions.len() == 0 {
            self.is_empty()
        } else {
            &&& self.total_sessions == sessions.len()
            &&& self.total_seconds == duration_total(sessions)
            &&& exists|k: int| #[trigger] is_longest(sessions, k) && {
                &&& self.longest_session_secs == sessions[k].session.duration_secs
                &&& self.longest_session_date matches Some(date)
                &&& date@ == sessions[k].session.start@
            }
            &&& self.average_start_minutes == Some(average_start(sessions))
        }
    }
}

/// The recorded lengths of all sessions together.
pub open spec fn duration_total(sessions: Seq<TimedSession>) -> nat
    decreases sessions.len(),
{
    if sessions.len() == 0 {
        0
    } else {
        duration_total(sessions.drop_last()) + sessions.last().session.duration_secs as nat
    }
}

/// Whether session `k` is the longest by its recorded length, the latest one
/// where several are.
pub open spec fn is_longest(sessions: Seq<TimedSession>, k: int) -> bool {
    let longest = sessions[k].session.duration_secs;
    &&& 0 <= k < sessions.len()
    &&& forall|i: int|
        0 <= i < k ==> (#[trigger] sessions[i]).session.duration_secs <= longest
    &&& forall|i: int|
        k < i < sessions.len() ==> (#[trigger] sessions[i]).session.duration_secs < longest
}

/// The starts of all sessions together, in minutes since midnight. A session
/// whose start is not known adds nothing.
pub open spec fn start_total(sessions: Seq<TimedSession>) -> nat
    decreases sessions.len(),
{
    if sessions.len() == 0 {
        0
    } else {
        start_total(sessions.drop_last()) + match sessions.last().start {
            Some(start) => start.minute_of_day(),
            None => 0,
        }
    }
}

/// The minutes since midnight at which sessions start on average.
pub open spec fn average_start(sessions: Seq<TimedSession>) -> u32 {
    (start_total(sessions) / sessions.len()) as u32
}

proof fn lemma_start_prefix(sessions: Seq<TimedSession>, i: int)
    requires
        0 <= i <= sessions.len(),
    ensures
        start_total(sessions.take(i)) <= start_total(sessions),
    decreases sessions.len() - i,
{
    if i < sessions.len() {
        lemma_start_prefix(sessions, i + 1);
        assert(sessions.take(i + 1).drop_last() =~= sessions.take(i));
    } else {
        assert(sessions.take(i) =~= sessions);
    }
}

/// No session starts later than the last minute of a day.
pub proof fn lemma_starts_bounded(sessions: Seq<TimedSession>)
    requires
        stats::all_valid(sessions),
    ensures
        start_total(sessions) <= 1439 * sessions.len(),
    decreases sessions.len(),
{
    if sessions.len() > 0 {
        let rest = sessions.drop_last();
        assert(sessions.last() == sessions[sessions.len() - 1]);
        assert forall|i: int| 0 <= i < rest.len() implies (#[trigger] rest[i]).valid() by {
            assert(rest[i] == sessions[i]);
        }
        lemma_starts_bounded(rest);
    }
}

/// The minutes since midnight at which sessions start on average.
pub fn compute_average_start_minutes(sessions: &Vec<TimedSession>) -> (r: Option<u32>)
    requires
        stats::all_valid(sessions@),
        start_total(sessions@) <= u64::MAX,
    ensures
        sessions@.len() == 0 <==> r is None,
        r matches Some(minutes) ==> {
            &&& minutes == average_start(sessions@)
            &&& minutes == start_total(sessions@) / sessions@.len()
            &&& minutes < 1440
        },
{
    if sessions.len() == 0 {
        return None;
    }
    let mut total: u64 = 0;
    let mut i: usize = 0;
    while i < sessions.len()
        invariant
            i <= sessions@.len(),
            stats::all_valid(sessions@),
            start_total(sessions@) <= u64::MAX,
            total == start_total(sessions@.take(i as int)),
            total <= 1439 * i,
        decreases sessions@.len() - i,
    {
        assert(sessions@.take(i + 1).drop_last() =~= sessions@.take(i as int));
        proof {
            lemma_start_prefix(sessions@, i + 1);
        }
        if let Some(start) = sessions[i].start {
            total = total + start.minutes() as u64;
        }
        i = i + 1;
    }
    assert(sessions@.take(i as int) =~= sessions@);
    let count: u64 = sessions.len() as u64;
    assert(total / count <= 1439) by (nonlinear_arith)
        requires
            total <= 1439 * count,
            count > 0,
    ;
    Some((total / count) as u32)
}

proof fn lemma_duration_prefix(sessions: Seq<TimedSession>, i: int)
    requires
        0 <= i <= sessions.len(),
    ensures
        duration_total(sessions.take(i)) <= duration_total(sessions),
    decreases sessions.len() - i,
{
    if i < sessions.len() {
        lemma_duration_prefix(sessions, i + 1);
        assert(sessions.take(i + 1).drop_last() =~= sessions.take(i));
    } else {
        assert(sessions.take(i) =~= sessions);
    }
}

/// The figures over all sessions.
pub fn aggregate_of(sessions: &Vec<TimedSession>) -> (r: Aggregate)
    requires
        stats::all_valid(sessions@),
        sessions@.len() <= u32::MAX,
        duration_total(sessions@) <= u64::MAX,
    ensures
        r.sums_up(sessions@),
{
    if sessions.len() == 0 {
        return Aggregate::default();
    }
    let mut total_seconds: u64 = 0;
    let mut longest: usize = 0;
    let mut i: usize = 0;
    while i < sessions.len()
        invariant
            i <= sessions@.len(),
            duration_total(sessions@) <= u64::MAX,
            total_seconds == duration_total(sessions@.take(i as int)),
            longest < sessions@.len(),
            i == 0 ==> longest == 0,
            i > 0 ==> longest < i,
            forall|j: int|
                0 <= j < longest ==> (#[trigger] sessions@[j]).session.duration_secs
                    <= sessions@[longest as int].session.duration_secs,
            forall|j: int|
                longest < j < i ==> (#[trigger] sessions@[j]).session.duration_secs
                    < sessions@[longest as int].session.duration_secs,
        decreases sessions@.len() - i,
    {
        assert(sessions@.take(i + 1).drop_last() =~= sessions@.take(i as int));
        proof {
            lemma_duration_prefix(sessions@, i + 1);
        }
        total_seconds = total_seconds + sessions[i].session.duration_secs;
        if sessions[i].session.duration_secs >= sessions[longest].session.duration_secs {
            longest = i;
        }
        i = i + 1;
    }
    assert(sessions@.take(i as int) =~= sessions@);
    assert(is_longest(sessions@, longest as int));
    proof {
        lemma_starts_bounded(sessions@);
    }
    Aggregate {
        total_sessions: sessions.len() as u32,
        total_seconds,
        longest_session_secs: sessions[longest].session.duration_secs,
        longest_session_date: Some(sessions[longest].session.start.clone()),
        average_start_minutes: compute_average_start_minutes(sessions),
    }
}

/// The recorded lengths of all sessions together.
pub open spec fn recorded_total(sessions: Seq<LiveSession>) -> nat
    decreases sessions.len(),
{
    if sessions.len() == 0 {
        0
    } else {
        recorded_total(sessions.drop_last()) + sessions.last().duration_secs as nat
    }
}

/// Whether `timed` are the given sessions, each with its start where its text
/// says.
pub open spec fn starts_placed(timed: Seq<TimedSession>, sessions: Seq<LiveSession>) -> bool {
    &&& timed.len() == sessions.len()
    &&& forall|i: int|
        0 <= i < timed.len() ==> {
            &&& (#[trigger] timed[i]).session == sessions[i]
            &&& timed[i].valid()
            &&& session::names(sessions[i].start@, timed[i].start)
            &&& timed[i].local()
        }
}

proof fn lemma_recorded_prefix(sessions: Seq<LiveSession>, i: int)
    requires
        0 <= i <= sessions.len(),
    ensures
        recorded_total(sessions.take(i)) <= recorded_total(sessions),
    decreases sessions.len() - i,
{
    if i < sessions.len() {
        lemma_recorded_prefix(sessions, i + 1);
        assert(sessions.take(i + 1).drop_last() =~= sessions.take(i));
    } else {
        assert(sessions.take(i) =~= sessions);
    }
}

/// The figures over all sessions, by the local clock. There are none where
/// the number of the sessions or their length does not fit.
pub fn recompute_aggregate(sessions: &Vec<LiveSession>) -> (r: Option<Aggregate>)
    ensures
        r is Some <==> sessions@.len() <= u32::MAX && recorded_total(sessions@) <= u64::MAX,
        r matches Some(aggregate) ==> exists|timed: Seq<TimedSession>| #[trigger]
            starts_placed(timed, sessions@) && aggregate.sums_up(timed),
{
    if sessions.len() > u32::MAX as usize {
        return None;
    }
    let mut timed: Vec<TimedSession> = Vec::new();
    let mut total: u64 = 0;
    let mut i: usize = 0;
    while i < sessions.len()
        invariant
            i <= sessions@.len() <= u32::MAX,
            starts_placed(timed@, sessions@.take(i as int)),
            total == recorded_total(sessions@.take(i as int)),
            total == duration_total(timed@),
        decreases sessions@.len() - i,
    {
        assert(sessions@.take(i + 1).drop_last() =~= sessions@.take(i as int));
        proof {
            lemma_recorded_prefix(sessions@, i + 1);
        }
        let session: TimedSession = TimedSession::started(sessions[i].copy());
        total = match total.checked_add(session.session.duration_secs) {
            Some(sum) => sum,
            None => {
                return None;
            },
        };
        let ghost before = timed@;
        timed.push(session);
        assert(timed@.drop_last() =~= before);
        i = i + 1;
    }
    assert(sessions@.take(i as int) =~= sessions@);
    Some(aggregate_of(&timed))
}

/// The longest session is no longer than all sessions together.
pub proof fn law_longest_within_total(figures: Aggregate, sessions: Seq<TimedSession>)
    requires
        figures.sums_up(sessions),
    ensures
        figures.longest_session_secs <= figures.total_seconds,
{
    if sessions.len() > 0 {
        let k = choose|k: int| #[trigger]
            is_longest(sessions, k) && figures.longest_session_secs
                == sessions[k].session.duration_secs;
        assert(sessions.take(k + 1).last() == sessions[k]);
        lemma_duration_prefix(sessions, k + 1);
    }
}

/// The starts of the sessions in minutes since midnight, as far as they are
/// known.
pub open spec fn starts(sessions: Seq<TimedSession>) -> Seq<int> {
    sessions.map_values(
        |timed: TimedSession|
            match timed.start {
                Some(start) => start.minute_of_day() as int,
                None => 0,
            },
    )
}

/// The recorded lengths of the sessions.
pub open spec fn recorded_lengths(sessions: Seq<TimedSession>) -> Seq<int> {
    sessions.map_values(|timed: TimedSession| timed.session.duration_secs as int)
}

proof fn lemma_totals(sessions: Seq<TimedSession>)
    ensures
        duration_total(sessions) == stats::total_of(recorded_lengths(sessions)),
        start_total(sessions) == stats::total_of(starts(sessions)),
    decreases sessions.len(),
{
    stats::lemma_total_of(recorded_lengths(sessions));
    stats::lemma_total_of(starts(sessions));
    if sessions.len() == 0 {
        assert(recorded_lengths(sessions) =~= Seq::empty());
        assert(starts(sessions) =~= Seq::empty());
    } else {
        let rest = sessions.drop_last();
        lemma_totals(rest);
        assert(recorded_lengths(sessions).drop_last() =~= recorded_lengths(rest));
        assert(starts(sessions).drop_last() =~= starts(rest));
    }
}

/// The figures count every session, add up all recorded lengths, give the
/// length and the start of the last of the longest sessions, and the average of
/// all starts, rounded down.
pub proof fn law_figures_tell_of_all_sessions(figures: Aggregate, sessions: Seq<TimedSession>)
    requires
        figures.sums_up(sessions),
        stats::all_valid(sessions),
        sessions.len() <= u32::MAX,
    ensures
        figures.total_sessions == sessions.len(),
        figures.total_seconds == stats::total_of(recorded_lengths(sessions)),
        forall|i: int|
            0 <= i < sessions.len() ==> (#[trigger] sessions[i]).session.duration_secs
                <= figures.longest_session_secs,
        sessions.len() == 0 ==> {
            &&& figures.longest_session_secs == 0
            &&& figures.longest_session_date is None
            &&& figures.average_start_minutes is None
        },
        sessions.len() > 0 ==> {
            &&& exists|k: int|
                0 <= k < sessions.len() && (#[trigger] sessions[k]).session.duration_secs
                    == figures.longest_session_secs && (figures.longest_session_date matches Some(
                    date,
                ) && date@ == sessions[k].session.start@) && forall|i: int|
                    k < i < sessions.len() ==> (#[trigger] sessions[i]).session.duration_secs
                        < figures.longest_session_secs
            &&& figures.average_start_minutes matches Some(average)
            &&& average * sessions.len() <= stats::total_of(starts(sessions)) < (average + 1)
                * sessions.len()
        },
{
    lemma_totals(sessions);
    if sessions.len() > 0 {
        let k = choose|k: int| #[trigger]
            is_longest(sessions, k) && figures.longest_session_secs
                == sessions[k].session.duration_secs && (figures.longest_session_date matches Some(
                date,
            ) && date@ == sessions[k].session.start@);
        assert(sessions[k].session.duration_secs == figures.longest_session_secs);
        lemma_starts_bounded(sessions);
        let total = start_total(sessions);
        let count = sessions.len();
        let quotient = total / count;
        assert(quotient * count <= total < (quotient + 1) * count && quotient <= 1439)
            by (nonlinear_arith)
            requires
                quotient == total / count,
                total <= 1439 * count,
                count > 0,
        ;
    } else {
        stats::lemma_total_of(Seq::empty());
        assert(recorded_lengths(sessions) =~= Seq::empty());
    }
}

/// The recorded lengths of a list add up session by session.
pub proof fn law_recorded_lengths_add_up(sessions: Seq<LiveSession>, session: LiveSession)
    ensures
        recorded_total(Seq::empty()) == 0,
        recorded_total(sessions.push(session)) == recorded_total(sessions) + session.duration_secs,
{
    assert(sessions.push(session).drop_last() =~= sessions);
}

} // verus!

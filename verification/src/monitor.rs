//! What follows when the status of a room was asked for.
use vstd::prelude::*;

use crate::calendar;
use crate::clock;
use crate::clock::{local_now, parse_datetime, parse_datetime_at, LocalTime};
use crate::reading;
use crate::session::{LiveSession, TimedSession};

verus! {

/// The seconds below which a stream counts as a glitch and is not recorded.
pub const MIN_SESSION_SECS: u64 = 180;

/// The failures in a row from which on they are reported as persistent.
pub const MAX_CONSECUTIVE_FAILURES: u32 = 3;

/// What is known of a room, kept so that a restart does not lose a stream
/// that is under way.
#[derive(Clone, Debug, PartialEq, Eq)]
pub struct RuntimeState {
    pub room_id: u64,
    pub is_live: bool,
    pub current_start: Option<String>,
    /// The checks in a row that failed, up to now.
    pub consecutive_failures: u32,
}

impl RuntimeState {
    /// A room of which nothing is known yet.
    pub fn new(room_id: u64) -> (r: RuntimeState)
        ensures
            r.room_id == room_id,
            !r.is_live,
            r.current_start is None,
            r.consecutive_failures == 0,
    {
        RuntimeState { room_id, is_live: false, current_start: None, consecutive_failures: 0 }
    }

    /// Whether there is a start exactly while a stream is under way.
    pub open spec fn consistent(self) -> bool {
        self.is_live <==> self.current_start is Some
    }
}

/// What a check of a room has shown.
#[derive(Clone, Debug, PartialEq, Eq)]
pub enum Event {
    /// A stream began; the announcement goes to all groups.
    Began { announcement: Option<String> },
    /// The stream goes on.
    GoesOn,
    /// A stream ended and is to be recorded.
    Ended { session: LiveSession, announce: bool },
    /// A stream ended that was too short to record.
    TooShort { seconds: i64 },
    /// There is still no stream.
    Idle,
    /// A status without a meaning.
    Unknown { status: u32 },
    /// The status could not be had, several times in a row.
    Failed { failures: u32, persistent: bool },
}

/// What follows from a check: the new state of the room, whether it has to be
/// saved, and what happened.
#[derive(Clone, Debug, PartialEq, Eq)]
pub struct Step {
    pub state: RuntimeState,
    pub save: bool,
    pub event: Event,
}

/// The settings that decide what is announced.
#[derive(Clone, Copy, Debug, PartialEq, Eq, Structural)]
pub struct Announce {
    pub on_start: bool,
    pub on_end: bool,
}

/// Whether what is written for a moment can be read back: the offset is a
/// whole number of minutes and the year has four digits.
pub open spec fn readable(time: LocalTime) -> bool {
    &&& time.offset as int % 60 == 0
    &&& calendar::day_number(0, 1, 1) <= time.day() <= calendar::day_number(9999, 12, 31)
}

/// Whether `text` is what is written for a moment. Where it can be read back,
/// it gives the same moment.
pub open spec fn records(text: Seq<char>, time: LocalTime) -> bool {
    &&& text == clock::rfc3339_writing(time.utc, time.nanos, time.offset)
    &&& readable(time) ==> clock::rfc3339_reading(text) == Some((time.utc, time.nanos, time.offset))
}

/// The recorded start of the stream that is under way, or now where none was
/// recorded.
pub open spec fn start_text(state: RuntimeState, now: LocalTime) -> Seq<char> {
    match state.current_start {
        Some(text) => text@,
        None => clock::rfc3339_writing(now.utc, now.nanos, now.offset),
    }
}

/// The moment at which the stream under way began, on a clock that was
/// `offset` seconds ahead then; now where its record is not to be read.
pub open spec fn start_moment(state: RuntimeState, now: LocalTime, offset: i32) -> LocalTime {
    match clock::moment_in_text(start_text(state, now), offset) {
        Some(start) => start,
        None => now,
    }
}

/// Whether `session` is the record of the stream that was under way and has
/// ended now.
pub open spec fn is_record(
    session: LiveSession,
    room_id: u64,
    state: RuntimeState,
    now: LocalTime,
    offset: i32,
) -> bool {
    let start = start_moment(state, now, offset);
    &&& session.room_id == room_id
    &&& session.start@ == start_text(state, now)
    &&& records(session.end@, now)
    &&& session.duration_secs == clock::seconds_between(start, now)
    &&& session.weekday == calendar::weekday_of(now.day())
    &&& session.start_hour == start.minute_of_day() / 60
    &&& session.end_hour == now.minute_of_day() / 60
}

/// What follows while the room is live.
pub open spec fn seen_live(
    step: Step,
    before: RuntimeState,
    now: LocalTime,
    announce: Announce,
    name: Seq<char>,
) -> bool {
    &&& step.state.room_id == before.room_id
    &&& step.state.consecutive_failures == 0
    &&& step.state.is_live
    &&& step.save == (!before.is_live || before.consecutive_failures != 0)
    &&& if before.is_live {
        &&& step.state.current_start == before.current_start
        &&& step.event is GoesOn
    } else {
        &&& step.state.current_start matches Some(text)
        &&& records(text@, now)
        &&& step.event matches Event::Began { announcement }
        &&& announcement is Some <==> announce.on_start
        &&& announcement matches Some(text) ==> text@ == name + "开播啦！"@
    }
}

/// What follows while the room is not live.
pub open spec fn seen_off(
    step: Step,
    room_id: u64,
    before: RuntimeState,
    now: LocalTime,
    offset: i32,
    announce: Announce,
) -> bool {
    let seconds = clock::seconds_between(start_moment(before, now, offset), now);
    &&& step.state.room_id == before.room_id
    &&& step.state.consecutive_failures == 0
    &&& !step.state.is_live
    &&& step.save == (before.is_live || before.consecutive_failures != 0)
    &&& if !before.is_live {
        &&& step.state.current_start == before.current_start
        &&& step.event is Idle
    } else {
        &&& step.state.current_start is None
        &&& if seconds >= MIN_SESSION_SECS {
            &&& step.event matches Event::Ended { session, announce: told }
            &&& is_record(session, room_id, before, now, offset)
            &&& told == announce.on_end
        } else {
            step.event == (Event::TooShort { seconds: seconds as i64 })
        }
    }
}

/// What follows where the status has no meaning.
pub open spec fn seen_unknown(step: Step, status: u32, before: RuntimeState) -> bool {
    &&& step.state == (RuntimeState { consecutive_failures: 0, ..before })
    &&& step.save == (before.consecutive_failures != 0)
    &&& step.event == (Event::Unknown { status })
}

/// What follows where the status could not be had. The state of the stream
/// stays as it was.
pub open spec fn seen_nothing(step: Step, before: RuntimeState) -> bool {
    let failures = (before.consecutive_failures + 1) as u32;
    &&& step.state == (RuntimeState { consecutive_failures: failures, ..before })
    &&& step.save
    &&& step.event == (Event::Failed {
        failures,
        persistent: failures >= MAX_CONSECUTIVE_FAILURES,
    })
}

/// Whether `step` follows from a status at the moment `now`. The local clock
/// was `offset` seconds ahead when the stream began.
pub open spec fn follows(
    step: Step,
    status: Option<u32>,
    room_id: u64,
    name: Seq<char>,
    before: RuntimeState,
    now: LocalTime,
    offset: i32,
    announce: Announce,
) -> bool {
    match status {
        Some(1) => seen_live(step, before, now, announce, name),
        Some(0) | Some(2) => seen_off(step, room_id, before, now, offset, announce),
        Some(status) => seen_unknown(step, status, before),
        None => seen_nothing(step, before),
    }
}

/// What follows from a status at the moment `now`, where the local clock was
/// `start_offset` seconds ahead when the stream began.
pub fn observe(
    status: Option<u32>,
    room_id: u64,
    name: &str,
    state: RuntimeState,
    now: LocalTime,
    start_offset: i32,
    announce: Announce,
) -> (r: Step)
    requires
        now.valid(),
        clock::valid_offset(start_offset as int),
        status is None ==> state.consecutive_failures < u32::MAX,
    ensures
        follows(r, status, room_id, name@, state, now, start_offset, announce),
{
    let mut after: RuntimeState = state.clone_state();
    let failed: bool = state.consecutive_failures != 0;
    match status {
        Some(1) => {
            after.consecutive_failures = 0;
            if state.is_live {
                return Step { state: after, save: failed, event: Event::GoesOn };
            }
            after.is_live = true;
            after.current_start = Some(now.to_rfc3339());
            let announcement: Option<String> = if announce.on_start {
                let mut text: String = name.to_owned();
                text.append("开播啦！");
                Some(text)
            } else {
                None
            };
            Step { state: after, save: true, event: Event::Began { announcement } }
        },
        Some(0) | Some(2) => {
            after.consecutive_failures = 0;
            if !state.is_live {
                return Step { state: after, save: failed, event: Event::Idle };
            }
            after.is_live = false;
            after.current_start = None;
            let start_text: String = match state.current_start {
                Some(text) => text,
                None => now.to_rfc3339(),
            };
            let start: LocalTime = match parse_datetime_at(&start_text, start_offset) {
                Some(start) => start,
                None => now,
            };
            let seconds: i64 = start.seconds_until(now);
            if seconds < MIN_SESSION_SECS as i64 {
                return Step { state: after, save: true, event: Event::TooShort { seconds } };
            }
            let session = LiveSession {
                room_id,
                start: start_text,
                end: now.to_rfc3339(),
                duration_secs: seconds as u64,
                weekday: now.date_naive().weekday(),
                start_hour: start.hour(),
                end_hour: now.hour(),
            };
            Step {
                state: after,
                save: true,
                event: Event::Ended { session, announce: announce.on_end },
            }
        },
        Some(status) => {
            after.consecutive_failures = 0;
            Step { state: after, save: failed, event: Event::Unknown { status } }
        },
        None => {
            let failures: u32 = state.consecutive_failures + 1;
            after.consecutive_failures = failures;
            Step {
                state: after,
                save: true,
                event: Event::Failed {
                    failures,
                    persistent: failures >= MAX_CONSECUTIVE_FAILURES,
                },
            }
        },
    }
}

impl RuntimeState {
    fn clone_state(&self) -> (r: RuntimeState)
        ensures
            r == *self,
    {
        RuntimeState {
            room_id: self.room_id,
            is_live: self.is_live,
            current_start: match &self.current_start {
                Some(text) => Some(text.clone()),
                None => None,
            },
            consecutive_failures: self.consecutive_failures,
        }
    }
}

/// Whether a stream begins or ends with this status, so that the time matters.
pub open spec fn turning(status: Option<u32>, state: RuntimeState) -> bool {
    match status {
        Some(1) => !state.is_live,
        Some(0) | Some(2) => state.is_live,
        _ => false,
    }
}

/// Whether the machine's time zone gives the offset for the start of the
/// stream under way.
pub open spec fn start_given(state: RuntimeState, now: LocalTime, offset: i32) -> bool {
    clock::moment_in_text(start_text(state, now), offset) matches Some(start)
        ==> reading::given_by_zone(start)
}

/// Whether `step` follows from a status at the moment that the machine's clock
/// shows, where a stream that began did so on the machine's local clock.
pub open spec fn follows_now(
    step: Step,
    status: Option<u32>,
    room_id: u64,
    name: Seq<char>,
    before: RuntimeState,
    announce: Announce,
) -> bool {
    exists|now: LocalTime, offset: i32|
        now.valid() && now.utc >= 0 && clock::valid_offset(offset as int) && (turning(
            status,
            before,
        ) ==> reading::shown_by_clock(now) && start_given(before, now, offset))
            && #[trigger] follows(
            step,
            status,
            room_id,
            name,
            before,
            now,
            offset,
            announce,
        )
}

/// What follows from a status at this moment, by the machine's clock. The
/// clock is read only where a stream begins or ends.
pub fn check_and_notify(
    status: Option<u32>,
    room_id: u64,
    name: &str,
    state: RuntimeState,
    announce: Announce,
) -> (r: Step)
    requires
        status is None ==> state.consecutive_failures < u32::MAX,
    ensures
        follows_now(r, status, room_id, name@, state, announce),
{
    let turning: bool = match status {
        Some(1) => !state.is_live,
        Some(0) | Some(2) => state.is_live,
        _ => false,
    };
    let now: LocalTime = if turning {
        local_now()
    } else {
        LocalTime { utc: 0, nanos: 0, offset: 0 }
    };
    let start_text: String = match &state.current_start {
        Some(text) => text.clone(),
        None => now.to_rfc3339(),
    };
    let start_offset: i32 = match parse_datetime(&start_text) {
        Some(start) => start.offset,
        None => now.offset,
    };
    let ghost before = state;
    let step: Step = observe(status, room_id, name, state, now, start_offset, announce);
    assert(follows(step, status, room_id, name@, before, now, start_offset, announce));
    step
}

/// No check makes a consistent state inconsistent, whatever the status is.
pub proof fn law_state_stays_consistent(
    step: Step,
    status: Option<u32>,
    room_id: u64,
    name: Seq<char>,
    before: RuntimeState,
    now: LocalTime,
    offset: i32,
    announce: Announce,
)
    requires
        before.consistent(),
        follows(step, status, room_id, name, before, now, offset, announce),
    ensures
        step.state.consistent(),
        step.state.room_id == before.room_id,
{
}

/// What is stored counts failures in a row: a check that succeeds brings the
/// count to zero, one that fails adds one, and a state that is not saved is the
/// one that was stored.
pub proof fn law_failures_are_counted_in_a_row(
    step: Step,
    status: Option<u32>,
    room_id: u64,
    name: Seq<char>,
    before: RuntimeState,
    now: LocalTime,
    offset: i32,
    announce: Announce,
)
    requires
        status is None ==> before.consecutive_failures < u32::MAX,
        follows(step, status, room_id, name, before, now, offset, announce),
    ensures
        status is Some ==> step.state.consecutive_failures == 0,
        status is None ==> step.state.consecutive_failures == before.consecutive_failures + 1,
        !step.save ==> step.state == before,
{
}

/// A failed check leaves a stream as it was, however many came before.
pub proof fn law_failures_end_no_stream(
    step: Step,
    room_id: u64,
    name: Seq<char>,
    before: RuntimeState,
    now: LocalTime,
    offset: i32,
    announce: Announce,
)
    requires
        follows(step, None, room_id, name, before, now, offset, announce),
    ensures
        step.state.is_live == before.is_live,
        step.state.current_start == before.current_start,
        step.event is Failed,
{
}

/// The recorded start of a stream stays as it is until the stream is seen to
/// be over.
pub proof fn law_start_is_kept_while_live(
    step: Step,
    status: Option<u32>,
    room_id: u64,
    name: Seq<char>,
    before: RuntimeState,
    now: LocalTime,
    offset: i32,
    announce: Announce,
)
    requires
        before.is_live,
        status != Some(0u32),
        status != Some(2u32),
        follows(step, status, room_id, name, before, now, offset, announce),
    ensures
        step.state.is_live,
        step.state.current_start == before.current_start,
        !(step.event is Began),
        !(step.event is Ended),
{
}

/// Whatever is recorded lasted at least [`MIN_SESSION_SECS`], and nothing is
/// recorded unless a stream was under way.
pub proof fn law_short_streams_are_not_recorded(
    step: Step,
    status: Option<u32>,
    room_id: u64,
    name: Seq<char>,
    before: RuntimeState,
    now: LocalTime,
    offset: i32,
    announce: Announce,
)
    requires
        follows(step, status, room_id, name, before, now, offset, announce),
    ensures
        step.event matches Event::Ended { session, announce: told } ==> {
            &&& before.is_live
            &&& session.duration_secs >= MIN_SESSION_SECS
        },
{
}

/// A stream that is seen to begin at one moment and to be over at a later one
/// is recorded with the seconds between the two and with both moments, if it
/// lasted long enough, and otherwise it is dropped.
pub proof fn law_stream_is_recorded_from_begin_to_end(
    first: Step,
    second: Step,
    status: u32,
    room_id: u64,
    name: Seq<char>,
    before: RuntimeState,
    began: LocalTime,
    ended: LocalTime,
    first_offset: i32,
    announce: Announce,
)
    requires
        status == 0 || status == 2,
        !before.is_live,
        readable(began),
        follows(first, Some(1), room_id, name, before, began, first_offset, announce),
        follows(second, Some(status), room_id, name, first.state, ended, began.offset, announce),
    ensures
        !second.state.is_live,
        clock::seconds_between(began, ended) >= MIN_SESSION_SECS ==> {
            &&& second.event matches Event::Ended { session, announce: told }
            &&& session.room_id == room_id
            &&& session.duration_secs == clock::seconds_between(began, ended)
            &&& records(session.start@, began)
            &&& records(session.end@, ended)
            &&& session.start_hour == began.minute_of_day() / 60
            &&& session.end_hour == ended.minute_of_day() / 60
        },
        clock::seconds_between(began, ended) < MIN_SESSION_SECS ==> second.event is TooShort,
{
    assert(start_moment(first.state, ended, began.offset) == began);
}

/// A recorded session that is read again, on whatever clock, lasts from the
/// moment at which the stream began to the one at which it ended.
pub proof fn law_recorded_session_is_read_back(
    began: LocalTime,
    ended: LocalTime,
    timed: TimedSession,
)
    requires
        readable(began),
        readable(ended),
        records(timed.session.start@, began),
        records(timed.session.end@, ended),
        timed.valid(),
        timed.faithful(),
    ensures
        timed.span matches Some(span) && {
            &&& span.start.utc == began.utc && span.start.nanos == began.nanos
            &&& span.end.utc == ended.utc && span.end.nanos == ended.nanos
            &&& clock::seconds_between(span.start, span.end) == clock::seconds_between(began, ended)
        },
{
}

/// A stream that begins is noted with the moment at which it was seen, saved,
/// and announced with the name of the streamer where that is wanted.
pub proof fn law_begin_is_noted_and_announced(
    step: Step,
    room_id: u64,
    name: Seq<char>,
    before: RuntimeState,
    now: LocalTime,
    offset: i32,
    announce: Announce,
)
    requires
        !before.is_live,
        follows(step, Some(1), room_id, name, before, now, offset, announce),
    ensures
        step.save,
        step.state.is_live,
        step.state.current_start matches Some(text) && text@ == clock::rfc3339_writing(
            now.utc,
            now.nanos,
            now.offset,
        ),
        ({
            &&& step.event matches Event::Began { announcement }
            &&& announcement is Some <==> announce.on_start
            &&& announcement matches Some(text) ==> text@ == name + "开播啦！"@
        }),
{
}

/// A stream that has ended is recorded with its room, the text of its start, the
/// moment at which it was seen to be over, the seconds between the two, the day
/// of the week of its end and the hours on the local clock, if it lasted at least
/// three minutes; otherwise its seconds are reported and nothing is recorded.
pub proof fn law_end_is_recorded(
    step: Step,
    status: u32,
    room_id: u64,
    name: Seq<char>,
    before: RuntimeState,
    now: LocalTime,
    offset: i32,
    announce: Announce,
)
    requires
        before.is_live,
        status == 0 || status == 2,
        follows(step, Some(status), room_id, name, before, now, offset, announce),
    ensures
        step.save,
        !step.state.is_live,
        step.state.current_start is None,
        ({
            let text = match before.current_start {
                Some(text) => text@,
                None => clock::rfc3339_writing(now.utc, now.nanos, now.offset),
            };
            let start = match clock::rfc3339_reading(text) {
                Some(read) => LocalTime { utc: read.0, nanos: read.1, offset },
                None => now,
            };
            let seconds = clock::seconds_between(start, now);
            &&& seconds >= 180 ==> {
                &&& step.event matches Event::Ended { session, announce: told }
                &&& told == announce.on_end
                &&& session.room_id == room_id
                &&& session.start@ == text
                &&& session.end@ == clock::rfc3339_writing(now.utc, now.nanos, now.offset)
                &&& session.duration_secs == seconds
                &&& session.weekday == calendar::weekday_of(now.day())
                &&& 3600 * session.start_hour <= start.second_of_day() < 3600 * session.start_hour
                    + 3600
                &&& 3600 * session.end_hour <= now.second_of_day() < 3600 * session.end_hour + 3600
            }
            &&& seconds < 180 ==> {
                &&& step.event matches Event::TooShort { seconds: shown }
                &&& shown == seconds as i64
            }
        }),
{
}

/// Where nothing changes, nothing is reported as a change: a stream that is
/// still live goes on, a room without one stays idle, a status without a meaning
/// is reported as it came, and failures are called persistent from the third in
/// a row on.
pub proof fn law_other_checks_change_nothing(
    step: Step,
    status: Option<u32>,
    room_id: u64,
    name: Seq<char>,
    before: RuntimeState,
    now: LocalTime,
    offset: i32,
    announce: Announce,
)
    requires
        !turning(status, before),
        status is None ==> before.consecutive_failures < u32::MAX,
        follows(step, status, room_id, name, before, now, offset, announce),
    ensures
        step.state.is_live == before.is_live,
        step.state.current_start == before.current_start,
        step.state.room_id == before.room_id,
        status == Some(1u32) ==> step.event is GoesOn,
        status == Some(0u32) || status == Some(2u32) ==> step.event is Idle,
        status matches Some(other) && other > 2 ==> (step.event matches Event::Unknown {
            status: shown,
        } && Some(shown) == status),
        status is None ==> (step.event matches Event::Failed { failures, persistent } && failures
            == before.consecutive_failures + 1 && persistent == (failures >= 3)),
        status is Some ==> step.save == (before.consecutive_failures != 0),
        status is None ==> step.save,
{
}

/// A stream that a check finds to be over is recorded up to the moment that the
/// machine's clock shows: its length is the seconds from the recorded start to
/// that moment, and that moment is its end.
pub proof fn law_streams_end_by_the_clock(
    step: Step,
    status: u32,
    room_id: u64,
    name: Seq<char>,
    before: RuntimeState,
    announce: Announce,
    start: LocalTime,
)
    requires
        before.is_live,
        status == 0 || status == 2,
        before.current_start matches Some(text) && clock::rfc3339_reading(text@) == Some(
            (start.utc, start.nanos, start.offset),
        ),
        follows_now(step, Some(status), room_id, name, before, announce),
    ensures
        exists|now: LocalTime| #[trigger]
            reading::shown_by_clock(now) && {
                let seconds = clock::seconds_between(start, now);
                &&& seconds >= 180 ==> {
                    &&& step.event matches Event::Ended { session, announce: told }
                    &&& session.duration_secs == seconds
                    &&& session.end@ == clock::rfc3339_writing(now.utc, now.nanos, now.offset)
                    &&& session.weekday == calendar::weekday_of(now.day())
                    &&& session.end_hour == now.minute_of_day() / 60
                }
                &&& seconds < 180 ==> step.event is TooShort
            },
{
    let (now, offset) = choose|now: LocalTime, offset: i32|
        now.valid() && now.utc >= 0 && clock::valid_offset(offset as int) && (turning(
            Some(status),
            before,
        ) ==> reading::shown_by_clock(now) && start_given(before, now, offset))
            && #[trigger] follows(
            step,
            Some(status),
            room_id,
            name,
            before,
            now,
            offset,
            announce,
        );
    assert(reading::shown_by_clock(now));
    let begun = start_moment(before, now, offset);
    assert(clock::seconds_between(begun, now) == clock::seconds_between(start, now));
}

/// A stream that a check finds to have begun is noted with the moment that the
/// machine's clock shows.
pub proof fn law_streams_begin_by_the_clock(
    step: Step,
    room_id: u64,
    name: Seq<char>,
    before: RuntimeState,
    announce: Announce,
)
    requires
        !before.is_live,
        follows_now(step, Some(1), room_id, name, before, announce),
    ensures
        step.state.current_start is Some,
        exists|now: LocalTime| #[trigger]
            reading::shown_by_clock(now) && step.state.current_start->0@ == clock::rfc3339_writing(
                now.utc,
                now.nanos,
                now.offset,
            ),
{
    let (now, offset) = choose|now: LocalTime, offset: i32|
        now.valid() && now.utc >= 0 && clock::valid_offset(offset as int) && (turning(
            Some(1),
            before,
        ) ==> reading::shown_by_clock(now) && start_given(before, now, offset))
            && #[trigger] follows(
            step,
            Some(1),
            room_id,
            name,
            before,
            now,
            offset,
            announce,
        );
    assert(reading::shown_by_clock(now));
}

} // verus!

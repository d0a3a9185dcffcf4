//! Messages of a group: which of them ask for something, and the answer.
use vstd::prelude::*;

use crate::config::LiveRoom;

verus! {

/// Whether `pattern` stands in `text` from place `i` on.
pub open spec fn stands_at(text: Seq<char>, pattern: Seq<char>, i: int) -> bool {
    0 <= i <= text.len() - pattern.len() && text.subrange(i, i + pattern.len()) == pattern
}

/// Whether `pattern` stands somewhere in `text`.
pub open spec fn has_text(text: Seq<char>, pattern: Seq<char>) -> bool {
    exists|i: int| stands_at(text, pattern, i)
}

/// The characters that Unicode counts as white space.
pub open spec fn is_white(c: char) -> bool {
    let code = c as u32;
    ||| 0x9 <= code <= 0xd
    ||| code == 0x20
    ||| code == 0x85
    ||| code == 0xa0
    ||| code == 0x1680
    ||| 0x2000 <= code <= 0x200a
    ||| code == 0x2028
    ||| code == 0x2029
    ||| code == 0x202f
    ||| code == 0x205f
    ||| code == 0x3000
}

/// The text without the white space at its beginning.
pub open spec fn without_leading_white(text: Seq<char>) -> Seq<char>
    decreases text.len(),
{
    if text.len() > 0 && is_white(text.first()) {
        without_leading_white(text.drop_first())
    } else {
        text
    }
}

/// The text without the white space at its end.
pub open spec fn without_trailing_white(text: Seq<char>) -> Seq<char>
    decreases text.len(),
{
    if text.len() > 0 && is_white(text.last()) {
        without_trailing_white(text.drop_last())
    } else {
        text
    }
}

/// The text without the white space at either end.
pub open spec fn trimmed(text: Seq<char>) -> Seq<char> {
    without_trailing_white(without_leading_white(text))
}

/// What `str::to_lowercase` makes of a text.
pub uninterp spec fn lowercase(text: Seq<char>) -> Seq<char>;

/// `str::contains` with a text as the pattern.
#[verifier::external_body]
pub(crate) fn contains(text: &str, pattern: &str) -> (r: bool)
    ensures
        r == has_text(text@, pattern@),
{
    text.contains(pattern)
}

/// `str::to_lowercase`: the lower case of the text, by Unicode.
#[verifier::external_body]
fn to_lowercase(text: &str) -> (r: String)
    ensures
        r@ == lowercase(text@),
{
    text.to_lowercase()
}

/// `str::trim`: the text without white space at either end.
#[verifier::external_body]
pub(crate) fn trim(text: &str) -> (r: &str)
    ensures
        r@ == trimmed(text@),
{
    text.trim()
}

/// Whether a message, in lower case, asks how the stream is going: it names
/// the streamer, speaks of a stream or of today, and does not change a setting.
pub open spec fn asks_for_live(text: Seq<char>) -> bool {
    &&& has_text(text, "土豆"@)
    &&& {
        ||| has_text(text, "直播"@)
        ||| has_text(text, "播了"@)
        ||| has_text(text, "播没"@)
        ||| has_text(text, "开播"@)
        ||| has_text(text, "今天"@)
        ||| has_text(text, "今天有"@)
        ||| has_text(text, "状态"@)
        ||| has_text(text, "情况"@)
    }
    &&& !has_text(text, "开启"@)
    &&& !has_text(text, "关闭"@)
    &&& !has_text(text, "开播提醒"@)
    &&& !has_text(text, "关播提醒"@)
    &&& !has_text(text, "设置"@)
}

/// Whether a message asks how the stream is going.
pub fn is_live_query(msg: &str) -> (r: bool)
    ensures
        r == asks_for_live(lowercase(msg@)),
{
    let lower: String = to_lowercase(msg);
    is_lowercase_live_query(&lower)
}

/// Whether a message that is in lower case asks how the stream is going.
pub fn is_lowercase_live_query(msg: &str) -> (r: bool)
    ensures
        r == asks_for_live(msg@),
{
    if !contains(msg, "土豆") {
        return false;
    }
    let has_live: bool = contains(msg, "直播") || contains(msg, "播了") || contains(msg, "播没")
        || contains(msg, "开播");
    let has_query: bool = contains(msg, "今天") || contains(msg, "今天有") || contains(msg, "状态")
        || contains(msg, "情况");
    if !has_live && !has_query {
        return false;
    }
    !(contains(msg, "开启") || contains(msg, "关闭") || contains(msg, "开播提醒") || contains(
        msg,
        "关播提醒",
    ) || contains(msg, "设置"))
}

/// The reports that can be asked for.
#[derive(Clone, Copy, Debug, PartialEq, Eq, Structural)]
pub enum ReportKind {
    Weekly,
    Monthly,
    Yearly,
}

/// The name of a report.
pub open spec fn report_name(kind: ReportKind) -> Seq<char> {
    match kind {
        ReportKind::Weekly => "weekly"@,
        ReportKind::Monthly => "monthly"@,
        ReportKind::Yearly => "yearly"@,
    }
}

/// The report that a message asks for: the first in this order whose name
/// stands in it.
pub open spec fn report_asked(text: Seq<char>) -> Option<ReportKind> {
    if has_text(text, "土豆周报"@) {
        Some(ReportKind::Weekly)
    } else if has_text(text, "土豆月报"@) {
        Some(ReportKind::Monthly)
    } else if has_text(text, "土豆年报"@) {
        Some(ReportKind::Yearly)
    } else if has_text(text, "🥔周报"@) {
        Some(ReportKind::Weekly)
    } else if has_text(text, "🥔月报"@) {
        Some(ReportKind::Monthly)
    } else if has_text(text, "🥔年报"@) {
        Some(ReportKind::Yearly)
    } else {
        None
    }
}

/// The report that a message asks for.
fn find_report(msg: &str) -> (r: Option<ReportKind>)
    ensures
        r == report_asked(msg@),
{
    if contains(msg, "土豆周报") {
        Some(ReportKind::Weekly)
    } else if contains(msg, "土豆月报") {
        Some(ReportKind::Monthly)
    } else if contains(msg, "土豆年报") {
        Some(ReportKind::Yearly)
    } else if contains(msg, "🥔周报") {
        Some(ReportKind::Weekly)
    } else if contains(msg, "🥔月报") {
        Some(ReportKind::Monthly)
    } else if contains(msg, "🥔年报") {
        Some(ReportKind::Yearly)
    } else {
        None
    }
}

/// The name of the report that a message asks for.
pub fn is_report_query(msg: &str) -> (r: Option<&'static str>)
    ensures
        r is Some <==> report_asked(msg@) is Some,
        r matches Some(name) ==> name@ == report_name(report_asked(msg@)->0),
{
    match find_report(msg) {
        Some(ReportKind::Weekly) => Some("weekly"),
        Some(ReportKind::Monthly) => Some("monthly"),
        Some(ReportKind::Yearly) => Some("yearly"),
        None => None,
    }
}

/// Nanoseconds for which the same report is not given again.
pub const COOLDOWN_NANOS: u64 = 60000000000;

/// When each report was last asked for and given, in nanoseconds of a clock
/// that never runs backwards.
#[derive(Clone, Copy, Debug, PartialEq, Eq, Structural)]
pub struct Cooldown {
    pub weekly: Option<u64>,
    pub monthly: Option<u64>,
    pub yearly: Option<u64>,
}

impl Cooldown {
    pub open spec fn last(self, kind: ReportKind) -> Option<u64> {
        match kind {
            ReportKind::Weekly => self.weekly,
            ReportKind::Monthly => self.monthly,
            ReportKind::Yearly => self.yearly,
        }
    }

    /// Whether a report was given less than a minute ago.
    pub open spec fn holds_back(self, kind: ReportKind, now: u64) -> bool {
        self.last(kind) matches Some(last) && now - last < COOLDOWN_NANOS
    }

    /// A state in which nothing was asked for yet.
    pub fn new() -> (r: Cooldown)
        ensures
            forall|kind: ReportKind| #[trigger] r.last(kind) is None,
    {
        Cooldown { weekly: None, monthly: None, yearly: None }
    }

    fn is_held_back(&self, kind: ReportKind, now: u64) -> (r: bool)
        ensures
            r == self.holds_back(kind, now),
    {
        let last: Option<u64> = match kind {
            ReportKind::Weekly => self.weekly,
            ReportKind::Monthly => self.monthly,
            ReportKind::Yearly => self.yearly,
        };
        match last {
            Some(last) => now < last || now - last < COOLDOWN_NANOS,
            None => false,
        }
    }

    fn note(&mut self, kind: ReportKind, now: u64)
        ensures
            forall|k: ReportKind| #[trigger]
                final(self).last(k) == if k == kind {
                    Some(now)
                } else {
                    old(self).last(k)
                },
    {
        match kind {
            ReportKind::Weekly => {
                self.weekly = Some(now);
            },
            ReportKind::Monthly => {
                self.monthly = Some(now);
            },
            ReportKind::Yearly => {
                self.yearly = Some(now);
            },
        }
    }
}

/// What a message of a group leads to.
#[derive(Clone, Debug, PartialEq, Eq)]
pub enum GroupReply {
    /// Nothing: the message is not for us.
    Ignore,
    /// A text.
    Text(String),
    /// The picture at an address.
    Image(String),
    /// A report of a room, still to be made.
    Report { kind: ReportKind, room_id: u64, name: String },
}

/// Whether `reply` answers a message without white space around it, at the
/// time `now`. A report counts as given even where there is no room.
pub open spec fn answers(
    reply: GroupReply,
    text: Seq<char>,
    now: u64,
    rooms: Seq<LiveRoom>,
    cooldown: Cooldown,
) -> bool {
    match report_asked(text) {
        None => reply is Ignore,
        Some(kind) => if cooldown.holds_back(kind, now) {
            reply matches GroupReply::Text(answer) && answer@ == "操作过于频繁，请稍后再试"@
        } else if rooms.len() == 0 {
            reply matches GroupReply::Text(answer) && answer@ == "暂无配置的直播间"@
        } else {
            reply matches GroupReply::Report { kind: given, room_id, name } && {
                &&& given == kind
                &&& room_id == rooms[0].room_id
                &&& name@ == rooms[0].name@
            }
        },
    }
}

/// Whether `after` is what remains of the cooldown once a message was
/// answered at the time `now`.
pub open spec fn cooled(after: Cooldown, text: Seq<char>, now: u64, before: Cooldown) -> bool {
    forall|k: ReportKind| #[trigger]
        after.last(k) == if report_asked(text) == Some(k) && !before.holds_back(k, now) {
            Some(now)
        } else {
            before.last(k)
        }
}

/// Answers a message of a group.
pub fn handle_group_msg(
    msg: &str,
    now: u64,
    rooms: &[LiveRoom],
    cooldown: &mut Cooldown,
) -> (r: GroupReply)
    ensures
        answers(
            r,
            trimmed(msg@),
            now,
            rooms@,
            *old(cooldown),
        ),
        cooled(
            *final(cooldown),
            trimmed(msg@),
            now,
            *old(cooldown),
        ),
{
    let kind: ReportKind = match find_report(trim(msg)) {
        Some(kind) => kind,
        None => {
            return GroupReply::Ignore;
        },
    };
    if cooldown.is_held_back(kind, now) {
        return GroupReply::Text("操作过于频繁，请稍后再试".to_owned());
    }
    cooldown.note(kind, now);
    if rooms.len() == 0 {
        return GroupReply::Text("暂无配置的直播间".to_owned());
    }
    GroupReply::Report { kind, room_id: rooms[0].room_id, name: rooms[0].name.clone() }
}

/// What became of a report: the address of its picture and success, or
/// nothing and failure.
pub fn report_result(image: Option<String>) -> (r: (String, bool))
    ensures
        r.1 == image is Some,
        image matches Some(url) ==> r.0 == url,
        image is None ==> r.0@.len() == 0,
{
    match image {
        Some(url) => (url, true),
        None => (String::new(), false),
    }
}

/// The answer once a report was made: its picture, or an apology.
pub fn report_reply(result: String, success: bool) -> (r: GroupReply)
    ensures
        success ==> r == GroupReply::Image(result),
        !success ==> (r matches GroupReply::Text(answer) && answer@ == "报表生成失败，请稍后再试"@),
{
    if success {
        GroupReply::Image(result)
    } else {
        GroupReply::Text("报表生成失败，请稍后再试".to_owned())
    }
}

/// A report that was just given is held back for a minute, and no longer; the
/// other reports are not.
pub proof fn law_cooldown_lasts_a_minute(
    text: Seq<char>,
    now: u64,
    later: u64,
    before: Cooldown,
    after: Cooldown,
    kind: ReportKind,
)
    requires
        cooled(after, text, now, before),
        report_asked(text) == Some(kind),
        !before.holds_back(kind, now),
        now <= later,
    ensures
        after.holds_back(kind, later) <==> later < now + COOLDOWN_NANOS,
        forall|other: ReportKind|
            other != kind ==> (#[trigger] after.holds_back(other, later) <==> before.holds_back(
                other,
                later,
            )),
{
    assert forall|other: ReportKind| other != kind implies #[trigger] after.holds_back(other, later)
        == before.holds_back(other, later) by {
        assert(after.last(other) == before.last(other));
    }
    assert(after.last(kind) == Some(now));
}

/// The words that speak of a stream or of today.
pub open spec fn asking_words() -> Seq<Seq<char>> {
    seq!["直播"@, "播了"@, "播没"@, "开播"@, "今天"@, "今天有"@, "状态"@, "情况"@]
}

/// The words that change a setting.
pub open spec fn setting_words() -> Seq<Seq<char>> {
    seq!["开启"@, "关闭"@, "开播提醒"@, "关播提醒"@, "设置"@]
}

/// A message asks how the stream is going exactly if it names the streamer, has
/// one of the words that ask, and none of those that change a setting.
pub proof fn law_live_query_has_its_words(text: Seq<char>)
    ensures
        asks_for_live(text) <==> {
            &&& has_text(text, "土豆"@)
            &&& exists|i: int|
                0 <= i < asking_words().len() && has_text(text, #[trigger] asking_words()[i])
            &&& forall|i: int|
                0 <= i < setting_words().len() ==> !has_text(text, #[trigger] setting_words()[i])
        },
{
    let asking = asking_words();
    let setting = setting_words();
    assert(asking[0] == "直播"@ && asking[1] == "播了"@ && asking[2] == "播没"@ && asking[3]
        == "开播"@ && asking[4] == "今天"@ && asking[5] == "今天有"@ && asking[6] == "状态"@
        && asking[7] == "情况"@);
    assert(setting[0] == "开启"@ && setting[1] == "关闭"@ && setting[2] == "开播提醒"@
        && setting[3] == "关播提醒"@ && setting[4] == "设置"@);
}

/// The names of the reports in a message, in the order in which they count.
pub open spec fn report_patterns() -> Seq<(Seq<char>, ReportKind)> {
    seq![
        ("土豆周报"@, ReportKind::Weekly),
        ("土豆月报"@, ReportKind::Monthly),
        ("土豆年报"@, ReportKind::Yearly),
        ("🥔周报"@, ReportKind::Weekly),
        ("🥔月报"@, ReportKind::Monthly),
        ("🥔年报"@, ReportKind::Yearly),
    ]
}

/// A message asks for the report of the first name that stands in it, and for
/// none where none does.
pub proof fn law_first_report_name_counts(text: Seq<char>, i: int)
    requires
        0 <= i < report_patterns().len(),
    ensures
        has_text(text, report_patterns()[i].0) && (forall|j: int|
            0 <= j < i ==> !has_text(text, (#[trigger] report_patterns()[j]).0))
            ==> report_asked(text) == Some(report_patterns()[i].1),
        (forall|j: int|
            0 <= j < report_patterns().len() ==> !has_text(
                text,
                (#[trigger] report_patterns()[j]).0,
            )) ==> report_asked(text) is None,
        report_asked(text) is Some ==> exists|j: int|
            0 <= j < report_patterns().len() && has_text(text, (#[trigger] report_patterns()[j]).0),
{
    let patterns = report_patterns();
    assert(patterns[0] == ("土豆周报"@, ReportKind::Weekly));
    assert(patterns[1] == ("土豆月报"@, ReportKind::Monthly));
    assert(patterns[2] == ("土豆年报"@, ReportKind::Yearly));
    assert(patterns[3] == ("🥔周报"@, ReportKind::Weekly));
    assert(patterns[4] == ("🥔月报"@, ReportKind::Monthly));
    assert(patterns[5] == ("🥔年报"@, ReportKind::Yearly));
}

/// A message that asks for no report is ignored. One that does is told to wait
/// within a minute of the last one of its kind, told where no room is set up, and
/// otherwise leads to that report of the first room.
pub proof fn law_messages_get_their_answer(
    reply: GroupReply,
    text: Seq<char>,
    now: u64,
    rooms: Seq<LiveRoom>,
    cooldown: Cooldown,
)
    requires
        answers(reply, text, now, rooms, cooldown),
    ensures
        report_asked(text) is None <==> reply is Ignore,
        report_asked(text) matches Some(kind) ==> {
            let last = match kind {
                ReportKind::Weekly => cooldown.weekly,
                ReportKind::Monthly => cooldown.monthly,
                ReportKind::Yearly => cooldown.yearly,
            };
            let waiting = last matches Some(last) && now < last + 60000000000;
            &&& waiting ==> (reply matches GroupReply::Text(answer) && answer@
                == "操作过于频繁，请稍后再试"@)
            &&& !waiting && rooms.len() == 0 ==> (reply matches GroupReply::Text(answer) && answer@
                == "暂无配置的直播间"@)
            &&& !waiting && rooms.len() > 0 ==> (reply matches GroupReply::Report {
                kind: given,
                room_id,
                name,
            } && given == kind && room_id == rooms[0].room_id && name@ == rooms[0].name@)
        },
{
}

/// The time of a report is noted exactly where it was not held back; nothing else
/// is changed.
pub proof fn law_only_the_report_is_noted(
    after: Cooldown,
    text: Seq<char>,
    now: u64,
    before: Cooldown,
)
    requires
        cooled(after, text, now, before),
    ensures
        report_asked(text) is None ==> after == before,
        report_asked(text) matches Some(kind) ==> {
            let held = match kind {
                ReportKind::Weekly => before.weekly,
                ReportKind::Monthly => before.monthly,
                ReportKind::Yearly => before.yearly,
            };
            let waiting = held matches Some(last) && now < last + 60000000000;
            &&& waiting ==> after == before
            &&& !waiting ==> after == match kind {
                ReportKind::Weekly => Cooldown { weekly: Some(now), ..before },
                ReportKind::Monthly => Cooldown { monthly: Some(now), ..before },
                ReportKind::Yearly => Cooldown { yearly: Some(now), ..before },
            }
        },
{
    assert(after.last(ReportKind::Weekly) == after.weekly);
    assert(after.last(ReportKind::Monthly) == after.monthly);
    assert(after.last(ReportKind::Yearly) == after.yearly);
}

/// A text stands at the end of what it is appended to.
pub proof fn lemma_stands_at_end(head: Seq<char>, pattern: Seq<char>)
    ensures
        has_text(head + pattern, pattern),
{
    assert((head + pattern).subrange(head.len() as int, (head.len() + pattern.len()) as int)
        =~= pattern);
    assert(stands_at(head + pattern, pattern, head.len() as int));
}

/// What stands in a text still stands in it when more is appended.
pub proof fn lemma_stands_in_longer(text: Seq<char>, pattern: Seq<char>, more: Seq<char>)
    requires
        has_text(text, pattern),
    ensures
        has_text(text + more, pattern),
{
    let i = choose|i: int| stands_at(text, pattern, i);
    assert((text + more).subrange(i, i + pattern.len()) =~= text.subrange(i, i + pattern.len()));
    assert(stands_at(text + more, pattern, i));
}

} // verus!

//! What goes over the wire: addresses, tasks of the scheduler, and the JSON
//! that comes back.
use vstd::prelude::*;

use crate::config::LiveRoom;
use crate::text;
use crate::text::push_digits;

verus! {

/// The number that `serde_json` finds in a document at a JSON pointer. The
/// outer answer is missing where the bytes are no JSON document, the inner one
/// where there is no unsigned number of 64 bits at that place.
pub uninterp spec fn json_number(document: Seq<u8>, pointer: Seq<char>) -> Option<Option<u64>>;

/// The text that `serde_json` finds in a document at a JSON pointer, in the
/// same way.
pub uninterp spec fn json_text(
    document: Seq<u8>,
    pointer: Seq<char>,
) -> Option<Option<Seq<char>>>;

/// `serde_json::from_slice` into a `Value`, then `Value::pointer` and
/// `Value::as_u64`.
#[verifier::external_body]
fn number_at(document: &[u8], pointer: &str) -> (r: Option<Option<u64>>)
    ensures
        r == json_number(document@, pointer@),
{
    let value: serde_json::Value = serde_json::from_slice(document).ok()?;
    Some(value.pointer(pointer).and_then(|found| found.as_u64()))
}

/// `serde_json::from_slice` into a `Value`, then `Value::pointer` and
/// `Value::as_str`.
#[verifier::external_body]
pub(crate) fn text_at(document: &[u8], pointer: &str) -> (r: Option<Option<String>>)
    ensures
        match (r, json_text(document@, pointer@)) {
            (Some(Some(found)), Some(Some(named))) => found@ == named,
            (Some(None), Some(None)) => true,
            (None, None) => true,
            _ => false,
        },
{
    let value: serde_json::Value = serde_json::from_slice(document).ok()?;
    Some(value.pointer(pointer).and_then(|found| found.as_str()).map(|found| found.to_string()))
}

/// `str::starts_with` with a text as the pattern.
#[verifier::external_body]
fn starts_with(text: &str, prefix: &str) -> (r: bool)
    ensures
        r == prefix@.is_prefix_of(text@),
{
    text.starts_with(prefix)
}

/// The name of the scheduler's task for a room.
pub open spec fn task_name(room_id: u64) -> Seq<char> {
    "bilibili_live_"@ + text::decimal(room_id as nat)
}

/// Whether a key stands for itself in a JSON pointer.
pub open spec fn plain_key(key: Seq<char>) -> bool {
    forall|i: int| 0 <= i < key.len() ==> #[trigger] key[i] != '/' && key[i] != '~'
}

/// The JSON pointer to a key of the outermost object.
pub open spec fn pointer_to(key: Seq<char>) -> Seq<char> {
    "/"@ + key
}

/// The text that `serde_json` writes for an object with the given numbers and
/// texts, each under its key.
pub uninterp spec fn json_object(
    numbers: Seq<(Seq<char>, u64)>,
    texts: Seq<(Seq<char>, Seq<char>)>,
) -> Seq<char>;

/// Numbers with the texts of their keys.
pub open spec fn numbers_of(fields: Seq<(&str, u64)>) -> Seq<(Seq<char>, u64)> {
    fields.map_values(|field: (&str, u64)| (field.0@, field.1))
}

/// Texts with the texts of their keys.
pub open spec fn texts_of(fields: Seq<(&str, &str)>) -> Seq<(Seq<char>, Seq<char>)> {
    fields.map_values(|field: (&str, &str)| (field.0@, field.1@))
}

/// `serde_json::Value::to_string` of an object that is collected from its
/// fields, all under different keys. What it writes is named, and reading
/// gives each field back.
#[verifier::external_body]
fn write_object(numbers: &[(&str, u64)], texts: &[(&str, &str)]) -> (r: String)
    requires
        forall|i: int| 0 <= i < numbers@.len() ==> plain_key((#[trigger] numbers@[i]).0@),
        forall|i: int| 0 <= i < texts@.len() ==> plain_key((#[trigger] texts@[i]).0@),
        forall|i: int, j: int|
            0 <= i < j < numbers@.len() ==> (#[trigger] numbers@[i]).0@ != (#[trigger] numbers@[j]).0@,
        forall|i: int, j: int|
            0 <= i < j < texts@.len() ==> (#[trigger] texts@[i]).0@ != (#[trigger] texts@[j]).0@,
        forall|i: int, j: int|
            0 <= i < numbers@.len() && 0 <= j < texts@.len() ==> (#[trigger] numbers@[i]).0@ != (
            #[trigger] texts@[j]).0@,
    ensures
        r@ == json_object(numbers_of(numbers@), texts_of(texts@)),
        forall|i: int|
            0 <= i < numbers@.len() ==> json_number(
                vstd::utf8::encode_utf8(r@),
                pointer_to((#[trigger] numbers@[i]).0@),
            ) == Some(Some(numbers@[i].1)),
        forall|i: int|
            0 <= i < texts@.len() ==> json_text(
                vstd::utf8::encode_utf8(r@),
                pointer_to((#[trigger] texts@[i]).0@),
            ) == Some(Some(texts@[i].1@)),
{
    let numbers = numbers.iter().map(|field| (field.0.to_string(), serde_json::Value::from(field.1)));
    let texts = texts.iter().map(|field| (field.0.to_string(), serde_json::Value::from(field.1)));
    serde_json::Value::Object(numbers.chain(texts).collect()).to_string()
}

/// The payload that names a room.
pub open spec fn room_payload(room_id: u64, name: Seq<char>) -> Seq<char> {
    json_object(seq![("room_id"@, room_id)], seq![("name"@, name)])
}

/// Whether a payload names a room.
pub open spec fn names_room(payload: Seq<char>, room_id: u64, name: Seq<char>) -> bool {
    let document = vstd::utf8::encode_utf8(payload);
    &&& json_number(document, "/room_id"@) == Some(Some(room_id))
    &&& json_text(document, "/name"@) == Some(Some(name))
}

/// What the scheduler hands back when the check of a room is due.
fn write_payload(room: &LiveRoom) -> (r: String)
    ensures
        r@ == room_payload(room.room_id, room.name@),
        names_room(r@, room.room_id, room.name@),
{
    proof {
        reveal_strlit("/");
        reveal_strlit("room_id");
        reveal_strlit("name");
        reveal_strlit("/room_id");
        reveal_strlit("/name");
        assert(pointer_to("room_id"@) =~= "/room_id"@);
        assert(pointer_to("name"@) =~= "/name"@);
        assert("room_id"@[0] != "name"@[0]);
    }
    let numbers: [(&str, u64); 1] = [("room_id", room.room_id)];
    let texts: [(&str, &str); 1] = [("name", room.name.as_str())];
    let r: String = write_object(&numbers, &texts);
    proof {
        assert(numbers@[0].0@ == "room_id"@);
        assert(texts@[0].0@ == "name"@);
        assert(numbers_of(numbers@) =~= seq![("room_id"@, room.room_id)]);
        assert(texts_of(texts@) =~= seq![("name"@, room.name@)]);
    }
    r
}

/// Whether a request to the scheduler asks for the check of a room, every
/// minute.
pub open spec fn asks_for_checks(request: Seq<char>, room_id: u64, name: Seq<char>) -> bool {
    let document = vstd::utf8::encode_utf8(request);
    &&& json_text(document, "/action"@) == Some(Some("schedule"@))
    &&& json_text(document, "/task_name"@) == Some(Some(task_name(room_id)))
    &&& json_text(document, "/cron"@) == Some(Some("0 */1 * * * *"@))
    &&& json_text(document, "/payload"@) matches Some(Some(payload))
    &&& names_room(payload, room_id, name)
}

/// The request to the scheduler that has a room checked every minute.
pub fn schedule_request(room: &LiveRoom) -> (r: String)
    ensures
        r@ == json_object(
            Seq::empty(),
            seq![
                ("action"@, "schedule"@),
                ("task_name"@, task_name(room.room_id)),
                ("cron"@, "0 */1 * * * *"@),
                ("payload"@, room_payload(room.room_id, room.name@)),
            ],
        ),
        asks_for_checks(r@, room.room_id, room.name@),
{
    let mut name: String = "bilibili_live_".to_owned();
    push_digits(&mut name, room.room_id, 1);
    let payload: String = write_payload(room);
    proof {
        reveal_strlit("/");
        reveal_strlit("action");
        reveal_strlit("task_name");
        reveal_strlit("cron");
        reveal_strlit("payload");
        reveal_strlit("/action");
        reveal_strlit("/task_name");
        reveal_strlit("/cron");
        reveal_strlit("/payload");
        assert(pointer_to("action"@) =~= "/action"@);
        assert(pointer_to("task_name"@) =~= "/task_name"@);
        assert(pointer_to("cron"@) =~= "/cron"@);
        assert(pointer_to("payload"@) =~= "/payload"@);
        assert("action"@[0] != "task_name"@[0]);
        assert("action"@[0] != "cron"@[0]);
        assert("action"@[0] != "payload"@[0]);
        assert("task_name"@[0] != "cron"@[0]);
        assert("task_name"@[0] != "payload"@[0]);
        assert("cron"@[0] != "payload"@[0]);
    }
    let numbers: [(&str, u64); 0] = [];
    let texts: [(&str, &str); 4] = [
        ("action", "schedule"),
        ("task_name", name.as_str()),
        ("cron", "0 */1 * * * *"),
        ("payload", payload.as_str()),
    ];
    let r: String = write_object(&numbers, &texts);
    proof {
        let listed = texts@;
        assert(listed[0].0@ == "action"@);
        assert(listed[1].0@ == "task_name"@);
        assert(listed[2].0@ == "cron"@);
        assert(listed[3].0@ == "payload"@);
        assert(numbers_of(numbers@) =~= Seq::empty());
        assert(texts_of(listed) =~= seq![
            ("action"@, "schedule"@),
            ("task_name"@, task_name(room.room_id)),
            ("cron"@, "0 */1 * * * *"@),
            ("payload"@, room_payload(room.room_id, room.name@)),
        ]);
    }
    r
}

/// Whether a task of this name is the check of a room.
pub fn is_live_task(name: &str) -> (r: bool)
    ensures
        r == "bilibili_live_"@.is_prefix_of(name@),
{
    starts_with(name, "bilibili_live_")
}

/// The room of a task's payload, from what the payload holds.
pub fn task_room(room_id: Option<u64>, name: Option<String>) -> (r: LiveRoom)
    ensures
        r.room_id == match room_id {
            Some(id) => id,
            None => 0,
        },
        r.name@ == match name {
            Some(name) => name@,
            None => "unknown"@,
        },
{
    LiveRoom {
        room_id: match room_id {
            Some(id) => id,
            None => 0,
        },
        name: match name {
            Some(name) => name,
            None => "unknown".to_owned(),
        },
    }
}

/// The number and the name of the room that a payload asks to check, where
/// the payload is a JSON document.
pub open spec fn room_in_payload(payload: Seq<u8>) -> Option<(u64, Seq<char>)> {
    match (json_number(payload, "/room_id"@), json_text(payload, "/name"@)) {
        (Some(room_id), Some(name)) => Some(
            (
                match room_id {
                    Some(id) => id,
                    None => 0,
                },
                match name {
                    Some(name) => name,
                    None => "unknown"@,
                },
            ),
        ),
        _ => None,
    }
}

/// The number and the name of the room that an event asks to check. An event
/// that carries no text as its payload counts as one with an empty payload.
pub open spec fn room_in_event(event: Seq<u8>) -> Option<(u64, Seq<char>)> {
    match json_text(event, "/task_name"@) {
        Some(Some(name)) => if "bilibili_live_"@.is_prefix_of(name) {
            match json_text(event, "/payload"@) {
                Some(Some(payload)) => room_in_payload(vstd::utf8::encode_utf8(payload)),
                _ => room_in_payload(vstd::utf8::encode_utf8(""@)),
            }
        } else {
            None
        },
        _ => None,
    }
}

/// When the scheduler hands back the task of a request, with its name and its
/// payload, the room of the request is checked.
pub proof fn law_registered_room_is_checked(
    request: Seq<char>,
    room_id: u64,
    name: Seq<char>,
    event: Seq<u8>,
)
    requires
        asks_for_checks(request, room_id, name),
        json_text(event, "/task_name"@) == json_text(
            vstd::utf8::encode_utf8(request),
            "/task_name"@,
        ),
        json_text(event, "/payload"@) == json_text(vstd::utf8::encode_utf8(request), "/payload"@),
    ensures
        room_in_event(event) == Some((room_id, name)),
{
    let prefix = "bilibili_live_"@;
    assert(task_name(room_id).subrange(0, prefix.len() as int) =~= prefix);
}

fn payload_room(payload: &str) -> (r: Option<LiveRoom>)
    ensures
        match (r, room_in_payload(vstd::utf8::encode_utf8(payload@))) {
            (Some(room), Some(named)) => room.room_id == named.0 && room.name@ == named.1,
            (None, None) => true,
            _ => false,
        },
{
    let bytes: &[u8] = payload.as_bytes();
    match (number_at(bytes, "/room_id"), text_at(bytes, "/name")) {
        (Some(room_id), Some(name)) => Some(task_room(room_id, name)),
        _ => None,
    }
}

/// The room that an event of the scheduler asks to check, if it is such an
/// event.
pub fn handle_task_event(json: &str) -> (r: Option<LiveRoom>)
    ensures
        match (r, room_in_event(vstd::utf8::encode_utf8(json@))) {
            (Some(room), Some(named)) => room.room_id == named.0 && room.name@ == named.1,
            (None, None) => true,
            _ => false,
        },
{
    let bytes: &[u8] = json.as_bytes();
    let name: String = match text_at(bytes, "/task_name") {
        Some(Some(name)) => name,
        _ => {
            return None;
        },
    };
    if !is_live_task(&name) {
        return None;
    }
    match text_at(bytes, "/payload") {
        Some(Some(payload)) => payload_room(&payload),
        _ => payload_room(""),
    }
}

/// The address that tells what is going on in a room.
pub fn status_url(room_id: u64) -> (r: String)
    ensures
        r@ == "https://api.live.bilibili.com/room/v1/Room/get_info?room_id="@ + text::decimal(
            room_id as nat,
        ),
{
    let mut url: String = "https://api.live.bilibili.com/room/v1/Room/get_info?room_id=".to_owned();
    push_digits(&mut url, room_id, 1);
    url
}

/// The status in a reply, from its code and its status field: none unless the
/// code is 0, and only the lower 32 bits of the status.
pub fn live_status(code: Option<u64>, status: Option<u64>) -> (r: Option<u32>)
    ensures
        r is Some <==> code == Some(0u64) && status is Some,
        r matches Some(value) ==> value == status->0 % 0x1_0000_0000,
{
    match (code, status) {
        (Some(0), Some(status)) => Some((status % 0x1_0000_0000) as u32),
        _ => None,
    }
}

/// What `get_live_status` answers, over the numbers found in the reply.
pub open spec fn status_in_reply(reply: Seq<u8>) -> Option<int> {
    match (json_number(reply, "/code"@), json_number(reply, "/data/live_status"@)) {
        (Some(Some(code)), Some(Some(status))) => if code == 0 {
            Some(status as int % 0x1_0000_0000)
        } else {
            None
        },
        _ => None,
    }
}

/// The status of a room: 0 when nothing is streamed, 1 when it is live and 2
/// when recordings are played; none where the reply does not tell.
pub fn get_live_status(reply: &[u8]) -> (r: Option<u32>)
    ensures
        r is Some <==> status_in_reply(reply@) is Some,
        r matches Some(value) ==> status_in_reply(reply@) == Some(value as int),
{
    match (number_at(reply, "/code"), number_at(reply, "/data/live_status")) {
        (Some(code), Some(status)) => live_status(code, status),
        _ => None,
    }
}

/// The first text that is there.
pub open spec fn first_text(
    a: Option<Seq<char>>,
    b: Option<Seq<char>>,
    c: Option<Seq<char>>,
) -> Seq<char> {
    if a is Some {
        a->0
    } else if b is Some {
        b->0
    } else if c is Some {
        c->0
    } else {
        Seq::empty()
    }
}

pub open spec fn text_of(found: Option<String>) -> Option<Seq<char>> {
    match found {
        Some(found) => Some(found@),
        None => None,
    }
}

/// The address of a picture, from the three places where a reply may have it:
/// the first that is there, unless it is empty.
pub fn pick_image(
    image_url: Option<String>,
    url: Option<String>,
    data_url: Option<String>,
) -> (r: Option<String>)
    ensures
        r is Some <==> first_text(text_of(image_url), text_of(url), text_of(data_url)).len() > 0,
        r matches Some(found) ==> found@ == first_text(
            text_of(image_url),
            text_of(url),
            text_of(data_url),
        ),
{
    let found: String = match (image_url, url, data_url) {
        (Some(found), _, _) => found,
        (None, Some(found), _) => found,
        (None, None, Some(found)) => found,
        (None, None, None) => {
            return None;
        },
    };
    if found.as_str().is_empty() {
        None
    } else {
        Some(found)
    }
}

/// The text of a JSON document at a pointer, none too where it is no document.
pub open spec fn text_in(document: Seq<u8>, pointer: Seq<char>) -> Option<Seq<char>> {
    match json_text(document, pointer) {
        Some(found) => found,
        None => None,
    }
}

/// The address of a picture in a reply, empty where there is none.
pub open spec fn image_in_reply(reply: Seq<u8>) -> Seq<char> {
    first_text(
        text_in(reply, "/image_url"@),
        text_in(reply, "/url"@),
        text_in(reply, "/data/url"@),
    )
}

fn found_text(document: &[u8], pointer: &str) -> (r: Option<String>)
    ensures
        text_of(r) == text_in(document@, pointer@),
{
    match text_at(document, pointer) {
        Some(found) => found,
        None => None,
    }
}

/// The address of the picture that a reply to a report gives, where the
/// request succeeded and the reply has one.
pub fn report_image(success: bool, reply: &[u8]) -> (r: Option<String>)
    ensures
        r is Some <==> success && image_in_reply(reply@).len() > 0,
        r matches Some(url) ==> url@ == image_in_reply(reply@),
{
    if success {
        pick_image(
            found_text(reply, "/image_url"),
            found_text(reply, "/url"),
            found_text(reply, "/data/url"),
        )
    } else {
        None
    }
}

/// The name of a task is the prefix of all such tasks and the number of its
/// room, so that different rooms have different tasks.
pub proof fn law_task_name_holds_the_room(room_id: u64, other: u64)
    ensures
        ({
            let prefix = "bilibili_live_"@;
            let digits = task_name(room_id).skip(prefix.len() as int);
            &&& prefix.is_prefix_of(task_name(room_id))
            &&& text::all_digits(digits)
            &&& text::number_in(digits) == room_id
        }),
        task_name(room_id) == task_name(other) ==> room_id == other,
{
    let prefix = "bilibili_live_"@;
    text::law_digits_name_the_number(room_id as nat, 1);
    text::law_digits_name_the_number(other as nat, 1);
    assert(task_name(room_id).take(prefix.len() as int) =~= prefix);
    assert(task_name(room_id).skip(prefix.len() as int) =~= text::decimal(room_id as nat));
    assert(task_name(other).skip(prefix.len() as int) =~= text::decimal(other as nat));
}

/// A reply tells a status exactly if its code is 0 and it has one; the status is
/// told as it is where 32 bits can hold it.
pub proof fn law_replies_tell_the_status(reply: Seq<u8>, code: u64, status: u64)
    ensures
        status_in_reply(reply) is Some <==> json_number(reply, "/code"@) == Some(Some(0u64))
            && json_number(reply, "/data/live_status"@) matches Some(Some(_)),
        json_number(reply, "/code"@) == Some(Some(0u64)) && json_number(reply, "/data/live_status"@)
            == Some(Some(status)) ==> {
            &&& status_in_reply(reply) matches Some(told)
            &&& status <= u32::MAX ==> told == status
            &&& 0 <= told <= u32::MAX
            &&& (status - told) % 0x1_0000_0000 == 0
        },
{
}

/// The address of a picture is taken from the first of its three places that has
/// a text.
pub proof fn law_first_picture_counts(reply: Seq<u8>, url: Seq<char>)
    ensures
        json_text(reply, "/image_url"@) == Some(Some(url)) ==> image_in_reply(reply) == url,
        !(json_text(reply, "/image_url"@) matches Some(Some(_))) && json_text(reply, "/url"@)
            == Some(Some(url)) ==> image_in_reply(reply) == url,
        !(json_text(reply, "/image_url"@) matches Some(Some(_))) && !(json_text(
            reply,
            "/url"@,
        ) matches Some(Some(_))) && json_text(reply, "/data/url"@) == Some(Some(url))
            ==> image_in_reply(reply) == url,
        !(json_text(reply, "/image_url"@) matches Some(Some(_))) && !(json_text(
            reply,
            "/url"@,
        ) matches Some(Some(_))) && !(json_text(reply, "/data/url"@) matches Some(Some(_)))
            ==> image_in_reply(reply).len() == 0,
{
}

/// An event leads to a check only if its task has the prefix of such tasks and
/// its payload is a JSON document; then it names the room of the payload, with 0
/// and `unknown` where the payload does not say.
pub proof fn law_events_name_their_room(
    event: Seq<u8>,
    name: Seq<char>,
    payload: Seq<char>,
    room_id: Option<u64>,
    room_name: Option<Seq<char>>,
)
    ensures
        !(json_text(event, "/task_name"@) matches Some(Some(_))) ==> room_in_event(event) is None,
        json_text(event, "/task_name"@) == Some(Some(name)) && !"bilibili_live_"@.is_prefix_of(name)
            ==> room_in_event(event) is None,
        json_text(event, "/task_name"@) == Some(Some(name)) && "bilibili_live_"@.is_prefix_of(name)
            && json_text(event, "/payload"@) == Some(Some(payload)) ==> {
            let document = vstd::utf8::encode_utf8(payload);
            &&& json_number(document, "/room_id"@) is None ==> room_in_event(event) is None
            &&& json_text(document, "/name"@) is None ==> room_in_event(event) is None
            &&& json_number(document, "/room_id"@) == Some(room_id) && json_text(
                document,
                "/name"@,
            ) == Some(room_name) ==> {
                &&& room_in_event(event) matches Some(room)
                &&& room.0 == match room_id {
                    Some(id) => id,
                    None => 0,
                }
                &&& room.1 == match room_name {
                    Some(given) => given,
                    None => "unknown"@,
                }
            }
        },
{
}

} // verus!

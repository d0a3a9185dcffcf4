//! What comes from the message bus, and how a picture is sent over it.
use vstd::prelude::*;

use crate::query;
use crate::query::contains;
use crate::wire;
use crate::wire::text_at;

verus! {

/// Where a message of the bus comes from.
#[derive(Clone, Copy, Debug, PartialEq, Eq, Structural)]
pub enum MessageKind {
    Private,
    Group,
    Other,
}

/// A message of the bus.
#[derive(Clone, Debug, PartialEq, Eq)]
pub struct BusMessage {
    pub kind: MessageKind,
    pub group_id: Option<u64>,
    pub user_id: u64,
    pub message: String,
}

/// A message of a group.
#[derive(Clone, Debug, PartialEq, Eq)]
pub struct GroupMessage {
    pub group_id: u64,
    pub user_id: u64,
    pub message: String,
}

/// The message that shows the picture at an address, or in a file where the
/// address is none of the web.
pub open spec fn image_text(url: Seq<char>) -> Seq<char> {
    if query::has_text(url, "http"@) {
        "[CQ:image,url="@ + url + "]"@
    } else {
        "[CQ:image,file="@ + url + "]"@
    }
}

/// The message of a group that a message of the bus is, if it is one: only
/// messages of groups are answered, and 0 stands for a missing group.
pub fn group_message(found: Option<BusMessage>) -> (r: Option<GroupMessage>)
    ensures
        r is Some <==> (found matches Some(message) && message.kind == MessageKind::Group),
        r matches Some(given) ==> {
            let message = found->0;
            &&& given.group_id == match message.group_id {
                Some(id) => id,
                None => 0,
            }
            &&& given.user_id == message.user_id
            &&& given.message == message.message
        },
{
    match found {
        Some(BusMessage { kind: MessageKind::Group, group_id, user_id, message }) => Some(
            GroupMessage {
                group_id: match group_id {
                    Some(id) => id,
                    None => 0,
                },
                user_id,
                message,
            },
        ),
        _ => None,
    }
}

/// Whether a text of the bus asks for the version: it is a JSON document whose
/// `action` is `query`.
pub fn is_version_query(json: &str) -> (r: bool)
    ensures
        r == (wire::json_text(vstd::utf8::encode_utf8(json@), "/action"@) == Some(Some("query"@))),
{
    match text_at(json.as_bytes(), "/action") {
        Some(Some(action)) => is_query(&action),
        _ => false,
    }
}

/// Whether an action is the one that asks for something.
pub fn is_query(action: &String) -> (r: bool)
    ensures
        r == (action@ == "query"@),
{
    *action == "query".to_owned()
}

/// The message that shows a picture.
pub fn image_message(url: &str) -> (r: String)
    ensures
        r@ == image_text(url@),
{
    let mut r: String = if contains(url, "http") {
        "[CQ:image,url=".to_owned()
    } else {
        "[CQ:image,file=".to_owned()
    };
    r.append(url);
    r.append("]");
    r
}

/// The message that shows a picture holds its address between a tag and a
/// closing bracket; the tag speaks of the web exactly if the address does.
pub proof fn law_picture_message_holds_the_address(url: Seq<char>)
    ensures
        ({
            let tag = if query::has_text(url, "http"@) {
                "[CQ:image,url="@
            } else {
                "[CQ:image,file="@
            };
            let shown = image_text(url);
            &&& shown.take(tag.len() as int) == tag
            &&& shown.subrange(tag.len() as int, (tag.len() + url.len()) as int) == url
            &&& shown.skip((tag.len() + url.len()) as int) == "]"@
        }),
{
    let tag = if query::has_text(url, "http"@) {
        "[CQ:image,url="@
    } else {
        "[CQ:image,file="@
    };
    let shown = image_text(url);
    assert(shown.take(tag.len() as int) =~= tag);
    assert(shown.subrange(tag.len() as int, (tag.len() + url.len()) as int) =~= url);
    assert(shown.skip((tag.len() + url.len()) as int) =~= "]"@);
}

} // verus!

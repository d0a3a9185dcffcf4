//! The names of the files of a room.
use vstd::prelude::*;

use crate::query;
use crate::query::trim;
use crate::text;
use crate::text::push_digits;

verus! {

/// The name of a file of the kind `prefix` for the room `room_id`.
pub open spec fn file_name(prefix: Seq<char>, room_id: u64) -> Seq<char> {
    prefix + text::decimal(room_id as nat) + ".json"@
}

fn write_name(prefix: &str, room_id: u64) -> (r: String)
    ensures
        r@ == file_name(prefix@, room_id),
{
    let mut r = String::new();
    r.append(prefix);
    push_digits(&mut r, room_id, 1);
    r.append(".json");
    assert(r@ =~= file_name(prefix@, room_id));
    r
}

/// The file that holds the sessions of a room, one per line.
pub fn session_file_path(room_id: u64) -> (r: String)
    ensures
        r@ == file_name("sessions_"@, room_id),
{
    write_name("sessions_", room_id)
}

/// The file that holds what is going on in a room.
pub fn runtime_state_path(room_id: u64) -> (r: String)
    ensures
        r@ == file_name("runtime_state_"@, room_id),
{
    write_name("runtime_state_", room_id)
}

/// The file that holds the figures of a room.
pub fn aggregate_path(room_id: u64) -> (r: String)
    ensures
        r@ == file_name("aggregate_"@, room_id),
{
    write_name("aggregate_", room_id)
}

/// What a line of the file of sessions holds besides white space, where that
/// is anything.
pub fn session_line(line: &str) -> (r: Option<&str>)
    ensures
        r is Some <==> query::trimmed(line@).len() > 0,
        r matches Some(text) ==> text@ == query::trimmed(line@),
{
    let text: &str = trim(line);
    if text.is_empty() {
        None
    } else {
        Some(text)
    }
}

/// No two rooms share a file, and the three files of a room are three.
pub proof fn law_files_are_distinct(a: u64, b: u64)
    ensures
        a != b ==> {
            &&& file_name("sessions_"@, a) != file_name("sessions_"@, b)
            &&& file_name("runtime_state_"@, a) != file_name("runtime_state_"@, b)
            &&& file_name("aggregate_"@, a) != file_name("aggregate_"@, b)
        },
        file_name("sessions_"@, a) != file_name("runtime_state_"@, b),
        file_name("sessions_"@, a) != file_name("aggregate_"@, b),
        file_name("runtime_state_"@, a) != file_name("aggregate_"@, b),
{
    if a != b {
        lemma_same_prefix("sessions_"@, a, b);
        lemma_same_prefix("runtime_state_"@, a, b);
        lemma_same_prefix("aggregate_"@, a, b);
    }
    reveal_strlit("sessions_");
    reveal_strlit("runtime_state_");
    reveal_strlit("aggregate_");
    let s = file_name("sessions_"@, a);
    let r = file_name("runtime_state_"@, a);
    let r2 = file_name("runtime_state_"@, b);
    let g = file_name("aggregate_"@, b);
    assert(s[0] == 's');
    assert(r[0] == 'r');
    assert(r2[0] == 'r');
    assert(g[0] == 'a');
}

proof fn lemma_same_prefix(prefix: Seq<char>, a: u64, b: u64)
    requires
        a != b,
    ensures
        file_name(prefix, a) != file_name(prefix, b),
{
    let x = text::decimal(a as nat);
    let y = text::decimal(b as nat);
    let end = ".json"@;
    if file_name(prefix, a) == file_name(prefix, b) {
        assert(file_name(prefix, a).len() == prefix.len() + x.len() + end.len());
        assert(file_name(prefix, b).len() == prefix.len() + y.len() + end.len());
        assert(x =~= file_name(prefix, a).subrange(
            prefix.len() as int,
            (prefix.len() + x.len()) as int,
        ));
        assert(y =~= file_name(prefix, b).subrange(
            prefix.len() as int,
            (prefix.len() + y.len()) as int,
        ));
        text::lemma_decimal_injective(a as nat, b as nat);
    }
}

/// The name of a file of a room is its prefix, the number of the room in
/// decimal digits, and the ending.
pub proof fn law_file_name_holds_the_room(prefix: Seq<char>, room_id: u64)
    ensures
        ({
            let name = file_name(prefix, room_id);
            let end = ".json"@;
            let digits = name.subrange(prefix.len() as int, name.len() - end.len());
            &&& name.take(prefix.len() as int) == prefix
            &&& name.skip(name.len() - end.len()) == end
            &&& text::all_digits(digits)
            &&& text::number_in(digits) == room_id
            &&& digits.len() > 1 ==> digits[0] != '0'
        }),
{
    let name = file_name(prefix, room_id);
    let end = ".json"@;
    let number = text::decimal(room_id as nat);
    text::law_digits_name_the_number(room_id as nat, 1);
    assert(name.take(prefix.len() as int) =~= prefix);
    assert(name.skip(name.len() - end.len()) =~= end);
    assert(name.subrange(prefix.len() as int, name.len() - end.len()) =~= number);
}

} // verus!

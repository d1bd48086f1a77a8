use vstd::prelude::*;
use vstd::slice::slice_to_vec;
use vstd::utf8::*;

verus! {

/// The three bytes that open the message with which a client announces itself.
pub open spec fn join_prefix() -> Seq<u8> {
    seq![0x02u8, 0x05u8, 0x83u8]
}

/// The bytes " : " that stand between a name and the text of a chat line.
pub open spec fn name_separator() -> Seq<u8> {
    seq![0x20u8, 0x3au8, 0x20u8]
}

/// The message with which a client announces itself under `name`: the
/// announcement prefix followed by the UTF-8 bytes of the name.
pub open spec fn join_request(name: Seq<char>) -> Seq<u8> {
    join_prefix() + encode_utf8(name)
}

/// The announcement prefix, as a fresh vector.
pub fn new_connection_sequence() -> (res: Vec<u8>)
    ensures
        res@ == join_prefix(),
        res@ == seq![0x02u8, 0x05u8, 0x83u8],
{
    let mut v: Vec<u8> = Vec::new();
    v.push(0x02);
    v.push(0x05);
    v.push(0x83);
    assert(v@ =~= join_prefix());
    v
}

/// The message a client sends first, to be known to the others as `name`.
pub fn connection_request(name: &str) -> (res: Vec<u8>)
    ensures
        res@ == join_request(name@),
        res@ == seq![0x02u8, 0x05u8, 0x83u8] + encode_utf8(name@),
{
    let mut msg = new_connection_sequence();
    let mut tail = slice_to_vec(name.as_bytes());
    msg.append(&mut tail);
    msg
}

/// Law: the announcement prefix is the bytes 0x02 0x05 0x83, the separator
/// is the bytes of " : ", and an announcement is the prefix followed by the
/// whole UTF-8 encoding of the name.
pub proof fn law_framing_bytes(name: Seq<char>)
    ensures
        join_prefix() == seq![0x02u8, 0x05u8, 0x83u8],
        name_separator() == seq![0x20u8, 0x3au8, 0x20u8],
        join_request(name) == seq![0x02u8, 0x05u8, 0x83u8] + encode_utf8(name),
{
}

} // verus!

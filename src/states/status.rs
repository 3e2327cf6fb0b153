//! Status: the server list ping.
use crate::bot::{kicked_malformed, last_notice, noted, same_session, Bot, Notice};
use crate::buf::{be_bytes, sized_decode, Buf};
use crate::packet_processors::Compression;
use crate::varint::var_u32_bytes;
use vstd::prelude::*;

verus! {

/// Status Request.
pub open spec fn status_request_bytes() -> Seq<u8> {
    var_u32_bytes(0x00)
}

pub fn write_status_request() -> (r: Buf)
    ensures
        r.data() == status_request_bytes(),
        r.unread() == r.data(),
        r.pos() == 0,
{
    let mut buf = Buf::new();
    buf.write_packet_id(0x00);
    proof {
        buf.lemma_unread_at_start();
        assert(buf.data() =~= status_request_bytes());
    }
    buf
}

/// Ping Request (status).
pub open spec fn ping_bytes(payload: nat) -> Seq<u8> {
    var_u32_bytes(0x01) + be_bytes(payload, 8)
}

pub fn write_ping(payload: u64) -> (r: Buf)
    ensures
        r.data() == ping_bytes(payload as nat),
        r.unread() == r.data(),
        r.pos() == 0,
{
    let mut buf = Buf::new();
    buf.write_packet_id(0x01);
    buf.write_u64(payload);
    proof {
        buf.lemma_unread_at_start();
        assert(buf.data() =~= ping_bytes(payload as nat));
    }
    buf
}

/// What process_status_response does to a bot, given the packet's fields `s`.
pub open spec fn status_response_effect(s: Seq<u8>, old: Bot, new: Bot) -> bool {
    match sized_decode(s) {
        Some((text, _)) => {
            &&& same_session(old, new)
            &&& new.kicked == old.kicked
            &&& noted(old, new)
            &&& last_notice(new) matches Notice::StatusResponse(t) && t@ == text
        },
        None => kicked_malformed(old, new),
    }
}

/// Status Response: the server's status text is reported.
pub fn process_status_response(buffer: &mut Buf, bot: &mut Bot, _compression: &mut Compression)
    ensures
        status_response_effect(old(buffer).unread(), *old(bot), *final(bot)),
{
    match buffer.read_sized_bytes() {
        Some(text) => bot.note(Notice::StatusResponse(text)),
        None => bot.malformed(),
    }
}

/// What process_pong does to a bot, given the packet's fields `s`.
pub open spec fn pong_effect(s: Seq<u8>, old: Bot, new: Bot) -> bool {
    match sized_decode(s) {
        Some((text, _)) => {
            &&& same_session(old, new)
            &&& new.kicked == old.kicked
            &&& noted(old, new)
            &&& last_notice(new) matches Notice::Pong(t) && t@ == text
        },
        None => kicked_malformed(old, new),
    }
}

/// Ping Response (status): the payload is reported.
pub fn process_pong(buffer: &mut Buf, bot: &mut Bot, _compression: &mut Compression)
    ensures
        pong_effect(old(buffer).unread(), *old(bot), *final(bot)),
{
    match buffer.read_sized_bytes() {
        Some(text) => bot.note(Notice::Pong(text)),
        None => bot.malformed(),
    }
}

} // verus!

//! The play-state keep alive of an older protocol version.
use crate::bot::{answered, kicked_malformed, Bot};
use crate::buf::{be_bytes, be_value, Buf};
use crate::packet_processors::Compression;
use crate::varint::var_u32_bytes;
use vstd::prelude::*;

verus! {

pub open spec fn keep_alive_bytes(id: nat) -> Seq<u8> {
    var_u32_bytes(0x10) + be_bytes(id, 8)
}

/// Serverbound Keep Alive of that version.
pub fn write_keep_alive_packet(id: u64) -> (r: Buf)
    ensures
        r.data() == keep_alive_bytes(id as nat),
        r.unread() == r.data(),
        r.pos() == 0,
{
    let mut buf = Buf::new();
    buf.write_packet_id(0x10);
    buf.write_u64(id);
    proof {
        buf.lemma_unread_at_start();
        assert(buf.data() =~= keep_alive_bytes(id as nat));
    }
    buf
}

/// What process_keep_alive_packet does to a bot, given the packet's fields `s`.
pub open spec fn keep_alive_packet_effect(s: Seq<u8>, old: Bot, new: Bot) -> bool {
    &&& (s.len() >= 8 ==> answered(
        old,
        new,
        seq![keep_alive_bytes(be_value(s.subrange(0, 8)))],
    ))
    &&& (s.len() < 8 ==> kicked_malformed(old, new))
}

/// Clientbound Keep Alive of that version: the id is echoed.
pub fn process_keep_alive_packet(buffer: &mut Buf, bot: &mut Bot, compression: &mut Compression)
    ensures
        keep_alive_packet_effect(old(buffer).unread(), *old(bot), *final(bot)),
{
    match buffer.read_u64() {
        Some(id) => bot.send_packet(write_keep_alive_packet(id), compression),
        None => bot.malformed(),
    }
}

} // verus!

//! Configuration: settings and resource negotiation before play.
use crate::bot::{
    answered, kicked_malformed, kicked_noting, last_notice, Bot, Notice, ProtocolState,
};
use crate::buf::{be_bytes, be_value, sized_bytes, sized_decode, Buf};
use crate::packet_processors::Compression;
use crate::varint::var_u32_bytes;
use vstd::prelude::*;

verus! {

pub const VIEW_DISTANCE: u8 = 10;

/// Cookie Response (configuration), without a payload.
pub open spec fn config_cookie_response_bytes(identifier: Seq<u8>) -> Seq<u8> {
    var_u32_bytes(0x01) + sized_bytes(identifier) + seq![0u8]
}

pub fn write_cookie_response(identifier: &[u8]) -> (r: Buf)
    requires
        identifier@.len() <= u32::MAX,
    ensures
        r.data() == config_cookie_response_bytes(identifier@),
        r.unread() == r.data(),
        r.pos() == 0,
{
    let mut buf = Buf::new();
    buf.write_packet_id(0x01);
    buf.write_sized_bytes(identifier);
    buf.write_bool(false);
    proof {
        buf.lemma_unread_at_start();
        assert(buf.data() =~= config_cookie_response_bytes(identifier@));
    }
    buf
}

/// Acknowledge Finish Configuration.
pub open spec fn acknowledge_configuration_bytes() -> Seq<u8> {
    var_u32_bytes(0x03)
}

pub fn write_acknowledge_configuration() -> (r: Buf)
    ensures
        r.data() == acknowledge_configuration_bytes(),
        r.unread() == r.data(),
        r.pos() == 0,
{
    let mut buf = Buf::new();
    buf.write_packet_id(0x03);
    proof {
        buf.lemma_unread_at_start();
        assert(buf.data() =~= acknowledge_configuration_bytes());
    }
    buf
}

/// Serverbound Keep Alive (configuration).
pub open spec fn config_keep_alive_bytes(id: nat) -> Seq<u8> {
    var_u32_bytes(0x04) + be_bytes(id, 8)
}

pub fn write_keep_alive_packet(id: u64) -> (r: Buf)
    ensures
        r.data() == config_keep_alive_bytes(id as nat),
        r.unread() == r.data(),
        r.pos() == 0,
{
    let mut buf = Buf::new();
    buf.write_packet_id(0x04);
    buf.write_u64(id);
    proof {
        buf.lemma_unread_at_start();
        assert(buf.data() =~= config_keep_alive_bytes(id as nat));
    }
    buf
}

/// Pong (configuration).
pub open spec fn pong_bytes(id: nat) -> Seq<u8> {
    var_u32_bytes(0x05) + be_bytes(id, 4)
}

pub fn write_pong(id: u32) -> (r: Buf)
    ensures
        r.data() == pong_bytes(id as nat),
        r.unread() == r.data(),
        r.pos() == 0,
{
    let mut buf = Buf::new();
    buf.write_packet_id(0x05);
    buf.write_u32(id);
    proof {
        buf.lemma_unread_at_start();
        assert(buf.data() =~= pong_bytes(id as nat));
    }
    buf
}

/// Resource Pack Response (configuration): accepted.
pub open spec fn resource_pack_response_bytes(id: nat) -> Seq<u8> {
    var_u32_bytes(0x06) + be_bytes(id, 16) + var_u32_bytes(3)
}

pub fn write_acknowledge_resource_pack(id: u128) -> (r: Buf)
    ensures
        r.data() == resource_pack_response_bytes(id as nat),
        r.unread() == r.data(),
        r.pos() == 0,
{
    let mut buf = Buf::new();
    buf.write_packet_id(0x06);
    buf.write_u128(id);
    buf.write_var_u32(3);
    proof {
        buf.lemma_unread_at_start();
        assert(buf.data() =~= resource_pack_response_bytes(id as nat));
    }
    buf
}

/// Serverbound Known Packs (configuration): none known. The request is not read.
pub open spec fn known_packs_bytes() -> Seq<u8> {
    var_u32_bytes(0x07) + var_u32_bytes(0)
}

pub fn write_known_packets(_request: &Buf) -> (r: Buf)
    ensures
        r.data() == known_packs_bytes(),
        r.unread() == r.data(),
        r.pos() == 0,
{
    let mut buf = Buf::new();
    buf.write_packet_id(0x07);
    buf.write_var_u32(0);
    proof {
        buf.lemma_unread_at_start();
        assert(buf.data() =~= known_packs_bytes());
    }
    buf
}

/// Client Information (configuration): locale "en_US", the view distance,
/// chat fully shown and in colour, every skin part, right hand, no text
/// filtering, listed on the server.
pub open spec fn client_settings_bytes() -> Seq<u8> {
    var_u32_bytes(0x00) + sized_bytes(seq![0x65u8, 0x6e, 0x5f, 0x55, 0x53]) + seq![VIEW_DISTANCE]
        + var_u32_bytes(0) + seq![1u8] + seq![0xFFu8] + var_u32_bytes(1) + seq![0u8] + seq![1u8]
}

pub fn write_client_settings() -> (r: Buf)
    ensures
        r.data() == client_settings_bytes(),
        r.unread() == r.data(),
        r.pos() == 0,
{
    let mut buf = Buf::new();
    let locale: [u8; 5] = [0x65, 0x6e, 0x5f, 0x55, 0x53];
    buf.write_packet_id(0x00);
    buf.write_sized_bytes(&locale);
    buf.write_u8(VIEW_DISTANCE);
    buf.write_var_u32(0);
    buf.write_bool(true);
    buf.write_u8(0xFF);
    buf.write_var_u32(1);
    buf.write_bool(false);
    buf.write_bool(true);
    proof {
        buf.lemma_unread_at_start();
        assert(buf.data() =~= client_settings_bytes());
    }
    buf
}

/// What process_cookie_request_packet does to a bot, given the packet's fields `s`.
pub open spec fn cookie_request_packet_effect(s: Seq<u8>, old: Bot, new: Bot) -> bool {
    match sized_decode(s) {
        Some((id, _)) => answered(
            old,
            new,
            seq![config_cookie_response_bytes(id)],
        ),
        None => kicked_malformed(old, new),
    }
}

/// Cookie Request (configuration): answered without a payload.
pub fn process_cookie_request_packet(buf: &mut Buf, bot: &mut Bot, compression: &mut Compression)
    ensures
        cookie_request_packet_effect(old(buf).unread(), *old(bot), *final(bot)),
{
    match buf.read_sized_bytes() {
        Some(identifier) => {
            bot.send_packet(write_cookie_response(identifier.as_slice()), compression);
        },
        None => bot.malformed(),
    }
}

/// What process_finish_configuration does to a bot, given the packet's fields `s`.
pub open spec fn finish_configuration_effect(s: Seq<u8>, old: Bot, new: Bot) -> bool {
    &&& (new.state == ProtocolState::Play)
    &&& (answered(
        (Bot { state: ProtocolState::Play, ..old }),
        new,
        seq![acknowledge_configuration_bytes()],
    ))
}

/// Finish Configuration: acknowledged, and the bot moves to play.
pub fn process_finish_configuration(
    buffer: &mut Buf,
    bot: &mut Bot,
    compression: &mut Compression,
)
    ensures
        finish_configuration_effect(old(buffer).unread(), *old(bot), *final(bot)),
{
    bot.send_packet(write_acknowledge_configuration(), compression);
    bot.state = ProtocolState::Play;
}

/// What process_keep_alive_packet does to a bot, given the packet's fields `s`.
pub open spec fn keep_alive_packet_effect(s: Seq<u8>, old: Bot, new: Bot) -> bool {
    &&& (s.len() >= 8 ==> answered(
        old,
        new,
        seq![config_keep_alive_bytes(be_value(s.subrange(0, 8)))],
    ))
    &&& (s.len() < 8 ==> kicked_malformed(old, new))
}

/// Clientbound Keep Alive (configuration): the id is echoed.
pub fn process_keep_alive_packet(buffer: &mut Buf, bot: &mut Bot, compression: &mut Compression)
    ensures
        keep_alive_packet_effect(old(buffer).unread(), *old(bot), *final(bot)),
{
    match buffer.read_u64() {
        Some(id) => bot.send_packet(write_keep_alive_packet(id), compression),
        None => bot.malformed(),
    }
}

/// What process_ping does to a bot, given the packet's fields `s`.
pub open spec fn ping_effect(s: Seq<u8>, old: Bot, new: Bot) -> bool {
    &&& (s.len() >= 4 ==> answered(
        old,
        new,
        seq![pong_bytes(be_value(s.subrange(0, 4)))],
    ))
    &&& (s.len() < 4 ==> kicked_malformed(old, new))
}

/// Ping (configuration): answered with a pong of the same id.
pub fn process_ping(buffer: &mut Buf, bot: &mut Bot, compression: &mut Compression)
    ensures
        ping_effect(old(buffer).unread(), *old(bot), *final(bot)),
{
    match buffer.read_u32() {
        Some(id) => bot.send_packet(write_pong(id), compression),
        None => bot.malformed(),
    }
}

/// What process_resource_pack does to a bot, given the packet's fields `s`.
pub open spec fn resource_pack_effect(s: Seq<u8>, old: Bot, new: Bot) -> bool {
    &&& (s.len() >= 16 ==> answered(
        old,
        new,
        seq![resource_pack_response_bytes(be_value(s.subrange(0, 16)))],
    ))
    &&& (s.len() < 16 ==> kicked_malformed(old, new))
}

/// Add Resource Pack (configuration): the pack is accepted.
pub fn process_resource_pack(buffer: &mut Buf, bot: &mut Bot, compression: &mut Compression)
    ensures
        resource_pack_effect(old(buffer).unread(), *old(bot), *final(bot)),
{
    match buffer.read_u128() {
        Some(id) => bot.send_packet(write_acknowledge_resource_pack(id), compression),
        None => bot.malformed(),
    }
}

/// What process_transfer does to a bot, given the packet's fields `s`.
pub open spec fn transfer_effect(s: Seq<u8>, old: Bot, new: Bot) -> bool {
    &&& (kicked_noting(old, new))
    &&& (match sized_decode(s) {
        Some((address, l)) => if l + 2 <= s.len() {
            last_notice(new) matches Notice::TransferRequested(a, port) && a@ == address
                && port == be_value(s.subrange(l as int, (l + 2) as int))
        } else {
            last_notice(new) == Notice::Malformed
        },
        None => last_notice(new) == Notice::Malformed,
    })
}

/// Transfer: reconnecting elsewhere is not supported, so the bot leaves.
pub fn process_transfer(buffer: &mut Buf, bot: &mut Bot, _compression: &mut Compression)
    ensures
        transfer_effect(old(buffer).unread(), *old(bot), *final(bot)),
{
    match buffer.read_sized_bytes() {
        Some(address) => {
            let ghost mid = *buffer;
            match buffer.read_u16() {
                Some(port) => {
                    proof {
                        let s = old(buffer).unread();
                        let l = (mid.pos() - old(buffer).pos()) as nat;
                        mid.lemma_pos_in_range();
                        old(buffer).lemma_pos_in_range();
                        assert(mid.unread().subrange(0, 2) =~= s.subrange(l as int, (l + 2) as int));
                    }
                    bot.kick(Notice::TransferRequested(address, port));
                },
                None => {
                    proof {
                        mid.lemma_pos_in_range();
                        old(buffer).lemma_pos_in_range();
                    }
                    bot.malformed();
                },
            }
        },
        None => bot.malformed(),
    }
}

/// What process_known_packs does to a bot, given the packet's fields `s`.
pub open spec fn known_packs_effect(s: Seq<u8>, old: Bot, new: Bot) -> bool {
    answered(old, new, seq![known_packs_bytes()])
}

/// Clientbound Known Packs (configuration): answered with an empty list.
pub fn process_known_packs(buffer: &mut Buf, bot: &mut Bot, compression: &mut Compression)
    ensures
        known_packs_effect(old(buffer).unread(), *old(bot), *final(bot)),
{
    bot.send_packet(write_known_packets(buffer), compression);
}

} // verus!

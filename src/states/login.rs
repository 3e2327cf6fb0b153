//! Login: from the handshake to the switch to configuration.
use crate::bot::{
    answered, kicked_malformed, kicked_noting, last_notice, lemma_replied_concat, same_session, Bot,
    Notice, ProtocolState,
};
use crate::buf::{be_bytes, sized_bytes, sized_decode, Buf};
use crate::packet_processors::Compression;
use crate::states::config;
use crate::varint::{var_u32_bytes, var_u32_decode};
use vstd::prelude::*;
use vstd::string::StringSliceAdditionalSpecFns;
use vstd::utf8::encode_utf8;

verus! {

/// Handshake.
pub open spec fn handshake_bytes(
    protocol_version: nat,
    server_address: Seq<u8>,
    server_port: nat,
    next_state: nat,
) -> Seq<u8> {
    var_u32_bytes(0x00) + var_u32_bytes(protocol_version) + sized_bytes(server_address) + be_bytes(
        server_port,
        2,
    ) + var_u32_bytes(next_state)
}

pub fn write_handshake_packet(
    protocol_version: u32,
    server_address: String,
    server_port: u16,
    next_state: u32,
) -> (r: Buf)
    requires
        encode_utf8(server_address@).len() <= u32::MAX,
    ensures
        r.data() == handshake_bytes(
            protocol_version as nat,
            encode_utf8(server_address@),
            server_port as nat,
            next_state as nat,
        ),
        r.unread() == r.data(),
        r.pos() == 0,
{
    let mut buf = Buf::new();
    buf.write_packet_id(0x00);
    buf.write_var_u32(protocol_version);
    buf.write_sized_str(server_address.as_str());
    buf.write_u16(server_port);
    buf.write_var_u32(next_state);
    proof {
        buf.lemma_unread_at_start();
        assert(buf.data() =~= handshake_bytes(
            protocol_version as nat,
            encode_utf8(server_address@),
            server_port as nat,
            next_state as nat,
        ));
    }
    buf
}

/// Login Start.
pub open spec fn login_start_bytes(username: Seq<u8>, uuid: nat) -> Seq<u8> {
    var_u32_bytes(0x00) + sized_bytes(username) + be_bytes(uuid, 16)
}

pub fn write_login_start_packet(username: &str, uuid: u128) -> (r: Buf)
    requires
        username.spec_bytes().len() <= u32::MAX,
    ensures
        r.data() == login_start_bytes(username.spec_bytes(), uuid as nat),
        r.unread() == r.data(),
        r.pos() == 0,
{
    let mut buf = Buf::new();
    buf.write_packet_id(0x00);
    buf.write_sized_str(username);
    buf.write_u128(uuid);
    proof {
        buf.lemma_unread_at_start();
        assert(buf.data() =~= login_start_bytes(username.spec_bytes(), uuid as nat));
    }
    buf
}

/// Login Plugin Response, declining the request.
pub open spec fn plugin_message_response_bytes(message: nat) -> Seq<u8> {
    var_u32_bytes(0x02) + var_u32_bytes(message) + seq![0u8]
}

pub fn write_plugin_message_response(message: u32) -> (r: Buf)
    ensures
        r.data() == plugin_message_response_bytes(message as nat),
        r.unread() == r.data(),
        r.pos() == 0,
{
    let mut buf = Buf::new();
    buf.write_packet_id(0x02);
    buf.write_var_u32(message);
    buf.write_bool(false);
    proof {
        buf.lemma_unread_at_start();
        assert(buf.data() =~= plugin_message_response_bytes(message as nat));
    }
    buf
}

/// Login Acknowledged.
pub open spec fn login_acknowledged_bytes() -> Seq<u8> {
    var_u32_bytes(0x03)
}

pub fn write_login_acknowledged() -> (r: Buf)
    ensures
        r.data() == login_acknowledged_bytes(),
        r.unread() == r.data(),
        r.pos() == 0,
{
    let mut buf = Buf::new();
    buf.write_packet_id(0x03);
    proof {
        buf.lemma_unread_at_start();
        assert(buf.data() =~= login_acknowledged_bytes());
    }
    buf
}

/// Cookie Response (login), without a payload.
pub open spec fn login_cookie_response_bytes(identifier: Seq<u8>) -> Seq<u8> {
    var_u32_bytes(0x04) + sized_bytes(identifier) + seq![0u8]
}

pub fn write_cookie_response(identifier: &[u8]) -> (r: Buf)
    requires
        identifier@.len() <= u32::MAX,
    ensures
        r.data() == login_cookie_response_bytes(identifier@),
        r.unread() == r.data(),
        r.pos() == 0,
{
    let mut buf = Buf::new();
    buf.write_packet_id(0x04);
    buf.write_sized_bytes(identifier);
    buf.write_bool(false);
    proof {
        buf.lemma_unread_at_start();
        assert(buf.data() =~= login_cookie_response_bytes(identifier@));
    }
    buf
}

/// What process_encryption_request_packet does to a bot, given the packet's fields `s`.
pub open spec fn encryption_request_packet_effect(s: Seq<u8>, old: Bot, new: Bot) -> bool {
    &&& (kicked_noting(old, new))
    &&& (last_notice(new) == Notice::EncryptionRequested)
}

/// Encryption Request: online mode is not supported, so the bot leaves.
pub fn process_encryption_request_packet(
    buffer: &mut Buf,
    bot: &mut Bot,
    _compression: &mut Compression,
)
    ensures
        encryption_request_packet_effect(old(buffer).unread(), *old(bot), *final(bot)),
{
    bot.kick(Notice::EncryptionRequested);
}

/// What process_login_success_packet does to a bot, given the packet's fields `s`.
pub open spec fn login_success_packet_effect(s: Seq<u8>, old: Bot, new: Bot) -> bool {
    &&& (new.state == ProtocolState::Config)
    &&& (answered(
        (Bot { state: ProtocolState::Config, ..old }),
        new,
        seq![login_acknowledged_bytes(), config::client_settings_bytes()],
    ))
}

/// Login Success: the bot moves to configuration, acknowledges the login
/// and sends its client settings.
pub fn process_login_success_packet(
    buffer: &mut Buf,
    bot: &mut Bot,
    compression: &mut Compression,
)
    ensures
        login_success_packet_effect(old(buffer).unread(), *old(bot), *final(bot)),
{
    bot.state = ProtocolState::Config;
    let ghost start = *bot;
    bot.send_packet(write_login_acknowledged(), compression);
    let ghost mid = *bot;
    bot.send_packet(config::write_client_settings(), compression);
    proof {
        lemma_replied_concat(
            start,
            mid,
            *bot,
            seq![login_acknowledged_bytes()],
            seq![config::client_settings_bytes()],
        );
        assert(seq![login_acknowledged_bytes()] + seq![config::client_settings_bytes()] =~= seq![
            login_acknowledged_bytes(),
            config::client_settings_bytes(),
        ]);
    }
}

/// What process_set_compression_packet does to a bot, given the packet's fields `s`.
pub open spec fn set_compression_packet_effect(s: Seq<u8>, old: Bot, new: Bot) -> bool {
    match var_u32_decode(s) {
        Some((t, _)) => new.compression_threshold == t as i32 && same_session(
            (Bot { compression_threshold: t as i32, ..old }),
            new,
        ) && new.kicked == old.kicked && new.queued() == old.queued()
            && new.notices@ == old.notices@,
        None => kicked_malformed(old, new),
    }
}

/// Set Compression: payloads longer than the given size are compressed
/// from now on.
pub fn process_set_compression_packet(
    buf: &mut Buf,
    bot: &mut Bot,
    _compression: &mut Compression,
)
    ensures
        set_compression_packet_effect(old(buf).unread(), *old(bot), *final(bot)),
{
    match buf.read_var_u32() {
        Some((t, _)) => {
            bot.compression_threshold = t as i32;
        },
        None => bot.malformed(),
    }
}

/// What process_plugin_message_request does to a bot, given the packet's fields `s`.
pub open spec fn plugin_message_request_effect(s: Seq<u8>, old: Bot, new: Bot) -> bool {
    match var_u32_decode(s) {
        Some((id, _)) => answered(
            old,
            new,
            seq![plugin_message_response_bytes(id as nat)],
        ),
        None => kicked_malformed(old, new),
    }
}

/// Login Plugin Request: every request is declined.
pub fn process_plugin_message_request(buf: &mut Buf, bot: &mut Bot, compression: &mut Compression)
    ensures
        plugin_message_request_effect(old(buf).unread(), *old(bot), *final(bot)),
{
    match buf.read_var_u32() {
        Some((identifier, _)) => {
            bot.send_packet(write_plugin_message_response(identifier), compression);
        },
        None => bot.malformed(),
    }
}

/// What process_cookie_request_packet does to a bot, given the packet's fields `s`.
pub open spec fn cookie_request_packet_effect(s: Seq<u8>, old: Bot, new: Bot) -> bool {
    match sized_decode(s) {
        Some((id, _)) => answered(
            old,
            new,
            seq![login_cookie_response_bytes(id)],
        ),
        None => kicked_malformed(old, new),
    }
}

/// Cookie Request (login): answered without a payload.
pub fn process_cookie_request_packet(buf: &mut Buf, bot: &mut Bot, compression: &mut Compression)
    ensures
        cookie_request_packet_effect(old(buf).unread(), *old(bot), *final(bot)),
{
    match buf.read_sized_bytes() {
        Some(identifier) => {
            bot.send_packet(write_cookie_response(identifier.as_slice()), compression);
        },
        None => bot.malformed(),
    }
}

} // verus!

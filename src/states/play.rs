//! Play: the steady state of a connected client.
use crate::bot::{
    answered, kicked_malformed, kicked_noting, last_notice, replied, same_session, Bot, Notice,
    Teleport,
};
use crate::buf::{be_bytes, be_value, sized_bytes, sized_decode, Buf};
use crate::packet_processors::Compression;
use crate::varint::{var_u32_bytes, var_u32_decode};
use vstd::prelude::*;
use vstd::string::StringSliceAdditionalSpecFns;

verus! {

/// Chat Message, unsigned.
pub open spec fn chat_message_bytes(message: Seq<u8>) -> Seq<u8> {
    var_u32_bytes(0x05) + sized_bytes(message) + be_bytes(0, 8) + be_bytes(0, 8) + seq![0u8]
        + var_u32_bytes(0) + seq![0u8, 0u8, 0u8]
}

pub fn write_chat_message(message: &str) -> (r: Buf)
    requires
        message.spec_bytes().len() <= u32::MAX,
    ensures
        r.data() == chat_message_bytes(message.spec_bytes()),
        r.unread() == r.data(),
        r.pos() == 0,
{
    let mut buf = Buf::new();
    let bitset: [u8; 3] = [0, 0, 0];
    buf.write_packet_id(0x05);
    buf.write_sized_str(message);
    buf.write_u64(0);
    buf.write_u64(0);
    buf.write_bool(false);
    buf.write_var_u32(0);
    buf.write_bytes(&bitset);
    proof {
        buf.lemma_unread_at_start();
        assert(buf.data() =~= chat_message_bytes(message.spec_bytes()));
    }
    buf
}

/// Swing Arm.
pub open spec fn animation_bytes(off_hand: bool) -> Seq<u8> {
    var_u32_bytes(0x33) + var_u32_bytes(if off_hand { 1 } else { 0 })
}

pub fn write_animation(off_hand: bool) -> (r: Buf)
    ensures
        r.data() == animation_bytes(off_hand),
        r.unread() == r.data(),
        r.pos() == 0,
{
    let mut buf = Buf::new();
    buf.write_packet_id(0x33);
    buf.write_var_u32(if off_hand { 1 } else { 0 });
    proof {
        buf.lemma_unread_at_start();
        assert(buf.data() =~= animation_bytes(off_hand));
    }
    buf
}

/// Player Command.
pub open spec fn entity_action_bytes(entity_id: nat, action_id: nat, jump_boost: nat) -> Seq<u8> {
    var_u32_bytes(0x22) + var_u32_bytes(entity_id) + var_u32_bytes(action_id) + var_u32_bytes(jump_boost)
}

pub fn write_entity_action(entity_id: u32, action_id: u32, jump_boost: u32) -> (r: Buf)
    ensures
        r.data() == entity_action_bytes(entity_id as nat, action_id as nat, jump_boost as nat),
        r.unread() == r.data(),
        r.pos() == 0,
{
    let mut buf = Buf::new();
    buf.write_packet_id(0x22);
    buf.write_var_u32(entity_id);
    buf.write_var_u32(action_id);
    buf.write_var_u32(jump_boost);
    proof {
        buf.lemma_unread_at_start();
        assert(buf.data() =~= entity_action_bytes(entity_id as nat, action_id as nat, jump_boost as nat));
    }
    buf
}

/// Set Held Item (serverbound).
pub open spec fn held_slot_bytes(slot: nat) -> Seq<u8> {
    var_u32_bytes(0x2C) + be_bytes(slot, 2)
}

pub fn write_held_slot(slot: u16) -> (r: Buf)
    ensures
        r.data() == held_slot_bytes(slot as nat),
        r.unread() == r.data(),
        r.pos() == 0,
{
    let mut buf = Buf::new();
    buf.write_packet_id(0x2C);
    buf.write_u16(slot);
    proof {
        buf.lemma_unread_at_start();
        assert(buf.data() =~= held_slot_bytes(slot as nat));
    }
    buf
}

/// Confirm Teleportation.
pub open spec fn tele_confirm_bytes(id: nat) -> Seq<u8> {
    var_u32_bytes(0x00) + var_u32_bytes(id)
}

pub fn write_tele_confirm(id: u32) -> (r: Buf)
    ensures
        r.data() == tele_confirm_bytes(id as nat),
        r.unread() == r.data(),
        r.pos() == 0,
{
    let mut buf = Buf::new();
    buf.write_packet_id(0x00);
    buf.write_var_u32(id);
    proof {
        buf.lemma_unread_at_start();
        assert(buf.data() =~= tele_confirm_bytes(id as nat));
    }
    buf
}

/// Serverbound Keep Alive (play).
pub open spec fn play_keep_alive_bytes(id: nat) -> Seq<u8> {
    var_u32_bytes(0x15) + be_bytes(id, 8)
}

pub fn write_keep_alive_packet(id: u64) -> (r: Buf)
    ensures
        r.data() == play_keep_alive_bytes(id as nat),
        r.unread() == r.data(),
        r.pos() == 0,
{
    let mut buf = Buf::new();
    buf.write_packet_id(0x15);
    buf.write_u64(id);
    proof {
        buf.lemma_unread_at_start();
        assert(buf.data() =~= play_keep_alive_bytes(id as nat));
    }
    buf
}

/// Set Player Position and Rotation, not on ground. Coordinates are the
/// bit patterns of doubles, angles those of singles.
pub open spec fn pos_bytes(x: nat, y: nat, z: nat, yaw: nat, pitch: nat) -> Seq<u8> {
    var_u32_bytes(0x18) + be_bytes(x, 8) + be_bytes(y, 8) + be_bytes(z, 8) + be_bytes(yaw, 4)
        + be_bytes(pitch, 4) + seq![0u8]
}

pub fn write_pos(x: u64, y: u64, z: u64, yaw: u32, pitch: u32) -> (r: Buf)
    ensures
        r.data() == pos_bytes(x as nat, y as nat, z as nat, yaw as nat, pitch as nat),
        r.unread() == r.data(),
        r.pos() == 0,
{
    let mut buf = Buf::new();
    buf.write_packet_id(0x18);
    buf.write_u64(x);
    buf.write_u64(y);
    buf.write_u64(z);
    buf.write_u32(yaw);
    buf.write_u32(pitch);
    buf.write_bool(false);
    proof {
        buf.lemma_unread_at_start();
        assert(buf.data() =~= pos_bytes(x as nat, y as nat, z as nat, yaw as nat, pitch as nat));
    }
    buf
}

/// What process_keep_alive_packet does to a bot, given the packet's fields `s`.
pub open spec fn keep_alive_packet_effect(s: Seq<u8>, old: Bot, new: Bot) -> bool {
    &&& (s.len() >= 8 ==> answered(
        old,
        new,
        seq![play_keep_alive_bytes(be_value(s.subrange(0, 8)))],
    ))
    &&& (s.len() < 8 ==> kicked_malformed(old, new))
}

/// Clientbound Keep Alive (play): the id is echoed.
pub fn process_keep_alive_packet(buffer: &mut Buf, bot: &mut Bot, compression: &mut Compression)
    ensures
        keep_alive_packet_effect(old(buffer).unread(), *old(bot), *final(bot)),
{
    match buffer.read_u64() {
        Some(id) => bot.send_packet(write_keep_alive_packet(id), compression),
        None => bot.malformed(),
    }
}

/// What process_kick does to a bot, given the packet's fields `s`.
pub open spec fn kick_effect(s: Seq<u8>, old: Bot, new: Bot) -> bool {
    &&& (kicked_noting(old, new))
    &&& (match sized_decode(s) {
        Some((reason, _)) => last_notice(new) matches Notice::Kicked(r) && r@ == reason,
        None => last_notice(new) == Notice::Malformed,
    })
}

/// Disconnect (login, configuration and play): the bot leaves, noting the
/// reason.
pub fn process_kick(buffer: &mut Buf, bot: &mut Bot, _compression: &mut Compression)
    ensures
        kick_effect(old(buffer).unread(), *old(bot), *final(bot)),
{
    match buffer.read_sized_bytes() {
        Some(reason) => bot.kick(Notice::Kicked(reason)),
        None => bot.malformed(),
    }
}

/// What process_join_game does to a bot, given the packet's fields `s`.
pub open spec fn join_game_effect(s: Seq<u8>, old: Bot, new: Bot) -> bool {
    &&& (s.len() >= 4 ==> new.entity_id == be_value(s.subrange(0, 4)) && same_session(
        (Bot { entity_id: new.entity_id, ..old }),
        new,
    ) && new.kicked == old.kicked && new.queued() == old.queued() && new.notices@ == old.notices@)
    &&& (s.len() < 4 ==> kicked_malformed(old, new))
}

/// Login (play): the entity id is recorded.
pub fn process_join_game(buffer: &mut Buf, bot: &mut Bot, _compression: &mut Compression)
    ensures
        join_game_effect(old(buffer).unread(), *old(bot), *final(bot)),
{
    match buffer.read_u32() {
        Some(entity_id) => {
            bot.entity_id = entity_id;
        },
        None => bot.malformed(),
    }
}

/// Bytes of the fixed part of Synchronize Player Position: three doubles,
/// two singles and the flags byte.
pub const TELEPORT_FIXED_LEN: usize = 33;

/// The position update held by the fixed part `s` of Synchronize Player
/// Position. Flag 0x10 makes x relative, 0x08 y and 0x04 z.
pub open spec fn teleport_of(s: Seq<u8>, teleport_id: u32) -> Teleport {
    Teleport {
        x: be_value(s.subrange(0, 8)) as u64,
        y: be_value(s.subrange(8, 16)) as u64,
        z: be_value(s.subrange(16, 24)) as u64,
        yaw: be_value(s.subrange(24, 28)) as u32,
        pitch: be_value(s.subrange(28, 32)) as u32,
        relative_x: s[32] & 0x10u8 != 0,
        relative_y: s[32] & 0x08u8 != 0,
        relative_z: s[32] & 0x04u8 != 0,
        teleport_id,
    }
}

/// The teleport id that follows the fixed part.
pub open spec fn teleport_id_of(s: Seq<u8>) -> Option<u32> {
    match var_u32_decode(s.subrange(TELEPORT_FIXED_LEN as int, s.len() as int)) {
        Some((id, _)) => Some(id),
        None => None,
    }
}

/// What process_teleport does to a bot, given the packet's fields `s`.
pub open spec fn teleport_effect(s: Seq<u8>, old: Bot, new: Bot) -> bool {
    if s.len() >= TELEPORT_FIXED_LEN && teleport_id_of(s) is Some {
        let tid = teleport_id_of(s).unwrap();
        &&& new.teleported
        &&& same_session((Bot { teleported: true, ..old }), new)
        &&& new.notices@ == old.notices@.push(Notice::Teleport(teleport_of(s, tid)))
        &&& replied(old, new, seq![tele_confirm_bytes(tid as nat)])
    } else {
        kicked_malformed(old, new)
    }
}

/// Synchronize Player Position: the update is handed on as a notice, the
/// teleport is confirmed, and the bot may start to move.
pub fn process_teleport(buffer: &mut Buf, bot: &mut Bot, compression: &mut Compression)
    ensures
        teleport_effect(old(buffer).unread(), *old(bot), *final(bot)),
{
    let ghost b0 = *buffer;
    let ghost s = b0.unread();
    if buffer.get_writer_index() - buffer.get_reader_index() < TELEPORT_FIXED_LEN {
        bot.malformed();
        return;
    }
    let x = buffer.read_u64().unwrap();
    let ghost b1 = *buffer;
    let y = buffer.read_u64().unwrap();
    let ghost b2 = *buffer;
    let z = buffer.read_u64().unwrap();
    let ghost b3 = *buffer;
    let yaw = buffer.read_u32().unwrap();
    let ghost b4 = *buffer;
    let pitch = buffer.read_u32().unwrap();
    let ghost b5 = *buffer;
    let flags = buffer.read_u8().unwrap();
    let ghost b6 = *buffer;
    proof {
        b0.lemma_unread_after(&b1, 8);
        b0.lemma_unread_after(&b2, 16);
        b0.lemma_unread_after(&b3, 24);
        b0.lemma_unread_after(&b4, 28);
        b0.lemma_unread_after(&b5, 32);
        b0.lemma_unread_after(&b6, 33);
        assert(b1.unread().subrange(0, 8) =~= s.subrange(8, 16));
        assert(b2.unread().subrange(0, 8) =~= s.subrange(16, 24));
        assert(b3.unread().subrange(0, 4) =~= s.subrange(24, 28));
        assert(b4.unread().subrange(0, 4) =~= s.subrange(28, 32));
    }
    match buffer.read_var_u32() {
        Some((teleport_id, _)) => {
            let teleport = Teleport {
                x,
                y,
                z,
                yaw,
                pitch,
                relative_x: flags & 0b10000 != 0,
                relative_y: flags & 0b01000 != 0,
                relative_z: flags & 0b00100 != 0,
                teleport_id,
            };
            bot.note(Notice::Teleport(teleport));
            let ghost noted_bot = *bot;
            bot.send_packet(write_tele_confirm(teleport_id), compression);
            bot.teleported = true;
            proof {
                assert(teleport == teleport_of(s, teleport_id));
                assert(bot.notices@ =~= old(bot).notices@.push(Notice::Teleport(teleport)));
                assert(replied(noted_bot, *bot, seq![tele_confirm_bytes(teleport_id as nat)]));
            }
        },
        None => bot.malformed(),
    }
}

} // verus!

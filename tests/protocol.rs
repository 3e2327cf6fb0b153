use mc_bot::bot::{Bot, Notice, ProtocolState};
use mc_bot::buf::Buf;
use mc_bot::net::{process_packet, process_frame};
use mc_bot::packet_processors::{lookup_packet, process_decode, Compression, PacketHandler};
use mc_bot::states::{config, login, play, status};

fn new_bot(state: ProtocolState) -> Bot {
    let mut bot = Bot::new("Bot_7".to_string(), 7);
    bot.state = state;
    bot
}

fn dispatch(bot: &mut Bot, packet: Vec<u8>, c: &mut Compression) -> Option<()> {
    let mut b = Buf::from_bytes(packet);
    process_decode(&mut b, bot, c)
}

fn framed(payload: &[u8]) -> Vec<u8> {
    let mut v = vec![payload.len() as u8];
    v.extend_from_slice(payload);
    v
}

#[test]
fn login_success_moves_to_config_with_two_replies() {
    let mut c = Compression::new();
    let mut bot = new_bot(ProtocolState::Login);
    assert_eq!(dispatch(&mut bot, vec![0x02], &mut c), Some(()));
    assert_eq!(bot.state, ProtocolState::Config);
    assert_eq!(bot.outbox.len(), 2);
    assert_eq!(bot.outbox[0], vec![0x01, 0x03]);
    let settings = config::write_client_settings().into_bytes();
    assert_eq!(bot.outbox[1], framed(&settings));
    assert_eq!(
        settings,
        vec![0x00, 5, b'e', b'n', b'_', b'U', b'S', 10, 0, 1, 0xff, 1, 0, 1]
    );
}

#[test]
fn finish_configuration_moves_to_play_with_one_ack() {
    let mut c = Compression::new();
    let mut bot = new_bot(ProtocolState::Config);
    dispatch(&mut bot, vec![0x03], &mut c);
    assert_eq!(bot.state, ProtocolState::Play);
    assert_eq!(bot.take_outbox(), vec![vec![0x01, 0x03]]);
    assert!(bot.outbox.is_empty());
}

#[test]
fn unknown_packet_changes_nothing() {
    let mut c = Compression::new();
    for (state, id) in [
        (ProtocolState::Login, 0x7fu8),
        (ProtocolState::Config, 0x01),
        (ProtocolState::Play, 0x00),
        (ProtocolState::Status, 0x02),
    ] {
        let mut bot = new_bot(state);
        assert_eq!(dispatch(&mut bot, vec![id, 1, 2, 3], &mut c), None);
        assert_eq!(bot.state, state);
        assert!(bot.outbox.is_empty());
        assert!(bot.notices.is_empty());
        assert!(!bot.kicked);
    }
    assert_eq!(lookup_packet(ProtocolState::Play, 0x40), Some(PacketHandler::Teleport));
    assert_eq!(lookup_packet(ProtocolState::Play, 0x16), None);
}

#[test]
fn keep_alive_is_echoed() {
    let mut c = Compression::new();
    let mut bot = new_bot(ProtocolState::Play);
    dispatch(&mut bot, vec![0x26, 0, 0, 0, 0, 0, 0, 0x12, 0x34], &mut c);
    assert_eq!(bot.outbox, vec![vec![0x09, 0x15, 0, 0, 0, 0, 0, 0, 0x12, 0x34]]);
    let mut bot = new_bot(ProtocolState::Config);
    dispatch(&mut bot, vec![0x04, 0, 0, 0, 0, 0, 0, 0, 9], &mut c);
    assert_eq!(bot.outbox, vec![vec![0x09, 0x04, 0, 0, 0, 0, 0, 0, 0, 9]]);
}

#[test]
fn short_keep_alive_is_malformed() {
    let mut c = Compression::new();
    let mut bot = new_bot(ProtocolState::Play);
    dispatch(&mut bot, vec![0x26, 0, 1], &mut c);
    assert!(bot.kicked);
    assert!(matches!(bot.notices.last(), Some(Notice::Malformed)));
    assert!(bot.outbox.is_empty());
}

#[test]
fn config_replies() {
    let mut c = Compression::new();
    let mut bot = new_bot(ProtocolState::Config);
    dispatch(&mut bot, vec![0x05, 0, 0, 1, 2], &mut c);
    dispatch(&mut bot, vec![0x00, 3, b'a', b':', b'b'], &mut c);
    dispatch(&mut bot, vec![0x0E, 0], &mut c);
    let mut pack = vec![0x09];
    pack.extend_from_slice(&[0u8; 15]);
    pack.push(4);
    dispatch(&mut bot, pack, &mut c);
    assert_eq!(bot.outbox[0], vec![0x05, 0x05, 0, 0, 1, 2]);
    assert_eq!(bot.outbox[1], vec![0x06, 0x01, 3, b'a', b':', b'b', 0]);
    assert_eq!(bot.outbox[2], vec![0x02, 0x07, 0x00]);
    let mut expected = vec![0x12, 0x06];
    expected.extend_from_slice(&[0u8; 15]);
    expected.extend_from_slice(&[4, 3]);
    assert_eq!(bot.outbox[3], expected);
    assert!(!bot.kicked);
}

#[test]
fn login_replies_and_compression() {
    let mut c = Compression::new();
    let mut bot = new_bot(ProtocolState::Login);
    dispatch(&mut bot, vec![0x04, 0x2a], &mut c);
    assert_eq!(bot.outbox[0], vec![0x03, 0x02, 0x2a, 0x00]);
    dispatch(&mut bot, vec![0x05, 1, b'x'], &mut c);
    assert_eq!(bot.outbox[1], vec![0x04, 0x04, 1, b'x', 0]);
    dispatch(&mut bot, vec![0x03, 0x80, 0x02], &mut c);
    assert_eq!(bot.compression_threshold, 256);
    dispatch(&mut bot, vec![0x04, 0x2b], &mut c);
    assert_eq!(bot.outbox[2], vec![0x04, 0x00, 0x02, 0x2b, 0x00]);
}

#[test]
fn compressed_replies_above_threshold() {
    let mut c = Compression::new();
    let mut bot = new_bot(ProtocolState::Play);
    bot.compression_threshold = 4;
    dispatch(&mut bot, vec![0x26, 0, 0, 0, 0, 0, 0, 0, 5], &mut c);
    let f = &bot.outbox[0];
    assert_eq!(f[0] as usize, f.len() - 1);
    assert_eq!(f[1], 9);
    let inner = mc_bot::packet_processors::PacketCompressor::process_read(&f[1..]).unwrap();
    assert_eq!(inner, vec![0x15, 0, 0, 0, 0, 0, 0, 0, 5]);
}

#[test]
fn kick_encryption_and_transfer() {
    let mut c = Compression::new();
    let mut bot = new_bot(ProtocolState::Play);
    dispatch(&mut bot, vec![0x1D, 2, b'b', b'y'], &mut c);
    assert!(bot.kicked);
    assert!(matches!(bot.notices.last(), Some(Notice::Kicked(r)) if r == b"by"));
    let mut bot = new_bot(ProtocolState::Login);
    dispatch(&mut bot, vec![0x01], &mut c);
    assert!(bot.kicked);
    assert!(matches!(bot.notices.last(), Some(Notice::EncryptionRequested)));
    let mut bot = new_bot(ProtocolState::Config);
    dispatch(&mut bot, vec![0x0B, 1, b'h', 0x63, 0xdd], &mut c);
    assert!(bot.kicked);
    assert!(matches!(bot.notices.last(), Some(Notice::TransferRequested(a, 25565)) if a == b"h"));
}

#[test]
fn status_notices() {
    let mut c = Compression::new();
    let mut bot = new_bot(ProtocolState::Status);
    dispatch(&mut bot, vec![0x00, 2, b'{', b'}'], &mut c);
    dispatch(&mut bot, vec![0x01, 1, b'p'], &mut c);
    let notices = bot.take_notices();
    assert!(matches!(&notices[0], Notice::StatusResponse(t) if t == b"{}"));
    assert!(matches!(&notices[1], Notice::Pong(t) if t == b"p"));
    assert!(!bot.kicked);
    assert_eq!(status::write_ping(1).into_bytes(), vec![0x01, 0, 0, 0, 0, 0, 0, 0, 1]);
    assert_eq!(status::write_status_request().into_bytes(), vec![0x00]);
}

#[test]
fn join_game_records_entity() {
    let mut c = Compression::new();
    let mut bot = new_bot(ProtocolState::Play);
    dispatch(&mut bot, vec![0x2B, 0, 0, 1, 0], &mut c);
    assert_eq!(bot.entity_id, 256);
    assert!(bot.outbox.is_empty());
}

fn teleport_packet(x: f64, y: f64, z: f64, flags: u8, id: u8) -> Vec<u8> {
    let mut b = Buf::new();
    b.write_packet_id(0x40);
    b.write_u64(x.to_bits());
    b.write_u64(y.to_bits());
    b.write_u64(z.to_bits());
    b.write_u32(0f32.to_bits());
    b.write_u32(0f32.to_bits());
    b.write_u8(flags);
    b.write_var_u32(id as u32);
    b.into_bytes()
}

fn apply(pos: (f64, f64, f64), t: &mc_bot::bot::Teleport) -> (f64, f64, f64) {
    let axis = |cur: f64, bits: u64, rel: bool| {
        if rel {
            cur + f64::from_bits(bits)
        } else {
            f64::from_bits(bits)
        }
    };
    (
        axis(pos.0, t.x, t.relative_x),
        axis(pos.1, t.y, t.relative_y),
        axis(pos.2, t.z, t.relative_z),
    )
}

#[test]
fn teleport_absolute() {
    let mut c = Compression::new();
    let mut bot = new_bot(ProtocolState::Play);
    dispatch(&mut bot, teleport_packet(10.0, 20.0, 30.0, 0b00000, 7), &mut c);
    assert!(bot.teleported);
    assert_eq!(bot.outbox, vec![vec![0x02, 0x00, 0x07]]);
    match bot.notices.last() {
        Some(Notice::Teleport(t)) => {
            assert!(!t.relative_x && !t.relative_y && !t.relative_z);
            assert_eq!(t.teleport_id, 7);
            assert_eq!(apply((1.0, 2.0, 3.0), t), (10.0, 20.0, 30.0));
        }
        _ => panic!("no teleport notice"),
    }
}

#[test]
fn teleport_relative_x_and_z() {
    let mut c = Compression::new();
    let mut bot = new_bot(ProtocolState::Play);
    dispatch(&mut bot, teleport_packet(1.0, 20.0, 2.0, 0b10100, 1), &mut c);
    match bot.notices.last() {
        Some(Notice::Teleport(t)) => {
            assert!(t.relative_x && !t.relative_y && t.relative_z);
            assert_eq!(apply((5.0, 5.0, 5.0), t), (6.0, 20.0, 7.0));
        }
        _ => panic!("no teleport notice"),
    }
}

#[test]
fn truncated_teleport_is_malformed() {
    let mut c = Compression::new();
    let mut bot = new_bot(ProtocolState::Play);
    let mut p = teleport_packet(1.0, 2.0, 3.0, 0, 1);
    p.truncate(20);
    dispatch(&mut bot, p, &mut c);
    assert!(bot.kicked);
    assert!(!bot.teleported);
}

fn keep_alive_frame() -> Vec<u8> {
    framed(&[0x26, 0, 0, 0, 0, 0, 0, 1, 2])
}

#[test]
fn split_reads_reassemble_one_frame() {
    let whole = keep_alive_frame();
    let mut c = Compression::new();
    let mut reference = new_bot(ProtocolState::Play);
    process_packet(&mut reference, &whole, &mut c);
    assert_eq!(reference.outbox.len(), 1);
    for k in 0..=whole.len() {
        let mut bot = new_bot(ProtocolState::Play);
        process_packet(&mut bot, &whole[..k], &mut c);
        if k < whole.len() {
            assert!(bot.outbox.is_empty(), "split at {}", k);
            assert_eq!(bot.buffering_buf.as_slice(), &whole[..k]);
        }
        process_packet(&mut bot, &whole[k..], &mut c);
        assert_eq!(bot.outbox, reference.outbox, "split at {}", k);
        assert_eq!(bot.buffering_buf.get_writer_index(), 0);
    }
}

#[test]
fn byte_by_byte_reads_reassemble_one_frame() {
    let whole = keep_alive_frame();
    let mut c = Compression::new();
    let mut bot = new_bot(ProtocolState::Play);
    for b in &whole {
        process_packet(&mut bot, &[*b], &mut c);
    }
    assert_eq!(bot.outbox.len(), 1);
    assert_eq!(bot.outbox[0], vec![0x09, 0x15, 0, 0, 0, 0, 0, 0, 1, 2]);
}

#[test]
fn several_frames_and_a_tail_in_one_read() {
    let mut bytes = keep_alive_frame();
    bytes.push(0x00);
    bytes.extend(keep_alive_frame());
    bytes.extend_from_slice(&keep_alive_frame()[..4]);
    let mut c = Compression::new();
    let mut bot = new_bot(ProtocolState::Play);
    process_packet(&mut bot, &bytes, &mut c);
    assert_eq!(bot.outbox.len(), 2);
    assert_eq!(bot.buffering_buf.as_slice(), &keep_alive_frame()[..4]);
}

#[test]
fn malformed_length_kicks() {
    let mut c = Compression::new();
    let mut bot = new_bot(ProtocolState::Play);
    process_packet(&mut bot, &[0xff, 0xff, 0xff, 0xff, 0xff, 0xff], &mut c);
    assert!(bot.kicked);
    let before = bot.notices.len();
    process_packet(&mut bot, &keep_alive_frame(), &mut c);
    assert!(bot.outbox.is_empty());
    assert_eq!(bot.notices.len(), before);
}

#[test]
fn compressed_frames_are_inflated() {
    let mut c = Compression::new();
    let mut bot = new_bot(ProtocolState::Play);
    bot.compression_threshold = 4;
    let mut raw = Buf::new();
    raw.write_bytes(&[0x26, 0, 0, 0, 0, 0, 0, 0, 3]);
    let mut inner = Buf::new();
    mc_bot::packet_processors::compress_packet(&raw, &mut c, &mut inner).unwrap();
    process_frame(&mut bot, inner.into_bytes(), &mut c);
    process_frame(&mut bot, vec![0x00, 0x26, 0, 0, 0, 0, 0, 0, 0, 4], &mut c);
    assert_eq!(bot.outbox.len(), 2);
    process_frame(&mut bot, vec![0x05, 0x78, 0x00], &mut c);
    assert!(bot.kicked);
}

#[test]
fn login_writers() {
    let hs = login::write_handshake_packet(767, String::new(), 0, 2).into_bytes();
    assert_eq!(hs, vec![0x00, 0xff, 0x05, 0x00, 0x00, 0x00, 0x02]);
    let ls = login::write_login_start_packet("ab", 1).into_bytes();
    assert_eq!(ls.len(), 1 + 3 + 16);
    assert_eq!(&ls[0..4], &[0x00, 2, b'a', b'b']);
    assert_eq!(ls[19], 1);
    assert_eq!(login::write_login_acknowledged().into_bytes(), vec![0x03]);
}

#[test]
fn play_writers() {
    assert_eq!(play::write_animation(true).into_bytes(), vec![0x33, 1]);
    assert_eq!(play::write_entity_action(300, 3, 0).into_bytes(), vec![0x22, 0xac, 0x02, 3, 0]);
    assert_eq!(play::write_held_slot(8).into_bytes(), vec![0x2C, 0, 8]);
    assert_eq!(play::write_tele_confirm(1).into_bytes(), vec![0x00, 1]);
    let chat = play::write_chat_message("Wow").into_bytes();
    assert_eq!(&chat[0..5], &[0x05, 3, b'W', b'o', b'w']);
    assert_eq!(chat.len(), 5 + 16 + 1 + 1 + 3);
    let pos = play::write_pos(1.5f64.to_bits(), 0, 0, 0, 0).into_bytes();
    assert_eq!(pos.len(), 1 + 24 + 8 + 1);
    assert_eq!(&pos[1..9], &1.5f64.to_be_bytes());
    assert_eq!(
        mc_bot::play::write_keep_alive_packet(2).into_bytes(),
        vec![0x10, 0, 0, 0, 0, 0, 0, 0, 2]
    );
}

use mc_bot::bot::ProtocolState;
use mc_bot::packet_processors::Compression;
use mc_bot::scheduler::{
    action_packet, behave, chat_message, choose_action, start_bot, Action, Admission, Shard,
};

#[test]
fn admission_smoothing() {
    let mut a = Admission::new(100, 2500, 1);
    let admitted: Vec<u32> = (0..4).map(|_| a.tick()).collect();
    assert_eq!(admitted, vec![2, 3, 2, 3]);
    assert_eq!(a.joined, 10);
}

#[test]
fn admission_never_exceeds_count() {
    let mut a = Admission::new(7, 2500, 1);
    let mut total = 0;
    for _ in 0..10 {
        total += a.tick();
        assert!(a.joined <= 7);
    }
    assert_eq!(total, 7);
    assert!(a.is_complete());
}

#[test]
fn admission_shared_by_cpus() {
    let mut a = Admission::new(100, 5000, 4);
    let admitted: Vec<u32> = (0..4).map(|_| a.tick()).collect();
    assert_eq!(admitted, vec![1, 1, 1, 2]);
}

#[test]
fn admission_of_nothing() {
    let mut a = Admission::new(0, 5000, 1);
    assert!(a.is_complete());
    assert_eq!(a.tick(), 0);
}

#[test]
fn failure_is_isolated() {
    let names: Vec<String> = (0..3).map(|i| format!("Bot_{}", i)).collect();
    let mut shard = Shard::new(names, 5000, 1);
    assert_eq!(shard.admit_due(), 3);
    assert_eq!(shard.bots.len(), 3);
    let mut c = Compression::new();
    let mut bot = shard.take(2).unwrap();
    bot.state = ProtocolState::Play;
    start_bot(&mut bot, 9, &mut c);
    assert!(shard.put_back(2, bot));
    let failed = shard.fail(1).unwrap();
    assert_eq!(failed.name, "Bot_1");
    assert!(shard.bots[1].is_none());
    let b0 = shard.bots[0].as_ref().unwrap();
    assert_eq!(b0.name, "Bot_0");
    assert_eq!(b0.state, ProtocolState::Login);
    let b2 = shard.bots[2].as_ref().unwrap();
    assert_eq!(b2.state, ProtocolState::Play);
    assert_eq!(b2.outbox.len(), 2);
    assert!(!shard.is_finished());
    shard.fail(0);
    assert!(!shard.is_finished());
    let mut last = shard.take(2).unwrap();
    last.kicked = true;
    assert!(!shard.put_back(2, last));
    assert!(shard.is_finished());
    assert!(shard.fail(5).is_none());
}

#[test]
fn start_sends_handshake_and_login() {
    let mut c = Compression::new();
    let mut bot = mc_bot::bot::Bot::new("Bot_3".to_string(), 3);
    start_bot(&mut bot, 1, &mut c);
    assert!(bot.joined);
    assert_eq!(bot.outbox[0], vec![0x07, 0x00, 0xff, 0x05, 0x00, 0x00, 0x00, 0x02]);
    assert_eq!(bot.outbox[1][0] as usize, 1 + 6 + 16);
    assert_eq!(&bot.outbox[1][1..8], &[0x00, 5, b'B', b'o', b't', b'_', b'3']);
}

#[test]
fn actions_from_draws() {
    assert_eq!(choose_action(0, false, 4, 0), Some(Action::Chat(1)));
    assert_eq!(choose_action(1, true, 0, 0), Some(Action::Swing(true)));
    assert_eq!(choose_action(2, false, 0, 0), Some(Action::Sneak(false)));
    assert_eq!(choose_action(3, true, 0, 0), Some(Action::Sprint(true)));
    assert_eq!(choose_action(4, false, 0, 12), Some(Action::HeldSlot(3)));
    assert_eq!(choose_action(5, false, 0, 0), None);
    assert_eq!(chat_message(0), "This is a chat message!");
    assert_eq!(chat_message(2), "Server = on?");
    assert_eq!(action_packet(Action::Sneak(true), 5).into_bytes(), vec![0x22, 5, 1, 0]);
    assert_eq!(action_packet(Action::Sprint(false), 5).into_bytes(), vec![0x22, 5, 4, 0]);
}

#[test]
fn behaviour_only_after_teleport() {
    let mut c = Compression::new();
    let mut bot = mc_bot::bot::Bot::new("Bot_1".to_string(), 1);
    behave(&mut bot, 3, 0, 0, 0, Some(Action::Swing(false)), &mut c);
    assert!(bot.outbox.is_empty());
    bot.teleported = true;
    behave(&mut bot, 2, 0, 0, 0, Some(Action::Swing(false)), &mut c);
    assert_eq!(bot.outbox.len(), 1);
    assert_eq!(bot.outbox[0][1], 0x18);
    behave(&mut bot, 3, 0, 0, 0, Some(Action::Swing(false)), &mut c);
    assert_eq!(bot.outbox.len(), 3);
    assert_eq!(bot.outbox[2], vec![0x02, 0x33, 0x00]);
}

#[test]
fn admitted_bots_get_consecutive_ids() {
    let names: Vec<String> = (0..10).map(|i| format!("Bot_{}", 40 + i)).collect();
    let mut shard = Shard::new(names, 2500, 1);
    let admitted: Vec<u32> = (0..4).map(|_| shard.admit_due()).collect();
    assert_eq!(admitted, vec![2, 3, 2, 3]);
    assert_eq!(shard.admit_due(), 0);
    for (i, slot) in shard.bots.iter().enumerate() {
        let bot = slot.as_ref().unwrap();
        assert_eq!(bot.id as usize, i);
        assert_eq!(bot.name, format!("Bot_{}", 40 + i));
        assert_eq!(bot.state, ProtocolState::Login);
        assert!(bot.outbox.is_empty() && bot.notices.is_empty());
        assert_eq!(bot.buffering_buf.get_writer_index(), 0);
    }
    assert!(shard.admission.is_complete());
}

//! The connection-facing side of a bot: sending a packet through the
//! compression and framing layers, carrying incomplete frames between reads.
use crate::bot::{
    kicked_malformed, replied, same_session, send_may_fail, wire_frame, wire_payload, Bot,
};
use crate::buf::Buf;
use crate::varint::lemma_var_groups_bound;
use crate::packet_processors::{
    decoded, frames_of, handles, packet_table, process_decode, unpacked, Compression, FrameStep,
    PacketCompressor, PacketFramer, PacketHandler,
};
use crate::varint::{lemma_var_u32_size, var_u32_decode};
use vstd::prelude::*;

verus! {

/// Moves the unread bytes of `temp_buf` to the end of `buffering_buf`.
pub fn buffer(temp_buf: &mut Buf, buffering_buf: &mut Buf)
    ensures
        final(buffering_buf).data() == old(buffering_buf).data() + old(temp_buf).unread(),
        final(buffering_buf).pos() == old(buffering_buf).pos(),
        final(temp_buf).data() == old(temp_buf).data(),
        final(temp_buf).pos() == old(temp_buf).pos(),
{
    let n = temp_buf.get_writer_index() - temp_buf.get_reader_index();
    buffering_buf.append(temp_buf, n);
    proof {
        assert(old(temp_buf).unread().subrange(0, n as int) =~= old(temp_buf).unread());
    }
}

/// Moves everything held in `buffering_buf` to the end of `temp_buf`,
/// leaving `buffering_buf` empty.
pub fn unbuffer(temp_buf: &mut Buf, buffering_buf: &mut Buf)
    ensures
        final(temp_buf).data() == old(temp_buf).data() + old(buffering_buf).data(),
        final(temp_buf).pos() == old(temp_buf).pos(),
        final(buffering_buf).data() == Seq::<u8>::empty(),
        final(buffering_buf).pos() == 0,
{
    if buffering_buf.get_writer_index() != 0 {
        temp_buf.write_bytes(buffering_buf.as_slice());
        buffering_buf.set_writer_index(0);
    } else {
        proof {
            assert(old(temp_buf).data() + old(buffering_buf).data() =~= old(temp_buf).data());
        }
    }
    buffering_buf.set_reader_index(0);
}

impl Bot {
    /// Queues the unread bytes of `buf` as one frame, compressed first when
    /// compression is on. A frame that cannot be built kicks the bot.
    pub fn send_packet(&mut self, buf: Buf, compression: &mut Compression)
        ensures
            same_session(*old(self), *final(self)),
            final(self).notices@ == old(self).notices@,
            replied(*old(self), *final(self), seq![buf.unread()]),
    {
        if self.kicked {
            return;
        }
        let ghost payload = buf.unread();
        let ghost t = self.compression_threshold;
        let packet = if self.compression_threshold > 0 {
            match PacketCompressor::process_write(buf, &*self, compression) {
                Ok(p) => {
                    proof {
                        if payload.len() > t && payload.len() > 0 {
                            lemma_var_u32_size(payload.len());
                        }
                    }
                    p
                },
                Err(_) => {
                    self.kicked = true;
                    proof {
                        assert(seq![payload][0] == payload);
                        assert(send_may_fail(t, payload));
                        assert(self.queued() =~= old(self).queued() + seq![payload].map_values(
                            |p: Seq<u8>| wire_frame(t, p),
                        ).take(0));
                    }
                    return;
                },
            }
        } else {
            buf
        };
        proof {
            assert(packet.unread() =~= wire_payload(t, payload));
        }
        match PacketFramer::process_write(packet) {
            Ok(frame) => {
                let ghost f = frame.data();
                self.outbox.push(frame.into_bytes());
                proof {
                    assert(f == wire_frame(t, payload));
                    assert(self.queued() =~= old(self).queued() + seq![payload].map_values(
                        |p: Seq<u8>| wire_frame(t, p),
                    ));
                }
            },
            Err(_) => {
                self.kicked = true;
                proof {
                    assert(seq![payload][0] == payload);
                    assert(send_may_fail(t, payload));
                    assert(self.queued() =~= old(self).queued() + seq![payload].map_values(
                        |p: Seq<u8>| wire_frame(t, p),
                    ).take(0));
                }
            },
        }
    }
}

/// The packet inside a frame: the frame itself without compression, else
/// what the compression layer unpacks it to.
pub open spec fn packet_of(threshold: i32, frame: Seq<u8>) -> Option<Seq<u8>> {
    if threshold > 0 {
        unpacked(frame)
    } else {
        Some(frame)
    }
}

/// What one received frame does to a bot.
pub open spec fn frame_effect(frame: Seq<u8>, old: Bot, new: Bot) -> bool {
    match packet_of(old.compression_threshold, frame) {
        None => kicked_malformed(old, new),
        Some(packet) => decoded(packet, old, new),
    }
}

/// Unpacks one frame's payload and dispatches the packet in it. A payload
/// that does not unpack kicks the bot.
pub fn process_frame(bot: &mut Bot, frame: Vec<u8>, compression: &mut Compression)
    ensures
        frame_effect(frame@, *old(bot), *final(bot)),
{
    if bot.compression_threshold > 0 {
        match PacketCompressor::process_read(frame.as_slice()) {
            None => bot.malformed(),
            Some(packet) => {
                let mut buf = Buf::from_bytes(packet);
                proof {
                    buf.lemma_unread_at_start();
                }
                process_decode(&mut buf, bot, compression);
            },
        }
    } else {
        let mut buf = Buf::from_bytes(frame);
        proof {
            buf.lemma_unread_at_start();
        }
        process_decode(&mut buf, bot, compression);
    }
}

/// Everything of a bot but the bytes it carries between reads.
pub open spec fn same_but_carry(a: Bot, b: Bot) -> bool {
    &&& a.name == b.name
    &&& a.id == b.id
    &&& a.entity_id == b.entity_id
    &&& a.compression_threshold == b.compression_threshold
    &&& a.state == b.state
    &&& a.kicked == b.kicked
    &&& a.teleported == b.teleported
    &&& a.joined == b.joined
    &&& a.outbox@ == b.outbox@
    &&& a.notices@ == b.notices@
}

/// `chain` holds a bot before and after each of the first
/// `chain.len() - 1` frames, each applied by its effect to a bot that was
/// not kicked, and the bots carry nothing meanwhile.
pub open spec fn applied_in_order(chain: Seq<Bot>, frames: Seq<Seq<u8>>) -> bool {
    &&& 1 <= chain.len() <= frames.len() + 1
    &&& forall|i: int|
        0 <= i < chain.len() - 1 ==> frame_effect(frames[i], #[trigger] chain[i], chain[i + 1])
            && !chain[i].kicked
    &&& forall|i: int| 0 <= i < chain.len() ==> (#[trigger] chain[i]).buffering_buf.data()
        == Seq::<u8>::empty()
}

/// What a read of `received` does to a bot that is not kicked: the frames
/// complete after the carried bytes are applied in order until one kicks the
/// bot; if none does, a malformed length kicks it, and otherwise the
/// incomplete tail is carried.
pub open spec fn received_effect(old: Bot, new: Bot, received: Seq<u8>, chain: Seq<Bot>) -> bool {
    let (frames, end) = frames_of(old.buffering_buf.data() + received);
    let last = chain.last();
    &&& applied_in_order(chain, frames)
    &&& same_but_carry(chain[0], old)
    &&& if last.kicked || chain.len() < frames.len() + 1 {
        last.kicked && new == last
    } else {
        match end {
            None => kicked_malformed(last, new),
            Some(tail) => same_but_carry(new, last) && new.buffering_buf.data() == tail,
        }
    }
}

/// No frame changes the bytes that a bot carries between reads.
pub proof fn lemma_frame_keeps_carry(frame: Seq<u8>, a: Bot, b: Bot)
    requires
        frame_effect(frame, a, b),
    ensures
        b.buffering_buf.data() == a.buffering_buf.data(),
{
    if let Some(p) = packet_of(a.compression_threshold, frame) {
        if let Some((id, l)) = var_u32_decode(p) {
            if let Some(h) = packet_table(a.state, id as u8) {
                let s = p.subrange(l as int, p.len() as int);
                assert(handles(h, s, a, b));
                match h {
                    PacketHandler::Kick => {},
                    PacketHandler::EncryptionRequest => {},
                    PacketHandler::LoginSuccess => {},
                    PacketHandler::SetCompression => {},
                    PacketHandler::LoginPluginRequest => {},
                    PacketHandler::LoginCookieRequest => {},
                    PacketHandler::StatusResponse => {},
                    PacketHandler::Pong => {},
                    PacketHandler::ConfigCookieRequest => {},
                    PacketHandler::FinishConfiguration => {},
                    PacketHandler::ConfigKeepAlive => {},
                    PacketHandler::ConfigPing => {},
                    PacketHandler::ResourcePack => {},
                    PacketHandler::Transfer => {},
                    PacketHandler::KnownPacks => {},
                    PacketHandler::PlayKeepAlive => {},
                    PacketHandler::JoinGame => {},
                    PacketHandler::Teleport => {},
                }
            }
        }
    }
}

/// Handles the bytes of one socket read: they are appended to what was
/// kept from earlier reads, every complete frame is processed in order,
/// and an incomplete tail is kept for the next read. A length prefix that
/// cannot be decoded kicks the bot. A kicked bot is left as it is.
pub fn process_packet(bot: &mut Bot, received: &[u8], compression: &mut Compression)
    ensures
        old(bot).kicked ==> *final(bot) == *old(bot),
        !old(bot).kicked ==> exists|chain: Seq<Bot>|
            received_effect(*old(bot), *final(bot), received@, chain),
        !old(bot).kicked && frames_of(old(bot).buffering_buf.data() + received@).0.len() == 0
            && frames_of(old(bot).buffering_buf.data() + received@).1 is Some ==> same_but_carry(
            *final(bot),
            *old(bot),
        ) && final(bot).buffering_buf.data() == frames_of(
            old(bot).buffering_buf.data() + received@,
        ).1.unwrap(),
{
    if bot.kicked {
        return;
    }
    let ghost all = old(bot).buffering_buf.data() + received@;
    let mut packet_buf = Buf::new();
    unbuffer(&mut packet_buf, &mut bot.buffering_buf);
    packet_buf.write_bytes(received);
    proof {
        packet_buf.lemma_unread_at_start();
        assert(packet_buf.unread() =~= all);
    }
    let ghost data = packet_buf.data();
    let ghost mut processed: Seq<Seq<u8>> = Seq::empty();
    let ghost mut chain: Seq<Bot> = seq![*bot];
    loop
        invariant
            packet_buf.data() == data,
            all == old(bot).buffering_buf.data() + received@,
            !old(bot).kicked,
            !bot.kicked,
            bot.buffering_buf.data() == Seq::<u8>::empty(),
            frames_of(all).0 == processed + frames_of(packet_buf.unread()).0,
            frames_of(all).1 == frames_of(packet_buf.unread()).1,
            chain.len() == processed.len() + 1,
            chain.last() == *bot,
            same_but_carry(chain[0], *old(bot)),
            applied_in_order(chain, frames_of(all).0),
        decreases packet_buf.unread().len(),
    {
        let ghost cur = packet_buf;
        proof {
            cur.lemma_pos_in_range();
        }
        match PacketFramer::process_read(&mut packet_buf) {
            FrameStep::Incomplete => {
                proof {
                    assert(frames_of(cur.unread()) == (Seq::<Seq<u8>>::empty(), Some(cur.unread())));
                    assert(frames_of(all).0 =~= processed);
                }
                buffer(&mut packet_buf, &mut bot.buffering_buf);
                proof {
                    assert(bot.buffering_buf.data() =~= cur.unread());
                    assert(received_effect(*old(bot), *bot, received@, chain));
                }
                return;
            },
            FrameStep::Malformed => {
                bot.malformed();
                proof {
                    assert(frames_of(all).0 =~= processed);
                    assert(received_effect(*old(bot), *bot, received@, chain));
                }
                return;
            },
            FrameStep::Skipped => {
                proof {
                    let k = (packet_buf.pos() - cur.pos()) as nat;
                    cur.lemma_unread_after(&packet_buf, k);
                    lemma_var_groups_bound(cur.unread(), 5);
                    assert(frames_of(cur.unread()) == frames_of(
                        cur.unread().subrange(k as int, cur.unread().len() as int),
                    ));
                }
            },
            FrameStep::Frame(frame) => {
                let ghost before = *bot;
                proof {
                    cur.lemma_unread_after(&packet_buf, (packet_buf.pos() - cur.pos()) as nat);
                    let fs3 = frames_of(packet_buf.unread()).0;
                    assert(frames_of(cur.unread()).0 == seq![frame@] + fs3);
                    assert(frames_of(all).0 =~= processed.push(frame@) + fs3);
                    assert(frames_of(all).0[processed.len() as int] == frame@);
                }
                process_frame(bot, frame, compression);
                proof {
                    processed = processed.push(frame@);
                    chain = chain.push(*bot);
                    assert(bot.buffering_buf.data() == Seq::<u8>::empty()) by {
                        lemma_frame_keeps_carry(frame@, before, *bot);
                    }
                    assert forall|i: int| 0 <= i < chain.len() - 1 implies frame_effect(
                        frames_of(all).0[i],
                        #[trigger] chain[i],
                        chain[i + 1],
                    ) && !chain[i].kicked by {
                        if i == chain.len() - 2 {
                            assert(chain[i] == before);
                        }
                    }
                }
                if bot.kicked {
                    proof {
                        assert(received_effect(*old(bot), *bot, received@, chain));
                    }
                    return;
                }
            },
        }
    }
}

} // verus!

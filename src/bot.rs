//! One emulated client: its protocol state, what the server told it, and
//! the packets and notices it has produced for the connection to act on.
use crate::buf::Buf;
use crate::packet_processors::{frame_bytes, packed, zlib_bound, MAX_FRAME_PAYLOAD};
use crate::varint::var_u32_size;
use vstd::prelude::*;

verus! {

#[derive(Debug, Clone, Copy, PartialEq, Eq, Structural)]
pub enum ProtocolState {
    Status,
    Login,
    Config,
    Play,
}

/// A position update from the server. Coordinates are the bit patterns of
/// IEEE 754 doubles and angles those of singles; an axis marked relative
/// is an offset from the current coordinate, any other replaces it.
#[derive(Debug, Clone, Copy, PartialEq, Eq, Structural)]
pub struct Teleport {
    pub x: u64,
    pub y: u64,
    pub z: u64,
    pub yaw: u32,
    pub pitch: u32,
    pub relative_x: bool,
    pub relative_y: bool,
    pub relative_z: bool,
    pub teleport_id: u32,
}

/// Something the connection's owner should know of: what the server sent
/// that is only reported, and the position updates that it applies.
#[derive(Debug)]
pub enum Notice {
    /// The server closed the session; the reason as it was sent.
    Kicked(Vec<u8>),
    /// The server asked for encryption, which this client does not do.
    EncryptionRequested,
    /// The server asked the client to reconnect to another address.
    TransferRequested(Vec<u8>, u16),
    /// A packet or frame could not be decoded.
    Malformed,
    /// The server's status text.
    StatusResponse(Vec<u8>),
    /// The server's answer to a status ping.
    Pong(Vec<u8>),
    /// A position update to apply.
    Teleport(Teleport),
}

/// The state of one connection. `kicked` is terminal: once set the bot
/// produces no further packets.
pub struct Bot {
    pub name: String,
    pub id: u32,
    pub entity_id: u32,
    /// Payloads longer than this are compressed; zero or less disables
    /// compression.
    pub compression_threshold: i32,
    pub state: ProtocolState,
    pub kicked: bool,
    /// Set once the server has sent a position.
    pub teleported: bool,
    /// Set once the handshake has been queued.
    pub joined: bool,
    /// Received bytes of a frame that is not complete yet.
    pub buffering_buf: Buf,
    /// Frames ready for the socket, oldest first.
    pub outbox: Vec<Vec<u8>>,
    pub notices: Vec<Notice>,
}

/// What a connection with this threshold puts inside the frame of a
/// payload.
pub open spec fn wire_payload(threshold: i32, payload: Seq<u8>) -> Seq<u8> {
    if threshold > 0 {
        packed(threshold as int, payload)
    } else {
        payload
    }
}

/// The bytes that go on the wire for a payload.
pub open spec fn wire_frame(threshold: i32, payload: Seq<u8>) -> Seq<u8> {
    frame_bytes(wire_payload(threshold, payload))
}

/// The most bytes that a connection with this threshold can put inside
/// the frame of a payload: the exact count when the payload is not
/// compressed, else its size field and the compressor's worst case.
pub open spec fn wire_bound(threshold: i32, payload: Seq<u8>) -> nat {
    if threshold > 0 && payload.len() > threshold && payload.len() > 0 {
        var_u32_size(payload.len()) + zlib_bound(payload.len())
    } else {
        wire_payload(threshold, payload).len()
    }
}

/// Sending a payload can fail only when even the largest frame it may
/// need is too large.
pub open spec fn send_may_fail(threshold: i32, payload: Seq<u8>) -> bool {
    wire_bound(threshold, payload) > MAX_FRAME_PAYLOAD
}

/// `new` is `old` after sending `payloads` in order: all of them are
/// queued, or the bot was kicked at one that may fail and the ones before
/// it are queued. A kicked bot sends nothing.
pub open spec fn replied(old: Bot, new: Bot, payloads: Seq<Seq<u8>>) -> bool {
    let frames = payloads.map_values(|p: Seq<u8>| wire_frame(old.compression_threshold, p));
    if old.kicked {
        new.kicked && new.queued() == old.queued()
    } else if !new.kicked {
        new.queued() == old.queued() + frames
    } else {
        exists|i: int|
            0 <= i < payloads.len() && send_may_fail(old.compression_threshold, #[trigger] payloads[i])
                && new.queued() == old.queued() + frames.take(i)
    }
}

/// Everything but the kicked flag, the outbound queue and the notices.
pub open spec fn same_session(a: Bot, b: Bot) -> bool {
    &&& a.name == b.name
    &&& a.id == b.id
    &&& a.entity_id == b.entity_id
    &&& a.compression_threshold == b.compression_threshold
    &&& a.state == b.state
    &&& a.teleported == b.teleported
    &&& a.joined == b.joined
    &&& a.buffering_buf.data() == b.buffering_buf.data()
}

/// Only the replies changed.
pub open spec fn answered(old: Bot, new: Bot, payloads: Seq<Seq<u8>>) -> bool {
    same_session(old, new) && new.notices@ == old.notices@ && replied(old, new, payloads)
}

/// One notice was added and the outbound queue is as it was.
pub open spec fn noted(old: Bot, new: Bot) -> bool {
    &&& new.queued() == old.queued()
    &&& new.notices@.len() == old.notices@.len() + 1
    &&& new.notices@.drop_last() == old.notices@
}

/// The last notice of `b`.
pub open spec fn last_notice(b: Bot) -> Notice {
    b.notices@.last()
}

/// The bot was kicked with a notice and nothing else changed.
pub open spec fn kicked_noting(old: Bot, new: Bot) -> bool {
    same_session(old, new) && new.kicked && noted(old, new)
}

/// The bot was kicked because a packet could not be decoded.
pub open spec fn kicked_malformed(old: Bot, new: Bot) -> bool {
    kicked_noting(old, new) && last_notice(new) == Notice::Malformed
}

/// Replies in two steps are the replies of both.
pub proof fn lemma_replied_concat(
    a: Bot,
    m: Bot,
    b: Bot,
    ps: Seq<Seq<u8>>,
    qs: Seq<Seq<u8>>,
)
    requires
        replied(a, m, ps),
        replied(m, b, qs),
        m.compression_threshold == a.compression_threshold,
    ensures
        replied(a, b, ps + qs),
{
    let t = a.compression_threshold;
    let fp = ps.map_values(|p: Seq<u8>| wire_frame(t, p));
    let fq = qs.map_values(|p: Seq<u8>| wire_frame(t, p));
    let fall = (ps + qs).map_values(|p: Seq<u8>| wire_frame(t, p));
    assert(fall =~= fp + fq);
    if !a.kicked && b.kicked {
        if m.kicked {
            let i = choose|i: int|
                0 <= i < ps.len() && send_may_fail(t, #[trigger] ps[i]) && m.queued() == a.queued()
                    + fp.take(i);
            assert((ps + qs)[i] == ps[i]);
            assert(fall.take(i) =~= fp.take(i));
        } else {
            let i = choose|i: int|
                0 <= i < qs.len() && send_may_fail(t, #[trigger] qs[i]) && b.queued() == m.queued()
                    + fq.take(i);
            assert((ps + qs)[ps.len() + i] == qs[i]);
            assert(fall.take(ps.len() + i) =~= fp + fq.take(i));
            assert(b.queued() =~= a.queued() + fall.take(ps.len() + i));
        }
    }
    if !b.kicked {
        assert(b.queued() =~= a.queued() + fall);
    }
}

impl Bot {
    /// The queued frames as byte sequences.
    pub open spec fn queued(&self) -> Seq<Seq<u8>> {
        self.outbox@.map_values(|v: Vec<u8>| v@)
    }

    pub fn new(name: String, id: u32) -> (r: Bot)
        ensures
            r.name == name,
            r.id == id,
            r.entity_id == 0,
            r.compression_threshold == 0,
            r.state == ProtocolState::Login,
            !r.kicked,
            !r.teleported,
            !r.joined,
            r.buffering_buf.data() == Seq::<u8>::empty(),
            r.outbox@ == Seq::<Vec<u8>>::empty(),
            r.notices@ == Seq::<Notice>::empty(),
    {
        Bot {
            name,
            id,
            entity_id: 0,
            compression_threshold: 0,
            state: ProtocolState::Login,
            kicked: false,
            teleported: false,
            joined: false,
            buffering_buf: Buf::with_length(200),
            outbox: Vec::new(),
            notices: Vec::new(),
        }
    }

    /// Kicks the bot and records why.
    pub fn kick(&mut self, notice: Notice)
        ensures
            kicked_noting(*old(self), *final(self)),
            last_notice(*final(self)) == notice,
    {
        self.kicked = true;
        self.notices.push(notice);
        proof {
            assert(self.notices@.drop_last() =~= old(self).notices@);
        }
    }

    /// Kicks the bot over a packet that could not be decoded.
    pub fn malformed(&mut self)
        ensures
            kicked_malformed(*old(self), *final(self)),
    {
        self.kick(Notice::Malformed);
    }

    /// Records a notice.
    pub fn note(&mut self, notice: Notice)
        ensures
            same_session(*old(self), *final(self)),
            final(self).kicked == old(self).kicked,
            noted(*old(self), *final(self)),
            last_notice(*final(self)) == notice,
    {
        self.notices.push(notice);
        proof {
            assert(self.notices@.drop_last() =~= old(self).notices@);
        }
    }

    /// Takes the queued frames, leaving the queue empty.
    pub fn take_outbox(&mut self) -> (r: Vec<Vec<u8>>)
        ensures
            r@ == old(self).outbox@,
            final(self).outbox@ == Seq::<Vec<u8>>::empty(),
            final(self).kicked == old(self).kicked,
            same_session(*old(self), *final(self)),
            final(self).notices@ == old(self).notices@,
    {
        let mut taken = Vec::new();
        std::mem::swap(&mut taken, &mut self.outbox);
        taken
    }

    /// Takes the queued notices, leaving the queue empty.
    pub fn take_notices(&mut self) -> (r: Vec<Notice>)
        ensures
            r@ == old(self).notices@,
            final(self).notices@ == Seq::<Notice>::empty(),
            final(self).kicked == old(self).kicked,
            same_session(*old(self), *final(self)),
            final(self).outbox@ == old(self).outbox@,
    {
        let mut taken = Vec::new();
        std::mem::swap(&mut taken, &mut self.notices);
        taken
    }
}

} // verus!

//! The decisions of a connection scheduler: how many bots to admit each
//! tick, and when a bot joins and acts.
use crate::bot::{answered, lemma_replied_concat, replied, same_session, Bot, Notice, ProtocolState};
use crate::buf::Buf;
use crate::packet_processors::Compression;
use crate::states::login::{
    handshake_bytes, login_start_bytes, write_handshake_packet, write_login_start_packet,
};
use crate::states::play::{
    animation_bytes, chat_message_bytes, entity_action_bytes, held_slot_bytes, pos_bytes,
    write_animation, write_chat_message, write_entity_action, write_held_slot, write_pos,
};
use vstd::pervasive::VecAdditionalExecFns;
use vstd::prelude::*;
use vstd::string::StringSliceAdditionalSpecFns;
use vstd::utf8::{encode_utf8, is_ascii_chars, is_ascii_chars_encode_utf8};

verus! {

/// Bots admitted after `ticks` ticks: `rate` thousandths of a bot per tick
/// shared by `cpus` schedulers, rounded down, and never more than `count`.
pub open spec fn admitted_after(ticks: nat, rate: nat, cpus: nat, count: nat) -> nat {
    let due = (ticks * rate) / (1000 * cpus);
    if due < count {
        due
    } else {
        count
    }
}

/// Spreads the admission of `count` bots over ticks. Each tick adds the
/// per-tick budget; every whole bot of budget admits one.
pub struct Admission {
    /// Average joins per tick over all schedulers, in thousandths.
    pub avg_joins_millis: u64,
    pub cpus: u32,
    pub count: u32,
    pub joined: u32,
    /// Budget left over, in units of one thousandth of a bot per scheduler.
    pub budget: u128,
    pub ticks: Ghost<nat>,
}

impl Admission {
    pub open spec fn unit(&self) -> nat {
        1000 * self.cpus as nat
    }

    /// Number of ticks so far.
    pub closed spec fn ticks(&self) -> nat {
        self.ticks@
    }

    pub closed spec fn wf(&self) -> bool {
        &&& self.cpus > 0
        &&& self.joined <= self.count
        &&& self.joined == admitted_after(
            self.ticks@,
            self.avg_joins_millis as nat,
            self.cpus as nat,
            self.count as nat,
        )
        &&& self.joined < self.count ==> self.budget + self.joined * self.unit() == self.ticks@
            * self.avg_joins_millis && self.budget < self.unit()
    }

    pub fn new(count: u32, avg_joins_millis: u64, cpus: u32) -> (r: Admission)
        requires
            cpus > 0,
        ensures
            r.wf(),
            r.count == count,
            r.avg_joins_millis == avg_joins_millis,
            r.cpus == cpus,
            r.joined == 0,
            r.ticks() == 0,
    {
        let r = Admission {
            avg_joins_millis,
            cpus,
            count,
            joined: 0,
            budget: 0,
            ticks: Ghost(0),
        };
        proof {
            assert(0 * (avg_joins_millis as nat) == 0);
            assert(0nat / (1000 * cpus as nat) == 0);
        }
        r
    }

    /// Whether every bot has been admitted.
    pub fn is_complete(&self) -> (r: bool)
        ensures
            r == (self.joined == self.count),
    {
        self.joined == self.count
    }

    /// Adds one tick of budget and returns how many bots to admit now.
    pub fn tick(&mut self) -> (n: u32)
        requires
            old(self).wf(),
        ensures
            final(self).wf(),
            final(self).ticks() == old(self).ticks() + 1,
            final(self).joined == old(self).joined + n,
            final(self).joined == admitted_after(
                final(self).ticks(),
                old(self).avg_joins_millis as nat,
                old(self).cpus as nat,
                old(self).count as nat,
            ),
            final(self).count == old(self).count,
            final(self).cpus == old(self).cpus,
            final(self).avg_joins_millis == old(self).avg_joins_millis,
    {
        let ghost k = self.ticks@;
        let ghost r = self.avg_joins_millis as nat;
        let ghost d = self.unit();
        let ghost c = self.count as nat;
        proof {
            assert(k * r <= (k + 1) * r) by (nonlinear_arith);
            assert((k * r) / d <= ((k + 1) * r) / d) by (nonlinear_arith)
                requires
                    k * r <= (k + 1) * r,
                    d > 0,
            ;
        }
        self.ticks = Ghost(k + 1);
        if self.joined == self.count {
            return 0;
        }
        let unit: u128 = 1000 * self.cpus as u128;
        self.budget = self.budget + self.avg_joins_millis as u128;
        let due = self.budget / unit;
        let left = (self.count - self.joined) as u128;
        let n: u32 = if due < left {
            due as u32
        } else {
            left as u32
        };
        let ghost j = self.joined as nat;
        let ghost b = self.budget as nat;
        proof {
            assert((k + 1) * r == k * r + r) by (nonlinear_arith);
            assert(b + j * d == (k + 1) * r);
            assert(((k + 1) * r) / d == j + b / d) by (nonlinear_arith)
                requires
                    b + j * d == (k + 1) * r,
                    d > 0,
            ;
            assert(b - (b / d) * d < d) by (nonlinear_arith)
                requires
                    d > 0,
            ;
            assert((n as nat) * d <= b) by (nonlinear_arith)
                requires
                    n as nat <= b / d,
                    d > 0,
            ;
        }
        self.budget = self.budget - n as u128 * unit;
        self.joined = self.joined + n;
        proof {
            assert((j + n) * d == j * d + n * d) by (nonlinear_arith);
            assert(self.budget + self.joined * d == (k + 1) * r);
            assert(admitted_after(k + 1, r, self.cpus as nat, c) == if j + b / d < c {
                j + b / d
            } else {
                c
            });
        }
        n
    }
}

/// The protocol version that the handshake announces.
pub const PROTOCOL_VERSION: u32 = 767;

/// Every this many ticks, counted from its id, a moving bot also acts.
pub const ACTION_TICK: u32 = 4;

/// Number of chat messages in the pool.
pub const MESSAGE_COUNT: usize = 3;

/// The chat message pool.
pub open spec fn chat_text(index: nat) -> Seq<char> {
    if index % 3 == 0 {
        "This is a chat message!"@
    } else if index % 3 == 1 {
        "Wow"@
    } else {
        "Server = on?"@
    }
}

/// Message `index` of the pool, counted round.
pub fn chat_message(index: usize) -> (r: &'static str)
    ensures
        r@ == chat_text(index as nat),
        r.spec_bytes().len() == r@.len() <= 23,
{
    let r = if index % 3 == 0 {
        "This is a chat message!"
    } else if index % 3 == 1 {
        "Wow"
    } else {
        "Server = on?"
    };
    proof {
        reveal_strlit("This is a chat message!");
        reveal_strlit("Wow");
        reveal_strlit("Server = on?");
        assert(is_ascii_chars(r@));
        is_ascii_chars_encode_utf8(r@);
    }
    r
}

/// Queues the handshake and the login start: the bot has joined.
pub fn start_bot(bot: &mut Bot, uuid: u128, compression: &mut Compression)
    requires
        encode_utf8(old(bot).name@).len() <= u32::MAX,
    ensures
        final(bot).joined,
        same_session((Bot { joined: true, ..*old(bot) }), *final(bot)),
        final(bot).notices@ == old(bot).notices@,
        replied(
            *old(bot),
            *final(bot),
            seq![
                handshake_bytes(PROTOCOL_VERSION as nat, encode_utf8(Seq::<char>::empty()), 0, 2),
                login_start_bytes(encode_utf8(old(bot).name@), uuid as nat),
            ],
        ),
{
    bot.joined = true;
    let ghost start = *bot;
    let address = String::new();
    proof {
        assert(address@ =~= Seq::<char>::empty());
        assert(encode_utf8(Seq::<char>::empty()) =~= Seq::<u8>::empty()) by {
            reveal_with_fuel(encode_utf8, 2);
        }
    }
    bot.send_packet(write_handshake_packet(PROTOCOL_VERSION, address, 0, 2), compression);
    let ghost mid = *bot;
    let login = write_login_start_packet(bot.name.as_str(), uuid);
    bot.send_packet(login, compression);
    proof {
        lemma_replied_concat(
            start,
            mid,
            *bot,
            seq![handshake_bytes(PROTOCOL_VERSION as nat, encode_utf8(Seq::<char>::empty()), 0, 2)],
            seq![login_start_bytes(encode_utf8(old(bot).name@), uuid as nat)],
        );
        assert(seq![handshake_bytes(PROTOCOL_VERSION as nat, encode_utf8(Seq::<char>::empty()), 0, 2)]
            + seq![login_start_bytes(encode_utf8(old(bot).name@), uuid as nat)] =~= seq![
            handshake_bytes(PROTOCOL_VERSION as nat, encode_utf8(Seq::<char>::empty()), 0, 2),
            login_start_bytes(encode_utf8(old(bot).name@), uuid as nat),
        ]);
    }
}

/// One synthetic action of a moving bot.
#[derive(Debug, Clone, Copy, PartialEq, Eq, Structural)]
pub enum Action {
    /// Say message `n` of the pool.
    Chat(usize),
    /// Swing the main hand, or the off hand.
    Swing(bool),
    /// Start sneaking, or stop.
    Sneak(bool),
    /// Start sprinting, or stop.
    Sprint(bool),
    /// Select a hotbar slot.
    HeldSlot(u16),
}

/// The action that random draws pick: `kind` chooses among the five kinds,
/// `flag` is a coin, `message` picks from the pool and `slot` a slot.
pub open spec fn action_of(kind: u8, flag: bool, message: usize, slot: u16) -> Option<Action> {
    if kind == 0 {
        Some(Action::Chat(message % MESSAGE_COUNT))
    } else if kind == 1 {
        Some(Action::Swing(flag))
    } else if kind == 2 {
        Some(Action::Sneak(flag))
    } else if kind == 3 {
        Some(Action::Sprint(flag))
    } else if kind == 4 {
        Some(Action::HeldSlot(slot % 9))
    } else {
        None
    }
}

pub fn choose_action(kind: u8, flag: bool, message: usize, slot: u16) -> (r: Option<Action>)
    ensures
        r == action_of(kind, flag, message, slot),
{
    match kind {
        0 => Some(Action::Chat(message % MESSAGE_COUNT)),
        1 => Some(Action::Swing(flag)),
        2 => Some(Action::Sneak(flag)),
        3 => Some(Action::Sprint(flag)),
        4 => Some(Action::HeldSlot(slot % 9)),
        _ => None,
    }
}

/// The packet of an action. Sneaking is entity action 0 (start) or 1
/// (stop); sprinting is 3 (start) or 4 (stop).
pub open spec fn action_bytes(action: Action, entity_id: u32) -> Seq<u8> {
    match action {
        Action::Chat(n) => chat_message_bytes(encode_utf8(chat_text(n as nat))),
        Action::Swing(off_hand) => animation_bytes(off_hand),
        Action::Sneak(stop) => entity_action_bytes(entity_id as nat, if stop { 1 } else { 0 }, 0),
        Action::Sprint(start) => entity_action_bytes(entity_id as nat, if start { 3 } else { 4 }, 0),
        Action::HeldSlot(slot) => held_slot_bytes(slot as nat),
    }
}

pub fn action_packet(action: Action, entity_id: u32) -> (r: Buf)
    ensures
        r.data() == action_bytes(action, entity_id),
        r.unread() == r.data(),
{
    match action {
        Action::Chat(n) => write_chat_message(chat_message(n)),
        Action::Swing(off_hand) => write_animation(off_hand),
        Action::Sneak(stop) => write_entity_action(entity_id, if stop { 1 } else { 0 }, 0),
        Action::Sprint(start) => write_entity_action(entity_id, if start { 3 } else { 4 }, 0),
        Action::HeldSlot(slot) => write_held_slot(slot),
    }
}

/// Whether a bot acts on this tick: every `ACTION_TICK` ticks, offset by
/// its id so that not all bots act together.
pub open spec fn acts_on_tick(tick: u32, id: u32) -> bool {
    (tick as nat + id as nat) % (ACTION_TICK as nat) == 0
}

/// What the movement pass sends for a bot at position `(x, y, z)` (bit
/// patterns of doubles).
pub open spec fn behaviour_payloads(
    bot: Bot,
    tick: u32,
    x: u64,
    y: u64,
    z: u64,
    action: Option<Action>,
) -> Seq<Seq<u8>> {
    let moved = seq![pos_bytes(x as nat, y as nat, z as nat, 0, 0)];
    match action {
        Some(a) => if acts_on_tick(tick, bot.id) {
            moved.push(action_bytes(a, bot.entity_id))
        } else {
            moved
        },
        None => moved,
    }
}

/// The movement pass for one bot: once it has a position from the server
/// it sends its position, and on its action ticks the drawn action.
pub fn behave(
    bot: &mut Bot,
    tick: u32,
    x: u64,
    y: u64,
    z: u64,
    action: Option<Action>,
    compression: &mut Compression,
)
    ensures
        !old(bot).teleported ==> *final(bot) == *old(bot),
        old(bot).teleported ==> answered(
            *old(bot),
            *final(bot),
            behaviour_payloads(*old(bot), tick, x, y, z, action),
        ),
{
    if !bot.teleported {
        return;
    }
    let ghost start = *bot;
    bot.send_packet(write_pos(x, y, z, 0, 0), compression);
    let ghost moved = seq![pos_bytes(x as nat, y as nat, z as nat, 0, 0)];
    if (tick as u64 + bot.id as u64) % (ACTION_TICK as u64) == 0 {
        if let Some(a) = action {
            let ghost mid = *bot;
            bot.send_packet(action_packet(a, bot.entity_id), compression);
            proof {
                lemma_replied_concat(start, mid, *bot, moved, seq![action_bytes(a, start.entity_id)]);
                assert(moved + seq![action_bytes(a, start.entity_id)] =~= moved.push(
                    action_bytes(a, start.entity_id),
                ));
            }
        }
    }
}

/// The bots of one scheduler. Slot `i` holds the bot with id `i` from its
/// admission until it leaves; a slot is never reused. `names` holds the
/// name of every bot to admit, in order, until it is admitted.
pub struct Shard {
    pub bots: Vec<Option<Bot>>,
    pub names: Vec<String>,
    pub admission: Admission,
}

/// A bot as it is admitted: named, in the login state, with nothing
/// carried, queued or noted.
pub open spec fn fresh_bot(b: Bot, name: String, id: u32) -> bool {
    &&& b.name == name
    &&& b.id == id
    &&& b.entity_id == 0
    &&& b.compression_threshold == 0
    &&& b.state == ProtocolState::Login
    &&& !b.kicked
    &&& !b.teleported
    &&& !b.joined
    &&& b.buffering_buf.data() == Seq::<u8>::empty()
    &&& b.outbox@ == Seq::<Vec<u8>>::empty()
    &&& b.notices@ == Seq::<Notice>::empty()
}

impl Shard {
    /// Exactly the admitted bots have slots, and there is a name for each
    /// bot to admit.
    pub open spec fn wf(&self) -> bool {
        &&& self.admission.wf()
        &&& self.bots@.len() == self.admission.joined
        &&& self.names@.len() == self.admission.count
    }

    /// Whether some bot is still connected.
    pub open spec fn has_active(&self) -> bool {
        exists|i: int| 0 <= i < self.bots@.len() && #[trigger] self.bots@[i] is Some
    }

    /// A scheduler for the bots named in `names`.
    pub fn new(names: Vec<String>, avg_joins_millis: u64, cpus: u32) -> (r: Shard)
        requires
            cpus > 0,
            names@.len() <= u32::MAX,
        ensures
            r.wf(),
            r.bots@ == Seq::<Option<Bot>>::empty(),
            r.names@ == names@,
            r.admission.count == names@.len(),
            r.admission.avg_joins_millis == avg_joins_millis,
            r.admission.cpus == cpus,
            r.admission.ticks() == 0,
    {
        let count = names.len() as u32;
        Shard { bots: Vec::new(), names, admission: Admission::new(count, avg_joins_millis, cpus) }
    }

    /// One tick of admission: the bots that are due get the next ids, in
    /// order, each in a fresh slot under its name.
    pub fn admit_due(&mut self) -> (n: u32)
        requires
            old(self).wf(),
        ensures
            final(self).wf(),
            final(self).admission.ticks() == old(self).admission.ticks() + 1,
            final(self).admission.joined == old(self).admission.joined + n,
            final(self).admission.joined == admitted_after(
                final(self).admission.ticks(),
                old(self).admission.avg_joins_millis as nat,
                old(self).admission.cpus as nat,
                old(self).admission.count as nat,
            ),
            final(self).admission.count == old(self).admission.count,
            final(self).bots@.take(old(self).bots@.len() as int) == old(self).bots@,
            forall|k: int|
                old(self).bots@.len() <= k < final(self).bots@.len() ==> (
                #[trigger] final(self).bots@[k] matches Some(b) && fresh_bot(
                    b,
                    old(self).names@[k],
                    k as u32,
                )),
    {
        let start = self.bots.len();
        let n = self.admission.tick();
        let end = start + n as usize;
        let mut id = start;
        while id < end
            invariant
                start <= id <= end,
                end == self.admission.joined,
                self.bots@.len() == id,
                self.names@.len() == self.admission.count,
                self.admission.wf(),
                end <= self.admission.count,
                self.admission.joined == old(self).admission.joined + n,
                self.admission.ticks() == old(self).admission.ticks() + 1,
                self.admission.joined == admitted_after(
                    self.admission.ticks(),
                    old(self).admission.avg_joins_millis as nat,
                    old(self).admission.cpus as nat,
                    old(self).admission.count as nat,
                ),
                self.admission.count == old(self).admission.count,
                start == old(self).bots@.len(),
                self.bots@.take(start as int) == old(self).bots@,
                forall|k: int| id <= k < self.names@.len() ==> #[trigger] self.names@[k] == old(
                    self,
                ).names@[k],
                forall|k: int|
                    start <= k < id ==> (#[trigger] self.bots@[k] matches Some(b) && fresh_bot(
                        b,
                        old(self).names@[k],
                        k as u32,
                    )),
            decreases end - id,
        {
            let mut name = String::new();
            self.names.set_and_swap(id, &mut name);
            let bot = Bot::new(name, id as u32);
            let ghost before = self.bots@;
            self.bots.push(Some(bot));
            proof {
                assert(self.bots@.take(start as int) =~= before.take(start as int));
            }
            id = id + 1;
        }
        n
    }

    /// Takes a bot out of its slot to work on it.
    pub fn take(&mut self, id: usize) -> (r: Option<Bot>)
        ensures
            id < old(self).bots@.len() ==> r == old(self).bots@[id as int] && final(self).bots@
                == old(self).bots@.update(id as int, None),
            id >= old(self).bots@.len() ==> r is None && final(self).bots@ == old(self).bots@,
            final(self).admission == old(self).admission,
            final(self).names@ == old(self).names@,
    {
        if id < self.bots.len() {
            let mut slot: Option<Bot> = None;
            self.bots.set_and_swap(id, &mut slot);
            slot
        } else {
            None
        }
    }

    /// Puts a bot back into its slot, unless it has been kicked: then it
    /// leaves for good. Returns whether it stayed.
    pub fn put_back(&mut self, id: usize, bot: Bot) -> (kept: bool)
        requires
            id < old(self).bots@.len(),
        ensures
            kept == !bot.kicked,
            final(self).bots@ == old(self).bots@.update(
                id as int,
                if bot.kicked {
                    None
                } else {
                    Some(bot)
                },
            ),
            final(self).admission == old(self).admission,
            final(self).names@ == old(self).names@,
    {
        let kept = !bot.kicked;
        if kept {
            self.bots.set(id, Some(bot));
        } else {
            self.bots.set(id, None);
        }
        kept
    }

    /// A bot whose connection failed leaves; no other bot changes.
    pub fn fail(&mut self, id: usize) -> (r: Option<Bot>)
        ensures
            id < old(self).bots@.len() ==> r == old(self).bots@[id as int] && final(self).bots@
                == old(self).bots@.update(id as int, None),
            id >= old(self).bots@.len() ==> r is None && final(self).bots@ == old(self).bots@,
            forall|j: int|
                0 <= j < old(self).bots@.len() && j != id ==> #[trigger] final(self).bots@[j]
                    == old(self).bots@[j],
            final(self).bots@.len() == old(self).bots@.len(),
            final(self).admission == old(self).admission,
            final(self).names@ == old(self).names@,
    {
        let r = self.take(id);
        r
    }

    /// Whether the scheduler is done: every bot admitted and none left.
    pub fn is_finished(&self) -> (r: bool)
        ensures
            r <==> self.admission.joined == self.admission.count && !self.has_active(),
    {
        if self.admission.joined != self.admission.count {
            return false;
        }
        let mut i: usize = 0;
        while i < self.bots.len()
            invariant
                i <= self.bots@.len(),
                forall|j: int| 0 <= j < i ==> #[trigger] self.bots@[j] is None,
            decreases self.bots@.len() - i,
        {
            if self.bots[i].is_some() {
                return false;
            }
            i = i + 1;
        }
        true
    }
}

/// When one bot's connection fails and it leaves, every other bot is as it
/// was, and while another bot is connected the scheduler is not finished.
pub proof fn lemma_failure_isolated(before: Shard, after: Shard, id: int, other: int)
    requires
        0 <= id < before.bots@.len(),
        after.bots@ == before.bots@.update(id, None),
        0 <= other < before.bots@.len(),
        other != id,
        before.bots@[other] is Some,
    ensures
        after.bots@[other] == before.bots@[other],
        after.has_active(),
{
    assert(after.bots@[other] is Some);
}

} // verus!

//! The layers between raw bytes and packets: length framing on the wire and
//! the optional zlib layer inside a frame.
use crate::bot::{kicked_malformed, Bot, ProtocolState};
use crate::states::{config, login, play, status};
use crate::buf::Buf;
use libdeflater::{CompressionError, CompressionLvl, Compressor};
use std::io::Write;
use crate::varint::{
    get_var_u32_size, lemma_var_u32_round_trip, lemma_var_u32_size, var_u32_bytes,
    var_u32_decode, var_u32_size,
};
use vstd::prelude::*;

verus! {

/// A packet that cannot be put on the wire.
#[derive(Debug, Clone, Copy, PartialEq, Eq, Structural)]
pub enum PacketError {
    /// The payload needs a length prefix of more than three bytes.
    FrameTooLarge,
    /// The payload is too long for its size field.
    PayloadTooLarge,
    /// The compressor ran out of output space.
    Compression,
}

/// Largest payload whose length prefix fits in three bytes.
pub const MAX_FRAME_PAYLOAD: usize = 0x1F_FFFF;

/// A frame on the wire: the payload length as a varint, then the payload.
pub open spec fn frame_bytes(payload: Seq<u8>) -> Seq<u8> {
    var_u32_bytes(payload.len()) + payload
}

/// Splits received bytes into the payloads of the complete frames at their
/// front and what ends them: `Some(tail)`, the bytes kept for the next read,
/// or `None` where a length prefix cannot be decoded. Fewer than three bytes
/// always wait for more, and frames of length zero carry no payload.
pub open spec fn frames_of(s: Seq<u8>) -> (Seq<Seq<u8>>, Option<Seq<u8>>)
    decreases s.len(),
{
    if s.len() < 3 {
        (Seq::empty(), Some(s))
    } else {
        match var_u32_decode(s) {
            None => (Seq::empty(), None),
            Some((n, l)) => if l + n > s.len() {
                (Seq::empty(), Some(s))
            } else {
                let (fs, tail) = frames_of(s.subrange(l + n, s.len() as int));
                if n == 0 {
                    (fs, tail)
                } else {
                    (seq![s.subrange(l as int, l + n)] + fs, tail)
                }
            },
        }
    }
}

/// What the framing layer found at the front of a receive buffer.
pub enum FrameStep {
    /// A complete frame with this payload.
    Frame(Vec<u8>),
    /// A complete frame of length zero.
    Skipped,
    /// Not enough bytes yet; nothing was consumed.
    Incomplete,
    /// The length prefix cannot be decoded.
    Malformed,
}

pub struct PacketFramer {}

impl PacketFramer {
    /// Puts the unread bytes of `buffer` behind their length.
    pub fn process_write(buffer: Buf) -> (r: Result<Buf, PacketError>)
        ensures
            r is Ok <==> buffer.unread().len() <= MAX_FRAME_PAYLOAD,
            r matches Ok(t) ==> t.data() == frame_bytes(buffer.unread()) && t.pos() == 0
                && t.data().len() == buffer.unread().len() + var_u32_size(buffer.unread().len()),
            r matches Err(e) ==> e == PacketError::FrameTooLarge,
    {
        let size = buffer.get_writer_index() - buffer.get_reader_index();
        if size > MAX_FRAME_PAYLOAD {
            return Err(PacketError::FrameTooLarge);
        }
        let header_size = get_var_u32_size(size as u32);
        let mut target = Buf::with_length(size + header_size);
        target.write_var_u32(size as u32);
        target.append(&buffer, size);
        proof {
            assert(target.data() =~= frame_bytes(buffer.unread()));
            lemma_var_u32_size(size as nat);
        }
        Ok(target)
    }

    /// Takes the next frame off the front of the unread bytes. On
    /// `Incomplete` and `Malformed` nothing is consumed.
    pub fn process_read(buffer: &mut Buf) -> (r: FrameStep)
        ensures
            final(buffer).data() == old(buffer).data(),
            ({
                let s = old(buffer).unread();
                match r {
                    FrameStep::Incomplete => final(buffer).pos() == old(buffer).pos() && (s.len()
                        < 3 || (var_u32_decode(s) matches Some((n, l)) && l + n > s.len())),
                    FrameStep::Malformed => final(buffer).pos() == old(buffer).pos() && s.len()
                        >= 3 && var_u32_decode(s) is None,
                    FrameStep::Skipped => s.len() >= 3 && (var_u32_decode(s) matches Some((n, l))
                        && n == 0 && final(buffer).pos() == old(buffer).pos() + l),
                    FrameStep::Frame(p) => s.len() >= 3 && (var_u32_decode(s) matches Some((n, l))
                        && n > 0 && l + n <= s.len() && p@ == s.subrange(l as int, l + n)
                        && final(buffer).pos() == old(buffer).pos() + l + n),
                }
            }),
    {
        let start = buffer.get_reader_index();
        if buffer.get_writer_index() - start < 3 {
            return FrameStep::Incomplete;
        }
        match buffer.read_var_u32() {
            None => FrameStep::Malformed,
            Some((size, l)) => {
                let ghost mid = *buffer;
                proof {
                    old(buffer).lemma_pos_in_range();
                    mid.lemma_pos_in_range();
                    assert(mid.unread() =~= old(buffer).unread().subrange(
                        l as int,
                        old(buffer).unread().len() as int,
                    ));
                }
                if size == 0 {
                    FrameStep::Skipped
                } else {
                    match buffer.read_bytes(size as usize) {
                        Some(p) => {
                            proof {
                                assert(p@ =~= old(buffer).unread().subrange(l as int, l + size));
                            }
                            FrameStep::Frame(p)
                        },
                        None => {
                            buffer.set_reader_index(start);
                            FrameStep::Incomplete
                        },
                    }
                }
            },
        }
    }
}

/// A whole frame whose payload has at least two bytes decodes, on its
/// own, to exactly that payload with nothing left over.
pub proof fn lemma_unframe_frame(payload: Seq<u8>)
    requires
        2 <= payload.len() <= MAX_FRAME_PAYLOAD,
    ensures
        frames_of(frame_bytes(payload)) == (seq![payload], Some(Seq::<u8>::empty())),
{
    let f = frame_bytes(payload);
    let n = payload.len();
    lemma_var_u32_round_trip(n as u32, payload);
    lemma_var_u32_size(n);
    let l = var_u32_size(n);
    assert(f.subrange(l as int, (l + n) as int) =~= payload);
    assert(f.subrange((l + n) as int, f.len() as int) =~= Seq::<u8>::empty());
    assert(frames_of(Seq::<u8>::empty()) == (Seq::<Seq<u8>>::empty(), Some(Seq::<u8>::empty())));
    assert(seq![payload] + Seq::<Seq<u8>>::empty() =~= seq![payload]);
}

/// Any proper prefix of such a frame yields no payload and is kept whole
/// for the next read; with the whole frame it then decodes as one.
pub proof fn lemma_partial_frame_carried(payload: Seq<u8>, k: nat)
    requires
        2 <= payload.len() <= MAX_FRAME_PAYLOAD,
        k < frame_bytes(payload).len(),
    ensures
        frames_of(frame_bytes(payload).subrange(0, k as int)) == (
            Seq::<Seq<u8>>::empty(),
            Some(frame_bytes(payload).subrange(0, k as int)),
        ),
        frames_of(frame_bytes(payload)) == (seq![payload], Some(Seq::<u8>::empty())),
{
    lemma_unframe_frame(payload);
    let f = frame_bytes(payload);
    let a = f.subrange(0, k as int);
    let n = payload.len();
    lemma_var_u32_size(n);
    let l = var_u32_size(n);
    if k >= 3 {
        let rest = a.subrange(l as int, k as int);
        assert(a =~= var_u32_bytes(n) + rest);
        lemma_var_u32_round_trip(n as u32, rest);
    }
}

/// Reading such a frame in any number of pieces: when the carried bytes
/// are a prefix of it, the next piece either leaves a longer prefix carried
/// and yields nothing, or completes the frame and yields exactly its
/// payload with nothing left over.
pub proof fn lemma_frame_read_in_pieces(payload: Seq<u8>, carried: nat, next: nat)
    requires
        2 <= payload.len() <= MAX_FRAME_PAYLOAD,
        carried <= next <= frame_bytes(payload).len(),
    ensures
        ({
            let f = frame_bytes(payload);
            let read = f.subrange(0, carried as int) + f.subrange(carried as int, next as int);
            if next < f.len() {
                frames_of(read) == (Seq::<Seq<u8>>::empty(), Some(f.subrange(0, next as int)))
            } else {
                frames_of(read) == (seq![payload], Some(Seq::<u8>::empty()))
            }
        }),
{
    let f = frame_bytes(payload);
    assert(f.subrange(0, carried as int) + f.subrange(carried as int, next as int) =~= f.subrange(
        0,
        next as int,
    ));
    if next < f.len() {
        lemma_partial_frame_carried(payload, next);
    } else {
        assert(f.subrange(0, next as int) =~= f);
        lemma_unframe_frame(payload);
    }
}

#[verifier::external_type_specification]
#[verifier::external_body]
pub struct ExCompressor(Compressor);

#[verifier::external_type_specification]
#[verifier::external_body]
pub struct ExCompressionError(CompressionError);

/// The zlib stream that libdeflate writes for `data` at its default level.
pub uninterp spec fn zlib_deflate_of(data: Seq<u8>) -> Seq<u8>;

/// What flate2's zlib decoder writes out for the bytes `data`, or `None`
/// where it reports an error. A stream cut short is no error to it: it
/// yields what it inflated so far.
pub uninterp spec fn zlib_inflate_of(data: Seq<u8>) -> Option<Seq<u8>>;

/// libdeflate's worst-case size of the zlib stream of `n` bytes: the zlib
/// header and trailer, five bytes for each stored block of 5000 bytes (at
/// least one block), and the bytes themselves.
pub open spec fn zlib_bound(n: nat) -> nat {
    let blocks = if n == 0 {
        1
    } else {
        (n + 4999) / 5000
    };
    6 + 5 * blocks + n
}

/// Largest payload that goes through the compressor; its worst-case
/// stream size still fits in 32 bits.
pub const MAX_COMPRESS_INPUT: usize = 0xFF00_0000;

/// The compressor shared by the connections of one scheduler. It is only
/// ever made at libdeflate's default level.
pub struct Compression {
    compressor: Compressor,
}

impl Compression {
    pub fn new() -> Compression {
        Compression { compressor: new_default_compressor() }
    }
}

/// Relies on libdeflater::Compressor::new to make a compressor at the
/// default level.
#[verifier::external_body]
fn new_default_compressor() -> Compressor {
    Compressor::new(CompressionLvl::default())
}

/// Relies on libdeflater::Compressor::zlib_compress_bound, which returns
/// libdeflate's hard worst-case size of the zlib stream of `n` bytes.
#[verifier::external_body]
fn zlib_compress_bound(compression: &mut Compression, n: usize) -> (r: usize)
    requires
        zlib_bound(n as nat) <= usize::MAX,
    ensures
        r == zlib_bound(n as nat),
{
    compression.compressor.zlib_compress_bound(n)
}

/// Relies on libdeflater::Compressor::zlib_compress: on success it has
/// written the zlib stream of `input` to the front of `out` and returns its
/// length; it succeeds whenever `out` holds the worst-case size, and the
/// stream it writes decompresses to `input`.
#[verifier::external_body]
fn zlib_compress(compression: &mut Compression, input: &[u8], out: &mut Vec<u8>) -> (r: Result<
    usize,
    CompressionError,
>)
    ensures
        final(out)@.len() == old(out)@.len(),
        old(out)@.len() >= zlib_bound(input@.len()) ==> r is Ok,
        r matches Ok(n) ==> n <= final(out)@.len() && final(out)@.subrange(0, n as int)
            == zlib_deflate_of(input@),
        r is Ok ==> zlib_inflate_of(zlib_deflate_of(input@)) == Some(input@),
{
    compression.compressor.zlib_compress(input, out.as_mut_slice())
}

/// Relies on flate2::write::ZlibDecoder: what it writes out for `data`, or
/// `None` where it reports an error.
#[verifier::external_body]
fn zlib_decompress(data: &[u8]) -> (r: Option<Vec<u8>>)
    ensures
        r matches Some(v) ==> zlib_inflate_of(data@) == Some(v@),
        r is None ==> zlib_inflate_of(data@) is None,
{
    let mut decoder = flate2::write::ZlibDecoder::new(Vec::new());
    match decoder.write_all(data) {
        Ok(()) => decoder.finish().ok(),
        Err(_) => None,
    }
}

/// A payload as it stands inside a frame once compression is on: the
/// uncompressed size (zero when not compressed), then the bytes. Payloads
/// longer than the threshold are compressed, except an empty one, whose
/// size already reads as "not compressed".
pub open spec fn packed(threshold: int, payload: Seq<u8>) -> Seq<u8> {
    if payload.len() > threshold && payload.len() > 0 {
        var_u32_bytes(payload.len()) + zlib_deflate_of(payload)
    } else {
        var_u32_bytes(0) + payload
    }
}

/// The packet inside a frame once compression is on; `None` where the size
/// field cannot be read, or the rest does not inflate to exactly the size
/// it gives.
pub open spec fn unpacked(frame: Seq<u8>) -> Option<Seq<u8>> {
    match var_u32_decode(frame) {
        None => None,
        Some((n, l)) => if n == 0 {
            Some(frame.subrange(l as int, frame.len() as int))
        } else {
            match zlib_inflate_of(frame.subrange(l as int, frame.len() as int)) {
                Some(v) => if v.len() == n {
                    Some(v)
                } else {
                    None
                },
                None => None,
            }
        },
    }
}

/// Writes the size of the unread bytes of `packet`, then their zlib stream,
/// into an output sized by the compressor's worst-case bound.
pub fn compress_packet(
    packet: &Buf,
    compression: &mut Compression,
    compression_buffer: &mut Buf,
) -> (r: Result<(), PacketError>)
    requires
        packet.unread().len() <= MAX_COMPRESS_INPUT,
    ensures
        r is Ok,
        final(compression_buffer).data() == old(compression_buffer).data() + var_u32_bytes(
            packet.unread().len(),
        ) + zlib_deflate_of(packet.unread()),
        final(compression_buffer).pos() == old(compression_buffer).pos(),
        zlib_deflate_of(packet.unread()).len() <= zlib_bound(packet.unread().len()),
        zlib_inflate_of(zlib_deflate_of(packet.unread())) == Some(packet.unread()),
{
    let input = packet.unread_bytes();
    let bound = zlib_compress_bound(compression, input.len());
    let mut out: Vec<u8> = vec![0u8; bound];
    match zlib_compress(compression, input.as_slice(), &mut out) {
        Ok(n) => {
            compression_buffer.write_var_u32(input.len() as u32);
            let s = out.as_slice();
            compression_buffer.write_bytes(&s[0..n]);
            proof {
                assert(s@.subrange(0, n as int) == zlib_deflate_of(packet.unread()));
            }
            Ok(())
        },
        Err(_) => Err(PacketError::Compression),
    }
}

pub struct PacketCompressor {}

impl PacketCompressor {
    /// The payload in the form that a connection with compression on puts
    /// inside a frame; it unpacks to the payload again.
    pub fn process_write(buffer: Buf, bot: &Bot, compression: &mut Compression) -> (r: Result<
        Buf,
        PacketError,
    >)
        ensures
            r is Ok <==> buffer.unread().len() <= MAX_COMPRESS_INPUT,
            r matches Err(e) ==> e == PacketError::PayloadTooLarge,
            r matches Ok(t) ==> t.data() == packed(bot.compression_threshold as int, buffer.unread())
                && t.pos() == 0 && unpacked(t.data()) == Some(buffer.unread()),
            r is Ok && buffer.unread().len() > bot.compression_threshold && buffer.unread().len()
                > 0 ==> zlib_deflate_of(
                buffer.unread(),
            ).len() <= zlib_bound(buffer.unread().len()),
    {
        let size = buffer.get_writer_index() - buffer.get_reader_index();
        if size > MAX_COMPRESS_INPUT {
            return Err(PacketError::PayloadTooLarge);
        }
        let ghost p = buffer.unread();
        let mut buf = Buf::new();
        if (size as u32) as i64 > bot.compression_threshold as i64 && size > 0 {
            let _ = compress_packet(&buffer, compression, &mut buf);
            proof {
                assert(buf.data() =~= packed(bot.compression_threshold as int, p));
                lemma_var_u32_round_trip(size as u32, zlib_deflate_of(p));
                lemma_var_u32_size(size as nat);
                let l = var_u32_size(size as nat);
                assert(buf.data().subrange(l as int, buf.data().len() as int) =~= zlib_deflate_of(p));
            }
            Ok(buf)
        } else {
            buf.write_var_u32(0);
            buf.append(&buffer, size);
            proof {
                assert(p.subrange(0, size as int) =~= p);
                assert(buf.data() =~= packed(bot.compression_threshold as int, p));
                lemma_uncompressed_round_trip(bot.compression_threshold as int, p);
            }
            Ok(buf)
        }
    }

    /// The packet inside a frame of a connection with compression on.
    pub fn process_read(frame: &[u8]) -> (r: Option<Vec<u8>>)
        ensures
            r matches Some(v) ==> unpacked(frame@) == Some(v@),
            r is None ==> unpacked(frame@) is None,
    {
        let mut buf = Buf::new();
        buf.write_bytes(frame);
        proof {
            assert(buf.unread() =~= frame@);
        }
        match buf.read_var_u32() {
            None => None,
            Some((n, l)) => {
                let rest = buf.unread_bytes();
                proof {
                    assert(rest@ =~= frame@.subrange(l as int, frame@.len() as int));
                }
                if n == 0 {
                    Some(rest)
                } else {
                    match zlib_decompress(rest.as_slice()) {
                        Some(v) => if v.len() == n as usize {
                            Some(v)
                        } else {
                            None
                        },
                        None => None,
                    }
                }
            },
        }
    }
}

/// Below or at the threshold a payload comes back unchanged: the threshold
/// is exclusive.
pub proof fn lemma_uncompressed_round_trip(threshold: int, payload: Seq<u8>)
    requires
        payload.len() <= threshold || payload.len() == 0,
    ensures
        unpacked(packed(threshold, payload)) == Some(payload),
{
    lemma_var_u32_round_trip(0, payload);
    let f = packed(threshold, payload);
    assert(var_u32_bytes(0) =~= seq![0u8]);
    assert(f.subrange(1, f.len() as int) =~= payload);
}

/// The handler of a received packet.
#[derive(Debug, Clone, Copy, PartialEq, Eq, Structural)]
pub enum PacketHandler {
    Kick,
    EncryptionRequest,
    LoginSuccess,
    SetCompression,
    LoginPluginRequest,
    LoginCookieRequest,
    StatusResponse,
    Pong,
    ConfigCookieRequest,
    FinishConfiguration,
    ConfigKeepAlive,
    ConfigPing,
    ResourcePack,
    Transfer,
    KnownPacks,
    PlayKeepAlive,
    JoinGame,
    Teleport,
}

/// Which handler each packet id of each state goes to; ids not listed are
/// ignored.
pub open spec fn packet_table(state: ProtocolState, packet: u8) -> Option<PacketHandler> {
    match state {
        ProtocolState::Login => if packet == 0x00 {
            Some(PacketHandler::Kick)
        } else if packet == 0x01 {
            Some(PacketHandler::EncryptionRequest)
        } else if packet == 0x02 {
            Some(PacketHandler::LoginSuccess)
        } else if packet == 0x03 {
            Some(PacketHandler::SetCompression)
        } else if packet == 0x04 {
            Some(PacketHandler::LoginPluginRequest)
        } else if packet == 0x05 {
            Some(PacketHandler::LoginCookieRequest)
        } else {
            None
        },
        ProtocolState::Status => if packet == 0x00 {
            Some(PacketHandler::StatusResponse)
        } else if packet == 0x01 {
            Some(PacketHandler::Pong)
        } else {
            None
        },
        ProtocolState::Config => if packet == 0x00 {
            Some(PacketHandler::ConfigCookieRequest)
        } else if packet == 0x02 {
            Some(PacketHandler::Kick)
        } else if packet == 0x03 {
            Some(PacketHandler::FinishConfiguration)
        } else if packet == 0x04 {
            Some(PacketHandler::ConfigKeepAlive)
        } else if packet == 0x05 {
            Some(PacketHandler::ConfigPing)
        } else if packet == 0x09 {
            Some(PacketHandler::ResourcePack)
        } else if packet == 0x0B {
            Some(PacketHandler::Transfer)
        } else if packet == 0x0E {
            Some(PacketHandler::KnownPacks)
        } else {
            None
        },
        ProtocolState::Play => if packet == 0x26 {
            Some(PacketHandler::PlayKeepAlive)
        } else if packet == 0x2B {
            Some(PacketHandler::JoinGame)
        } else if packet == 0x1D {
            Some(PacketHandler::Kick)
        } else if packet == 0x40 {
            Some(PacketHandler::Teleport)
        } else if packet == 0x73 {
            Some(PacketHandler::Transfer)
        } else {
            None
        },
    }
}

pub fn lookup_packet(state: ProtocolState, packet: u8) -> (r: Option<PacketHandler>)
    ensures
        r == packet_table(state, packet),
{
    match state {
        ProtocolState::Login => match packet {
            0x00 => Some(PacketHandler::Kick),
            0x01 => Some(PacketHandler::EncryptionRequest),
            0x02 => Some(PacketHandler::LoginSuccess),
            0x03 => Some(PacketHandler::SetCompression),
            0x04 => Some(PacketHandler::LoginPluginRequest),
            0x05 => Some(PacketHandler::LoginCookieRequest),
            _ => None,
        },
        ProtocolState::Status => match packet {
            0x00 => Some(PacketHandler::StatusResponse),
            0x01 => Some(PacketHandler::Pong),
            _ => None,
        },
        ProtocolState::Config => match packet {
            0x00 => Some(PacketHandler::ConfigCookieRequest),
            0x02 => Some(PacketHandler::Kick),
            0x03 => Some(PacketHandler::FinishConfiguration),
            0x04 => Some(PacketHandler::ConfigKeepAlive),
            0x05 => Some(PacketHandler::ConfigPing),
            0x09 => Some(PacketHandler::ResourcePack),
            0x0B => Some(PacketHandler::Transfer),
            0x0E => Some(PacketHandler::KnownPacks),
            _ => None,
        },
        ProtocolState::Play => match packet {
            0x26 => Some(PacketHandler::PlayKeepAlive),
            0x2B => Some(PacketHandler::JoinGame),
            0x1D => Some(PacketHandler::Kick),
            0x40 => Some(PacketHandler::Teleport),
            0x73 => Some(PacketHandler::Transfer),
            _ => None,
        },
    }
}

/// What handler `h` does to a bot, given the packet's fields `s`.
pub open spec fn handles(h: PacketHandler, s: Seq<u8>, old: Bot, new: Bot) -> bool {
    match h {
        PacketHandler::Kick => play::kick_effect(s, old, new),
        PacketHandler::EncryptionRequest => login::encryption_request_packet_effect(s, old, new),
        PacketHandler::LoginSuccess => login::login_success_packet_effect(s, old, new),
        PacketHandler::SetCompression => login::set_compression_packet_effect(s, old, new),
        PacketHandler::LoginPluginRequest => login::plugin_message_request_effect(s, old, new),
        PacketHandler::LoginCookieRequest => login::cookie_request_packet_effect(s, old, new),
        PacketHandler::StatusResponse => status::status_response_effect(s, old, new),
        PacketHandler::Pong => status::pong_effect(s, old, new),
        PacketHandler::ConfigCookieRequest => config::cookie_request_packet_effect(s, old, new),
        PacketHandler::FinishConfiguration => config::finish_configuration_effect(s, old, new),
        PacketHandler::ConfigKeepAlive => config::keep_alive_packet_effect(s, old, new),
        PacketHandler::ConfigPing => config::ping_effect(s, old, new),
        PacketHandler::ResourcePack => config::resource_pack_effect(s, old, new),
        PacketHandler::Transfer => config::transfer_effect(s, old, new),
        PacketHandler::KnownPacks => config::known_packs_effect(s, old, new),
        PacketHandler::PlayKeepAlive => play::keep_alive_packet_effect(s, old, new),
        PacketHandler::JoinGame => play::join_game_effect(s, old, new),
        PacketHandler::Teleport => play::teleport_effect(s, old, new),
    }
}

impl PacketHandler {
    pub fn run(self, buffer: &mut Buf, bot: &mut Bot, compression: &mut Compression)
        ensures
            handles(self, old(buffer).unread(), *old(bot), *final(bot)),
    {
        match self {
            PacketHandler::Kick => play::process_kick(buffer, bot, compression),
            PacketHandler::EncryptionRequest => {
                login::process_encryption_request_packet(buffer, bot, compression)
            },
            PacketHandler::LoginSuccess => {
                login::process_login_success_packet(buffer, bot, compression)
            },
            PacketHandler::SetCompression => {
                login::process_set_compression_packet(buffer, bot, compression)
            },
            PacketHandler::LoginPluginRequest => {
                login::process_plugin_message_request(buffer, bot, compression)
            },
            PacketHandler::LoginCookieRequest => {
                login::process_cookie_request_packet(buffer, bot, compression)
            },
            PacketHandler::StatusResponse => {
                status::process_status_response(buffer, bot, compression)
            },
            PacketHandler::Pong => status::process_pong(buffer, bot, compression),
            PacketHandler::ConfigCookieRequest => {
                config::process_cookie_request_packet(buffer, bot, compression)
            },
            PacketHandler::FinishConfiguration => {
                config::process_finish_configuration(buffer, bot, compression)
            },
            PacketHandler::ConfigKeepAlive => {
                config::process_keep_alive_packet(buffer, bot, compression)
            },
            PacketHandler::ConfigPing => config::process_ping(buffer, bot, compression),
            PacketHandler::ResourcePack => config::process_resource_pack(buffer, bot, compression),
            PacketHandler::Transfer => config::process_transfer(buffer, bot, compression),
            PacketHandler::KnownPacks => config::process_known_packs(buffer, bot, compression),
            PacketHandler::PlayKeepAlive => {
                play::process_keep_alive_packet(buffer, bot, compression)
            },
            PacketHandler::JoinGame => play::process_join_game(buffer, bot, compression),
            PacketHandler::Teleport => play::process_teleport(buffer, bot, compression),
        }
    }
}

/// What dispatching the packet `s` does to a bot: the packet id selects
/// the handler by the bot's state; an id without one changes nothing.
pub open spec fn decoded(s: Seq<u8>, old: Bot, new: Bot) -> bool {
    match var_u32_decode(s) {
        None => kicked_malformed(old, new),
        Some((id, l)) => match packet_table(old.state, id as u8) {
            None => new == old,
            Some(h) => handles(h, s.subrange(l as int, s.len() as int), old, new),
        },
    }
}

/// Reads the packet id and hands the rest of the packet to its handler.
/// `None` when the id cannot be read or has no handler.
pub fn process_decode(buffer: &mut Buf, bot: &mut Bot, compression: &mut Compression) -> (r: Option<
    (),
>)
    ensures
        decoded(old(buffer).unread(), *old(bot), *final(bot)),
        r is Some <==> (var_u32_decode(old(buffer).unread()) matches Some((id, _)) && packet_table(
            old(bot).state,
            id as u8,
        ) is Some),
{
    let ghost b0 = *buffer;
    match buffer.read_var_u32() {
        None => {
            bot.malformed();
            None
        },
        Some((id, l)) => {
            proof {
                b0.lemma_unread_after(&*buffer, l as nat);
            }
            match lookup_packet(bot.state, id as u8) {
                None => None,
                Some(h) => {
                    h.run(buffer, bot, compression);
                    Some(())
                },
            }
        },
    }
}

} // verus!

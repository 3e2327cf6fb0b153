use mc_bot::bot::Bot;
use mc_bot::buf::Buf;
use mc_bot::packet_processors::{
    compress_packet, Compression, FrameStep, PacketCompressor, PacketError, PacketFramer,
};

fn frame(payload: &[u8]) -> Vec<u8> {
    let mut b = Buf::new();
    b.write_bytes(payload);
    PacketFramer::process_write(b).unwrap().into_bytes()
}

fn unframe(bytes: Vec<u8>) -> Option<Vec<u8>> {
    let mut b = Buf::from_bytes(bytes);
    match PacketFramer::process_read(&mut b) {
        FrameStep::Frame(p) => Some(p),
        _ => None,
    }
}

#[test]
fn frame_exact_bytes() {
    assert_eq!(frame(&[0x03]), vec![0x01, 0x03]);
    let payload = vec![7u8; 200];
    let f = frame(&payload);
    assert_eq!(&f[0..2], &[0xc8, 0x01]);
    assert_eq!(f.len(), 202);
}

#[test]
fn unframe_of_frame_is_identity() {
    for size in [2usize, 3, 127, 128, 300, 16384, 2_000_000] {
        let payload: Vec<u8> = (0..size).map(|i| (i % 251) as u8).collect();
        assert_eq!(unframe(frame(&payload)), Some(payload), "size {}", size);
    }
}

#[test]
fn largest_frame_and_too_large() {
    let ok = vec![1u8; 0x1F_FFFF];
    assert_eq!(frame(&ok).len(), 0x1F_FFFF + 3);
    let mut big = Buf::new();
    big.write_bytes(&vec![1u8; 0x20_0000]);
    assert!(matches!(PacketFramer::process_write(big), Err(PacketError::FrameTooLarge)));
}

#[test]
fn zero_length_frame_is_skipped() {
    let mut b = Buf::from_bytes(vec![0x00, 0x02, 0xaa, 0xbb]);
    assert!(matches!(PacketFramer::process_read(&mut b), FrameStep::Skipped));
    assert_eq!(b.get_reader_index(), 1);
    match PacketFramer::process_read(&mut b) {
        FrameStep::Frame(p) => assert_eq!(p, vec![0xaa, 0xbb]),
        _ => panic!("the frame after the empty one"),
    }
}

#[test]
fn incomplete_and_malformed_frames() {
    let mut b = Buf::from_bytes(vec![0x05, 0x01, 0x02, 0x03]);
    assert!(matches!(PacketFramer::process_read(&mut b), FrameStep::Incomplete));
    assert_eq!(b.get_reader_index(), 0);
    let mut b = Buf::from_bytes(vec![0x01, 0x09]);
    assert!(matches!(PacketFramer::process_read(&mut b), FrameStep::Incomplete));
    let mut b = Buf::from_bytes(vec![0x80, 0x80, 0x80, 0x80, 0x80, 0x80]);
    assert!(matches!(PacketFramer::process_read(&mut b), FrameStep::Malformed));
}

#[test]
fn several_frames_in_one_buffer() {
    let mut bytes = frame(&[1, 2, 3]);
    bytes.extend(frame(&[4, 5]));
    bytes.push(0x09);
    let mut b = Buf::from_bytes(bytes);
    match PacketFramer::process_read(&mut b) {
        FrameStep::Frame(p) => assert_eq!(p, vec![1, 2, 3]),
        _ => panic!("first frame"),
    }
    match PacketFramer::process_read(&mut b) {
        FrameStep::Frame(p) => assert_eq!(p, vec![4, 5]),
        _ => panic!("second frame"),
    }
    assert!(matches!(PacketFramer::process_read(&mut b), FrameStep::Incomplete));
    assert_eq!(b.unread_bytes(), vec![0x09]);
}

fn bot_with_threshold(t: i32) -> Bot {
    let mut bot = Bot::new("Bot_0".to_string(), 0);
    bot.compression_threshold = t;
    bot
}

fn pack(payload: &[u8], threshold: i32, compression: &mut Compression) -> Vec<u8> {
    let mut b = Buf::new();
    b.write_bytes(payload);
    PacketCompressor::process_write(b, &bot_with_threshold(threshold), compression)
        .unwrap()
        .into_bytes()
}

#[test]
fn below_threshold_is_not_compressed() {
    let mut c = Compression::new();
    let payload = vec![0x10u8, 1, 2, 3];
    let packed = pack(&payload, 256, &mut c);
    assert_eq!(packed, vec![0x00, 0x10, 1, 2, 3]);
    assert_eq!(PacketCompressor::process_read(&packed), Some(payload));
}

#[test]
fn at_threshold_is_not_compressed() {
    let mut c = Compression::new();
    let payload = vec![0xabu8; 256];
    let packed = pack(&payload, 256, &mut c);
    assert_eq!(packed[0], 0x00);
    assert_eq!(&packed[1..], &payload[..]);
    assert_eq!(PacketCompressor::process_read(&packed), Some(payload));
}

#[test]
fn above_threshold_round_trip() {
    let mut c = Compression::new();
    let payload: Vec<u8> = (0..1000u32).map(|i| (i % 7) as u8).collect();
    let packed = pack(&payload, 256, &mut c);
    assert_eq!(&packed[0..2], &[0xe8, 0x07]);
    assert!(packed.len() < payload.len());
    assert_ne!(&packed[2..], &payload[..]);
    assert_eq!(PacketCompressor::process_read(&packed), Some(payload));
}

#[test]
fn above_threshold_incompressible_round_trip() {
    let mut c = Compression::new();
    let mut x: u32 = 12345;
    let payload: Vec<u8> = (0..5000)
        .map(|_| {
            x = x.wrapping_mul(1103515245).wrapping_add(12345);
            (x >> 16) as u8
        })
        .collect();
    let packed = pack(&payload, 1, &mut c);
    assert_eq!(PacketCompressor::process_read(&packed), Some(payload));
}

#[test]
fn compress_packet_writes_size_then_stream() {
    let mut c = Compression::new();
    let mut packet = Buf::new();
    packet.write_bytes(&[5u8; 64]);
    let mut out = Buf::new();
    assert_eq!(compress_packet(&packet, &mut c, &mut out), Ok(()));
    let bytes = out.into_bytes();
    assert_eq!(bytes[0], 64);
    assert_eq!(bytes[1], 0x78);
    assert_eq!(PacketCompressor::process_read(&bytes), Some(vec![5u8; 64]));
}

#[test]
fn bad_compressed_payload_is_rejected() {
    assert_eq!(PacketCompressor::process_read(&[0x0a, 0x01, 0x02, 0x03]), None);
    assert_eq!(PacketCompressor::process_read(&[0x80]), None);
}

#[test]
fn frame_header_lengths() {
    for (size, header) in [(0usize, 1usize), (127, 1), (128, 2), (16383, 2), (16384, 3), (2097151, 3)] {
        assert_eq!(frame(&vec![0u8; size]).len(), size + header, "size {}", size);
    }
}

#[test]
fn truncated_compressed_payload_is_rejected() {
    let mut c = Compression::new();
    let payload: Vec<u8> = (0..1000u32).map(|i| (i % 7) as u8).collect();
    let mut packed = pack(&payload, 256, &mut c);
    packed.truncate(packed.len() - 6);
    assert_eq!(PacketCompressor::process_read(&packed), None);
}

#[test]
fn empty_payload_is_never_compressed() {
    let mut c = Compression::new();
    assert_eq!(pack(&[], -1, &mut c), vec![0x00]);
}

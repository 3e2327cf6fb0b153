use mc_bot::buf::Buf;
use mc_bot::net::{buffer, unbuffer};
use mc_bot::varint::get_var_u32_size;

fn encode(v: u32) -> Vec<u8> {
    let mut b = Buf::new();
    b.write_var_u32(v);
    b.into_bytes()
}

#[test]
fn varint_reference_lengths() {
    let cases: [(u32, usize); 6] = [(0, 1), (127, 1), (128, 2), (16383, 2), (16384, 3), (2097151, 3)];
    for (v, len) in cases {
        let bytes = encode(v);
        assert_eq!(bytes.len(), len, "length of {}", v);
        assert_eq!(get_var_u32_size(v), len);
        let mut b = Buf::from_bytes(bytes);
        assert_eq!(b.read_var_u32(), Some((v, len)));
        assert_eq!(b.get_reader_index(), len);
    }
}

#[test]
fn varint_exact_bytes() {
    assert_eq!(encode(0), vec![0x00]);
    assert_eq!(encode(127), vec![0x7f]);
    assert_eq!(encode(128), vec![0x80, 0x01]);
    assert_eq!(encode(300), vec![0xac, 0x02]);
    assert_eq!(encode(16384), vec![0x80, 0x80, 0x01]);
    assert_eq!(encode(u32::MAX), vec![0xff, 0xff, 0xff, 0xff, 0x0f]);
}

#[test]
fn varint_round_trip_many_values() {
    let mut v: u64 = 0;
    while v <= u32::MAX as u64 {
        let x = v as u32;
        let bytes = encode(x);
        let mut b = Buf::from_bytes(bytes.clone());
        b.write_u8(0x55);
        assert_eq!(b.read_var_u32(), Some((x, bytes.len())));
        v = v * 3 + 1;
    }
}

#[test]
fn varint_rejects_unterminated_and_oversized() {
    let mut b = Buf::from_bytes(vec![0x80, 0x80]);
    assert_eq!(b.read_var_u32(), None);
    assert_eq!(b.get_reader_index(), 0);
    let mut b = Buf::from_bytes(vec![0xff, 0xff, 0xff, 0xff, 0x1f]);
    assert_eq!(b.read_var_u32(), None);
    let mut b = Buf::from_bytes(vec![0x80, 0x80, 0x80, 0x80, 0x80, 0x01]);
    assert_eq!(b.read_var_u32(), None);
}

#[test]
fn big_endian_fields() {
    let mut b = Buf::new();
    b.write_u16(0x1234);
    b.write_u32(0xdeadbeef);
    b.write_u64(0x0102030405060708);
    b.write_u128(1);
    b.write_bool(true);
    assert_eq!(&b.as_slice()[0..6], &[0x12, 0x34, 0xde, 0xad, 0xbe, 0xef]);
    assert_eq!(b.read_u16(), Some(0x1234));
    assert_eq!(b.read_u32(), Some(0xdeadbeef));
    assert_eq!(b.read_u64(), Some(0x0102030405060708));
    assert_eq!(b.read_u128(), Some(1));
    assert_eq!(b.read_bool(), Some(true));
    assert_eq!(b.read_u8(), None);
    assert_eq!(b.read_u16(), None);
}

#[test]
fn short_reads_consume_nothing() {
    let mut b = Buf::from_bytes(vec![1, 2, 3]);
    assert_eq!(b.read_u32(), None);
    assert_eq!(b.get_reader_index(), 0);
    assert_eq!(b.read_bytes(4), None);
    assert_eq!(b.read_bytes(3), Some(vec![1, 2, 3]));
}

#[test]
fn sized_strings() {
    let mut b = Buf::new();
    b.write_sized_str("héllo");
    assert_eq!(b.as_slice()[0], 6);
    assert_eq!(b.read_sized_bytes(), Some("héllo".as_bytes().to_vec()));
    let mut short = Buf::from_bytes(vec![5, b'a', b'b']);
    assert_eq!(short.read_sized_bytes(), None);
    assert_eq!(short.get_reader_index(), 0);
}

#[test]
fn append_and_cursors() {
    let mut a = Buf::from_bytes(vec![1, 2, 3, 4]);
    a.set_reader_index(1);
    let mut b = Buf::new();
    b.ensure_writable(16);
    b.append(&a, 2);
    assert_eq!(b.as_slice(), &[2, 3]);
    assert_eq!(a.unread_bytes(), vec![2, 3, 4]);
    a.set_writer_index(2);
    assert_eq!(a.as_slice(), &[1, 2]);
    assert_eq!(a.get_reader_index(), 1);
    a.set_writer_index(0);
    assert_eq!(a.get_reader_index(), 0);
}

#[test]
fn carry_over_buffering() {
    let mut temp = Buf::from_bytes(vec![9, 8, 7]);
    temp.set_reader_index(1);
    let mut carry = Buf::from_bytes(vec![1]);
    buffer(&mut temp, &mut carry);
    assert_eq!(carry.as_slice(), &[1, 8, 7]);
    let mut next = Buf::new();
    unbuffer(&mut next, &mut carry);
    assert_eq!(next.as_slice(), &[1, 8, 7]);
    assert_eq!(carry.get_writer_index(), 0);
}

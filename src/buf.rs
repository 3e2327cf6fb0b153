//! A growable byte store with a read cursor. Writes append at the end of
//! the written region; reads consume from the cursor and never pass the end.
use crate::varint::{lemma_var_groups_bound, pow128, var_groups, var_u32_bytes, var_u32_decode};
use vstd::prelude::*;
use vstd::string::StringSliceAdditionalSpecFns;

verus! {

/// The `n` low bytes of `v`, most significant first.
pub open spec fn be_bytes(v: nat, n: nat) -> Seq<u8>
    decreases n,
{
    if n == 0 {
        Seq::empty()
    } else {
        be_bytes(v / 256, (n - 1) as nat).push((v % 256) as u8)
    }
}

/// The value of `s` read as a big-endian number.
pub open spec fn be_value(s: Seq<u8>) -> nat
    decreases s.len(),
{
    if s.len() == 0 {
        0
    } else {
        be_value(s.drop_last()) * 256 + s.last() as nat
    }
}

pub open spec fn pow256(n: nat) -> nat
    decreases n,
{
    if n == 0 {
        1
    } else {
        256 * pow256((n - 1) as nat)
    }
}

/// A string field at the front of `s`: its bytes and the number of bytes
/// the field takes, length prefix included.
pub open spec fn sized_decode(s: Seq<u8>) -> Option<(Seq<u8>, nat)> {
    match var_u32_decode(s) {
        Some((n, l)) => if l + n <= s.len() {
            Some((s.subrange(l as int, l + n), (l + n) as nat))
        } else {
            None
        },
        None => None,
    }
}

/// A string field: the byte length as a varint, then the bytes.
pub open spec fn sized_bytes(b: Seq<u8>) -> Seq<u8> {
    var_u32_bytes(b.len()) + b
}

pub proof fn lemma_pow256_mono(i: nat, j: nat)
    requires
        i <= j,
    ensures
        pow256(i) <= pow256(j),
    decreases j,
{
    if i < j {
        lemma_pow256_mono(i, (j - 1) as nat);
    }
}

pub proof fn lemma_pow128_mono(i: nat, j: nat)
    requires
        i <= j,
    ensures
        pow128(i) <= pow128(j),
    decreases j,
{
    if i < j {
        lemma_pow128_mono(i, (j - 1) as nat);
    }
}

pub proof fn lemma_be_value_bound(s: Seq<u8>)
    ensures
        be_value(s) < pow256(s.len()),
    decreases s.len(),
{
    if s.len() > 0 {
        lemma_be_value_bound(s.drop_last());
        let w = be_value(s.drop_last());
        assert(w * 256 + 256 <= pow256((s.len() - 1) as nat) * 256) by (nonlinear_arith)
            requires
                w < pow256((s.len() - 1) as nat),
        ;
    }
}

/// A number written in `n` bytes reads back unchanged.
pub proof fn lemma_be_round_trip(v: nat, n: nat)
    requires
        v < pow256(n),
    ensures
        be_bytes(v, n).len() == n,
        be_value(be_bytes(v, n)) == v,
    decreases n,
{
    if n > 0 {
        assert(v / 256 < pow256((n - 1) as nat));
        lemma_be_round_trip(v / 256, (n - 1) as nat);
        assert(be_bytes(v, n).drop_last() =~= be_bytes(v / 256, (n - 1) as nat));
    }
}

pub struct Buf {
    buffer: Vec<u8>,
    reader_index: usize,
}

impl Buf {
    /// Every byte written so far.
    pub closed spec fn data(&self) -> Seq<u8> {
        self.buffer@
    }

    /// Index of the next byte to read.
    pub closed spec fn pos(&self) -> nat {
        if self.reader_index <= self.buffer.len() {
            self.reader_index as nat
        } else {
            self.buffer.len() as nat
        }
    }

    pub proof fn lemma_pos_in_range(&self)
        ensures
            self.pos() <= self.data().len(),
    {
    }

    /// Reading `k` bytes drops them from the front of the unread bytes.
    pub proof fn lemma_unread_after(&self, later: &Buf, k: nat)
        requires
            later.data() == self.data(),
            later.pos() == self.pos() + k,
        ensures
            later.unread() == self.unread().subrange(k as int, self.unread().len() as int),
    {
        later.lemma_pos_in_range();
        assert(later.unread() =~= self.unread().subrange(k as int, self.unread().len() as int));
    }

    pub proof fn lemma_unread_at_start(&self)
        requires
            self.pos() == 0,
        ensures
            self.unread() == self.data(),
    {
        assert(self.unread() =~= self.data());
    }

    fn cursor(&self) -> (r: usize)
        ensures
            r == self.pos(),
    {
        if self.reader_index <= self.buffer.len() {
            self.reader_index
        } else {
            self.buffer.len()
        }
    }

    /// The bytes written and not yet read.
    pub open spec fn unread(&self) -> Seq<u8> {
        self.data().subrange(self.pos() as int, self.data().len() as int)
    }

    pub fn new() -> (r: Buf)
        ensures
            r.data() == Seq::<u8>::empty(),
            r.pos() == 0,
    {
        Buf { buffer: Vec::new(), reader_index: 0 }
    }

    /// An empty buffer with room for `length` bytes.
    pub fn with_length(length: usize) -> (r: Buf)
        ensures
            r.data() == Seq::<u8>::empty(),
            r.pos() == 0,
    {
        Buf { buffer: Vec::with_capacity(length), reader_index: 0 }
    }

    /// A buffer whose written region is `bytes`, with nothing read yet.
    pub fn from_bytes(bytes: Vec<u8>) -> (r: Buf)
        ensures
            r.data() == bytes@,
            r.pos() == 0,
    {
        Buf { buffer: bytes, reader_index: 0 }
    }

    pub fn get_reader_index(&self) -> (r: usize)
        ensures
            r == self.pos(),
            r <= self.data().len(),
    {
        self.cursor()
    }

    pub fn get_writer_index(&self) -> (r: usize)
        ensures
            r == self.data().len(),
    {
        self.buffer.len()
    }

    pub fn set_reader_index(&mut self, index: usize)
        requires
            index <= old(self).data().len(),
        ensures
            final(self).data() == old(self).data(),
            final(self).pos() == index,
    {
        self.reader_index = index;
    }

    /// Drops the bytes written at or after `index`; the cursor stays in the
    /// written region.
    pub fn set_writer_index(&mut self, index: usize)
        requires
            index <= old(self).data().len(),
        ensures
            final(self).data() == old(self).data().subrange(0, index as int),
            final(self).pos() == if old(self).pos() <= index {
                old(self).pos()
            } else {
                index as nat
            },
    {
        let r = self.cursor();
        self.buffer.truncate(index);
        if r > index {
            self.reader_index = index;
        } else {
            self.reader_index = r;
        }
    }

    /// All bytes written so far.
    pub fn as_slice(&self) -> (r: &[u8])
        ensures
            r@ == self.data(),
    {
        self.buffer.as_slice()
    }

    /// The bytes written, read or not.
    pub fn into_bytes(self) -> (r: Vec<u8>)
        ensures
            r@ == self.data(),
    {
        self.buffer
    }

    /// A copy of the bytes written and not yet read.
    pub fn unread_bytes(&self) -> (r: Vec<u8>)
        ensures
            r@ == self.unread(),
    {
        let s = self.buffer.as_slice();
        let t = &s[self.cursor()..self.buffer.len()];
        vstd::slice::slice_to_vec(t)
    }

    /// Makes room for `n` more bytes; the contents do not change.
    pub fn ensure_writable(&mut self, n: usize)
        ensures
            final(self).data() == old(self).data(),
            final(self).pos() == old(self).pos(),
    {
        self.buffer.reserve(n);
    }

    pub fn write_u8(&mut self, value: u8)
        ensures
            final(self).data() == old(self).data().push(value),
            final(self).pos() == old(self).pos(),
    {
        self.reader_index = self.cursor();
        self.buffer.push(value);
    }

    pub fn write_bool(&mut self, value: bool)
        ensures
            final(self).data() == old(self).data().push(if value { 1u8 } else { 0u8 }),
            final(self).pos() == old(self).pos(),
    {
        self.write_u8(if value { 1u8 } else { 0u8 });
    }

    /// Writes the `n` low bytes of `value`, most significant first.
    pub fn write_be(&mut self, value: u128, n: usize)
        ensures
            final(self).data() == old(self).data() + be_bytes(value as nat, n as nat),
            final(self).pos() == old(self).pos(),
        decreases n,
    {
        if n > 0 {
            self.write_be(value / 256, n - 1);
            self.write_u8((value % 256) as u8);
            proof {
                assert(old(self).data() + be_bytes(value as nat, n as nat) =~= old(self).data()
                    + be_bytes(value as nat / 256, (n - 1) as nat) + seq![(value % 256) as u8]);
            }
        } else {
            proof {
                assert(old(self).data() + be_bytes(value as nat, 0) =~= old(self).data());
            }
        }
    }

    pub fn write_u16(&mut self, value: u16)
        ensures
            final(self).data() == old(self).data() + be_bytes(value as nat, 2),
            final(self).pos() == old(self).pos(),
    {
        self.write_be(value as u128, 2);
    }

    pub fn write_u32(&mut self, value: u32)
        ensures
            final(self).data() == old(self).data() + be_bytes(value as nat, 4),
            final(self).pos() == old(self).pos(),
    {
        self.write_be(value as u128, 4);
    }

    pub fn write_u64(&mut self, value: u64)
        ensures
            final(self).data() == old(self).data() + be_bytes(value as nat, 8),
            final(self).pos() == old(self).pos(),
    {
        self.write_be(value as u128, 8);
    }

    pub fn write_u128(&mut self, value: u128)
        ensures
            final(self).data() == old(self).data() + be_bytes(value as nat, 16),
            final(self).pos() == old(self).pos(),
    {
        self.write_be(value, 16);
    }

    pub fn write_bytes(&mut self, bytes: &[u8])
        ensures
            final(self).data() == old(self).data() + bytes@,
            final(self).pos() == old(self).pos(),
    {
        self.reader_index = self.cursor();
        self.buffer.extend_from_slice(bytes);
        proof {
            assert(self.buffer@ =~= old(self).data() + bytes@);
        }
    }

    pub fn write_var_u32(&mut self, value: u32)
        ensures
            final(self).data() == old(self).data() + var_u32_bytes(value as nat),
            final(self).pos() == old(self).pos(),
    {
        self.reader_index = self.cursor();
        let mut x: u32 = value;
        while x >= 128
            invariant
                self.reader_index == old(self).pos(),
                self.buffer@.len() >= old(self).buffer@.len(),
                self.buffer@ + var_u32_bytes(x as nat) == old(self).data() + var_u32_bytes(
                    value as nat,
                ),
            decreases x,
        {
            let ghost before = self.buffer@;
            self.buffer.push((x % 128 + 128) as u8);
            proof {
                assert(before + var_u32_bytes(x as nat) =~= self.buffer@ + var_u32_bytes(
                    x as nat / 128,
                ));
            }
            x = x / 128;
        }
        self.buffer.push(x as u8);
        proof {
            assert(self.buffer@ =~= old(self).data() + var_u32_bytes(value as nat));
        }
    }

    /// A packet id is written as a varint.
    pub fn write_packet_id(&mut self, id: u32)
        ensures
            final(self).data() == old(self).data() + var_u32_bytes(id as nat),
            final(self).pos() == old(self).pos(),
    {
        self.write_var_u32(id);
    }

    pub fn write_sized_bytes(&mut self, bytes: &[u8])
        requires
            bytes@.len() < 0x1_0000_0000,
        ensures
            final(self).data() == old(self).data() + sized_bytes(bytes@),
            final(self).pos() == old(self).pos(),
    {
        self.write_var_u32(bytes.len() as u32);
        self.write_bytes(bytes);
        proof {
            assert(final(self).data() =~= old(self).data() + sized_bytes(bytes@));
        }
    }

    /// Writes the UTF-8 bytes of `s` behind their length.
    pub fn write_sized_str(&mut self, s: &str)
        requires
            s.spec_bytes().len() < 0x1_0000_0000,
        ensures
            final(self).data() == old(self).data() + sized_bytes(s.spec_bytes()),
            final(self).pos() == old(self).pos(),
    {
        self.write_sized_bytes(s.as_bytes());
    }

    /// Copies the first `len` unread bytes of `other` to the end of this
    /// buffer.
    pub fn append(&mut self, other: &Buf, len: usize)
        requires
            len <= other.unread().len(),
        ensures
            final(self).data() == old(self).data() + other.unread().subrange(0, len as int),
            final(self).pos() == old(self).pos(),
    {
        let start = other.cursor();
        let s = other.buffer.as_slice();
        self.write_bytes(&s[start..start + len]);
        proof {
            assert(other.unread().subrange(0, len as int) =~= other.buffer@.subrange(
                start as int,
                start + len,
            ));
        }
    }

    /// Reads `n` bytes as a big-endian number; `None`, with nothing
    /// consumed, when fewer than `n` bytes are unread.
    pub fn read_be(&mut self, n: usize) -> (r: Option<u128>)
        requires
            n <= 16,
        ensures
            final(self).data() == old(self).data(),
            r is Some <==> n <= old(self).unread().len(),
            r matches Some(v) ==> v == be_value(old(self).unread().subrange(0, n as int))
                && final(self).pos() == old(self).pos() + n,
            r is None ==> final(self).pos() == old(self).pos(),
    {
        let start = self.cursor();
        let len = self.buffer.len();
        if len - start < n {
            return None;
        }
        let mut acc: u128 = 0;
        let mut i: usize = 0;
        proof {
            reveal_with_fuel(pow256, 17);
            assert(self.buffer@.subrange(start as int, start as int) =~= Seq::<u8>::empty());
        }
        while i < n
            invariant
                start + n <= len == self.buffer@.len(),
                self.buffer@ == old(self).data(),
                start == old(self).pos(),
                i <= n <= 16,
                acc == be_value(self.buffer@.subrange(start as int, start + i)),
                acc < pow256(i as nat),
                pow256(16) == 0x1_0000_0000_0000_0000_0000_0000_0000_0000,
            decreases n - i,
        {
            let b = self.buffer[start + i];
            proof {
                let t = self.buffer@.subrange(start as int, start + i + 1);
                assert(t.drop_last() =~= self.buffer@.subrange(start as int, start + i));
                assert(t.last() == b);
                lemma_pow256_mono((i + 1) as nat, 16);
                assert(pow256((i + 1) as nat) == 256 * pow256(i as nat));
                assert(acc * 256 + b < 256 * pow256(i as nat)) by (nonlinear_arith)
                    requires
                        acc < pow256(i as nat),
                        b < 256,
                ;
            }
            acc = acc * 256 + b as u128;
            i = i + 1;
        }
        self.reader_index = start + n;
        proof {
            assert(old(self).unread().subrange(0, n as int) =~= self.buffer@.subrange(
                start as int,
                start + n,
            ));
        }
        Some(acc)
    }

    pub fn read_u8(&mut self) -> (r: Option<u8>)
        ensures
            final(self).data() == old(self).data(),
            r is Some <==> 1 <= old(self).unread().len(),
            r matches Some(v) ==> v == old(self).unread()[0] && final(self).pos() == old(self).pos()
                + 1,
            r is None ==> final(self).pos() == old(self).pos(),
    {
        let start = self.cursor();
        if start < self.buffer.len() {
            self.reader_index = start + 1;
            Some(self.buffer[start])
        } else {
            None
        }
    }

    /// Any nonzero byte reads as `true`.
    pub fn read_bool(&mut self) -> (r: Option<bool>)
        ensures
            final(self).data() == old(self).data(),
            r is Some <==> 1 <= old(self).unread().len(),
            r matches Some(v) ==> v == (old(self).unread()[0] != 0) && final(self).pos() == old(
                self,
            ).pos() + 1,
            r is None ==> final(self).pos() == old(self).pos(),
    {
        match self.read_u8() {
            Some(b) => Some(b != 0),
            None => None,
        }
    }

    pub fn read_u16(&mut self) -> (r: Option<u16>)
        ensures
            final(self).data() == old(self).data(),
            r is Some <==> 2 <= old(self).unread().len(),
            r matches Some(v) ==> v == be_value(old(self).unread().subrange(0, 2))
                && final(self).pos() == old(self).pos() + 2,
            r is None ==> final(self).pos() == old(self).pos(),
    {
        match self.read_be(2) {
            Some(v) => {
                proof {
                    lemma_be_value_bound(old(self).unread().subrange(0, 2));
                    reveal_with_fuel(pow256, 3);
                }
                Some(v as u16)
            },
            None => None,
        }
    }

    pub fn read_u32(&mut self) -> (r: Option<u32>)
        ensures
            final(self).data() == old(self).data(),
            r is Some <==> 4 <= old(self).unread().len(),
            r matches Some(v) ==> v == be_value(old(self).unread().subrange(0, 4))
                && final(self).pos() == old(self).pos() + 4,
            r is None ==> final(self).pos() == old(self).pos(),
    {
        match self.read_be(4) {
            Some(v) => {
                proof {
                    lemma_be_value_bound(old(self).unread().subrange(0, 4));
                    reveal_with_fuel(pow256, 5);
                }
                Some(v as u32)
            },
            None => None,
        }
    }

    pub fn read_u64(&mut self) -> (r: Option<u64>)
        ensures
            final(self).data() == old(self).data(),
            r is Some <==> 8 <= old(self).unread().len(),
            r matches Some(v) ==> v == be_value(old(self).unread().subrange(0, 8))
                && final(self).pos() == old(self).pos() + 8,
            r is None ==> final(self).pos() == old(self).pos(),
    {
        match self.read_be(8) {
            Some(v) => {
                proof {
                    lemma_be_value_bound(old(self).unread().subrange(0, 8));
                    reveal_with_fuel(pow256, 9);
                }
                Some(v as u64)
            },
            None => None,
        }
    }

    pub fn read_u128(&mut self) -> (r: Option<u128>)
        ensures
            final(self).data() == old(self).data(),
            r is Some <==> 16 <= old(self).unread().len(),
            r matches Some(v) ==> v == be_value(old(self).unread().subrange(0, 16))
                && final(self).pos() == old(self).pos() + 16,
            r is None ==> final(self).pos() == old(self).pos(),
    {
        self.read_be(16)
    }

    /// Decodes the groups of a varint starting at `at`, at most `n` of them.
    fn var_groups_at(&self, at: usize, n: usize) -> (r: Option<(u64, usize)>)
        requires
            at <= self.data().len(),
            n <= 5,
        ensures
            r matches Some((v, l)) ==> var_groups(
                self.data().subrange(at as int, self.data().len() as int),
                n as nat,
            ) == Some((v as nat, l as nat)),
            r is None ==> var_groups(
                self.data().subrange(at as int, self.data().len() as int),
                n as nat,
            ) is None,
        decreases n,
    {
        let ghost s = self.data().subrange(at as int, self.data().len() as int);
        if n == 0 || at == self.buffer.len() {
            return None;
        }
        let b = self.buffer[at];
        if b < 128 {
            return Some((b as u64, 1));
        }
        proof {
            assert(s.drop_first() =~= self.data().subrange(at + 1, self.data().len() as int));
        }
        match self.var_groups_at(at + 1, n - 1) {
            Some((v, l)) => {
                proof {
                    lemma_var_groups_bound(s.drop_first(), (n - 1) as nat);
                    reveal_with_fuel(pow128, 5);
                    assert(pow128(l as nat) <= pow128(4)) by {
                        lemma_pow128_mono(l as nat, 4);
                    }
                }
                Some(((b - 128) as u64 + 128 * v, l + 1))
            },
            None => None,
        }
    }

    /// Reads a varint: its value and the number of bytes it took.
    pub fn read_var_u32(&mut self) -> (r: Option<(u32, usize)>)
        ensures
            final(self).data() == old(self).data(),
            r matches Some((v, l)) ==> var_u32_decode(old(self).unread()) == Some((v, l as nat))
                && final(self).pos() == old(self).pos() + l,
            r is None ==> var_u32_decode(old(self).unread()) is None && final(self).pos() == old(
                self,
            ).pos(),
    {
        let start = self.cursor();
        match self.var_groups_at(start, 5) {
            Some((v, l)) => {
                proof {
                    lemma_var_groups_bound(old(self).unread(), 5);
                }
                if v < 0x1_0000_0000 {
                    self.reader_index = start + l;
                    Some((v as u32, l))
                } else {
                    None
                }
            },
            None => None,
        }
    }

    /// Reads `n` bytes; `None`, with nothing consumed, when fewer are unread.
    pub fn read_bytes(&mut self, n: usize) -> (r: Option<Vec<u8>>)
        ensures
            final(self).data() == old(self).data(),
            r is Some <==> n <= old(self).unread().len(),
            r matches Some(v) ==> v@ == old(self).unread().subrange(0, n as int)
                && final(self).pos() == old(self).pos() + n,
            r is None ==> final(self).pos() == old(self).pos(),
    {
        let start = self.cursor();
        if self.buffer.len() - start < n {
            return None;
        }
        let s = self.buffer.as_slice();
        let v = vstd::slice::slice_to_vec(&s[start..start + n]);
        self.reader_index = start + n;
        proof {
            assert(v@ =~= old(self).unread().subrange(0, n as int));
        }
        Some(v)
    }

    /// Reads a string field and hands back its bytes.
    pub fn read_sized_bytes(&mut self) -> (r: Option<Vec<u8>>)
        ensures
            final(self).data() == old(self).data(),
            r matches Some(v) ==> sized_decode(old(self).unread()) == Some((
                v@,
                (final(self).pos() - old(self).pos()) as nat,
            )) && final(self).pos() >= old(self).pos(),
            r is None ==> sized_decode(old(self).unread()) is None && final(self).pos() == old(
                self,
            ).pos(),
    {
        let start = self.cursor();
        match self.read_var_u32() {
            Some((n, l)) => {
                match self.read_bytes(n as usize) {
                    Some(v) => {
                        proof {
                            assert(v@ =~= old(self).unread().subrange(l as int, l + n));
                        }
                        Some(v)
                    },
                    None => {
                        self.reader_index = start;
                        None
                    },
                }
            },
            None => None,
        }
    }
}

} // verus!

//! A byte buffer read and written one bit at a time, least significant bit of
//! each byte first.

use vstd::prelude::*;

verus! {

/// Bit `i` of `b`, counted from the least significant one.
pub open spec fn byte_bit(b: u8, i: int) -> bool {
    0 <= i < 8 && (b >> (i as u8)) & 1u8 == 1u8
}

/// `b` with bit `i` set to `v`.
pub open spec fn byte_with_bit(b: u8, i: int, v: bool) -> u8 {
    if v {
        b | (1u8 << (i as u8))
    } else {
        b & !(1u8 << (i as u8))
    }
}

/// Bit `k` of a buffer: bit `k % 8` of byte `k / 8`.
pub open spec fn bit_at(bytes: Seq<u8>, k: int) -> bool {
    byte_bit(bytes[k / 8], k % 8)
}

/// A buffer as a sequence of bits.
pub open spec fn bits_of(bytes: Seq<u8>) -> Seq<bool> {
    Seq::new(8 * bytes.len(), |k: int| bit_at(bytes, k))
}

/// Bit `i` of `x`, counted from the least significant one.
pub open spec fn u32_bit(x: u32, i: int) -> bool {
    0 <= i < 32 && (x >> (i as u32)) & 1u32 == 1u32
}

/// The 32 bits of `x` in the order they are queued: byte by byte from the
/// least significant byte, and within a byte from the least significant bit.
pub open spec fn u32_bits(x: u32) -> Seq<bool> {
    Seq::new(32, |i: int| u32_bit(x, i))
}

proof fn lemma_bit_ops(b: u8, i: u8, j: u8)
    by (bit_vector)
    requires
        i < 8,
        j < 8,
    ensures
        ((b | (1u8 << i)) >> j) & 1u8 == (if j == i { 1u8 } else { (b >> j) & 1u8 }),
        ((b & !(1u8 << i)) >> j) & 1u8 == (if j == i { 0u8 } else { (b >> j) & 1u8 }),
        (b >> j) & 1u8 == 0u8 || (b >> j) & 1u8 == 1u8,
{
}

/// Setting one bit of a byte changes that bit and no other.
pub proof fn lemma_byte_with_bit(b: u8, i: int, v: bool)
    requires
        0 <= i < 8,
    ensures
        forall|j: int|
            0 <= j < 8 ==> #[trigger] byte_bit(byte_with_bit(b, i, v), j) == (if j == i {
                v
            } else {
                byte_bit(b, j)
            }),
{
    assert forall|j: int| 0 <= j < 8 implies #[trigger] byte_bit(byte_with_bit(b, i, v), j) == (if j
        == i { v } else { byte_bit(b, j) }) by {
        lemma_bit_ops(b, i as u8, j as u8);
    }
}

/// No bit of the zero byte is set.
pub proof fn lemma_zero_byte(j: u8)
    by (bit_vector)
    requires
        j < 8,
    ensures
        (0u8 >> j) & 1u8 == 0u8,
{
}

proof fn lemma_byte_bits_eq(a: u8, b: u8)
    by (bit_vector)
    requires
        (a >> 0u8) & 1u8 == (b >> 0u8) & 1u8,
        (a >> 1u8) & 1u8 == (b >> 1u8) & 1u8,
        (a >> 2u8) & 1u8 == (b >> 2u8) & 1u8,
        (a >> 3u8) & 1u8 == (b >> 3u8) & 1u8,
        (a >> 4u8) & 1u8 == (b >> 4u8) & 1u8,
        (a >> 5u8) & 1u8 == (b >> 5u8) & 1u8,
        (a >> 6u8) & 1u8 == (b >> 6u8) & 1u8,
        (a >> 7u8) & 1u8 == (b >> 7u8) & 1u8,
    ensures
        a == b,
{
}

/// A bit is 0 or 1.
pub proof fn lemma_bit_is_0_or_1(a: u8, j: u8)
    by (bit_vector)
    requires
        j < 8,
    ensures
        (a >> j) & 1u8 == 0u8 || (a >> j) & 1u8 == 1u8,
{
}

/// Two bytes with the same eight bits are the same byte.
pub proof fn lemma_byte_ext(a: u8, b: u8)
    requires
        forall|j: int| 0 <= j < 8 ==> byte_bit(a, j) == byte_bit(b, j),
    ensures
        a == b,
{
    assert forall|j: u8| j < 8 implies (a >> j) & 1u8 == (b >> j) & 1u8 by {
        lemma_bit_is_0_or_1(a, j);
        lemma_bit_is_0_or_1(b, j);
        assert(byte_bit(a, j as int) == byte_bit(b, j as int));
    }
    lemma_byte_bits_eq(a, b);
}

/// Two buffers with the same bits are the same buffer.
pub proof fn lemma_bits_of_injective(a: Seq<u8>, b: Seq<u8>)
    requires
        bits_of(a) == bits_of(b),
    ensures
        a == b,
{
    assert(a.len() == b.len()) by {
        assert(bits_of(a).len() == 8 * a.len());
        assert(bits_of(b).len() == 8 * b.len());
    }
    assert forall|n: int| 0 <= n < a.len() implies a[n] == b[n] by {
        assert forall|j: int| 0 <= j < 8 implies byte_bit(a[n], j) == byte_bit(b[n], j) by {
            let k = 8 * n + j;
            assert(k / 8 == n && k % 8 == j);
            assert(bits_of(a)[k] == bit_at(a, k));
            assert(bits_of(b)[k] == bit_at(b, k));
        }
        lemma_byte_ext(a[n], b[n]);
    }
    assert(a =~= b);
}

/// Setting bit `k` of a buffer changes that bit of its bit sequence and no other.
pub proof fn lemma_bits_of_update(bytes: Seq<u8>, k: int, v: bool)
    requires
        0 <= k < 8 * bytes.len(),
    ensures
        bits_of(bytes.update(k / 8, byte_with_bit(bytes[k / 8], k % 8, v))) == bits_of(bytes).update(k, v),
{
    let after = bytes.update(k / 8, byte_with_bit(bytes[k / 8], k % 8, v));
    lemma_byte_with_bit(bytes[k / 8], k % 8, v);
    assert forall|m: int| 0 <= m < 8 * bytes.len() implies bits_of(after)[m] == bits_of(bytes).update(k, v)[m] by {
        if m / 8 == k / 8 {
            assert(byte_bit(byte_with_bit(bytes[k / 8], k % 8, v), m % 8) == (if m % 8 == k % 8 {
                v
            } else {
                byte_bit(bytes[k / 8], m % 8)
            }));
        }
    }
    assert(bits_of(after) =~= bits_of(bytes).update(k, v));
}

/// `s` with the items from index `at` on replaced by those of `t`.
pub open spec fn overwrite(s: Seq<bool>, at: int, t: Seq<bool>) -> Seq<bool> {
    Seq::new(s.len(), |k: int| if at <= k < at + t.len() { t[k - at] } else { s[k] })
}

proof fn lemma_u32_bit_ops(x: u32, i: u32, j: u32)
    by (bit_vector)
    requires
        i < 32,
        j < 32,
    ensures
        ((x | (1u32 << i)) >> j) & 1u32 == (if j == i { 1u32 } else { (x >> j) & 1u32 }),
        (x >> j) & 1u32 == 0u32 || (x >> j) & 1u32 == 1u32,
        (0u32 >> j) & 1u32 == 0u32,
{
}

proof fn lemma_u32_bits_eq(a: u32, b: u32)
    by (bit_vector)
    requires
        (a >> 0u32) & 1u32 == (b >> 0u32) & 1u32,
        (a >> 1u32) & 1u32 == (b >> 1u32) & 1u32,
        (a >> 2u32) & 1u32 == (b >> 2u32) & 1u32,
        (a >> 3u32) & 1u32 == (b >> 3u32) & 1u32,
        (a >> 4u32) & 1u32 == (b >> 4u32) & 1u32,
        (a >> 5u32) & 1u32 == (b >> 5u32) & 1u32,
        (a >> 6u32) & 1u32 == (b >> 6u32) & 1u32,
        (a >> 7u32) & 1u32 == (b >> 7u32) & 1u32,
        (a >> 8u32) & 1u32 == (b >> 8u32) & 1u32,
        (a >> 9u32) & 1u32 == (b >> 9u32) & 1u32,
        (a >> 10u32) & 1u32 == (b >> 10u32) & 1u32,
        (a >> 11u32) & 1u32 == (b >> 11u32) & 1u32,
        (a >> 12u32) & 1u32 == (b >> 12u32) & 1u32,
        (a >> 13u32) & 1u32 == (b >> 13u32) & 1u32,
        (a >> 14u32) & 1u32 == (b >> 14u32) & 1u32,
        (a >> 15u32) & 1u32 == (b >> 15u32) & 1u32,
        (a >> 16u32) & 1u32 == (b >> 16u32) & 1u32,
        (a >> 17u32) & 1u32 == (b >> 17u32) & 1u32,
        (a >> 18u32) & 1u32 == (b >> 18u32) & 1u32,
        (a >> 19u32) & 1u32 == (b >> 19u32) & 1u32,
        (a >> 20u32) & 1u32 == (b >> 20u32) & 1u32,
        (a >> 21u32) & 1u32 == (b >> 21u32) & 1u32,
        (a >> 22u32) & 1u32 == (b >> 22u32) & 1u32,
        (a >> 23u32) & 1u32 == (b >> 23u32) & 1u32,
        (a >> 24u32) & 1u32 == (b >> 24u32) & 1u32,
        (a >> 25u32) & 1u32 == (b >> 25u32) & 1u32,
        (a >> 26u32) & 1u32 == (b >> 26u32) & 1u32,
        (a >> 27u32) & 1u32 == (b >> 27u32) & 1u32,
        (a >> 28u32) & 1u32 == (b >> 28u32) & 1u32,
        (a >> 29u32) & 1u32 == (b >> 29u32) & 1u32,
        (a >> 30u32) & 1u32 == (b >> 30u32) & 1u32,
        (a >> 31u32) & 1u32 == (b >> 31u32) & 1u32,
    ensures
        a == b,
{
}

/// Two words with the same 32 bits are the same word.
pub proof fn lemma_u32_ext(a: u32, b: u32)
    requires
        u32_bits(a) == u32_bits(b),
    ensures
        a == b,
{
    assert forall|j: u32| j < 32 implies (a >> j) & 1u32 == (b >> j) & 1u32 by {
        lemma_u32_bit_ops(a, 0, j);
        lemma_u32_bit_ops(b, 0, j);
        assert(u32_bits(a)[j as int] == u32_bit(a, j as int));
        assert(u32_bits(b)[j as int] == u32_bit(b, j as int));
    }
    lemma_u32_bits_eq(a, b);
}

/// What is queued as a word is read back as the same word: the 32 bits that
/// stand where `x` was written are the bits of no other word.
pub proof fn lemma_u32_queue_round_trip(bits: Seq<bool>, at: int, x: u32, y: u32)
    requires
        0 <= at,
        at + 32 <= bits.len(),
        u32_bits(y) == overwrite(bits, at, u32_bits(x)).subrange(at, at + 32),
    ensures
        y == x,
{
    assert(overwrite(bits, at, u32_bits(x)).subrange(at, at + 32) =~= u32_bits(x));
    lemma_u32_ext(y, x);
}

/// The byte whose bit `i` is `bits[i]`, for as many bits as `bits` has.
pub open spec fn byte_of(bits: Seq<bool>) -> u8
    decreases bits.len(),
{
    if bits.len() == 0 {
        0u8
    } else {
        let rest = byte_of(bits.drop_last());
        if bits.last() {
            byte_with_bit(rest, bits.len() - 1, true)
        } else {
            rest
        }
    }
}

/// The buffer whose bits are `bits`, eight to a byte.
pub open spec fn bytes_of(bits: Seq<bool>) -> Seq<u8> {
    Seq::new(bits.len() / 8, |i: int| byte_of(bits.subrange(8 * i, 8 * i + 8)))
}

/// The word whose bit `i` is `bits[i]`, for as many bits as `bits` has.
pub open spec fn word_of(bits: Seq<bool>) -> u32
    decreases bits.len(),
{
    if bits.len() == 0 {
        0u32
    } else {
        let rest = word_of(bits.drop_last());
        if bits.last() {
            rest | (1u32 << ((bits.len() - 1) as u32))
        } else {
            rest
        }
    }
}

/// Bit by bit, what [`byte_of`] gives.
pub proof fn lemma_byte_of_bits(bits: Seq<bool>)
    requires
        bits.len() <= 8,
    ensures
        forall|j: int| 0 <= j < 8 ==> #[trigger] byte_bit(byte_of(bits), j) == (j < bits.len() && bits[j]),
    decreases bits.len(),
{
    if bits.len() == 0 {
        assert forall|j: int| 0 <= j < 8 implies !#[trigger] byte_bit(0u8, j) by {
            lemma_zero_byte(j as u8);
        }
    } else {
        let rest = bits.drop_last();
        lemma_byte_of_bits(rest);
        lemma_byte_with_bit(byte_of(rest), bits.len() - 1, true);
        assert forall|j: int| 0 <= j < 8 implies #[trigger] byte_bit(byte_of(bits), j) == (j < bits.len()
            && bits[j]) by {
            if j < rest.len() {
                assert(rest[j] == bits[j]);
            }
        }
    }
}

/// Bit by bit, what [`word_of`] gives.
pub proof fn lemma_word_of_bits(bits: Seq<bool>)
    requires
        bits.len() <= 32,
    ensures
        forall|j: int| 0 <= j < 32 ==> #[trigger] u32_bit(word_of(bits), j) == (j < bits.len() && bits[j]),
    decreases bits.len(),
{
    if bits.len() == 0 {
        assert forall|j: int| 0 <= j < 32 implies !#[trigger] u32_bit(0u32, j) by {
            lemma_u32_bit_ops(0u32, 0, j as u32);
        }
    } else {
        let rest = bits.drop_last();
        lemma_word_of_bits(rest);
        assert forall|j: int| 0 <= j < 32 implies #[trigger] u32_bit(word_of(bits), j) == (j < bits.len()
            && bits[j]) by {
            let i: u32 = (bits.len() - 1) as u32;
            lemma_u32_bit_ops(word_of(rest), i, j as u32);
            assert(u32_bit(word_of(rest), j) == (j < rest.len() && rest[j]));
            if j < rest.len() {
                assert(rest[j] == bits[j]);
            }
            if bits.last() {
                assert(word_of(bits) == word_of(rest) | (1u32 << i));
            } else {
                assert(word_of(bits) == word_of(rest));
            }
        }
    }
}

/// A word is the word of its 32 bits, and 32 bits are the bits of their word.
pub proof fn lemma_word_of_u32_bits(x: u32, bits: Seq<bool>)
    ensures
        word_of(u32_bits(x)) == x,
        bits.len() == 32 ==> u32_bits(word_of(bits)) == bits,
{
    lemma_word_of_bits(u32_bits(x));
    assert(u32_bits(word_of(u32_bits(x))) =~= u32_bits(x));
    lemma_u32_ext(word_of(u32_bits(x)), x);
    if bits.len() == 32 {
        lemma_word_of_bits(bits);
        assert(u32_bits(word_of(bits)) =~= bits);
    }
}

/// A run of bits, eight to a byte, is the bits of its buffer.
pub proof fn lemma_bits_of_bytes_of(bits: Seq<bool>)
    requires
        bits.len() % 8 == 0,
    ensures
        bits_of(bytes_of(bits)) == bits,
{
    let bytes = bytes_of(bits);
    assert forall|k: int| 0 <= k < bits.len() implies bits_of(bytes)[k] == bits[k] by {
        let i = k / 8;
        let part = bits.subrange(8 * i, 8 * i + 8);
        lemma_byte_of_bits(part);
        assert(byte_bit(byte_of(part), k % 8) == part[k % 8]);
    }
    assert(bits_of(bytes) =~= bits);
}

/// A buffer is the buffer of its bits.
pub proof fn lemma_bytes_of_bits_of(bytes: Seq<u8>)
    ensures
        bytes_of(bits_of(bytes)) == bytes,
{
    lemma_bits_of_bytes_of(bits_of(bytes));
    lemma_bits_of_injective(bytes_of(bits_of(bytes)), bytes);
}

/// The signal that a queue has no bit left to give or no room left to take one.
#[derive(Clone, Copy, Debug, PartialEq, Eq, Structural)]
pub struct NoMoreData;

/// A byte buffer with a read cursor and a write cursor, both counted in bits.
pub struct BitQueue {
    buf: Vec<u8>,
    read_byte: usize,
    read_bit: u8,
    write_byte: usize,
    write_bit: u8,
}

impl BitQueue {
    /// The buffer, as bytes.
    pub closed spec fn bytes(&self) -> Seq<u8> {
        self.buf@
    }

    /// The buffer, as bits.
    pub open spec fn bits(&self) -> Seq<bool> {
        bits_of(self.bytes())
    }

    /// How many bits the buffer holds: eight per byte.
    pub open spec fn capacity(&self) -> nat {
        8 * self.bytes().len()
    }

    /// The index of the next bit to read.
    pub closed spec fn read_pos(&self) -> nat {
        (8 * self.read_byte + self.read_bit) as nat
    }

    /// The index of the next bit to write.
    pub closed spec fn write_pos(&self) -> nat {
        (8 * self.write_byte + self.write_bit) as nat
    }

    /// Both cursors lie inside the buffer or at its end.
    pub closed spec fn wf(&self) -> bool {
        &&& self.read_bit < 8
        &&& self.write_bit < 8
        &&& self.read_byte <= self.buf.len()
        &&& self.write_byte <= self.buf.len()
        &&& self.read_byte == self.buf.len() ==> self.read_bit == 0
        &&& self.write_byte == self.buf.len() ==> self.write_bit == 0
    }

    /// In a well-formed queue neither cursor is past the end.
    pub proof fn lemma_cursors_in_range(&self)
        requires
            self.wf(),
        ensures
            self.read_pos() <= self.capacity(),
            self.write_pos() <= self.capacity(),
    {
    }

    /// A queue over `buf`, both cursors at its first bit.
    pub fn new(buf: Vec<u8>) -> (q: Self)
        ensures
            q.wf(),
            q.bytes() == buf@,
            q.read_pos() == 0,
            q.write_pos() == 0,
    {
        BitQueue { buf, read_byte: 0, read_bit: 0, write_byte: 0, write_bit: 0 }
    }

    /// A queue over `len` zero bytes, both cursors at its first bit.
    pub fn zeroed(len: usize) -> (q: Self)
        ensures
            q.wf(),
            q.bytes() == Seq::new(len as nat, |i: int| 0u8),
            q.read_pos() == 0,
            q.write_pos() == 0,
    {
        let mut buf: Vec<u8> = Vec::new();
        let mut i: usize = 0;
        while i < len
            invariant
                i <= len,
                buf@ == Seq::new(i as nat, |k: int| 0u8),
            decreases len - i,
        {
            buf.push(0u8);
            i += 1;
            assert(buf@ =~= Seq::new(i as nat, |k: int| 0u8));
        }
        BitQueue { buf, read_byte: 0, read_bit: 0, write_byte: 0, write_bit: 0 }
    }

    /// The buffer, given back.
    pub fn into_bytes(self) -> (buf: Vec<u8>)
        ensures
            buf@ == self.bytes(),
    {
        self.buf
    }

    /// Whether the read cursor is at the end.
    pub fn is_drained(&self) -> (b: bool)
        requires
            self.wf(),
        ensures
            b == (self.read_pos() == self.capacity()),
    {
        self.read_byte >= self.buf.len()
    }

    /// Whether the write cursor is at the end.
    pub fn is_full(&self) -> (b: bool)
        requires
            self.wf(),
        ensures
            b == (self.write_pos() == self.capacity()),
    {
        self.write_byte >= self.buf.len()
    }

    /// Reads the next bit, or reports the end of the buffer.
    pub fn pop_bit(&mut self) -> (r: Option<bool>)
        requires
            old(self).wf(),
        ensures
            final(self).wf(),
            final(self).bytes() == old(self).bytes(),
            final(self).write_pos() == old(self).write_pos(),
            match r {
                Some(v) => {
                    &&& old(self).read_pos() < old(self).capacity()
                    &&& v == old(self).bits()[old(self).read_pos() as int]
                    &&& final(self).read_pos() == old(self).read_pos() + 1
                },
                None => {
                    &&& old(self).read_pos() == old(self).capacity()
                    &&& final(self).read_pos() == old(self).read_pos()
                },
            },
    {
        if self.read_byte < self.buf.len() {
            let b: u8 = self.buf[self.read_byte];
            let v: bool = (b >> self.read_bit) & 1u8 == 1u8;
            proof {
                let k = old(self).read_pos() as int;
                assert(k / 8 == self.read_byte as int && k % 8 == self.read_bit as int);
            }
            if self.read_bit == 7 {
                self.read_bit = 0;
                self.read_byte = self.read_byte + 1;
            } else {
                self.read_bit = self.read_bit + 1;
            }
            Some(v)
        } else {
            None
        }
    }

    /// Writes the next bit, or reports that the buffer is full and leaves it
    /// as it was.
    pub fn push_bit(&mut self, v: bool) -> (r: Result<(), NoMoreData>)
        requires
            old(self).wf(),
        ensures
            final(self).wf(),
            final(self).read_pos() == old(self).read_pos(),
            final(self).capacity() == old(self).capacity(),
            match r {
                Ok(_) => {
                    &&& old(self).write_pos() < old(self).capacity()
                    &&& final(self).bits() == old(self).bits().update(old(self).write_pos() as int, v)
                    &&& final(self).write_pos() == old(self).write_pos() + 1
                },
                Err(_) => {
                    &&& old(self).write_pos() == old(self).capacity()
                    &&& final(self).bytes() == old(self).bytes()
                    &&& final(self).write_pos() == old(self).write_pos()
                },
            },
    {
        if self.write_byte < self.buf.len() {
            let b: u8 = self.buf[self.write_byte];
            let nb: u8 = if v {
                b | (1u8 << self.write_bit)
            } else {
                b & !(1u8 << self.write_bit)
            };
            proof {
                let k = old(self).write_pos() as int;
                assert(k / 8 == self.write_byte as int && k % 8 == self.write_bit as int);
                lemma_bits_of_update(old(self).bytes(), k, v);
            }
            self.buf[self.write_byte] = nb;
            if self.write_bit == 7 {
                self.write_bit = 0;
                self.write_byte = self.write_byte + 1;
            } else {
                self.write_bit = self.write_bit + 1;
            }
            Ok(())
        } else {
            Err(NoMoreData)
        }
    }
    /// Writes the 32 bits of `x`, least significant first, or reports that
    /// fewer than 32 bits of room are left and leaves the buffer as it was.
    pub fn push_u32_le(&mut self, x: u32) -> (r: Result<(), NoMoreData>)
        requires
            old(self).wf(),
        ensures
            final(self).wf(),
            final(self).read_pos() == old(self).read_pos(),
            final(self).capacity() == old(self).capacity(),
            match r {
                Ok(_) => {
                    &&& old(self).write_pos() + 32 <= old(self).capacity()
                    &&& final(self).bits() == overwrite(old(self).bits(), old(self).write_pos() as int, u32_bits(x))
                    &&& final(self).write_pos() == old(self).write_pos() + 32
                },
                Err(_) => {
                    &&& old(self).write_pos() + 32 > old(self).capacity()
                    &&& final(self).bytes() == old(self).bytes()
                    &&& final(self).write_pos() == old(self).write_pos()
                },
            },
    {
        let free: usize = self.buf.len() - self.write_byte;
        if free < 4 || (free == 4 && self.write_bit != 0) {
            return Err(NoMoreData);
        }
        let ghost start = self.write_pos() as int;
        let ghost before = self.bits();
        let mut i: u32 = 0;
        while i < 32
            invariant
                i <= 32,
                self.wf(),
                self.read_pos() == old(self).read_pos(),
                self.capacity() == old(self).capacity(),
                start == old(self).write_pos(),
                before == old(self).bits(),
                start + 32 <= self.capacity(),
                self.write_pos() == start + i,
                self.bits() == overwrite(before, start, u32_bits(x).take(i as int)),
            decreases 32 - i,
        {
            let v: bool = (x >> i) & 1u32 == 1u32;
            let r = self.push_bit(v);
            assert(r is Ok);
            i = i + 1;
            assert(self.bits() =~= overwrite(before, start, u32_bits(x).take(i as int)));
        }
        assert(u32_bits(x).take(32) =~= u32_bits(x));
        Ok(())
    }

    /// Reads 32 bits as one word, the first bit read being its least
    /// significant, or reports that fewer than 32 bits are left and reads none.
    pub fn pop_u32_le(&mut self) -> (r: Option<u32>)
        requires
            old(self).wf(),
        ensures
            final(self).wf(),
            final(self).bytes() == old(self).bytes(),
            final(self).write_pos() == old(self).write_pos(),
            match r {
                Some(x) => {
                    &&& old(self).read_pos() + 32 <= old(self).capacity()
                    &&& u32_bits(x) == old(self).bits().subrange(
                        old(self).read_pos() as int,
                        old(self).read_pos() as int + 32,
                    )
                    &&& final(self).read_pos() == old(self).read_pos() + 32
                },
                None => {
                    &&& old(self).read_pos() + 32 > old(self).capacity()
                    &&& final(self).read_pos() == old(self).read_pos()
                },
            },
    {
        let left: usize = self.buf.len() - self.read_byte;
        if left < 4 || (left == 4 && self.read_bit != 0) {
            return None;
        }
        let ghost start = self.read_pos() as int;
        let mut x: u32 = 0;
        let mut i: u32 = 0;
        proof {
            assert forall|j: int| 0 <= j < 32 implies !u32_bit(x, j) by {
                lemma_u32_bit_ops(0, 0, j as u32);
            }
        }
        while i < 32
            invariant
                i <= 32,
                self.wf(),
                self.bytes() == old(self).bytes(),
                self.write_pos() == old(self).write_pos(),
                start == old(self).read_pos(),
                start + 32 <= self.capacity(),
                self.read_pos() == start + i,
                forall|j: int| 0 <= j < 32 ==> u32_bit(x, j) == (j < i && self.bits()[start + j]),
            decreases 32 - i,
        {
            let b = self.pop_bit();
            assert(b is Some);
            let ghost x0 = x;
            if b.unwrap() {
                x = x | (1u32 << i);
            }
            proof {
                assert forall|j: int| 0 <= j < 32 implies u32_bit(x, j) == (j < i + 1 && self.bits()[start + j]) by {
                    lemma_u32_bit_ops(x0, i, j as u32);
                    assert(u32_bit(x0, j) == (j < i && self.bits()[start + j]));
                }
            }
            i = i + 1;
        }
        assert(u32_bits(x) =~= self.bits().subrange(start, start + 32));
        Some(x)
    }
}

} // verus!

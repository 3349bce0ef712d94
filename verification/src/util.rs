//! Byte-level reading and writing of fixed-width integers, little-endian.

use vstd::prelude::*;

verus! {

/// The `width` low-order bytes of `value`, least significant first.
pub open spec fn le_bytes(value: nat, width: nat) -> Seq<u8>
    decreases width,
{
    if width == 0 {
        Seq::empty()
    } else {
        seq![(value % 256) as u8] + le_bytes(value / 256, (width - 1) as nat)
    }
}

/// The number that `bytes` spell, least significant byte first.
pub open spec fn le_value(bytes: Seq<u8>) -> nat
    decreases bytes.len(),
{
    if bytes.len() == 0 {
        0
    } else {
        bytes[0] as nat + 256 * le_value(bytes.skip(1))
    }
}

/// 256 to the power `width`: how many numbers `width` bytes can spell.
pub open spec fn span(width: nat) -> nat
    decreases width,
{
    if width == 0 {
        1
    } else {
        256 * span((width - 1) as nat)
    }
}

/// The unsigned number whose `width` bytes are the two's complement of `v`.
pub open spec fn to_unsigned(v: int, width: nat) -> nat {
    if v >= 0 {
        v as nat
    } else {
        (v + span(width)) as nat
    }
}

/// The signed number that the `width` bytes of `u` stand for in two's
/// complement.
pub open spec fn to_signed(u: nat, width: nat) -> int {
    if 2 * u < span(width) {
        u as int
    } else {
        u - span(width)
    }
}

/// The spans of the widths in use.
pub proof fn lemma_spans()
    ensures
        span(0) == 1,
        span(1) == 0x100,
        span(2) == 0x1_0000,
        span(4) == 0x1_0000_0000,
        span(8) == 0x1_0000_0000_0000_0000,
{
    reveal_with_fuel(span, 9);
}

/// `le_bytes` gives `width` bytes.
pub proof fn lemma_le_bytes_len(value: nat, width: nat)
    ensures
        le_bytes(value, width).len() == width,
    decreases width,
{
    if width > 0 {
        lemma_le_bytes_len(value / 256, (width - 1) as nat);
    }
}

/// What `width` bytes spell is below `span(width)`.
pub proof fn lemma_le_value_bound(bytes: Seq<u8>)
    ensures
        le_value(bytes) < span(bytes.len()),
    decreases bytes.len(),
{
    if bytes.len() > 0 {
        lemma_le_value_bound(bytes.skip(1));
    }
}

/// Reading back the bytes of a number that fits gives the number.
pub proof fn lemma_le_value_of_bytes(value: nat, width: nat)
    requires
        value < span(width),
    ensures
        le_value(le_bytes(value, width)) == value,
    decreases width,
{
    if width > 0 {
        let rest = le_bytes(value / 256, (width - 1) as nat);
        lemma_le_value_of_bytes(value / 256, (width - 1) as nat);
        assert(le_bytes(value, width).skip(1) =~= rest);
    }
}

/// Writing out what bytes spell gives the bytes.
pub proof fn lemma_le_bytes_of_value(bytes: Seq<u8>)
    ensures
        le_bytes(le_value(bytes), bytes.len()) == bytes,
    decreases bytes.len(),
{
    if bytes.len() > 0 {
        let rest = bytes.skip(1);
        lemma_le_bytes_of_value(rest);
        let v = le_value(bytes);
        assert(v % 256 == bytes[0] as nat);
        assert(v / 256 == le_value(rest));
        assert(le_bytes(v, bytes.len()) =~= bytes);
    } else {
        assert(le_bytes(le_value(bytes), 0) =~= bytes);
    }
}

/// Two's complement goes there and back, for a signed number in range.
pub proof fn lemma_signed_round_trip(v: int, width: nat)
    requires
        -(span(width) as int) <= 2 * v < span(width),
    ensures
        to_unsigned(v, width) < span(width),
        to_signed(to_unsigned(v, width), width) == v,
{
}

/// Two's complement goes back and there, for an unsigned number in range.
pub proof fn lemma_unsigned_round_trip(u: nat, width: nat)
    requires
        u < span(width),
    ensures
        -(span(width) as int) <= 2 * to_signed(u, width) < span(width),
        to_unsigned(to_signed(u, width), width) == u,
{
}

/// The `width` low-order bytes of `value`, least significant first.
pub fn le_encode(value: u64, width: usize) -> (bytes: Vec<u8>)
    ensures
        bytes@ == le_bytes(value as nat, width as nat),
{
    let mut bytes: Vec<u8> = Vec::new();
    let mut rest: u64 = value;
    let mut done: usize = 0;
    while done < width
        invariant
            done <= width,
            bytes@.len() == done,
            le_bytes(value as nat, width as nat) == bytes@ + le_bytes(
                rest as nat,
                (width - done) as nat,
            ),
        decreases width - done,
    {
        let low: u8 = (rest % 256) as u8;
        proof {
            let tail = le_bytes(rest as nat / 256, (width - done - 1) as nat);
            assert(le_bytes(rest as nat, (width - done) as nat) == seq![low] + tail);
            assert(bytes@ + (seq![low] + tail) =~= bytes@.push(low) + tail);
        }
        bytes.push(low);
        rest = rest / 256;
        done = done + 1;
    }
    assert(bytes@ + le_bytes(rest as nat, 0) =~= bytes@);
    bytes
}

/// The number that the bytes `bytes[at .. at + width]` spell, least
/// significant byte first.
fn le_decode(bytes: &[u8], at: usize, width: usize) -> (value: u64)
    requires
        width <= 8,
        at + width <= bytes@.len(),
    ensures
        value == le_value(bytes@.subrange(at as int, at + width)),
{
    let mut value: u64 = 0;
    let mut left: usize = width;
    let len: usize = bytes.len();
    proof {
        assert(bytes@.subrange(at + width, at + width) =~= Seq::<u8>::empty());
        lemma_spans();
    }
    while left > 0
        invariant
            left <= width <= 8,
            at + width <= bytes@.len() == len,
            value == le_value(bytes@.subrange(at + left, at + width)),
        decreases left,
    {
        proof {
            let longer = bytes@.subrange(at + left - 1, at + width);
            let shorter = bytes@.subrange(at + left, at + width);
            assert(longer.skip(1) =~= shorter);
            lemma_le_value_bound(shorter);
            lemma_span_monotone(shorter.len(), 7);
            reveal_with_fuel(span, 8);
        }
        left = left - 1;
        value = bytes[at + left] as u64 + 256 * value;
    }
    value
}

/// More bytes spell more numbers.
pub proof fn lemma_span_monotone(narrow: nat, wide: nat)
    requires
        narrow <= wide,
    ensures
        span(narrow) <= span(wide),
    decreases wide,
{
    if narrow < wide {
        lemma_span_monotone(narrow, (wide - 1) as nat);
    }
}

/// One byte spells itself.
pub proof fn lemma_le_bytes_one(b: u8)
    ensures
        le_bytes(b as nat, 1) == seq![b],
{
    reveal_with_fuel(le_bytes, 2);
    assert(le_bytes(b as nat, 1) =~= seq![b]);
}

/// A sink for bytes.
pub trait Write {
    /// Everything written so far, in order.
    spec fn written(&self) -> Seq<u8>;

    /// Appends `bytes`.
    fn write(&mut self, bytes: &[u8])
        ensures
            final(self).written() == old(self).written() + bytes@,
    ;

    /// Appends one byte.
    fn write_u8(&mut self, num: u8)
        ensures
            final(self).written() == old(self).written() + le_bytes(num as nat, 1),
    {
        let bytes = le_encode(num as u64, 1);
        self.write(bytes.as_slice());
    }

    /// Appends one byte, the two's complement of `num`.
    fn write_i8(&mut self, num: i8)
        ensures
            final(self).written() == old(self).written() + le_bytes(to_unsigned(num as int, 1), 1),
    {
        proof {
            lemma_spans();
        }
        let unsigned: u64 = if num >= 0 {
            num as u64
        } else {
            (num as i64 + 0x100) as u64
        };
        let bytes = le_encode(unsigned, 1);
        self.write(bytes.as_slice());
    }

    /// Appends the two bytes of `num`.
    fn write_u16(&mut self, num: u16)
        ensures
            final(self).written() == old(self).written() + le_bytes(num as nat, 2),
    {
        let bytes = le_encode(num as u64, 2);
        self.write(bytes.as_slice());
    }

    /// Appends two bytes, the two's complement of `num`.
    fn write_i16(&mut self, num: i16)
        ensures
            final(self).written() == old(self).written() + le_bytes(to_unsigned(num as int, 2), 2),
    {
        proof {
            lemma_spans();
        }
        let unsigned: u64 = if num >= 0 {
            num as u64
        } else {
            (num as i64 + 0x1_0000) as u64
        };
        let bytes = le_encode(unsigned, 2);
        self.write(bytes.as_slice());
    }

    /// Appends the four bytes of `num`.
    fn write_u32(&mut self, num: u32)
        ensures
            final(self).written() == old(self).written() + le_bytes(num as nat, 4),
    {
        let bytes = le_encode(num as u64, 4);
        self.write(bytes.as_slice());
    }

    /// Appends four bytes, the two's complement of `num`.
    fn write_i32(&mut self, num: i32)
        ensures
            final(self).written() == old(self).written() + le_bytes(to_unsigned(num as int, 4), 4),
    {
        proof {
            lemma_spans();
        }
        let unsigned: u64 = if num >= 0 {
            num as u64
        } else {
            (num as i64 + 0x1_0000_0000) as u64
        };
        let bytes = le_encode(unsigned, 4);
        self.write(bytes.as_slice());
    }

    /// Appends the eight bytes of `num`.
    fn write_u64(&mut self, num: u64)
        ensures
            final(self).written() == old(self).written() + le_bytes(num as nat, 8),
    {
        let bytes = le_encode(num, 8);
        self.write(bytes.as_slice());
    }

    /// Appends eight bytes, the two's complement of `num`.
    fn write_i64(&mut self, num: i64)
        ensures
            final(self).written() == old(self).written() + le_bytes(to_unsigned(num as int, 8), 8),
    {
        proof {
            lemma_spans();
        }
        let unsigned: u64 = if num >= 0 {
            num as u64
        } else {
            (num as i128 + 0x1_0000_0000_0000_0000) as u64
        };
        let bytes = le_encode(unsigned, 8);
        self.write(bytes.as_slice());
    }
}

impl Write for Vec<u8> {
    open spec fn written(&self) -> Seq<u8> {
        self@
    }

    fn write(&mut self, bytes: &[u8]) {
        self.extend_from_slice(bytes);
        assert(self@ =~= old(self)@ + bytes@);
    }
}

/// A source of bytes.
pub trait Read {
    /// The bytes that are still to be read, in order.
    spec fn unread(&self) -> Seq<u8>;

    /// How many bytes are still to be read.
    fn remaining(&self) -> (n: usize)
        ensures
            n == self.unread().len(),
    ;

    /// Takes the next `width` bytes and returns the number they spell, least
    /// significant byte first. Where fewer are left, or more than eight are
    /// asked for, takes none.
    fn read(&mut self, width: usize) -> (value: Option<u64>)
        ensures
            width <= 8 && old(self).unread().len() >= width ==> value == Some(
                le_value(old(self).unread().take(width as int)) as u64,
            ) && final(self).unread() == old(self).unread().skip(width as int),
            width > 8 || old(self).unread().len() < width ==> value.is_none()
                && final(self).unread() == old(self).unread(),
    ;

    /// Takes one byte.
    fn read_u8(&mut self) -> (num: Option<u8>)
        ensures
            old(self).unread().len() >= 1 ==> num == Some(
                le_value(old(self).unread().take(1)) as u8,
            ) && final(self).unread() == old(self).unread().skip(1),
            old(self).unread().len() < 1 ==> num.is_none()
                && final(self).unread() == old(self).unread(),
    {
        proof {
            lemma_spans();
            lemma_le_value_bound(self.unread().take(1));
        }
        match self.read(1) {
            Some(v) => Some(v as u8),
            None => None,
        }
    }

    /// Takes one byte and reads it as two's complement.
    fn read_i8(&mut self) -> (num: Option<i8>)
        ensures
            old(self).unread().len() >= 1 ==> num == Some(
                to_signed(le_value(old(self).unread().take(1)), 1) as i8,
            ) && final(self).unread() == old(self).unread().skip(1),
            old(self).unread().len() < 1 ==> num.is_none()
                && final(self).unread() == old(self).unread(),
    {
        proof {
            lemma_spans();
            lemma_le_value_bound(self.unread().take(1));
        }
        match self.read(1) {
            Some(v) => Some(
                if v < 0x80 {
                    v as i8
                } else {
                    (v as i64 - 0x100) as i8
                },
            ),
            None => None,
        }
    }

    /// Takes two bytes.
    fn read_u16(&mut self) -> (num: Option<u16>)
        ensures
            old(self).unread().len() >= 2 ==> num == Some(
                le_value(old(self).unread().take(2)) as u16,
            ) && final(self).unread() == old(self).unread().skip(2),
            old(self).unread().len() < 2 ==> num.is_none()
                && final(self).unread() == old(self).unread(),
    {
        proof {
            lemma_spans();
            lemma_le_value_bound(self.unread().take(2));
        }
        match self.read(2) {
            Some(v) => Some(v as u16),
            None => None,
        }
    }

    /// Takes two bytes and reads them as two's complement.
    fn read_i16(&mut self) -> (num: Option<i16>)
        ensures
            old(self).unread().len() >= 2 ==> num == Some(
                to_signed(le_value(old(self).unread().take(2)), 2) as i16,
            ) && final(self).unread() == old(self).unread().skip(2),
            old(self).unread().len() < 2 ==> num.is_none()
                && final(self).unread() == old(self).unread(),
    {
        proof {
            lemma_spans();
            lemma_le_value_bound(self.unread().take(2));
        }
        match self.read(2) {
            Some(v) => Some(
                if v < 0x8000 {
                    v as i16
                } else {
                    (v as i64 - 0x1_0000) as i16
                },
            ),
            None => None,
        }
    }

    /// Takes four bytes.
    fn read_u32(&mut self) -> (num: Option<u32>)
        ensures
            old(self).unread().len() >= 4 ==> num == Some(
                le_value(old(self).unread().take(4)) as u32,
            ) && final(self).unread() == old(self).unread().skip(4),
            old(self).unread().len() < 4 ==> num.is_none()
                && final(self).unread() == old(self).unread(),
    {
        proof {
            lemma_spans();
            lemma_le_value_bound(self.unread().take(4));
        }
        match self.read(4) {
            Some(v) => Some(v as u32),
            None => None,
        }
    }

    /// Takes four bytes and reads them as two's complement.
    fn read_i32(&mut self) -> (num: Option<i32>)
        ensures
            old(self).unread().len() >= 4 ==> num == Some(
                to_signed(le_value(old(self).unread().take(4)), 4) as i32,
            ) && final(self).unread() == old(self).unread().skip(4),
            old(self).unread().len() < 4 ==> num.is_none()
                && final(self).unread() == old(self).unread(),
    {
        proof {
            lemma_spans();
            lemma_le_value_bound(self.unread().take(4));
        }
        match self.read(4) {
            Some(v) => Some(
                if v < 0x8000_0000 {
                    v as i32
                } else {
                    (v as i64 - 0x1_0000_0000) as i32
                },
            ),
            None => None,
        }
    }

    /// Takes eight bytes.
    fn read_u64(&mut self) -> (num: Option<u64>)
        ensures
            old(self).unread().len() >= 8 ==> num == Some(
                le_value(old(self).unread().take(8)) as u64,
            ) && final(self).unread() == old(self).unread().skip(8),
            old(self).unread().len() < 8 ==> num.is_none()
                && final(self).unread() == old(self).unread(),
    {
        self.read(8)
    }

    /// Takes eight bytes and reads them as two's complement.
    fn read_i64(&mut self) -> (num: Option<i64>)
        ensures
            old(self).unread().len() >= 8 ==> num == Some(
                to_signed(le_value(old(self).unread().take(8)), 8) as i64,
            ) && final(self).unread() == old(self).unread().skip(8),
            old(self).unread().len() < 8 ==> num.is_none()
                && final(self).unread() == old(self).unread(),
    {
        proof {
            lemma_spans();
            lemma_le_value_bound(self.unread().take(8));
        }
        match self.read(8) {
            Some(v) => Some(
                if v < 0x8000_0000_0000_0000 {
                    v as i64
                } else {
                    (v as i128 - 0x1_0000_0000_0000_0000) as i64
                },
            ),
            None => None,
        }
    }
}

/// A position in a byte buffer, from which bytes are read in order.
pub struct Cursor<'a> {
    bytes: &'a [u8],
    pos: usize,
}

impl<'a> Cursor<'a> {
    /// The whole buffer.
    pub closed spec fn buffer(&self) -> Seq<u8> {
        self.bytes@
    }

    /// How many bytes of the buffer lie before the cursor.
    pub closed spec fn spec_position(&self) -> nat {
        self.pos as nat
    }

    /// A cursor that stands `pos` bytes into `bytes`.
    pub fn new(bytes: &'a [u8], pos: usize) -> (c: Cursor<'a>)
        ensures
            c.buffer() == bytes@,
            c.spec_position() == pos,
    {
        Cursor { bytes, pos }
    }

    /// How many bytes of the buffer lie before the cursor.
    pub fn position(&self) -> (pos: usize)
        ensures
            pos == self.spec_position(),
    {
        self.pos
    }
}

impl<'a> Read for Cursor<'a> {
    /// What lies at and after the cursor; nothing where the cursor stands
    /// beyond the end.
    open spec fn unread(&self) -> Seq<u8> {
        if self.spec_position() <= self.buffer().len() {
            self.buffer().skip(self.spec_position() as int)
        } else {
            Seq::empty()
        }
    }

    fn remaining(&self) -> (n: usize) {
        let len: usize = self.bytes.len();
        if self.pos <= len {
            len - self.pos
        } else {
            0
        }
    }

    fn read(&mut self, width: usize) -> (value: Option<u64>)
        ensures
            final(self).buffer() == old(self).buffer(),
            final(self).spec_position() == old(self).spec_position() + if value.is_some() {
                width
            } else {
                0
            },
    {
        let len: usize = self.bytes.len();
        if width == 0 {
            assert(self.unread().take(0) =~= Seq::<u8>::empty());
            assert(self.unread().skip(0) =~= self.unread());
            Some(0)
        } else if width <= 8 && self.pos <= len && width <= len - self.pos {
            let value = le_decode(self.bytes, self.pos, width);
            proof {
                let rest = self.bytes@.skip(self.pos as int);
                assert(rest.take(width as int) =~= self.bytes@.subrange(
                    self.pos as int,
                    self.pos + width,
                ));
                assert(rest.skip(width as int) =~= self.bytes@.skip(self.pos + width));
            }
            self.pos = self.pos + width;
            Some(value)
        } else {
            None
        }
    }
}

} // verus!

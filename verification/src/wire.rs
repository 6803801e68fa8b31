//! Byte-level reading and writing. Every multi-byte integer is little-endian.
use vstd::prelude::*;
use vstd::string::StringExecFns;

use crate::error::TdxError;

verus! {

/// The two bytes that encode `value` little-endian.
pub open spec fn le_u16_bytes(value: u16) -> Seq<u8> {
    seq![(value % 256) as u8, (value / 256) as u8]
}

/// The four bytes that encode `value` little-endian.
pub open spec fn le_u32_bytes(value: u32) -> Seq<u8> {
    seq![
        (value % 256) as u8,
        (value / 256 % 256) as u8,
        (value / 65536 % 256) as u8,
        (value / 16777216) as u8,
    ]
}

/// The unsigned number that the first two bytes of `bytes` encode little-endian.
pub open spec fn le_u16_value(bytes: Seq<u8>) -> int {
    bytes[0] + 256 * bytes[1]
}

/// The two's-complement number that the first two bytes of `bytes` encode little-endian.
pub open spec fn le_i16_value(bytes: Seq<u8>) -> int {
    if le_u16_value(bytes) >= 32768 {
        le_u16_value(bytes) - 65536
    } else {
        le_u16_value(bytes)
    }
}

/// The unsigned number that the first four bytes of `bytes` encode little-endian.
pub open spec fn le_u32_value(bytes: Seq<u8>) -> int {
    bytes[0] + 256 * bytes[1] + 65536 * bytes[2] + 16777216 * bytes[3]
}

/// Reading one byte: the byte, and one byte consumed.
pub open spec fn parse_u8(s: Seq<u8>) -> Option<(u8, int)> {
    if s.len() >= 1 {
        Some((s[0], 1))
    } else {
        None
    }
}

/// Reading a little-endian `u16`.
pub open spec fn parse_u16(s: Seq<u8>) -> Option<(u16, int)> {
    if s.len() >= 2 {
        Some((le_u16_value(s) as u16, 2))
    } else {
        None
    }
}

/// Reading a little-endian `i16`.
pub open spec fn parse_i16(s: Seq<u8>) -> Option<(i16, int)> {
    if s.len() >= 2 {
        Some((le_i16_value(s) as i16, 2))
    } else {
        None
    }
}

/// Reading a little-endian `u32`.
pub open spec fn parse_u32(s: Seq<u8>) -> Option<(u32, int)> {
    if s.len() >= 4 {
        Some((le_u32_value(s) as u32, 4))
    } else {
        None
    }
}

/// The place value of the 7-bit group carried by continuation byte `index` (1-based)
/// of a variable-length integer: the first byte holds the lowest 6 bits.
pub open spec fn varint_weight(index: int) -> int
    decreases index,
{
    if index <= 1 {
        64
    } else {
        128 * varint_weight(index - 1)
    }
}

/// Continuation bytes from `index` on: adds each 7-bit group at its place value to `acc`
/// while the high bit says that another byte follows. A tenth byte is never read: the
/// encoding is then too long. Gives the untruncated magnitude and the bytes consumed.
pub open spec fn varint_groups(s: Seq<u8>, index: int, acc: int) -> Option<(int, int)>
    decreases 10 - index,
{
    if index < 1 || index > 9 || index >= s.len() {
        None
    } else {
        let next = acc + (s[index] % 128) * varint_weight(index);
        if s[index] >= 128 {
            varint_groups(s, index + 1, next)
        } else {
            Some((next, index + 1))
        }
    }
}

/// The magnitude bits of a variable-length integer (before truncation to 64 bits)
/// and the number of bytes it spans.
pub open spec fn varint_bits(s: Seq<u8>) -> Option<(int, int)> {
    if s.len() == 0 {
        None
    } else if s[0] >= 128 {
        varint_groups(s, 1, (s[0] % 64) as int)
    } else {
        Some(((s[0] % 64) as int, 1))
    }
}

/// Whether the first byte of a variable-length integer carries the minus sign (bit 6).
pub open spec fn varint_negative(s: Seq<u8>) -> bool {
    (s[0] / 64) % 2 == 1
}

/// The value of the low 64 bits of `bits` read as a two's-complement `i64`.
pub open spec fn wrap_i64(bits: int) -> int {
    let low = bits % 0x1_0000_0000_0000_0000;
    if low >= 0x8000_0000_0000_0000 {
        low - 0x1_0000_0000_0000_0000
    } else {
        low
    }
}

/// Reading a variable-length signed integer, the encoding of prices and price differences.
///
/// First byte: bit 7 = more bytes follow, bit 6 = negative, low 6 bits = lowest bits of
/// the value. Each following byte: bit 7 = more bytes follow, low 7 bits = the next
/// higher bits. The bits are gathered into 64 bits, read as `i64` and negated when the
/// sign bit is set; the negation of `i64::MIN` is `i64::MIN` itself, the one value whose
/// magnitude is 2^63. Fails on truncated input and on a tenth byte.
pub open spec fn parse_varint(s: Seq<u8>) -> Option<(i64, int)> {
    match varint_bits(s) {
        Some((bits, n)) => {
            let value = if varint_negative(s) && wrap_i64(bits) != i64::MIN {
                -wrap_i64(bits)
            } else {
                wrap_i64(bits)
            };
            Some((value as i64, n))
        },
        None => None,
    }
}

/// The continuation bytes that carry `rest`, 7 bits each, lowest group first; every
/// byte but the last has its high bit set.
pub open spec fn varint_tail(rest: nat) -> Seq<u8>
    decreases rest,
{
    if rest == 0 {
        Seq::empty()
    } else {
        let next = rest / 128;
        let byte = (rest % 128) + if next > 0 {
            128nat
        } else {
            0nat
        };
        seq![byte as u8] + varint_tail(next)
    }
}

/// The magnitude of `value` as a natural number.
pub open spec fn magnitude(value: i64) -> nat {
    if value < 0 {
        (-value) as nat
    } else {
        value as nat
    }
}

/// The variable-length encoding of `value` written by [`encode_varint`]: the low 6 bits
/// of the magnitude and the sign in the first byte, the rest of the magnitude in
/// continuation bytes.
pub open spec fn varint_encoding(value: i64) -> Seq<u8> {
    let rest = magnitude(value) / 64;
    let first = magnitude(value) % 64 + (if value < 0 {
        64nat
    } else {
        0nat
    }) + (if rest > 0 {
        128nat
    } else {
        0nat
    });
    seq![first as u8] + varint_tail(rest)
}

/// The kinds of fixed-format fields a record is made of.
#[derive(Clone, Copy, Debug, PartialEq, Eq)]
pub enum Field {
    U8,
    U16,
    I16,
    U32,
    Varint,
}

/// Reading one field of the given kind, widened to `i64`.
pub open spec fn parse_field(field: Field, s: Seq<u8>) -> Option<(i64, int)> {
    match field {
        Field::U8 => match parse_u8(s) {
            Some((v, n)) => Some((v as i64, n)),
            None => None,
        },
        Field::U16 => match parse_u16(s) {
            Some((v, n)) => Some((v as i64, n)),
            None => None,
        },
        Field::I16 => match parse_i16(s) {
            Some((v, n)) => Some((v as i64, n)),
            None => None,
        },
        Field::U32 => match parse_u32(s) {
            Some((v, n)) => Some((v as i64, n)),
            None => None,
        },
        Field::Varint => parse_varint(s),
    }
}

/// Reading the fields of `layout` one after another: their values and the bytes they
/// span together.
pub open spec fn parse_fields(layout: Seq<Field>, s: Seq<u8>) -> Option<(Seq<i64>, int)>
    decreases layout.len(),
{
    if layout.len() == 0 {
        Some((Seq::empty(), 0))
    } else {
        match parse_field(layout[0], s) {
            Some((v, n)) => match parse_fields(layout.skip(1), s.skip(n)) {
                Some((vs, m)) => Some((seq![v] + vs, n + m)),
                None => None,
            },
            None => None,
        }
    }
}

/// `base + delta` in `i64` arithmetic that wraps around, as `+` does in a release
/// build. Prices on the wire are differences from an earlier price.
pub open spec fn shifted(base: i64, delta: i64) -> i64 {
    let sum = base + delta;
    if sum > i64::MAX {
        (sum - 0x1_0000_0000_0000_0000) as i64
    } else if sum < i64::MIN {
        (sum + 0x1_0000_0000_0000_0000) as i64
    } else {
        sum as i64
    }
}

/// A shifted price is the sum of the price and the difference whenever that sum is an
/// `i64`, and otherwise the one `i64` that differs from the sum by a multiple of 2^64.
pub proof fn lemma_shifted_is_the_sum(base: i64, delta: i64)
    ensures
        i64::MIN <= base + delta <= i64::MAX ==> shifted(base, delta) == base + delta,
        (shifted(base, delta) - (base + delta)) % 0x1_0000_0000_0000_0000 == 0,
{
}

/// Adds a decoded price difference to the price it is relative to (see [`shifted`]).
pub(crate) fn shift(base: i64, delta: i64) -> (r: i64)
    ensures
        r == shifted(base, delta),
{
    base.wrapping_add(delta)
}

/// A parse of the remaining items, placed after `prefix` items already read from
/// `consumed` bytes.
pub open spec fn after<T>(prefix: Seq<T>, consumed: int, parsed: Option<(Seq<T>, int)>) -> Option<
    (Seq<T>, int),
> {
    match parsed {
        Some((items, n)) => Some((prefix + items, consumed + n)),
        None => None,
    }
}

/// What a reader call that decodes a value promises: the input stays the same; when
/// `parsed` says the rest of the input starts with a value spanning `n` bytes, the call
/// returns that value and consumes exactly those bytes, and otherwise it fails with a
/// decoding error.
pub open spec fn decoded<'a, T>(
    before: ByteReader<'a>,
    after: ByteReader<'a>,
    parsed: Option<(T, int)>,
    result: Result<T, TdxError>,
) -> bool {
    &&& after.input() == before.input()
    &&& before.in_bounds() && after.in_bounds()
    &&& before.offset() <= after.offset()
    &&& match parsed {
        Some((value, n)) => result == Ok::<T, TdxError>(value) && after.offset() == before.offset()
            + n,
        None => result matches Err(TdxError::Decode(_)),
    }
}

/// [`decoded`] for calls that return a vector, compared by its sequence of elements.
pub open spec fn decoded_all<'a, T>(
    before: ByteReader<'a>,
    after: ByteReader<'a>,
    parsed: Option<(Seq<T>, int)>,
    result: Result<Vec<T>, TdxError>,
) -> bool {
    &&& after.input() == before.input()
    &&& before.in_bounds() && after.in_bounds()
    &&& before.offset() <= after.offset()
    &&& match parsed {
        Some((values, n)) => result matches Ok(v) && v@ == values && after.offset()
            == before.offset() + n,
        None => result matches Err(TdxError::Decode(_)),
    }
}

/// Accumulates protocol bytes for a request body.
pub struct ByteWriter {
    buffer: Vec<u8>,
}

impl View for ByteWriter {
    type V = Seq<u8>;

    closed spec fn view(&self) -> Seq<u8> {
        self.buffer@
    }
}

impl Default for ByteWriter {
    /// An empty writer.
    fn default() -> (writer: Self)
        ensures
            writer@ == Seq::<u8>::empty(),
    {
        ByteWriter::new()
    }
}

impl ByteWriter {
    /// An empty writer.
    pub fn new() -> (writer: Self)
        ensures
            writer@ == Seq::<u8>::empty(),
    {
        ByteWriter { buffer: Vec::new() }
    }

    /// Appends one byte.
    pub fn u8(&mut self, value: u8) -> (chained: &mut Self)
        ensures
            chained@ == old(self)@.push(value),
            *final(self) == *final(chained),
    {
        self.buffer.push(value);
        self
    }

    /// Appends `value` as two little-endian bytes.
    pub fn u16(&mut self, value: u16) -> (chained: &mut Self)
        ensures
            chained@ == old(self)@ + le_u16_bytes(value),
            *final(self) == *final(chained),
    {
        self.buffer.push((value % 256) as u8);
        self.buffer.push((value / 256) as u8);
        proof {
            assert(self.buffer@ =~= old(self)@ + le_u16_bytes(value));
        }
        self
    }

    /// Appends `value` as four little-endian bytes.
    pub fn u32(&mut self, value: u32) -> (chained: &mut Self)
        ensures
            chained@ == old(self)@ + le_u32_bytes(value),
            *final(self) == *final(chained),
    {
        self.buffer.push((value % 256) as u8);
        self.buffer.push((value / 256 % 256) as u8);
        self.buffer.push((value / 65536 % 256) as u8);
        self.buffer.push((value / 16777216) as u8);
        proof {
            assert(self.buffer@ =~= old(self)@ + le_u32_bytes(value));
        }
        self
    }

    /// Appends `value` unchanged.
    pub fn bytes(&mut self, value: &[u8]) -> (chained: &mut Self)
        ensures
            chained@ == old(self)@ + value@,
            *final(self) == *final(chained),
    {
        self.buffer.extend_from_slice(value);
        proof {
            assert(self.buffer@ =~= old(self)@ + value@);
        }
        self
    }

    /// Everything written so far, in order.
    pub fn as_slice(&self) -> (bytes: &[u8])
        ensures
            bytes@ == self@,
    {
        self.buffer.as_slice()
    }
}

/// Reads protocol values from a byte slice, front to back.
pub struct ByteReader<'a> {
    data: &'a [u8],
    position: usize,
}

impl<'a> ByteReader<'a> {
    #[verifier::type_invariant]
    spec fn position_in_bounds(self) -> bool {
        self.position <= self.data@.len()
    }

    /// All the bytes the reader was made with.
    pub closed spec fn input(&self) -> Seq<u8> {
        self.data@
    }

    /// How many bytes have been consumed.
    pub closed spec fn offset(&self) -> int {
        self.position as int
    }

    /// The consumed count lies within the input.
    pub open spec fn in_bounds(&self) -> bool {
        0 <= self.offset() <= self.input().len()
    }

    /// The bytes not consumed yet.
    pub open spec fn rest(&self) -> Seq<u8> {
        self.input().skip(self.offset())
    }

    /// A reader at the start of `data`.
    pub fn new(data: &'a [u8]) -> (reader: Self)
        ensures
            reader.input() == data@,
            reader.offset() == 0,
            reader.in_bounds(),
    {
        ByteReader { data, position: 0 }
    }

    /// The number of bytes not consumed yet.
    pub fn remaining(&self) -> (count: usize)
        ensures
            count == self.rest().len(),
            0 <= self.offset() <= self.input().len(),
    {
        proof {
            use_type_invariant(self);
        }
        self.data.len() - self.position
    }

    /// Consumes the next `length` bytes and returns them; fails, consuming nothing,
    /// when fewer are left.
    pub fn take(&mut self, length: usize) -> (r: Result<&'a [u8], TdxError>)
        ensures
            final(self).input() == old(self).input(),
            old(self).in_bounds() && final(self).in_bounds(),
            length <= old(self).rest().len() ==> {
                &&& r matches Ok(bytes) && bytes@ == old(self).rest().take(length as int)
                &&& final(self).offset() == old(self).offset() + length
            },
            length > old(self).rest().len() ==> {
                &&& r matches Err(TdxError::Decode(_))
                &&& final(self).offset() == old(self).offset()
            },
    {
        proof {
            use_type_invariant(&*self);
        }
        let left = self.data.len() - self.position;
        if left < length {
            let mut text = String::from_str("need ");
            text.append(length.to_string().as_str());
            text.append(" bytes at offset ");
            text.append(self.position.to_string().as_str());
            text.append(", only ");
            text.append(left.to_string().as_str());
            text.append(" left");
            return Err(TdxError::Decode(text));
        }
        let start = self.position;
        let slice = &self.data[start..start + length];
        self.position = start + length;
        proof {
            assert(slice@ =~= old(self).rest().take(length as int));
        }
        Ok(slice)
    }

    /// Consumes the next `length` bytes; fails, consuming nothing, when fewer are left.
    pub fn skip(&mut self, length: usize) -> (r: Result<(), TdxError>)
        ensures
            final(self).input() == old(self).input(),
            old(self).in_bounds() && final(self).in_bounds(),
            length <= old(self).rest().len() ==> r is Ok && final(self).offset() == old(
                self,
            ).offset() + length,
            length > old(self).rest().len() ==> {
                &&& r matches Err(TdxError::Decode(_))
                &&& final(self).offset() == old(self).offset()
            },
    {
        match self.take(length) {
            Ok(_) => Ok(()),
            Err(error) => Err(error),
        }
    }

    /// Consumes the next `N` bytes and returns them as an array; fails, consuming
    /// nothing, when fewer are left.
    pub fn array<const N: usize>(&mut self) -> (r: Result<[u8; N], TdxError>)
        ensures
            final(self).input() == old(self).input(),
            old(self).in_bounds() && final(self).in_bounds(),
            N <= old(self).rest().len() ==> {
                &&& r matches Ok(bytes) && bytes@ == old(self).rest().take(N as int)
                &&& final(self).offset() == old(self).offset() + N
            },
            N > old(self).rest().len() ==> {
                &&& r matches Err(TdxError::Decode(_))
                &&& final(self).offset() == old(self).offset()
            },
    {
        let bytes = self.take(N)?;
        let mut array = [0u8; N];
        for i in 0..N
            invariant
                bytes@.len() == N,
                array@.len() == N,
                forall|j: int| 0 <= j < i ==> array@[j] == bytes@[j],
        {
            array[i] = bytes[i];
        }
        proof {
            assert(array@ =~= bytes@);
        }
        Ok(array)
    }

    /// Reads one byte.
    pub fn u8(&mut self) -> (r: Result<u8, TdxError>)
        ensures
            final(self).input() == old(self).input(),
            old(self).in_bounds() && final(self).in_bounds(),
            match parse_u8(old(self).rest()) {
                Some((value, n)) => r == Ok::<u8, TdxError>(value) && final(self).offset()
                    == old(self).offset() + n,
                None => r matches Err(TdxError::Decode(_)) && final(self).offset() == old(
                    self,
                ).offset(),
            },
    {
        let bytes = self.take(1)?;
        Ok(bytes[0])
    }

    /// Reads a little-endian `u16`.
    pub fn u16(&mut self) -> (r: Result<u16, TdxError>)
        ensures
            final(self).input() == old(self).input(),
            old(self).in_bounds() && final(self).in_bounds(),
            match parse_u16(old(self).rest()) {
                Some((value, n)) => r == Ok::<u16, TdxError>(value) && final(self).offset()
                    == old(self).offset() + n,
                None => r matches Err(TdxError::Decode(_)) && final(self).offset() == old(
                    self,
                ).offset(),
            },
    {
        let bytes = self.take(2)?;
        Ok(bytes[0] as u16 + 256 * (bytes[1] as u16))
    }

    /// Reads a little-endian two's-complement `i16`.
    pub fn i16(&mut self) -> (r: Result<i16, TdxError>)
        ensures
            final(self).input() == old(self).input(),
            old(self).in_bounds() && final(self).in_bounds(),
            match parse_i16(old(self).rest()) {
                Some((value, n)) => r == Ok::<i16, TdxError>(value) && final(self).offset()
                    == old(self).offset() + n,
                None => r matches Err(TdxError::Decode(_)) && final(self).offset() == old(
                    self,
                ).offset(),
            },
    {
        let bytes = self.take(2)?;
        let unsigned = bytes[0] as i32 + 256 * (bytes[1] as i32);
        if unsigned >= 32768 {
            Ok((unsigned - 65536) as i16)
        } else {
            Ok(unsigned as i16)
        }
    }

    /// Reads a little-endian `u32`.
    pub fn u32(&mut self) -> (r: Result<u32, TdxError>)
        ensures
            final(self).input() == old(self).input(),
            old(self).in_bounds() && final(self).in_bounds(),
            match parse_u32(old(self).rest()) {
                Some((value, n)) => r == Ok::<u32, TdxError>(value) && final(self).offset()
                    == old(self).offset() + n,
                None => r matches Err(TdxError::Decode(_)) && final(self).offset() == old(
                    self,
                ).offset(),
            },
    {
        let bytes = self.take(4)?;
        Ok(bytes[0] as u32 + 256 * (bytes[1] as u32) + 65536 * (bytes[2] as u32) + 16777216 * (
        bytes[3] as u32))
    }

    /// Reads one field of the given kind, widened to `i64`.
    pub fn field(&mut self, field: Field) -> (r: Result<i64, TdxError>)
        ensures
            decoded(*old(self), *final(self), parse_field(field, old(self).rest()), r),
            r is Err && field != Field::Varint ==> final(self).offset() == old(self).offset(),
            r is Err && field == Field::Varint ==> final(self).offset() == old(self).offset() + if old(
                self,
            ).rest().len() < 10 {
                old(self).rest().len() as int
            } else {
                10
            },
    {
        match field {
            Field::U8 => Ok(self.u8()? as i64),
            Field::U16 => Ok(self.u16()? as i64),
            Field::I16 => Ok(self.i16()? as i64),
            Field::U32 => Ok(self.u32()? as i64),
            Field::Varint => self.varint(),
        }
    }

    /// Reads the fields of `layout` in order (see [`parse_fields`]).
    pub fn fields(&mut self, layout: &[Field]) -> (r: Result<Vec<i64>, TdxError>)
        ensures
            decoded_all(*old(self), *final(self), parse_fields(layout@, old(self).rest()), r),
            r matches Ok(values) ==> values@.len() == layout@.len(),
    {
        proof {
            use_type_invariant(&*self);
        }
        let ghost s = self.rest();
        let ghost start = self.offset();
        let mut values: Vec<i64> = Vec::new();
        proof {
            assert(layout@.skip(0) =~= layout@);
            assert(self.rest() =~= s.skip(0));
            match parse_fields(layout@, s) {
                Some((vs, m)) => {
                    assert(values@ + vs =~= vs);
                },
                None => {},
            }
        }
        for i in 0..layout.len()
            invariant
                s == old(self).rest(),
                start == old(self).offset(),
                old(self).in_bounds(),
                self.in_bounds(),
                self.input() == old(self).input(),
                self.offset() >= start,
                values@.len() == i,
                self.rest() == s.skip(self.offset() - start),
                parse_fields(layout@, s) == match parse_fields(layout@.skip(i as int), self.rest()) {
                    Some((vs, m)) => Some((values@ + vs, self.offset() - start + m)),
                    None => None,
                },
        {
            let ghost before = self.rest();
            let ghost before_offset = self.offset();
            let ghost consumed = self.offset() - start;
            let ghost tail = layout@.skip(i as int);
            proof {
                assert(tail[0] == layout@[i as int]);
                assert(tail.skip(1) =~= layout@.skip(i + 1));
            }
            let value = self.field(layout[i])?;
            proof {
                let n = self.offset() - before_offset;
                assert(parse_field(layout@[i as int], before) == Some((value, n)));
                assert(self.rest() =~= before.skip(n));
                assert(self.rest() =~= s.skip(self.offset() - start));
                match parse_fields(layout@.skip(i + 1), self.rest()) {
                    Some((vs, m)) => {
                        assert(values@.push(value) + vs =~= values@ + (seq![value] + vs));
                    },
                    None => {},
                }
            }
            values.push(value);
        }
        proof {
            assert(layout@.skip(layout@.len() as int) =~= Seq::<Field>::empty());
            assert(values@ + Seq::<i64>::empty() =~= values@);
        }
        Ok(values)
    }

    /// Reads a variable-length signed integer (see [`parse_varint`]).
    pub fn varint(&mut self) -> (r: Result<i64, TdxError>)
        ensures
            final(self).input() == old(self).input(),
            old(self).in_bounds() && final(self).in_bounds(),
            old(self).offset() <= final(self).offset() <= final(self).input().len(),
            match parse_varint(old(self).rest()) {
                Some((value, n)) => r == Ok::<i64, TdxError>(value) && final(self).offset()
                    == old(self).offset() + n,
                None => r matches Err(TdxError::Decode(_)),
            },
            r is Err ==> final(self).offset() == old(self).offset() + if old(self).rest().len()
                < 10 {
                old(self).rest().len() as int
            } else {
                10
            },
    {
        proof {
            use_type_invariant(&*self);
        }
        let ghost s = self.rest();
        let ghost start = self.offset();
        let first = self.u8()?;
        let negative = (first / 64) % 2 == 1;
        let mut magnitude: u64 = (first % 64) as u64;
        let ghost mut acc: int = (first % 64) as int;
        let mut more = first >= 128;
        let mut index: usize = 1;
        let mut weight: u64 = 64;
        while more
            invariant
                1 <= index <= 10,
                s == old(self).rest(),
                s.len() >= 1,
                first == s[0],
                negative == varint_negative(s),
                self.input() == old(self).input(),
                self.offset() == start + index,
                start == old(self).offset(),
                start + s.len() == self.input().len(),
                0 <= acc,
                magnitude as int == acc % 0x1_0000_0000_0000_0000,
                index <= 9 ==> acc < varint_weight(index as int),
                index <= 9 ==> weight as int == varint_weight(index as int),
                index == 10 ==> acc < 0x1_0000_0000_0000_0000 * 128,
                more ==> varint_bits(s) == varint_groups(s, index as int, acc),
                !more ==> varint_bits(s) == Some((acc, index as int)),
            decreases 10 - index,
        {
            proof {
                use_type_invariant(&*self);
            }
            if index > 9 {
                return Err(TdxError::Decode(String::from_str("varint is too long")));
            }
            proof {
                assert(self.rest() =~= s.skip(index as int));
                reveal_with_fuel(varint_weight, 2);
            }
            let byte = self.u8()?;
            let ghost next = acc + (byte % 128) * varint_weight(index as int);
            if index == 9 {
                proof {
                    lemma_varint_weights();
                    let low = (byte % 128) as int;
                    assert(low * 0x4000_0000_0000_0000 == (low % 4) * 0x4000_0000_0000_0000
                        + (low / 4) * 0x1_0000_0000_0000_0000) by (nonlinear_arith)
                        requires 0 <= low < 128;
                    assert((byte % 4) as int == low % 4);
                    assert(next % 0x1_0000_0000_0000_0000 == acc + (low % 4) * 0x4000_0000_0000_0000)
                        by (nonlinear_arith)
                        requires
                            next == acc + (low % 4) * 0x4000_0000_0000_0000 + (low / 4)
                                * 0x1_0000_0000_0000_0000,
                            0 <= acc < 0x4000_0000_0000_0000,
                            0 <= low % 4 < 4,
                            0 <= low / 4;
                    assert(next < 0x1_0000_0000_0000_0000 * 128) by (nonlinear_arith)
                        requires
                            next == acc + (low % 4) * 0x4000_0000_0000_0000 + (low / 4)
                                * 0x1_0000_0000_0000_0000,
                            0 <= acc < 0x4000_0000_0000_0000,
                            0 <= low % 4 < 4,
                            0 <= low / 4 < 32;
                }
                magnitude = magnitude + ((byte % 4) as u64) * 0x4000_0000_0000_0000;
            } else {
                proof {
                    let low = (byte % 128) as int;
                    let w = varint_weight(index as int);
                    assert(varint_weight(index as int + 1) == 128 * w);
                    lemma_varint_weights();
                    assert(w <= 0x0080_0000_0000_0000);
                    assert(low * w <= 127 * w) by (nonlinear_arith)
                        requires 0 <= low < 128, 0 <= w;
                    assert(acc + low * w < 128 * w);
                }
                magnitude = magnitude + ((byte % 128) as u64) * weight;
                proof {
                    assert(next < 0x1_0000_0000_0000_0000);
                    assert(next % 0x1_0000_0000_0000_0000 == next);
                }
            }
            proof {
                acc = next;
            }
            more = byte >= 128;
            if index < 9 {
                weight = weight * 128;
            }
            index = index + 1;
        }
        proof {
            use_type_invariant(&*self);
        }
        let signed: i64 = if magnitude <= 0x7fff_ffff_ffff_ffff {
            magnitude as i64
        } else {
            let complement: u64 = 0xffff_ffff_ffff_ffff - magnitude;
            -(complement as i64) - 1
        };
        proof {
            assert(signed as int == wrap_i64(acc));
        }
        if negative {
            if signed == i64::MIN {
                return Ok(i64::MIN);
            }
            Ok(-signed)
        } else {
            Ok(signed)
        }
    }
}

/// Appends the variable-length encoding of `value` to `out`; [`ByteReader::varint`]
/// reads it back.
pub fn encode_varint(value: i64, out: &mut Vec<u8>)
    ensures
        final(out)@ == old(out)@ + varint_encoding(value),
{
    let unsigned: u64 = if value >= 0 {
        value as u64
    } else if value == i64::MIN {
        0x8000_0000_0000_0000
    } else {
        (-value) as u64
    };
    let mut first = (unsigned % 64) as u8;
    if value < 0 {
        first = first + 64;
    }
    let mut rest = unsigned / 64;
    if rest > 0 {
        first = first + 128;
    }
    out.push(first);
    proof {
        assert(old(out)@ + varint_encoding(value) =~= out@ + varint_tail(rest as nat));
    }
    while rest > 0
        invariant
            old(out)@ + varint_encoding(value) == out@ + varint_tail(rest as nat),
        decreases rest,
    {
        let mut byte = (rest % 128) as u8;
        let ghost before = out@;
        let ghost previous = rest;
        rest = rest / 128;
        if rest > 0 {
            byte = byte + 128;
        }
        out.push(byte);
        proof {
            assert(varint_tail(previous as nat) == seq![byte] + varint_tail(rest as nat));
            assert(out@ + varint_tail(rest as nat) =~= before + varint_tail(previous as nat));
        }
    }
}

/// Decoding continuation bytes that hold `varint_tail(rest)` adds `rest` at the place
/// value of the first of them, consuming exactly those bytes.
proof fn lemma_varint_tail_decodes(s: Seq<u8>, index: int, acc: int, rest: nat)
    requires
        1 <= index <= 9,
        rest > 0,
        rest * varint_weight(index) < 128 * varint_weight(9),
        index + varint_tail(rest).len() <= s.len(),
        s.subrange(index, index + varint_tail(rest).len()) == varint_tail(rest),
    ensures
        varint_groups(s, index, acc) == Some(
            (acc + rest * varint_weight(index), index + varint_tail(rest).len()),
        ),
    decreases rest,
{
    let t = varint_tail(rest);
    let next = rest / 128;
    let w = varint_weight(index);
    lemma_varint_weights();
    assert(t[0] == s[index]) by {
        assert(s.subrange(index, index + t.len())[0] == s[index]);
    }
    assert(s[index] % 128 == rest % 128);
    if next > 0 {
        assert(s[index] >= 128);
        assert(rest == 128 * next + rest % 128);
        assert(rest * w >= 128 * next * w) by (nonlinear_arith)
            requires rest == 128 * next + rest % 128, 0 <= rest % 128, w >= 0;
        if index == 9 {
            assert(128 * next * w >= 128 * w) by (nonlinear_arith)
                requires next >= 1, w >= 0;
            assert(false);
        }
        let t2 = varint_tail(next);
        assert(t == seq![t[0]] + t2);
        assert(s.subrange(index + 1, index + 1 + t2.len()) =~= t2) by {
            assert forall|k: int| 0 <= k < t2.len() implies s.subrange(
                index + 1,
                index + 1 + t2.len(),
            )[k] == t2[k] by {
                assert(s.subrange(index, index + t.len())[k + 1] == t[k + 1]);
            }
        }
        assert(varint_weight(index + 1) == 128 * w);
        assert(next * varint_weight(index + 1) < 128 * varint_weight(9)) by (nonlinear_arith)
            requires
                varint_weight(index + 1) == 128 * w,
                rest * w >= 128 * next * w,
                rest * w < 128 * varint_weight(9);
        lemma_varint_tail_decodes(s, index + 1, acc + (s[index] % 128) * w, next);
        assert(acc + (s[index] % 128) * w + next * (128 * w) == acc + rest * w) by (nonlinear_arith)
            requires rest == 128 * next + rest % 128, s[index] % 128 == rest % 128;
        assert(t.len() == 1 + t2.len());
        assert(varint_groups(s, index, acc) == varint_groups(
            s,
            index + 1,
            acc + (s[index] % 128) * w,
        ));
    } else {
        assert(s[index] < 128);
        assert(rest < 128);
        assert(rest % 128 == rest);
        assert(next == 0);
        assert(varint_tail(0) == Seq::<u8>::empty());
        assert(t == seq![((rest % 128) + 0nat) as u8] + Seq::<u8>::empty());
        assert(t.len() == 1);
        assert(varint_groups(s, index, acc) == Some((acc + (s[index] % 128) * w, index + 1)));
    }
}

/// Reading a layout reads its first field, then the rest of the layout from where that
/// field ends.
pub proof fn lemma_parse_fields_step(layout: Seq<Field>, s: Seq<u8>, value: i64, n: int)
    requires
        layout.len() > 0,
        parse_field(layout[0], s) == Some((value, n)),
    ensures
        parse_fields(layout, s) == after(seq![value], n, parse_fields(layout.skip(1), s.skip(n))),
{
}

/// A layout that starts with a variable-length integer reads that integer back from its
/// encoding, then the rest of the layout from what follows.
pub proof fn lemma_varint_field_step(layout: Seq<Field>, value: i64, rest: Seq<u8>)
    requires
        layout.len() > 0,
        layout[0] == Field::Varint,
    ensures
        parse_fields(layout, varint_encoding(value) + rest) == after(
            seq![value],
            varint_encoding(value).len() as int,
            parse_fields(layout.skip(1), rest),
        ),
{
    let s = varint_encoding(value) + rest;
    lemma_varint_round_trip(value, rest);
    assert(s.skip(varint_encoding(value).len() as int) =~= rest);
    lemma_parse_fields_step(layout, s, value, varint_encoding(value).len() as int);
}

/// A layout that starts with a byte field reads that byte back, then the rest of the
/// layout from what follows.
pub proof fn lemma_u8_field_step(layout: Seq<Field>, value: u8, rest: Seq<u8>)
    requires
        layout.len() > 0,
        layout[0] == Field::U8,
    ensures
        parse_fields(layout, seq![value] + rest) == after(
            seq![value as i64],
            1,
            parse_fields(layout.skip(1), rest),
        ),
{
    let s = seq![value] + rest;
    assert(s.skip(1) =~= rest);
    lemma_parse_fields_step(layout, s, value as i64, 1);
}

/// A layout that starts with a `u16` field reads it back from its little-endian bytes,
/// then the rest of the layout from what follows.
pub proof fn lemma_u16_field_step(layout: Seq<Field>, value: u16, rest: Seq<u8>)
    requires
        layout.len() > 0,
        layout[0] == Field::U16,
    ensures
        parse_fields(layout, le_u16_bytes(value) + rest) == after(
            seq![value as i64],
            2,
            parse_fields(layout.skip(1), rest),
        ),
{
    let s = le_u16_bytes(value) + rest;
    lemma_u16_round_trip(value, rest);
    assert(s.skip(2) =~= rest);
    lemma_parse_fields_step(layout, s, value as i64, 2);
}

/// Reading back what [`encode_varint`] wrote gives the value again and consumes exactly
/// the encoding, whatever follows it.
pub proof fn lemma_varint_round_trip(value: i64, suffix: Seq<u8>)
    ensures
        parse_varint(varint_encoding(value) + suffix) == Some(
            (value, varint_encoding(value).len() as int),
        ),
{
    let s = varint_encoding(value) + suffix;
    let m = magnitude(value);
    let rest = m / 64;
    lemma_varint_weights();
    assert(m <= 0x8000_0000_0000_0000);
    assert(s[0] == varint_encoding(value)[0]);
    assert(s[0] % 64 == m % 64);
    assert(varint_negative(s) == (value < 0));
    if rest > 0 {
        assert(s[0] >= 128);
        let t = varint_tail(rest);
        assert(s.subrange(1, 1 + t.len() as int) =~= t) by {
            assert forall|k: int| 0 <= k < t.len() implies s.subrange(1, 1 + t.len() as int)[k] == t[k] by {
                assert(s[1 + k] == varint_encoding(value)[1 + k]);
            }
        }
        assert(rest * 64 <= m);
        lemma_varint_tail_decodes(s, 1, (m % 64) as int, rest);
        assert(m % 64 + rest * 64 == m);
    } else {
        assert(s[0] < 128);
    }
    if m == 0x8000_0000_0000_0000 {
        assert(value == i64::MIN);
        assert(wrap_i64(m as int) == i64::MIN);
    } else {
        assert(wrap_i64(m as int) == m);
    }
}

/// Reading back a little-endian `u16` that [`ByteWriter::u16`] wrote gives the value
/// again, whatever follows.
pub proof fn lemma_u16_round_trip(value: u16, suffix: Seq<u8>)
    ensures
        parse_u16(le_u16_bytes(value) + suffix) == Some((value, 2int)),
{
    let s = le_u16_bytes(value) + suffix;
    assert(s[0] == (value % 256) as u8 && s[1] == (value / 256) as u8);
    assert(le_u16_value(s) == value);
}

/// Reading back a little-endian `u32` that [`ByteWriter::u32`] wrote gives the value
/// again, whatever follows.
pub proof fn lemma_u32_round_trip(value: u32, suffix: Seq<u8>)
    ensures
        parse_u32(le_u32_bytes(value) + suffix) == Some((value, 4int)),
{
    let s = le_u32_bytes(value) + suffix;
    assert(s[0] == (value % 256) as u8);
    assert(s[1] == (value / 256 % 256) as u8);
    assert(s[2] == (value / 65536 % 256) as u8);
    assert(s[3] == (value / 16777216) as u8);
    assert(le_u32_value(s) == value);
}

/// The place values of the nine continuation bytes: 2^6, 2^13, ..., 2^62.
proof fn lemma_varint_weights()
    ensures
        varint_weight(1) == 0x40,
        varint_weight(2) == 0x2000,
        varint_weight(3) == 0x10_0000,
        varint_weight(4) == 0x800_0000,
        varint_weight(5) == 0x4_0000_0000,
        varint_weight(6) == 0x200_0000_0000,
        varint_weight(7) == 0x1_0000_0000_0000,
        varint_weight(8) == 0x80_0000_0000_0000,
        varint_weight(9) == 0x4000_0000_0000_0000,
{
    reveal_with_fuel(varint_weight, 10);
}

} // verus!

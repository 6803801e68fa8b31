//! Security codes and the protocol's calendar values.
use vstd::prelude::*;
use vstd::string::{StringExecFns, StringSliceAdditionalSpecFns};

use crate::error::TdxError;
use crate::wire::{
    decoded, le_u16_bytes, le_u32_bytes, lemma_u16_round_trip, lemma_u32_round_trip, parse_u16,
    parse_u32, ByteReader,
};

verus! {

/// Whether `byte` is an ASCII digit or letter.
pub open spec fn is_ascii_alphanumeric(byte: u8) -> bool {
    (48 <= byte <= 57) || (65 <= byte <= 90) || (97 <= byte <= 122)
}

/// The 6-byte code of a security in the standard market (stocks, ETFs, indices).
#[derive(Clone, Copy, Debug, PartialEq, Eq, Hash)]
pub struct SecurityCode([u8; 6]);

impl View for SecurityCode {
    type V = Seq<u8>;

    closed spec fn view(&self) -> Seq<u8> {
        self.0@
    }
}

/// The code holding the first six of `bytes`.
pub closed spec fn code_from_bytes(bytes: Seq<u8>) -> SecurityCode {
    SecurityCode([bytes[0], bytes[1], bytes[2], bytes[3], bytes[4], bytes[5]])
}

/// A code is determined by its bytes, and [`code_from_bytes`] holds exactly the bytes
/// it is given.
pub proof fn lemma_code_bytes(code: SecurityCode, bytes: Seq<u8>)
    requires
        bytes.len() == 6,
    ensures
        code_from_bytes(bytes)@ == bytes,
        code@ == bytes ==> code == code_from_bytes(bytes),
{
    assert(code_from_bytes(bytes)@ =~= bytes);
    if code@ == bytes {
        assert(code.0 =~= code_from_bytes(bytes).0);
    }
}

/// Every code holds exactly six bytes.
pub proof fn lemma_code_len(code: SecurityCode)
    ensures
        code@.len() == 6,
{
}

impl SecurityCode {
    /// A code from its text: it must be exactly 6 bytes of UTF-8, all ASCII letters
    /// or digits.
    pub fn new(code: &str) -> (r: Result<Self, TdxError>)
        ensures
            r is Ok <==> code.spec_bytes().len() == 6 && forall|i: int|
                0 <= i < 6 ==> is_ascii_alphanumeric(#[trigger] code.spec_bytes()[i]),
            r matches Ok(c) ==> c@ == code.spec_bytes(),
            r matches Err(e) ==> e is InvalidArgument,
    {
        let bytes = code.as_bytes();
        if bytes.len() != 6 {
            let mut text = String::from_str("security code must be 6 bytes: ");
            text.append(quoted(code).as_str());
            return Err(TdxError::InvalidArgument(text));
        }
        let mut i: usize = 0;
        while i < 6
            invariant
                bytes@ == code.spec_bytes(),
                bytes@.len() == 6,
                0 <= i <= 6,
                forall|j: int| 0 <= j < i ==> is_ascii_alphanumeric(#[trigger] bytes@[j]),
            decreases 6 - i,
        {
            let b = bytes[i];
            if !((48 <= b && b <= 57) || (65 <= b && b <= 90) || (97 <= b && b <= 122)) {
                let mut text = String::from_str("security code must be ASCII alphanumeric: ");
                text.append(quoted(code).as_str());
                return Err(TdxError::InvalidArgument(text));
            }
            i = i + 1;
        }
        let array = [bytes[0], bytes[1], bytes[2], bytes[3], bytes[4], bytes[5]];
        proof {
            assert(array@ =~= bytes@);
        }
        Ok(SecurityCode(array))
    }

    /// A code holding exactly these bytes, unchecked.
    pub fn from_bytes(bytes: [u8; 6]) -> (code: Self)
        ensures
            code@ == bytes@,
    {
        SecurityCode(bytes)
    }

    /// The code's bytes.
    pub fn as_bytes(&self) -> (bytes: &[u8; 6])
        ensures
            bytes@ == self@,
    {
        &self.0
    }

    /// The code as text; bytes that are not valid UTF-8 become U+FFFD.
    pub fn to_string(&self) -> (text: String)
        ensures
            text@ == utf8_lossy(self@),
            (forall|i: int| 0 <= i < 6 ==> #[trigger] self@[i] < 128) ==> text@ == self@.map_values(
                |b: u8| b as char,
            ),
    {
        lossy_text(&self.0)
    }
}

/// Quotes `text` the way `{:?}` shows a string (`Debug` for `str`). Nothing is stated
/// of the result: it only goes into error messages.
#[verifier::external_body]
fn quoted(text: &str) -> String {
    format!("{text:?}")
}

/// The text that `String::from_utf8_lossy` makes of `bytes`: valid UTF-8 decoded, each
/// invalid sequence replaced by U+FFFD.
pub uninterp spec fn utf8_lossy(bytes: Seq<u8>) -> Seq<char>;

/// `String::from_utf8_lossy`, then `into_owned`. The result is [`utf8_lossy`] of the
/// bytes; the standard library documents that valid UTF-8 comes back unchanged, and
/// ASCII bytes are valid UTF-8, each one the character with the same number.
#[verifier::external_body]
fn lossy_text(bytes: &[u8; 6]) -> (text: String)
    ensures
        text@ == utf8_lossy(bytes@),
        (forall|i: int| 0 <= i < 6 ==> #[trigger] bytes@[i] < 128) ==> text@ == bytes@.map_values(
            |b: u8| b as char,
        ),
{
    String::from_utf8_lossy(bytes).into_owned()
}

/// A calendar date as the protocol carries it, without a time zone.
#[derive(Clone, Copy, Debug, PartialEq, Eq, PartialOrd, Ord)]
pub struct TdxDate {
    pub year: u16,
    pub month: u8,
    pub day: u8,
}

/// The date that the number `YYYYMMDD` stands for; the year keeps its low 16 bits.
pub open spec fn date_from_yyyymmdd(packed: u32) -> TdxDate {
    TdxDate {
        year: (packed / 10000 % 65536) as u16,
        month: (packed / 100 % 100) as u8,
        day: (packed % 100) as u8,
    }
}

/// Reading a date stored as the `u32` number `YYYYMMDD`.
pub open spec fn parse_yyyymmdd(s: Seq<u8>) -> Option<(TdxDate, int)> {
    match parse_u32(s) {
        Some((packed, n)) => Some((date_from_yyyymmdd(packed), n)),
        None => None,
    }
}

impl TdxDate {
    /// Reads a date stored as the `u32` number `YYYYMMDD`.
    pub fn read_yyyymmdd(reader: &mut ByteReader<'_>) -> (r: Result<Self, TdxError>)
        ensures
            decoded(*old(reader), *final(reader), parse_yyyymmdd(old(reader).rest()), r),
            r is Err ==> final(reader).offset() == old(reader).offset(),
    {
        let packed = reader.u32()?;
        Ok(TdxDate {
            year: (packed / 10000 % 65536) as u16,
            month: (packed / 100 % 100) as u8,
            day: (packed % 100) as u8,
        })
    }
}

/// Exchange-local (Beijing) time as the protocol carries it, without a time zone.
#[derive(Clone, Copy, Debug, PartialEq, Eq, PartialOrd, Ord)]
pub struct TdxDateTime {
    pub date: TdxDate,
    pub hour: u8,
    pub minute: u8,
}

/// The time of an intraday bar: the year since 2004 in the high 5 bits of `packed_date`
/// and `month * 100 + day` in its low 11 bits; `minutes` counts from midnight and the
/// hour keeps its low 8 bits.
pub open spec fn intraday_time(packed_date: u16, minutes: u16) -> TdxDateTime {
    TdxDateTime {
        date: TdxDate {
            year: (packed_date / 2048 + 2004) as u16,
            month: (packed_date % 2048 / 100) as u8,
            day: (packed_date % 2048 % 100) as u8,
        },
        hour: (minutes / 60 % 256) as u8,
        minute: (minutes % 60) as u8,
    }
}

/// Reading the time of a bar: for intraday periods a packed `u16` date and a `u16`
/// minute of the day; for daily and longer periods a `u32` `YYYYMMDD` date, with the
/// time fixed at the 15:00 close.
pub open spec fn parse_bar_time(s: Seq<u8>, intraday: bool) -> Option<(TdxDateTime, int)> {
    if intraday {
        match parse_u16(s) {
            Some((packed_date, n)) => match parse_u16(s.skip(n)) {
                Some((minutes, m)) => Some((intraday_time(packed_date, minutes), n + m)),
                None => None,
            },
            None => None,
        }
    } else {
        match parse_yyyymmdd(s) {
            Some((date, n)) => Some((TdxDateTime { date, hour: 15, minute: 0 }, n)),
            None => None,
        }
    }
}

/// An intraday bar time reads back as the date and minute it packs: year, month and day
/// packed as `(year - 2004) * 2048 + month * 100 + day`, then the minute of the day,
/// each a little-endian `u16`, decode to that year, month, day, hour and minute.
pub proof fn lemma_intraday_time_decodes(
    year: int,
    month: int,
    day: int,
    minutes: u16,
    rest: Seq<u8>,
)
    requires
        2004 <= year <= 2035,
        1 <= month <= 12,
        1 <= day <= 31,
        minutes < 24 * 60,
    ensures
        parse_bar_time(
            le_u16_bytes(((year - 2004) * 2048 + month * 100 + day) as u16) + le_u16_bytes(minutes)
                + rest,
            true,
        ) == Some(
            (
                TdxDateTime {
                    date: TdxDate { year: year as u16, month: month as u8, day: day as u8 },
                    hour: (minutes / 60) as u8,
                    minute: (minutes % 60) as u8,
                },
                4int,
            ),
        ),
{
    let low = month * 100 + day;
    let packed = ((year - 2004) * 2048 + low) as u16;
    assert(0 <= low < 2048) by (nonlinear_arith)
        requires
            1 <= month <= 12,
            1 <= day <= 31,
            low == month * 100 + day,
    ;
    assert(packed == (year - 2004) * 2048 + low);
    assert(packed / 2048 == year - 2004 && packed % 2048 == low) by (nonlinear_arith)
        requires
            packed == (year - 2004) * 2048 + low,
            0 <= low < 2048,
            0 <= year - 2004,
    ;
    assert(low / 100 == month && low % 100 == day) by (nonlinear_arith)
        requires
            low == month * 100 + day,
            1 <= day <= 31,
    ;
    let tail = le_u16_bytes(minutes) + rest;
    let s = le_u16_bytes(packed) + le_u16_bytes(minutes) + rest;
    assert(s =~= le_u16_bytes(packed) + tail);
    lemma_u16_round_trip(packed, tail);
    assert(s.skip(2) =~= tail);
    lemma_u16_round_trip(minutes, rest);
}

/// A daily bar time reads back as the date its `u32` holds as `YYYYMMDD`, at the 15:00
/// close.
pub proof fn lemma_daily_time_decodes(year: int, month: int, day: int, rest: Seq<u8>)
    requires
        0 <= year <= 9999,
        1 <= month <= 12,
        1 <= day <= 31,
    ensures
        parse_bar_time(le_u32_bytes((year * 10000 + month * 100 + day) as u32) + rest, false)
            == Some(
            (
                TdxDateTime {
                    date: TdxDate { year: year as u16, month: month as u8, day: day as u8 },
                    hour: 15,
                    minute: 0,
                },
                4int,
            ),
        ),
{
    let packed = year * 10000 + month * 100 + day;
    assert(0 <= packed < 100_000_000) by (nonlinear_arith)
        requires
            packed == year * 10000 + month * 100 + day,
            0 <= year <= 9999,
            1 <= month <= 12,
            1 <= day <= 31,
    ;
    assert(packed / 10000 == year && packed / 100 % 100 == month && packed % 100 == day)
        by (nonlinear_arith)
        requires
            packed == year * 10000 + month * 100 + day,
            1 <= month <= 12,
            1 <= day <= 31,
    ;
    lemma_u32_round_trip(packed as u32, rest);
}

impl TdxDateTime {
    /// Reads the time of a bar (see [`parse_bar_time`]).
    pub fn read_bar_time(reader: &mut ByteReader<'_>, intraday: bool) -> (r: Result<
        Self,
        TdxError,
    >)
        ensures
            decoded(*old(reader), *final(reader), parse_bar_time(old(reader).rest(), intraday), r),
            r is Err ==> final(reader).offset() == old(reader).offset() + if intraday && old(
                reader,
            ).rest().len() >= 2 {
                2int
            } else {
                0int
            },
    {
        if intraday {
            let ghost s = reader.rest();
            let packed_date = reader.u16()?;
            proof {
                assert(reader.rest() =~= s.skip(2));
            }
            let minutes = reader.u16()?;
            let month_day = packed_date % 2048;
            Ok(TdxDateTime {
                date: TdxDate {
                    year: packed_date / 2048 + 2004,
                    month: (month_day / 100) as u8,
                    day: (month_day % 100) as u8,
                },
                hour: (minutes / 60 % 256) as u8,
                minute: (minutes % 60) as u8,
            })
        } else {
            let date = TdxDate::read_yyyymmdd(reader)?;
            Ok(TdxDateTime { date, hour: 15, minute: 0 })
        }
    }
}

} // verus!

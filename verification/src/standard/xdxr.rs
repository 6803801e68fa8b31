//! Ex-rights and ex-dividend records, and share capital changes.
use vstd::prelude::*;

use super::{market_code, Market, Standard};
use crate::error::TdxError;
use crate::request::Request;
use crate::types::{date_from_yyyymmdd, parse_yyyymmdd, SecurityCode, TdxDate};
use crate::wire::{
    after, decoded, decoded_all, le_u16_bytes, le_u32_value, lemma_parse_fields_step, parse_field,
    parse_fields, parse_u16, ByteReader, ByteWriter, Field,
};

verus! {

/// The ex-rights, ex-dividend and share capital records of a security.
#[derive(Clone, Debug)]
pub struct XdxrInfo {
    pub market: Market,
    pub code: SecurityCode,
}

/// The 16-byte detail of a record, interpreted by category. Every number is the bit
/// pattern of an IEEE-754 single-precision value.
#[derive(Clone, Copy, Debug, PartialEq, Eq)]
pub enum XdxrPayload {
    /// Category 1; all amounts are per 10 shares.
    Dividend { cash: u32, rights_price: u32, bonus_shares: u32, rights_shares: u32 },
    /// Categories 11 and 12.
    Consolidation { ratio: u32 },
    /// Categories 13 and 14.
    Warrant { exercise_price: u32, shares: u32 },
    /// Every other category: tradable and total shares before and after the change.
    ShareChange { float_before: u32, total_before: u32, float_after: u32, total_after: u32 },
}

/// One record.
#[derive(Clone, Copy, Debug, PartialEq, Eq)]
pub struct XdxrRecord {
    pub date: TdxDate,
    /// The protocol's category: 1 ex-rights/ex-dividend, 2 bonus/rights shares listed,
    /// 3 non-tradable shares listed, 4 unknown capital change, 5 capital change,
    /// 6 new issue, 7 buyback, 8 new issue listed, 9 transferred rights shares listed,
    /// 10 convertible bonds listed, 11 share consolidation or split, 12 non-tradable
    /// shares consolidated, 13 call warrants, 14 put warrants.
    pub category: u8,
    pub detail: XdxrPayload,
}

/// The request body for records.
pub open spec fn xdxr_request_body(market: Market, code: Seq<u8>) -> Seq<u8> {
    le_u16_bytes(1) + seq![market_code(market)] + code
}

/// The detail that category `category` gives the four 32-bit words `w0`..`w3`.
pub open spec fn xdxr_payload(category: u8, w0: u32, w1: u32, w2: u32, w3: u32) -> XdxrPayload {
    if category == 1 {
        XdxrPayload::Dividend { cash: w0, rights_price: w1, bonus_shares: w2, rights_shares: w3 }
    } else if category == 11 || category == 12 {
        XdxrPayload::Consolidation { ratio: w2 }
    } else if category == 13 || category == 14 {
        XdxrPayload::Warrant { exercise_price: w0, shares: w2 }
    } else {
        XdxrPayload::ShareChange {
            float_before: w0,
            total_before: w1,
            float_after: w2,
            total_after: w3,
        }
    }
}

/// The fields of a record after its date: the category and four 32-bit words.
pub open spec fn xdxr_fields() -> Seq<Field> {
    seq![Field::U8, Field::U32, Field::U32, Field::U32, Field::U32]
}

/// Reading one record: 8 bytes of market, code and a reserved byte, a `YYYYMMDD` date,
/// then the fields of [`xdxr_fields`].
pub open spec fn parse_xdxr_record(s: Seq<u8>) -> Option<(XdxrRecord, int)> {
    if s.len() < 8 {
        None
    } else {
        match parse_yyyymmdd(s.skip(8)) {
            Some((date, n)) => match parse_fields(xdxr_fields(), s.skip(8 + n)) {
                Some((v, m)) => Some(
                    (
                        XdxrRecord {
                            date,
                            category: v[0] as u8,
                            detail: xdxr_payload(
                                v[0] as u8,
                                v[1] as u32,
                                v[2] as u32,
                                v[3] as u32,
                                v[4] as u32,
                            ),
                        },
                        8 + n + m,
                    ),
                ),
                None => None,
            },
            None => None,
        }
    }
}

/// A record is 29 bytes: market, code and a reserved byte, the `YYYYMMDD` date, the
/// category byte, then four little-endian 32-bit words. Category 1 carries cash, rights
/// price, bonus shares and rights shares in words 0 to 3; categories 11 and 12 the
/// ratio in word 2; categories 13 and 14 the exercise price in word 0 and the shares in
/// word 2; every other category the tradable and total shares before the change in
/// words 0 and 1 and after it in words 2 and 3.
pub proof fn lemma_xdxr_record_layout(s: Seq<u8>)
    requires
        s.len() >= 29,
    ensures
        parse_xdxr_record(s) matches Some((record, n)) && {
            let w0 = le_u32_value(s.skip(13)) as u32;
            let w1 = le_u32_value(s.skip(17)) as u32;
            let w2 = le_u32_value(s.skip(21)) as u32;
            let w3 = le_u32_value(s.skip(25)) as u32;
            &&& n == 29
            &&& record.date == date_from_yyyymmdd(le_u32_value(s.skip(8)) as u32)
            &&& record.category == s[12]
            &&& s[12] == 1 ==> record.detail == (XdxrPayload::Dividend {
                cash: w0,
                rights_price: w1,
                bonus_shares: w2,
                rights_shares: w3,
            })
            &&& (s[12] == 11 || s[12] == 12) ==> record.detail == (XdxrPayload::Consolidation {
                ratio: w2,
            })
            &&& (s[12] == 13 || s[12] == 14) ==> record.detail == (XdxrPayload::Warrant {
                exercise_price: w0,
                shares: w2,
            })
            &&& (s[12] != 1 && s[12] != 11 && s[12] != 12 && s[12] != 13 && s[12] != 14)
                ==> record.detail == (XdxrPayload::ShareChange {
                float_before: w0,
                total_before: w1,
                float_after: w2,
                total_after: w3,
            })
        },
{
    let t0 = s.skip(12);
    let l0 = xdxr_fields();
    let l1 = l0.skip(1);
    let l2 = l1.skip(1);
    let l3 = l2.skip(1);
    let l4 = l3.skip(1);
    assert(l1 =~= seq![Field::U32, Field::U32, Field::U32, Field::U32]);
    assert(l2 =~= seq![Field::U32, Field::U32, Field::U32]);
    assert(l3 =~= seq![Field::U32, Field::U32]);
    assert(l4 =~= seq![Field::U32]);
    assert(l4.skip(1) =~= Seq::<Field>::empty());
    assert(t0.skip(1) =~= s.skip(13));
    assert(s.skip(13).skip(4) =~= s.skip(17));
    assert(s.skip(17).skip(4) =~= s.skip(21));
    assert(s.skip(21).skip(4) =~= s.skip(25));
    assert(s.skip(8).skip(4) =~= t0);
    let w0 = le_u32_value(s.skip(13)) as u32;
    let w1 = le_u32_value(s.skip(17)) as u32;
    let w2 = le_u32_value(s.skip(21)) as u32;
    let w3 = le_u32_value(s.skip(25)) as u32;
    assert(parse_field(l4[0], s.skip(25)) == Some((w3 as i64, 4int)));
    lemma_parse_fields_step(l4, s.skip(25), w3 as i64, 4);
    let r4 = seq![w3 as i64];
    assert(parse_fields(l4, s.skip(25)) == Some((r4, 4int))) by {
        assert(seq![w3 as i64] + Seq::<i64>::empty() =~= r4);
    }
    assert(parse_field(l3[0], s.skip(21)) == Some((w2 as i64, 4int)));
    lemma_parse_fields_step(l3, s.skip(21), w2 as i64, 4);
    let r3 = seq![w2 as i64] + r4;
    assert(parse_field(l2[0], s.skip(17)) == Some((w1 as i64, 4int)));
    lemma_parse_fields_step(l2, s.skip(17), w1 as i64, 4);
    let r2 = seq![w1 as i64] + r3;
    assert(parse_field(l1[0], s.skip(13)) == Some((w0 as i64, 4int)));
    lemma_parse_fields_step(l1, s.skip(13), w0 as i64, 4);
    let r1 = seq![w0 as i64] + r2;
    assert(parse_field(l0[0], t0) == Some((s[12] as i64, 1int)));
    lemma_parse_fields_step(l0, t0, s[12] as i64, 1);
    let v = seq![s[12] as i64] + r1;
    assert(parse_fields(l0, t0) == Some((v, 17int)));
    assert(v[0] == s[12] && v[1] == w0 && v[2] == w1 && v[3] == w2 && v[4] == w3);
}

/// Reading `count` records one after another.
pub open spec fn parse_xdxr_rows(s: Seq<u8>, count: nat) -> Option<(Seq<XdxrRecord>, int)>
    decreases count,
{
    if count == 0 {
        Some((Seq::empty(), 0))
    } else {
        match parse_xdxr_record(s) {
            Some((row, n)) => match parse_xdxr_rows(s.skip(n), (count - 1) as nat) {
                Some((rows, m)) => Some((seq![row] + rows, n + m)),
                None => None,
            },
            None => None,
        }
    }
}

/// Reading a record response. With no records the server only echoes the request
/// header, so fewer than 11 bytes mean no records and nothing is consumed; otherwise 9
/// echoed bytes, a `u16` count and that many records follow.
pub open spec fn parse_xdxr(s: Seq<u8>) -> Option<(Seq<XdxrRecord>, int)> {
    if s.len() < 11 {
        Some((Seq::empty(), 0))
    } else {
        match parse_u16(s.skip(9)) {
            Some((count, n)) => match parse_xdxr_rows(s.skip(9 + n), count as nat) {
                Some((rows, m)) => Some((rows, 9 + n + m)),
                None => None,
            },
            None => None,
        }
    }
}

/// Reads one record (see [`parse_xdxr_record`]).
fn decode_record(body: &mut ByteReader<'_>) -> (r: Result<XdxrRecord, TdxError>)
    ensures
        decoded(*old(body), *final(body), parse_xdxr_record(old(body).rest()), r),
{
    let ghost s = body.rest();
    let ghost start = body.offset();
    body.skip(8)?;
    proof {
        assert(body.rest() =~= s.skip(8));
    }
    let date = TdxDate::read_yyyymmdd(body)?;
    proof {
        assert(body.rest() =~= s.skip(12));
        assert(s.skip(8).skip(4) =~= s.skip(12));
    }
    let layout = [Field::U8, Field::U32, Field::U32, Field::U32, Field::U32];
    proof {
        assert(layout@ =~= xdxr_fields());
    }
    let v = body.fields(&layout)?;
    let category = v[0] as u8;
    let w0 = v[1] as u32;
    let w1 = v[2] as u32;
    let w2 = v[3] as u32;
    let w3 = v[4] as u32;
    let detail = if category == 1 {
        XdxrPayload::Dividend { cash: w0, rights_price: w1, bonus_shares: w2, rights_shares: w3 }
    } else if category == 11 || category == 12 {
        XdxrPayload::Consolidation { ratio: w2 }
    } else if category == 13 || category == 14 {
        XdxrPayload::Warrant { exercise_price: w0, shares: w2 }
    } else {
        XdxrPayload::ShareChange {
            float_before: w0,
            total_before: w1,
            float_after: w2,
            total_after: w3,
        }
    };
    Ok(XdxrRecord { date, category, detail })
}

/// One more record read: the records still to come start after it.
proof fn lemma_xdxr_rows_advance(
    rest: Seq<u8>,
    count: nat,
    prefix: Seq<XdxrRecord>,
    consumed: int,
    row: XdxrRecord,
    n: int,
)
    requires
        count > 0,
        parse_xdxr_record(rest) == Some((row, n)),
    ensures
        after(prefix, consumed, parse_xdxr_rows(rest, count)) == after(
            prefix.push(row),
            consumed + n,
            parse_xdxr_rows(rest.skip(n), (count - 1) as nat),
        ),
{
    match parse_xdxr_rows(rest.skip(n), (count - 1) as nat) {
        Some((rows, m)) => {
            assert(prefix.push(row) + rows =~= prefix + (seq![row] + rows));
        },
        None => {},
    }
}

impl Request for XdxrInfo {
    type Dialect = Standard;

    type Response = Vec<XdxrRecord>;

    const COMMAND: u16 = 0x000f;

    /// Writes the record request.
    fn encode(&self, body: &mut ByteWriter) -> (r: Result<(), TdxError>)
        ensures
            r is Ok,
            final(body)@ == old(body)@ + xdxr_request_body(self.market, self.code@),
    {
        body.u16(1);
        body.u8(self.market.code());
        body.bytes(self.code.as_bytes());
        proof {
            assert(body@ =~= old(body)@ + xdxr_request_body(self.market, self.code@));
        }
        Ok(())
    }

    /// Reads the records of the response (see [`parse_xdxr`]).
    fn decode(&self, body: &mut ByteReader<'_>) -> (r: Result<Vec<XdxrRecord>, TdxError>)
        ensures
            decoded_all(*old(body), *final(body), parse_xdxr(old(body).rest()), r),
    {
        let ghost s = body.rest();
        let ghost start = body.offset();
        if body.remaining() < 11 {
            return Ok(Vec::new());
        }
        body.skip(9)?;
        proof {
            assert(body.rest() =~= s.skip(9));
        }
        let count = body.u16()?;
        let mut rows: Vec<XdxrRecord> = Vec::new();
        proof {
            assert(body.rest() =~= s.skip(11));
            assert(s.skip(9).skip(2) =~= s.skip(11));
            match parse_xdxr_rows(body.rest(), count as nat) {
                Some((vs, m)) => {
                    assert(rows@ + vs =~= vs);
                },
                None => {},
            }
        }
        for i in 0..count
            invariant
                old(body).in_bounds(),
                body.in_bounds(),
                s == old(body).rest(),
                start == old(body).offset(),
                body.input() == old(body).input(),
                body.offset() >= start,
                body.rest() == s.skip(body.offset() - start),
                parse_xdxr(s) == after(
                    rows@,
                    body.offset() - start,
                    parse_xdxr_rows(body.rest(), (count - i) as nat),
                ),
        {
            let ghost before = body.rest();
            let ghost before_offset = body.offset();
            let row = match decode_record(body) {
                Ok(row) => row,
                Err(error) => {
                    proof {
                        assert(parse_xdxr_record(before) is None);
                        assert(parse_xdxr_rows(before, (count - i) as nat) is None);
                    }
                    return Err(error);
                },
            };
            proof {
                let n = body.offset() - before_offset;
                assert(body.rest() =~= before.skip(n));
                assert(body.rest() =~= s.skip(body.offset() - start));
                lemma_xdxr_rows_advance(before, (count - i) as nat, rows@, before_offset - start, row, n);
            }
            rows.push(row);
        }
        proof {
            assert(rows@ + Seq::<XdxrRecord>::empty() =~= rows@);
        }
        Ok(rows)
    }
}

} // verus!

//! Tick-by-tick transactions of the current day.
use vstd::prelude::*;
use vstd::string::StringExecFns;

use super::{market_code, Market, Standard};
use crate::error::TdxError;
use crate::request::Request;
use crate::types::SecurityCode;
use crate::wire::{
    after, decoded_all, le_u16_bytes, lemma_u16_field_step, lemma_u8_field_step,
    lemma_varint_field_step, parse_fields, parse_u16, shift, shifted, varint_encoding,
    ByteReader, ByteWriter, Field,
};

verus! {

/// Tick-by-tick transactions of the current day; `offset = 0` starts at the newest page.
#[derive(Clone, Debug)]
pub struct Transactions {
    pub market: Market,
    pub code: SecurityCode,
    pub offset: u16,
    pub count: u16,
}

/// One transaction record.
#[derive(Clone, Copy, Debug, PartialEq, Eq)]
pub struct Transaction {
    /// Minutes since 00:00 Beijing time; the standard server gives no seconds.
    pub minute: u16,
    /// The raw integer price: cents for stocks, thousandths for ETFs.
    pub price: i64,
    /// Volume, in lots.
    pub volume: i64,
    /// How many trades the record aggregates.
    pub transaction_count: i64,
    /// 0 buyer-initiated, 1 seller-initiated, anything else unknown.
    pub buy_or_sell: u8,
    pub unknown: u8,
}

/// The request body for transactions.
pub open spec fn transactions_request_body(
    market: Market,
    code: Seq<u8>,
    offset: u16,
    count: u16,
) -> Seq<u8> {
    seq![market_code(market), 0u8] + code + le_u16_bytes(offset) + le_u16_bytes(count)
}

/// The fields of a transaction record: minute, price, volume, count, direction and an
/// unknown byte.
pub open spec fn transaction_fields() -> Seq<Field> {
    seq![Field::U16, Field::Varint, Field::Varint, Field::Varint, Field::U8, Field::U8]
}

/// Whether a decoded record is plausible: a minute within the day, a positive price and
/// no negative volume or count.
pub open spec fn transaction_valid(minute: int, price: int, volume: int, count: int) -> bool {
    &&& minute < 24 * 60
    &&& price > 0
    &&& volume >= 0
    &&& count >= 0
}

/// Reading one record. The first record carries its price; each later one the
/// difference from the price of the record before. An implausible record fails.
pub open spec fn parse_transaction(s: Seq<u8>, first: bool, previous_price: i64) -> Option<
    (Transaction, int),
> {
    match parse_fields(transaction_fields(), s) {
        Some((v, n)) => {
            let price = if first {
                v[1]
            } else {
                shifted(previous_price, v[1])
            };
            if transaction_valid(v[0] as int, price as int, v[2] as int, v[3] as int) {
                Some(
                    (
                        Transaction {
                            minute: v[0] as u16,
                            price,
                            volume: v[2],
                            transaction_count: v[3],
                            buy_or_sell: v[4] as u8,
                            unknown: v[5] as u8,
                        },
                        n,
                    ),
                )
            } else {
                None
            }
        },
        None => None,
    }
}

/// A record reads back field for field: the minute as a little-endian `u16`, then the
/// price (or its difference from the record before), the volume and the trade count as
/// variable-length integers, then the direction byte and one more byte. The decoded
/// record holds each of them in its own place, the price made absolute, and a record is
/// refused exactly when it is implausible.
pub proof fn lemma_transaction_fields_in_order(
    minute: u16,
    price: i64,
    volume: i64,
    count: i64,
    direction: u8,
    unknown: u8,
    first: bool,
    previous_price: i64,
    rest: Seq<u8>,
)
    ensures
        ({
            let s = le_u16_bytes(minute) + varint_encoding(price) + varint_encoding(volume)
                + varint_encoding(count) + seq![direction, unknown] + rest;
            let absolute = if first {
                price
            } else {
                shifted(previous_price, price)
            };
            let n = (4 + varint_encoding(price).len() + varint_encoding(volume).len()
                + varint_encoding(count).len()) as int;
            parse_transaction(s, first, previous_price) == if transaction_valid(
                minute as int,
                absolute as int,
                volume as int,
                count as int,
            ) {
                Some(
                    (
                        Transaction {
                            minute,
                            price: absolute,
                            volume,
                            transaction_count: count,
                            buy_or_sell: direction,
                            unknown,
                        },
                        n,
                    ),
                )
            } else {
                None
            }
        }),
{
    let s = le_u16_bytes(minute) + varint_encoding(price) + varint_encoding(volume)
        + varint_encoding(count) + seq![direction, unknown] + rest;
    assert(s =~= le_u16_bytes(minute) + (varint_encoding(price) + (varint_encoding(volume) + (
    varint_encoding(count) + (seq![direction] + (seq![unknown] + rest))))));
    lemma_transaction_record_fields(minute, price, volume, count, direction, unknown, rest);
}

/// The fields that a record's encoding reads back as.
proof fn lemma_transaction_record_fields(
    minute: u16,
    price: i64,
    volume: i64,
    count: i64,
    direction: u8,
    unknown: u8,
    rest: Seq<u8>,
)
    ensures
        parse_fields(
            transaction_fields(),
            le_u16_bytes(minute) + (varint_encoding(price) + (varint_encoding(volume) + (
            varint_encoding(count) + (seq![direction] + (seq![unknown] + rest))))),
        ) == Some(
            (
                seq![minute as i64, price, volume, count, direction as i64, unknown as i64],
                (4 + varint_encoding(price).len() + varint_encoding(volume).len()
                    + varint_encoding(count).len()) as int,
            ),
        ),
{
    let e1 = varint_encoding(price);
    let e2 = varint_encoding(volume);
    let e3 = varint_encoding(count);
    let t5 = seq![direction] + (seq![unknown] + rest);
    let t4 = e3 + t5;
    let t3 = e2 + t4;
    let t2 = e1 + t3;
    let l0 = transaction_fields();
    let l1 = l0.skip(1);
    let l2 = l1.skip(1);
    let l3 = l2.skip(1);
    let l4 = l3.skip(1);
    let l5 = l4.skip(1);
    assert(l1 =~= seq![Field::Varint, Field::Varint, Field::Varint, Field::U8, Field::U8]);
    assert(l2 =~= seq![Field::Varint, Field::Varint, Field::U8, Field::U8]);
    assert(l3 =~= seq![Field::Varint, Field::U8, Field::U8]);
    assert(l4 =~= seq![Field::U8, Field::U8]);
    assert(l5 =~= seq![Field::U8]);
    assert(l5.skip(1) =~= Seq::<Field>::empty());
    let r5 = seq![unknown as i64];
    assert(parse_fields(l5, seq![unknown] + rest) == Some((r5, 1int))) by {
        lemma_u8_field_step(l5, unknown, rest);
        assert(seq![unknown as i64] + Seq::<i64>::empty() =~= r5);
    }
    let r4 = seq![direction as i64] + r5;
    assert(parse_fields(l4, t5) == Some((r4, 2int))) by {
        lemma_u8_field_step(l4, direction, seq![unknown] + rest);
    }
    let r3 = seq![count] + r4;
    assert(parse_fields(l3, t4) == Some((r3, (e3.len() + 2) as int))) by {
        lemma_varint_field_step(l3, count, t5);
    }
    let r2 = seq![volume] + r3;
    assert(parse_fields(l2, t3) == Some((r2, (e2.len() + e3.len() + 2) as int))) by {
        lemma_varint_field_step(l2, volume, t4);
    }
    let r1 = seq![price] + r2;
    assert(parse_fields(l1, t2) == Some((r1, (e1.len() + e2.len() + e3.len() + 2) as int))) by {
        lemma_varint_field_step(l1, price, t3);
    }
    lemma_u16_field_step(l0, minute, t2);
    assert(seq![minute as i64] + r1 =~= seq![
        minute as i64,
        price,
        volume,
        count,
        direction as i64,
        unknown as i64,
    ]);
}

/// Reading `count` records, prices chained as in [`parse_transaction`].
pub open spec fn parse_transaction_rows(
    s: Seq<u8>,
    first: bool,
    previous_price: i64,
    count: nat,
) -> Option<(Seq<Transaction>, int)>
    decreases count,
{
    if count == 0 {
        Some((Seq::empty(), 0))
    } else {
        match parse_transaction(s, first, previous_price) {
            Some((row, n)) => match parse_transaction_rows(
                s.skip(n),
                false,
                row.price,
                (count - 1) as nat,
            ) {
                Some((rows, m)) => Some((seq![row] + rows, n + m)),
                None => None,
            },
            None => None,
        }
    }
}

/// Reading a transaction response: a `u16` count, then that many records.
pub open spec fn parse_transactions(s: Seq<u8>) -> Option<(Seq<Transaction>, int)> {
    match parse_u16(s) {
        Some((count, n)) => match parse_transaction_rows(s.skip(n), true, 0, count as nat) {
            Some((rows, m)) => Some((rows, n + m)),
            None => None,
        },
        None => None,
    }
}

/// Every record of a decoded transaction response is plausible: its minute lies within
/// the day, its price is positive, its volume and count are not negative.
pub proof fn lemma_decoded_transactions_valid(s: Seq<u8>, first: bool, previous_price: i64, count: nat)
    ensures
        parse_transaction_rows(s, first, previous_price, count) matches Some((rows, _)) ==> forall|
            i: int,
        |
            0 <= i < rows.len() ==> transaction_valid(
                #[trigger] rows[i].minute as int,
                rows[i].price as int,
                rows[i].volume as int,
                rows[i].transaction_count as int,
            ),
    decreases count,
{
    if count > 0 {
        match parse_transaction(s, first, previous_price) {
            Some((row, n)) => {
                lemma_decoded_transactions_valid(s.skip(n), false, row.price, (count - 1) as nat);
                match parse_transaction_rows(s.skip(n), false, row.price, (count - 1) as nat) {
                    Some((rows, m)) => {
                        let all = seq![row] + rows;
                        assert forall|i: int| 0 <= i < all.len() implies transaction_valid(
                            #[trigger] all[i].minute as int,
                            all[i].price as int,
                            all[i].volume as int,
                            all[i].transaction_count as int,
                        ) by {
                            if i > 0 {
                                assert(all[i] == rows[i - 1]);
                            }
                        }
                    },
                    None => {},
                }
            },
            None => {},
        }
    }
}

/// One more record read: the records still to come start after it.
proof fn lemma_transaction_rows_advance(
    rest: Seq<u8>,
    first: bool,
    previous_price: i64,
    count: nat,
    prefix: Seq<Transaction>,
    consumed: int,
    row: Transaction,
    n: int,
)
    requires
        count > 0,
        parse_transaction(rest, first, previous_price) == Some((row, n)),
    ensures
        after(prefix, consumed, parse_transaction_rows(rest, first, previous_price, count))
            == after(
            prefix.push(row),
            consumed + n,
            parse_transaction_rows(rest.skip(n), false, row.price, (count - 1) as nat),
        ),
{
    match parse_transaction_rows(rest.skip(n), false, row.price, (count - 1) as nat) {
        Some((rows, m)) => {
            assert(prefix.push(row) + rows =~= prefix + (seq![row] + rows));
        },
        None => {},
    }
}

impl Request for Transactions {
    type Dialect = Standard;

    type Response = Vec<Transaction>;

    const COMMAND: u16 = 0x0fc5;

    /// Writes the transaction request; a count of 0 is an invalid argument and writes
    /// nothing.
    fn encode(&self, body: &mut ByteWriter) -> (r: Result<(), TdxError>)
        ensures
            self.count > 0 ==> r is Ok && final(body)@ == old(body)@ + transactions_request_body(
                self.market,
                self.code@,
                self.offset,
                self.count,
            ),
            self.count == 0 ==> (r matches Err(TdxError::InvalidArgument(_)) && final(body)@
                == old(body)@),
    {
        if self.count == 0 {
            return Err(
                TdxError::InvalidArgument(
                    String::from_str("transaction request count must be positive"),
                ),
            );
        }
        body.u8(self.market.code());
        body.u8(0);
        body.bytes(self.code.as_bytes());
        body.u16(self.offset);
        body.u16(self.count);
        proof {
            assert(body@ =~= old(body)@ + transactions_request_body(
                self.market,
                self.code@,
                self.offset,
                self.count,
            ));
        }
        Ok(())
    }

    /// Reads the records of the response (see [`parse_transactions`]).
    fn decode(&self, body: &mut ByteReader<'_>) -> (r: Result<Vec<Transaction>, TdxError>)
        ensures
            decoded_all(*old(body), *final(body), parse_transactions(old(body).rest()), r),
    {
        let ghost s = body.rest();
        let ghost start = body.offset();
        let count = body.u16()?;
        let mut previous_price: i64 = 0;
        let mut rows: Vec<Transaction> = Vec::new();
        proof {
            assert(body.rest() =~= s.skip(2));
            match parse_transaction_rows(body.rest(), true, 0, count as nat) {
                Some((vs, m)) => {
                    assert(rows@ + vs =~= vs);
                },
                None => {},
            }
        }
        let layout = [Field::U16, Field::Varint, Field::Varint, Field::Varint, Field::U8, Field::U8];
        proof {
            assert(layout@ =~= transaction_fields());
        }
        for index in 0..count
            invariant
                old(body).in_bounds(),
                body.in_bounds(),
                s == old(body).rest(),
                start == old(body).offset(),
                body.input() == old(body).input(),
                body.offset() >= start,
                body.rest() == s.skip(body.offset() - start),
                layout@ == transaction_fields(),
                parse_transactions(s) == after(
                    rows@,
                    body.offset() - start,
                    parse_transaction_rows(
                        body.rest(),
                        index == 0,
                        previous_price,
                        (count - index) as nat,
                    ),
                ),
        {
            let ghost before = body.rest();
            let ghost before_offset = body.offset();
            let ghost first = index == 0;
            let ghost previous = previous_price;
            let v = match body.fields(&layout) {
                Ok(v) => v,
                Err(error) => {
                    proof {
                        assert(parse_transaction(before, first, previous) is None);
                    }
                    return Err(error);
                },
            };
            let price = if index == 0 {
                v[1]
            } else {
                shift(previous_price, v[1])
            };
            let minute = v[0];
            let volume = v[2];
            let transaction_count = v[3];
            if minute >= 24 * 60 || price <= 0 || volume < 0 || transaction_count < 0 {
                let mut text = String::from_str("invalid transaction row minute=");
                text.append(minute.to_string().as_str());
                text.append(" price=");
                text.append(price.to_string().as_str());
                text.append(" volume=");
                text.append(volume.to_string().as_str());
                text.append(" count=");
                text.append(transaction_count.to_string().as_str());
                proof {
                    assert(parse_transaction(before, first, previous) is None);
                }
                return Err(TdxError::Decode(text));
            }
            let row = Transaction {
                minute: minute as u16,
                price,
                volume,
                transaction_count,
                buy_or_sell: v[4] as u8,
                unknown: v[5] as u8,
            };
            proof {
                let n = body.offset() - before_offset;
                assert(parse_transaction(before, first, previous) == Some((row, n)));
                assert(body.rest() =~= before.skip(n));
                assert(body.rest() =~= s.skip(body.offset() - start));
                lemma_transaction_rows_advance(
                    before,
                    first,
                    previous,
                    (count - index) as nat,
                    rows@,
                    before_offset - start,
                    row,
                    n,
                );
            }
            rows.push(row);
            previous_price = price;
        }
        proof {
            assert(rows@ + Seq::<Transaction>::empty() =~= rows@);
        }
        Ok(rows)
    }
}

} // verus!

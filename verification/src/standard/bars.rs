//! K-line (bar) commands.
use vstd::prelude::*;
use vstd::string::StringExecFns;

use super::{market_code, Market, Standard};
use crate::error::TdxError;
use crate::request::Request;
use crate::types::{parse_bar_time, SecurityCode, TdxDateTime};
use crate::wire::{
    after, decoded, decoded_all, le_u16_bytes, le_u16_value, le_u32_bytes, lemma_parse_fields_step,
    parse_field, parse_fields, parse_u16, shift, shifted, ByteReader, ByteWriter, Field,
};

verus! {

/// The most bars one request may ask for; page further with `offset`.
pub const MAX_BARS_PER_REQUEST: u16 = 800;

/// The period of a bar; the wire carries it as a number.
#[derive(Clone, Copy, Debug, PartialEq, Eq, Hash)]
pub enum BarPeriod {
    Minute1,
    Minute5,
    Minute15,
    Minute30,
    Minute60,
    Day,
    Week,
    Month,
}

/// The number that stands for `period` on the wire.
pub open spec fn period_code(period: BarPeriod) -> u16 {
    match period {
        BarPeriod::Minute5 => 0,
        BarPeriod::Minute15 => 1,
        BarPeriod::Minute30 => 2,
        BarPeriod::Minute60 => 3,
        BarPeriod::Week => 5,
        BarPeriod::Month => 6,
        BarPeriod::Minute1 => 7,
        BarPeriod::Day => 9,
    }
}

/// Whether bars of `period` carry a time of day (minute periods) or only a date.
pub open spec fn period_is_intraday(period: BarPeriod) -> bool {
    match period {
        BarPeriod::Minute1 | BarPeriod::Minute5 | BarPeriod::Minute15 | BarPeriod::Minute30
        | BarPeriod::Minute60 => true,
        _ => false,
    }
}

impl BarPeriod {
    /// The number that stands for this period on the wire.
    pub fn code(self) -> (code: u16)
        ensures
            code == period_code(self),
    {
        match self {
            BarPeriod::Minute5 => 0,
            BarPeriod::Minute15 => 1,
            BarPeriod::Minute30 => 2,
            BarPeriod::Minute60 => 3,
            BarPeriod::Week => 5,
            BarPeriod::Month => 6,
            BarPeriod::Minute1 => 7,
            BarPeriod::Day => 9,
        }
    }

    /// Minute periods carry a time of day; daily and longer ones only a date.
    pub fn is_intraday(self) -> (intraday: bool)
        ensures
            intraday == period_is_intraday(self),
    {
        match self {
            BarPeriod::Minute1 | BarPeriod::Minute5 | BarPeriod::Minute15 | BarPeriod::Minute30
            | BarPeriod::Minute60 => true,
            _ => false,
        }
    }
}

/// One bar as the wire carries it. Prices are absolute, in thousandths of a yuan;
/// `volume` (lots for daily and longer periods, shares for minute periods) and `amount`
/// are the bit patterns of IEEE-754 single-precision numbers.
#[derive(Clone, Copy, Debug, PartialEq, Eq)]
pub struct BarRecord {
    pub time: TdxDateTime,
    pub open: i64,
    pub high: i64,
    pub low: i64,
    pub close: i64,
    pub volume: u32,
    pub amount: u32,
}

/// An index bar: a bar and the numbers of advancing and declining constituents.
#[derive(Clone, Copy, Debug, PartialEq, Eq)]
pub struct IndexBarRecord {
    pub bar: BarRecord,
    pub advancers: u16,
    pub decliners: u16,
}

/// Bars of a stock, ETF or similar security: `count` bars, starting `offset` bars back
/// from the newest.
#[derive(Clone, Debug)]
pub struct SecurityBars {
    pub market: Market,
    pub code: SecurityCode,
    pub period: BarPeriod,
    pub offset: u16,
    pub count: u16,
}

/// Bars of an index. The request is that of [`SecurityBars`]; each bar of the response
/// carries 4 more bytes of advancers and decliners.
#[derive(Clone, Debug)]
pub struct IndexBars {
    pub market: Market,
    pub code: SecurityCode,
    pub period: BarPeriod,
    pub offset: u16,
    pub count: u16,
}

impl Request for SecurityBars {
    type Dialect = Standard;

    type Response = Vec<BarRecord>;

    const COMMAND: u16 = 0x052d;

    /// Writes the bar request; a count outside `1..=800` is an invalid argument.
    fn encode(&self, body: &mut ByteWriter) -> (r: Result<(), TdxError>)
        ensures
            bar_count_allowed(self.count) ==> r is Ok && final(body)@ == old(body)@
                + bars_request_body(self.market, self.code@, self.period, self.offset, self.count),
            !bar_count_allowed(self.count) ==> (r matches Err(TdxError::InvalidArgument(_))
                && final(body)@ == old(body)@),
    {
        encode_bars_request(body, self.market, &self.code, self.period, self.offset, self.count)
    }

    /// Reads the bars of the response (see [`parse_security_bars`]).
    fn decode(&self, body: &mut ByteReader<'_>) -> (r: Result<Vec<BarRecord>, TdxError>)
        ensures
            decoded_all(
                *old(body),
                *final(body),
                parse_security_bars(old(body).rest(), period_is_intraday(self.period)),
                r,
            ),
    {
        let ghost s = body.rest();
        let ghost start = body.offset();
        let ghost intraday = period_is_intraday(self.period);
        let count = body.u16()?;
        let mut decoder = BarDecoder::new(self.period);
        let mut bars: Vec<BarRecord> = Vec::new();
        proof {
            assert(body.rest() =~= s.skip(2));
            match parse_bar_rows(body.rest(), intraday, 0, count as nat) {
                Some((vs, m)) => {
                    assert(bars@ + vs =~= vs);
                },
                None => {},
            }
            assert(body.offset() - start == 2);
        }
        for i in 0..count
            invariant
                old(body).in_bounds(),
                body.in_bounds(),
                s == old(body).rest(),
                start == old(body).offset(),
                body.input() == old(body).input(),
                body.offset() >= start,
                body.rest() == s.skip(body.offset() - start),
                decoder.intraday == intraday,
                intraday == period_is_intraday(self.period),
                parse_security_bars(s, intraday) == after(
                    bars@,
                    body.offset() - start,
                    parse_bar_rows(body.rest(), intraday, decoder.previous_close, (count - i) as nat),
                ),
        {
            let ghost before = body.rest();
            let ghost before_offset = body.offset();
            let ghost previous = decoder.previous_close;
            let bar = match decoder.next(body) {
                Ok(bar) => bar,
                Err(error) => {
                    proof {
                        assert(parse_bar(before, intraday, previous) is None);
                        assert(parse_bar_rows(before, intraday, previous, (count - i) as nat) is None);
                    }
                    return Err(error);
                },
            };
            proof {
                let n = body.offset() - before_offset;
                assert(body.rest() =~= before.skip(n));
                assert(body.rest() =~= s.skip(body.offset() - start));
                lemma_bar_rows_advance(
                    before,
                    intraday,
                    previous,
                    (count - i) as nat,
                    bars@,
                    before_offset - start,
                    bar,
                    n,
                );
            }
            bars.push(bar);
        }
        proof {
            assert(bars@ + Seq::<BarRecord>::empty() =~= bars@);
        }
        Ok(bars)
    }
}

impl Request for IndexBars {
    type Dialect = Standard;

    type Response = Vec<IndexBarRecord>;

    const COMMAND: u16 = 0x052d;

    /// Writes the bar request; a count outside `1..=800` is an invalid argument.
    fn encode(&self, body: &mut ByteWriter) -> (r: Result<(), TdxError>)
        ensures
            bar_count_allowed(self.count) ==> r is Ok && final(body)@ == old(body)@
                + bars_request_body(self.market, self.code@, self.period, self.offset, self.count),
            !bar_count_allowed(self.count) ==> (r matches Err(TdxError::InvalidArgument(_))
                && final(body)@ == old(body)@),
    {
        encode_bars_request(body, self.market, &self.code, self.period, self.offset, self.count)
    }

    /// Reads the index bars of the response (see [`parse_index_bars`]).
    fn decode(&self, body: &mut ByteReader<'_>) -> (r: Result<Vec<IndexBarRecord>, TdxError>)
        ensures
            decoded_all(
                *old(body),
                *final(body),
                parse_index_bars(old(body).rest(), period_is_intraday(self.period)),
                r,
            ),
    {
        let ghost s = body.rest();
        let ghost start = body.offset();
        let ghost intraday = period_is_intraday(self.period);
        let count = body.u16()?;
        let mut decoder = BarDecoder::new(self.period);
        let mut rows: Vec<IndexBarRecord> = Vec::new();
        proof {
            assert(body.rest() =~= s.skip(2));
            match parse_index_bar_rows(body.rest(), intraday, 0, count as nat) {
                Some((vs, m)) => {
                    assert(rows@ + vs =~= vs);
                },
                None => {},
            }
            assert(body.offset() - start == 2);
        }
        for i in 0..count
            invariant
                old(body).in_bounds(),
                body.in_bounds(),
                s == old(body).rest(),
                start == old(body).offset(),
                body.input() == old(body).input(),
                body.offset() >= start,
                body.rest() == s.skip(body.offset() - start),
                decoder.intraday == intraday,
                intraday == period_is_intraday(self.period),
                parse_index_bars(s, intraday) == after(
                    rows@,
                    body.offset() - start,
                    parse_index_bar_rows(
                        body.rest(),
                        intraday,
                        decoder.previous_close,
                        (count - i) as nat,
                    ),
                ),
        {
            let ghost before = body.rest();
            let ghost before_offset = body.offset();
            let ghost previous = decoder.previous_close;
            let bar = match decoder.next(body) {
                Ok(bar) => bar,
                Err(error) => {
                    proof {
                        reveal(parse_index_bar);
                        assert(parse_bar(before, intraday, previous) is None);
                        assert(parse_index_bar(before, intraday, previous) is None);
                        assert(parse_index_bar_rows(before, intraday, previous, (count - i) as nat)
                            is None);
                    }
                    return Err(error);
                },
            };
            let ghost middle = body.rest();
            let ghost middle_offset = body.offset();
            proof {
                let n = body.offset() - before_offset;
                assert(parse_bar(before, intraday, previous) == Some((bar, n)));
                assert(body.rest() =~= before.skip(n));
            }
            let layout = [Field::U16, Field::U16];
            proof {
                assert(layout@ =~= seq![Field::U16, Field::U16]);
            }
            let breadth = match body.fields(&layout) {
                Ok(values) => values,
                Err(error) => {
                    proof {
                        let n = middle_offset - before_offset;
                        assert(parse_fields(seq![Field::U16, Field::U16], before.skip(n)) is None);
                        reveal(parse_index_bar);
                        assert(parse_index_bar(before, intraday, previous) is None);
                        assert(parse_index_bar_rows(before, intraday, previous, (count - i) as nat)
                            is None);
                    }
                    return Err(error);
                },
            };
            let row = IndexBarRecord {
                bar,
                advancers: breadth[0] as u16,
                decliners: breadth[1] as u16,
            };
            proof {
                let n = middle_offset - before_offset;
                let m = body.offset() - middle_offset;
                assert(parse_index_bar(before, intraday, previous) == Some((row, n + m))) by {
                    reveal(parse_index_bar);
                    assert(body.rest() =~= middle.skip(m));
                }
                assert(body.rest() =~= before.skip(n + m));
                assert(body.rest() =~= s.skip(body.offset() - start));
                lemma_index_bar_rows_advance(
                    before,
                    intraday,
                    previous,
                    (count - i) as nat,
                    rows@,
                    before_offset - start,
                    row,
                    n + m,
                );
            }
            rows.push(row);
        }
        proof {
            assert(rows@ + Seq::<IndexBarRecord>::empty() =~= rows@);
        }
        Ok(rows)
    }
}

/// The request body for bars.
pub open spec fn bars_request_body(
    market: Market,
    code: Seq<u8>,
    period: BarPeriod,
    offset: u16,
    count: u16,
) -> Seq<u8> {
    le_u16_bytes(market_code(market) as u16) + code + le_u16_bytes(period_code(period))
        + le_u16_bytes(1) + le_u16_bytes(offset) + le_u16_bytes(count) + le_u32_bytes(0)
        + le_u32_bytes(0) + le_u16_bytes(0)
}

/// Whether a bar request may ask for `count` bars.
pub open spec fn bar_count_allowed(count: u16) -> bool {
    1 <= count <= MAX_BARS_PER_REQUEST
}

/// Writes a bar request body; a count outside `1..=800` is an invalid argument and
/// writes nothing.
fn encode_bars_request(
    body: &mut ByteWriter,
    market: Market,
    code: &SecurityCode,
    period: BarPeriod,
    offset: u16,
    count: u16,
) -> (r: Result<(), TdxError>)
    ensures
        bar_count_allowed(count) ==> r is Ok && final(body)@ == old(body)@ + bars_request_body(
            market,
            code@,
            period,
            offset,
            count,
        ),
        !bar_count_allowed(count) ==> (r matches Err(TdxError::InvalidArgument(_))
            && final(body)@ == old(body)@),
{
    if count == 0 || count > MAX_BARS_PER_REQUEST {
        let mut text = String::from_str("bar count must be 1..=800, got ");
        text.append(count.to_string().as_str());
        return Err(TdxError::InvalidArgument(text));
    }
    body.u16(market.code() as u16);
    body.bytes(code.as_bytes());
    body.u16(period.code());
    body.u16(1);
    body.u16(offset);
    body.u16(count);
    body.u32(0);
    body.u32(0);
    body.u16(0);
    proof {
        assert(body@ =~= old(body)@ + bars_request_body(market, code@, period, offset, count));
    }
    Ok(())
}

/// The fields of a bar after its time: the open as a difference from the previous close,
/// the close, high and low as differences from the open, then volume and amount.
pub open spec fn bar_fields() -> Seq<Field> {
    seq![Field::Varint, Field::Varint, Field::Varint, Field::Varint, Field::U32, Field::U32]
}

/// The bar that a time and the fields of [`bar_fields`] describe, given the close of
/// the bar before.
pub open spec fn bar_from(time: TdxDateTime, previous_close: i64, v: Seq<i64>) -> BarRecord {
    let open = shifted(previous_close, v[0]);
    BarRecord {
        time,
        open,
        high: shifted(open, v[2]),
        low: shifted(open, v[3]),
        close: shifted(open, v[1]),
        volume: v[4] as u32,
        amount: v[5] as u32,
    }
}

/// Reading one bar whose prices chain from `previous_close`.
#[verifier::opaque]
pub open spec fn parse_bar(s: Seq<u8>, intraday: bool, previous_close: i64) -> Option<
    (BarRecord, int),
> {
    match parse_bar_time(s, intraday) {
        Some((time, n)) => match parse_fields(bar_fields(), s.skip(n)) {
            Some((v, m)) => Some((bar_from(time, previous_close, v), n + m)),
            None => None,
        },
        None => None,
    }
}

/// Bar prices chain: a bar's open is the close before it plus the first difference read,
/// and its close, high and low are that open plus the next three differences, each sum
/// wrapping around in `i64` (see [`shifted`]). A bar is read exactly when its time and
/// fields are there.
pub proof fn lemma_bar_prices_chain(s: Seq<u8>, intraday: bool, previous_close: i64)
    ensures
        match parse_bar_time(s, intraday) {
            Some((time, k)) => match parse_fields(bar_fields(), s.skip(k)) {
                Some((v, m)) => parse_bar(s, intraday, previous_close) matches Some((bar, n)) && {
                    let open = shifted(previous_close, v[0]);
                    &&& bar.time == time
                    &&& n == k + m
                    &&& bar.open == open
                    &&& bar.close == shifted(open, v[1])
                    &&& bar.high == shifted(open, v[2])
                    &&& bar.low == shifted(open, v[3])
                    &&& bar.volume == v[4] as u32
                    &&& bar.amount == v[5] as u32
                    &&& i64::MIN <= previous_close + v[0] <= i64::MAX ==> bar.open
                        == previous_close + v[0]
                    &&& i64::MIN <= open + v[1] <= i64::MAX ==> bar.close == open + v[1]
                },
                None => parse_bar(s, intraday, previous_close) is None,
            },
            None => parse_bar(s, intraday, previous_close) is None,
        },
{
    reveal(parse_bar);
}

/// Reading `count` bars, the first relative to `previous_close` and each later one to
/// the close of the bar before it.
pub open spec fn parse_bar_rows(s: Seq<u8>, intraday: bool, previous_close: i64, count: nat) -> Option<
    (Seq<BarRecord>, int),
>
    decreases count,
{
    if count == 0 {
        Some((Seq::empty(), 0))
    } else {
        match parse_bar(s, intraday, previous_close) {
            Some((bar, n)) => match parse_bar_rows(s.skip(n), intraday, bar.close, (count - 1) as nat) {
                Some((bars, m)) => Some((seq![bar] + bars, n + m)),
                None => None,
            },
            None => None,
        }
    }
}

/// Reading a bar response: a `u16` count, then that many bars chained from a previous
/// close of 0.
pub open spec fn parse_security_bars(s: Seq<u8>, intraday: bool) -> Option<(Seq<BarRecord>, int)> {
    match parse_u16(s) {
        Some((count, n)) => match parse_bar_rows(s.skip(n), intraday, 0, count as nat) {
            Some((bars, m)) => Some((bars, n + m)),
            None => None,
        },
        None => None,
    }
}

/// Reading one index bar: a bar, then `u16` advancers and decliners.
#[verifier::opaque]
pub open spec fn parse_index_bar(s: Seq<u8>, intraday: bool, previous_close: i64) -> Option<
    (IndexBarRecord, int),
> {
    match parse_bar(s, intraday, previous_close) {
        Some((bar, n)) => match parse_fields(seq![Field::U16, Field::U16], s.skip(n)) {
            Some((v, m)) => Some(
                (IndexBarRecord { bar, advancers: v[0] as u16, decliners: v[1] as u16 }, n + m),
            ),
            None => None,
        },
        None => None,
    }
}

/// An index bar is a bar followed by the number of advancing and then of declining
/// securities, each a little-endian `u16`.
pub proof fn lemma_index_bar_layout(s: Seq<u8>, intraday: bool, previous_close: i64)
    ensures
        match parse_bar(s, intraday, previous_close) {
            Some((bar, n)) => 0 <= n && s.len() >= n + 4 ==> parse_index_bar(s, intraday, previous_close)
                == Some(
                (
                    IndexBarRecord {
                        bar,
                        advancers: le_u16_value(s.skip(n)) as u16,
                        decliners: le_u16_value(s.skip(n + 2)) as u16,
                    },
                    n + 4,
                ),
            ),
            None => parse_index_bar(s, intraday, previous_close) is None,
        },
{
    reveal(parse_index_bar);
    match parse_bar(s, intraday, previous_close) {
        Some((bar, n)) => {
            if 0 <= n && s.len() >= n + 4 {
                let t = s.skip(n);
                let l0 = seq![Field::U16, Field::U16];
                let l1 = l0.skip(1);
                assert(l1 =~= seq![Field::U16]);
                assert(l1.skip(1) =~= Seq::<Field>::empty());
                assert(t.skip(2) =~= s.skip(n + 2));
                let a = le_u16_value(t) as u16;
                let d = le_u16_value(s.skip(n + 2)) as u16;
                assert(parse_field(l1[0], t.skip(2)) == Some((d as i64, 2int)));
                lemma_parse_fields_step(l1, t.skip(2), d as i64, 2);
                assert(parse_fields(l1, t.skip(2)) == Some((seq![d as i64], 2int))) by {
                    assert(seq![d as i64] + Seq::<i64>::empty() =~= seq![d as i64]);
                }
                assert(parse_field(l0[0], t) == Some((a as i64, 2int)));
                lemma_parse_fields_step(l0, t, a as i64, 2);
                assert(seq![a as i64] + seq![d as i64] =~= seq![a as i64, d as i64]);
            }
        },
        None => {},
    }
}

/// Reading `count` index bars chained as in [`parse_bar_rows`].
pub open spec fn parse_index_bar_rows(
    s: Seq<u8>,
    intraday: bool,
    previous_close: i64,
    count: nat,
) -> Option<(Seq<IndexBarRecord>, int)>
    decreases count,
{
    if count == 0 {
        Some((Seq::empty(), 0))
    } else {
        match parse_index_bar(s, intraday, previous_close) {
            Some((row, n)) => match parse_index_bar_rows(
                s.skip(n),
                intraday,
                row.bar.close,
                (count - 1) as nat,
            ) {
                Some((rows, m)) => Some((seq![row] + rows, n + m)),
                None => None,
            },
            None => None,
        }
    }
}

/// Reading an index bar response: a `u16` count, then that many index bars.
pub open spec fn parse_index_bars(s: Seq<u8>, intraday: bool) -> Option<(Seq<IndexBarRecord>, int)> {
    match parse_u16(s) {
        Some((count, n)) => match parse_index_bar_rows(s.skip(n), intraday, 0, count as nat) {
            Some((rows, m)) => Some((rows, n + m)),
            None => None,
        },
        None => None,
    }
}

/// One more bar read: the rows still to come start after it.
proof fn lemma_bar_rows_advance(
    rest: Seq<u8>,
    intraday: bool,
    previous_close: i64,
    count: nat,
    prefix: Seq<BarRecord>,
    consumed: int,
    bar: BarRecord,
    n: int,
)
    requires
        count > 0,
        parse_bar(rest, intraday, previous_close) == Some((bar, n)),
    ensures
        after(prefix, consumed, parse_bar_rows(rest, intraday, previous_close, count)) == after(
            prefix.push(bar),
            consumed + n,
            parse_bar_rows(rest.skip(n), intraday, bar.close, (count - 1) as nat),
        ),
{
    match parse_bar_rows(rest.skip(n), intraday, bar.close, (count - 1) as nat) {
        Some((bars, m)) => {
            assert(prefix.push(bar) + bars =~= prefix + (seq![bar] + bars));
        },
        None => {},
    }
}

/// One more index bar read: the rows still to come start after it.
proof fn lemma_index_bar_rows_advance(
    rest: Seq<u8>,
    intraday: bool,
    previous_close: i64,
    count: nat,
    prefix: Seq<IndexBarRecord>,
    consumed: int,
    row: IndexBarRecord,
    n: int,
)
    requires
        count > 0,
        parse_index_bar(rest, intraday, previous_close) == Some((row, n)),
    ensures
        after(prefix, consumed, parse_index_bar_rows(rest, intraday, previous_close, count))
            == after(
            prefix.push(row),
            consumed + n,
            parse_index_bar_rows(rest.skip(n), intraday, row.bar.close, (count - 1) as nat),
        ),
{
    match parse_index_bar_rows(rest.skip(n), intraday, row.bar.close, (count - 1) as nat) {
        Some((rows, m)) => {
            assert(prefix.push(row) + rows =~= prefix + (seq![row] + rows));
        },
        None => {},
    }
}

/// Decodes bars in order. Bar prices are relative: the open to the close of the bar
/// before, the other three to the open of the same bar.
pub struct BarDecoder {
    intraday: bool,
    previous_close: i64,
}

impl BarDecoder {
    /// Whether the bars carry a time of day.
    pub closed spec fn intraday(self) -> bool {
        self.intraday
    }

    /// The close that the next bar's open is relative to.
    pub closed spec fn previous_close(self) -> i64 {
        self.previous_close
    }

    /// A decoder for bars of `period`, before the first bar.
    pub fn new(period: BarPeriod) -> (decoder: Self)
        ensures
            decoder.intraday() == period_is_intraday(period),
            decoder.previous_close() == 0,
    {
        BarDecoder { intraday: period.is_intraday(), previous_close: 0 }
    }

    /// Reads the next bar; on success the decoder moves on to its close.
    pub fn next(&mut self, body: &mut ByteReader<'_>) -> (r: Result<BarRecord, TdxError>)
        ensures
            decoded(
                *old(body),
                *final(body),
                parse_bar(old(body).rest(), old(self).intraday(), old(self).previous_close()),
                r,
            ),
            final(self).intraday() == old(self).intraday(),
            r matches Ok(bar) ==> final(self).previous_close() == bar.close,
    {
        let ghost s = body.rest();
        let ghost start = body.offset();
        proof {
            reveal(parse_bar);
        }
        let time = TdxDateTime::read_bar_time(body, self.intraday)?;
        let ghost n = body.offset() - start;
        proof {
            assert(body.rest() =~= s.skip(n));
        }
        let layout = [Field::Varint, Field::Varint, Field::Varint, Field::Varint, Field::U32, Field::U32];
        proof {
            assert(layout@ =~= bar_fields());
        }
        let values = body.fields(&layout)?;
        let open = shift(self.previous_close, values[0]);
        let close = shift(open, values[1]);
        let high = shift(open, values[2]);
        let low = shift(open, values[3]);
        let bar = BarRecord {
            time,
            open,
            high,
            low,
            close,
            volume: values[4] as u32,
            amount: values[5] as u32,
        };
        self.previous_close = close;
        Ok(bar)
    }
}

} // verus!

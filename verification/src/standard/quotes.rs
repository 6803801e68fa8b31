//! Real-time quote snapshots.
use vstd::prelude::*;
use vstd::string::StringExecFns;

use super::{market_code, Market, Standard};
use crate::error::TdxError;
use crate::request::Request;
use crate::types::{code_from_bytes, lemma_code_bytes, SecurityCode};
use crate::wire::{
    after, decoded, decoded_all, le_u16_bytes, le_u32_bytes, parse_fields, parse_u16, parse_u8,
    shift, shifted, ByteReader, ByteWriter, Field,
};

verus! {

/// A batch request for quote snapshots.
#[derive(Clone, Debug)]
pub struct SecurityQuotes {
    pub securities: Vec<(Market, SecurityCode)>,
}

/// One level of the order book. The price is in the protocol's integer unit (see
/// [`QuoteRecord`]).
#[derive(Clone, Copy, Debug, Default, PartialEq, Eq)]
pub struct BookLevel {
    pub price: i64,
    pub volume: i64,
}

/// A quote snapshot as the wire carries it.
///
/// Prices are raw integers, already made absolute: cents for stocks and indices,
/// thousandths for three-decimal instruments such as ETFs. `amount` (turnover in yuan)
/// is the bit pattern of an IEEE-754 single-precision number. Fields named `unknown_*`
/// are kept as they come; their meaning is not confirmed.
#[derive(Clone, Debug, PartialEq)]
pub struct QuoteRecord {
    pub market: u8,
    pub code: SecurityCode,
    pub active1: u16,
    pub price: i64,
    pub previous_close: i64,
    pub open: i64,
    pub high: i64,
    pub low: i64,
    /// The server time, as encoded.
    pub server_time: i64,
    pub unknown_1: i64,
    /// Total volume, in lots.
    pub volume: i64,
    /// Volume of the latest trade, in lots.
    pub current_volume: i64,
    /// Turnover in yuan, as single-precision bits.
    pub amount: u32,
    /// Volume traded at the bid.
    pub sell_volume: i64,
    /// Volume traded at the ask.
    pub buy_volume: i64,
    pub unknown_2: i64,
    pub unknown_3: i64,
    pub bids: [BookLevel; 5],
    pub asks: [BookLevel; 5],
    pub unknown_4: u16,
    pub unknown_5: i64,
    pub unknown_6: i64,
    pub unknown_7: i64,
    pub unknown_8: i64,
    /// Rate of change, in hundredths of a percent.
    pub speed: i16,
    pub active2: u16,
}

/// The request body for quotes of each of `securities`, after the fixed prefix.
pub open spec fn quote_entries(securities: Seq<(Market, SecurityCode)>) -> Seq<u8>
    decreases securities.len(),
{
    if securities.len() == 0 {
        Seq::empty()
    } else {
        let last = securities.last();
        quote_entries(securities.drop_last()) + seq![market_code(last.0)] + last.1@
    }
}

/// The request body for quotes: a fixed prefix with the count, then market and code of
/// each security.
pub open spec fn quotes_request_body(securities: Seq<(Market, SecurityCode)>) -> Seq<u8> {
    le_u16_bytes(5) + le_u32_bytes(0) + le_u16_bytes(0) + le_u16_bytes(securities.len() as u16)
        + quote_entries(securities)
}

/// The fields of a quote after its market and code.
pub open spec fn quote_fields() -> Seq<Field> {
    seq![
        Field::U16,
        Field::Varint,
        Field::Varint,
        Field::Varint,
        Field::Varint,
        Field::Varint,
        Field::Varint,
        Field::Varint,
        Field::Varint,
        Field::Varint,
        Field::U32,
        Field::Varint,
        Field::Varint,
        Field::Varint,
        Field::Varint,
        Field::Varint,
        Field::Varint,
        Field::Varint,
        Field::Varint,
        Field::Varint,
        Field::Varint,
        Field::Varint,
        Field::Varint,
        Field::Varint,
        Field::Varint,
        Field::Varint,
        Field::Varint,
        Field::Varint,
        Field::Varint,
        Field::Varint,
        Field::Varint,
        Field::Varint,
        Field::Varint,
        Field::Varint,
        Field::Varint,
        Field::U16,
        Field::Varint,
        Field::Varint,
        Field::Varint,
        Field::Varint,
        Field::I16,
        Field::U16
    ]
}

/// A book level whose price is the difference at `at` from `price` and whose volume is
/// two fields later.
pub open spec fn level_at(price: i64, v: Seq<i64>, at: int) -> BookLevel {
    BookLevel { price: shifted(price, v[at]), volume: v[at + 2] }
}

/// Five book levels starting at field `first`, four fields apart.
pub open spec fn levels_at(price: i64, v: Seq<i64>, first: int) -> [BookLevel; 5] {
    [
        level_at(price, v, first),
        level_at(price, v, first + 4),
        level_at(price, v, first + 8),
        level_at(price, v, first + 12),
        level_at(price, v, first + 16),
    ]
}

/// The quote that a market, a code and the fields of [`quote_fields`] describe. The
/// previous close, open, high, low and book prices are differences from the price.
pub open spec fn quote_from(market: u8, code: SecurityCode, v: Seq<i64>) -> QuoteRecord {
    let price = v[1];
    QuoteRecord {
        market,
        code,
        active1: v[0] as u16,
        price,
        previous_close: shifted(price, v[2]),
        open: shifted(price, v[3]),
        high: shifted(price, v[4]),
        low: shifted(price, v[5]),
        server_time: v[6],
        unknown_1: v[7],
        volume: v[8],
        current_volume: v[9],
        amount: v[10] as u32,
        sell_volume: v[11],
        buy_volume: v[12],
        unknown_2: v[13],
        unknown_3: v[14],
        bids: levels_at(price, v, 15),
        asks: levels_at(price, v, 16),
        unknown_4: v[35] as u16,
        unknown_5: v[36],
        unknown_6: v[37],
        unknown_7: v[38],
        unknown_8: v[39],
        speed: v[40] as i16,
        active2: v[41] as u16,
    }
}

/// Reading one quote: market byte, 6-byte code, then the fields of [`quote_fields`].
#[verifier::opaque]
pub open spec fn parse_quote(s: Seq<u8>) -> Option<(QuoteRecord, int)> {
    match parse_u8(s) {
        Some((market, _)) => if s.len() < 7 {
            None
        } else {
            match parse_fields(quote_fields(), s.skip(7)) {
                Some((v, m)) => Some((quote_from(market, code_from_bytes(s.subrange(1, 7)), v), 7 + m)),
                None => None,
            }
        },
        None => None,
    }
}

/// A quote holds its fields in wire order (see [`quote_fields`]), and its prices are
/// absolute: each price field after the current price (previous close, open, high, low,
/// and every book level) is the current price plus the difference read at its place.
/// The book comes in wire order too: after the field of
/// `unknown_3`, the `k`-th group of four fields holds the `k`-th bid difference, the
/// `k`-th ask difference, the `k`-th bid volume and the `k`-th ask volume.
pub proof fn lemma_quote_book_in_wire_order(s: Seq<u8>)
    requires
        s.len() >= 7,
    ensures
        match parse_fields(quote_fields(), s.skip(7)) {
            Some((v, m)) => parse_quote(s) matches Some((quote, n)) && {
                &&& n == 7 + m
                &&& quote.market == s[0]
                &&& quote.code@ == s.subrange(1, 7)
                &&& quote.active1 == v[0] as u16
                &&& quote.price == v[1]
                &&& quote.previous_close == shifted(v[1], v[2])
                &&& quote.open == shifted(v[1], v[3])
                &&& quote.high == shifted(v[1], v[4])
                &&& quote.low == shifted(v[1], v[5])
                &&& quote.server_time == v[6]
                &&& quote.unknown_1 == v[7]
                &&& quote.volume == v[8]
                &&& quote.current_volume == v[9]
                &&& quote.amount == v[10] as u32
                &&& quote.sell_volume == v[11]
                &&& quote.buy_volume == v[12]
                &&& quote.unknown_2 == v[13]
                &&& quote.unknown_3 == v[14]
                &&& quote.unknown_4 == v[35] as u16
                &&& quote.unknown_5 == v[36]
                &&& quote.unknown_6 == v[37]
                &&& quote.unknown_7 == v[38]
                &&& quote.unknown_8 == v[39]
                &&& quote.speed == v[40] as i16
                &&& quote.active2 == v[41] as u16
                &&& forall|k: int|
                    0 <= k < 5 ==> {
                        &&& #[trigger] quote.bids@[k] == (BookLevel {
                            price: shifted(v[1], v[15 + 4 * k]),
                            volume: v[17 + 4 * k],
                        })
                        &&& quote.asks@[k] == (BookLevel {
                            price: shifted(v[1], v[16 + 4 * k]),
                            volume: v[18 + 4 * k],
                        })
                    }
            },
            None => parse_quote(s) is None,
        },
{
    reveal(parse_quote);
    lemma_code_bytes(code_from_bytes(s.subrange(1, 7)), s.subrange(1, 7));
    match parse_fields(quote_fields(), s.skip(7)) {
        Some((v, m)) => {
            let quote = quote_from(s[0], code_from_bytes(s.subrange(1, 7)), v);
            assert forall|k: int| 0 <= k < 5 implies {
                &&& #[trigger] quote.bids@[k] == (BookLevel {
                    price: shifted(v[1], v[15 + 4 * k]),
                    volume: v[17 + 4 * k],
                })
                &&& quote.asks@[k] == (BookLevel {
                    price: shifted(v[1], v[16 + 4 * k]),
                    volume: v[18 + 4 * k],
                })
            } by {
                assert(k == 0 || k == 1 || k == 2 || k == 3 || k == 4);
            }
        },
        None => {},
    }
}

/// Reading `count` quotes one after another.
pub open spec fn parse_quote_rows(s: Seq<u8>, count: nat) -> Option<(Seq<QuoteRecord>, int)>
    decreases count,
{
    if count == 0 {
        Some((Seq::empty(), 0))
    } else {
        match parse_quote(s) {
            Some((quote, n)) => match parse_quote_rows(s.skip(n), (count - 1) as nat) {
                Some((quotes, m)) => Some((seq![quote] + quotes, n + m)),
                None => None,
            },
            None => None,
        }
    }
}

/// Reading a quote response: 2 skipped bytes, a `u16` count, then that many quotes.
pub open spec fn parse_security_quotes(s: Seq<u8>) -> Option<(Seq<QuoteRecord>, int)> {
    if s.len() < 2 {
        None
    } else {
        match parse_u16(s.skip(2)) {
            Some((count, n)) => match parse_quote_rows(s.skip(2 + n), count as nat) {
                Some((quotes, m)) => Some((quotes, 2 + n + m)),
                None => None,
            },
            None => None,
        }
    }
}

/// Whether a quote request may list `count` securities.
pub open spec fn quote_count_allowed(count: int) -> bool {
    1 <= count <= 65535
}

impl Request for SecurityQuotes {
    type Dialect = Standard;

    type Response = Vec<QuoteRecord>;

    const COMMAND: u16 = 0x053e;

    /// Writes the quote request; an empty list, or one of more than 65535 securities, is
    /// an invalid argument and writes nothing.
    fn encode(&self, body: &mut ByteWriter) -> (r: Result<(), TdxError>)
        ensures
            quote_count_allowed(self.securities@.len() as int) ==> r is Ok && final(body)@ == old(
                body,
            )@ + quotes_request_body(self.securities@),
            !quote_count_allowed(self.securities@.len() as int) ==> (r matches Err(
                TdxError::InvalidArgument(_),
            ) && final(body)@ == old(body)@),
    {
        let total = self.securities.len();
        if total == 0 || total > 65535 {
            let mut text = String::from_str("quote request needs 1..=65535 securities, got ");
            text.append(total.to_string().as_str());
            return Err(TdxError::InvalidArgument(text));
        }
        let count = total as u16;
        body.u16(5);
        body.u32(0);
        body.u16(0);
        body.u16(count);
        let ghost prefix = body@;
        proof {
            assert(self.securities@.take(0) =~= Seq::<(Market, SecurityCode)>::empty());
            assert(body@ =~= prefix + quote_entries(self.securities@.take(0)));
        }
        for i in 0..total
            invariant
                total == self.securities@.len(),
                body@ == prefix + quote_entries(self.securities@.take(i as int)),
        {
            let (market, code) = self.securities[i];
            body.u8(market.code());
            body.bytes(code.as_bytes());
            proof {
                let taken = self.securities@.take(i + 1);
                assert(taken.drop_last() =~= self.securities@.take(i as int));
                assert(taken.last() == (market, code));
                assert(body@ =~= prefix + quote_entries(taken));
            }
        }
        proof {
            assert(self.securities@.take(total as int) =~= self.securities@);
            assert(body@ =~= old(body)@ + quotes_request_body(self.securities@));
        }
        Ok(())
    }

    /// Reads the quotes of the response (see [`parse_security_quotes`]).
    fn decode(&self, body: &mut ByteReader<'_>) -> (r: Result<Vec<QuoteRecord>, TdxError>)
        ensures
            decoded_all(*old(body), *final(body), parse_security_quotes(old(body).rest()), r),
    {
        let ghost s = body.rest();
        let ghost start = body.offset();
        body.skip(2)?;
        proof {
            assert(body.rest() =~= s.skip(2));
        }
        let count = body.u16()?;
        let mut quotes: Vec<QuoteRecord> = Vec::new();
        proof {
            assert(body.rest() =~= s.skip(4));
            assert(s.skip(2).skip(2) =~= s.skip(4));
            match parse_quote_rows(body.rest(), count as nat) {
                Some((vs, m)) => {
                    assert(quotes@ + vs =~= vs);
                },
                None => {},
            }
        }
        for i in 0..count
            invariant
                old(body).in_bounds(),
                body.in_bounds(),
                s == old(body).rest(),
                start == old(body).offset(),
                body.input() == old(body).input(),
                body.offset() >= start,
                body.rest() == s.skip(body.offset() - start),
                parse_security_quotes(s) == after(
                    quotes@,
                    body.offset() - start,
                    parse_quote_rows(body.rest(), (count - i) as nat),
                ),
        {
            let ghost before = body.rest();
            let ghost before_offset = body.offset();
            let quote = match decode_quote(body) {
                Ok(quote) => quote,
                Err(error) => {
                    proof {
                        assert(parse_quote(before) is None);
                        assert(parse_quote_rows(before, (count - i) as nat) is None);
                    }
                    return Err(error);
                },
            };
            proof {
                let n = body.offset() - before_offset;
                assert(body.rest() =~= before.skip(n));
                assert(body.rest() =~= s.skip(body.offset() - start));
                match parse_quote_rows(body.rest(), (count - i - 1) as nat) {
                    Some((vs, m)) => {
                        assert(quotes@.push(quote) + vs =~= quotes@ + (seq![quote] + vs));
                    },
                    None => {},
                }
            }
            quotes.push(quote);
        }
        proof {
            assert(quotes@ + Seq::<QuoteRecord>::empty() =~= quotes@);
        }
        Ok(quotes)
    }
}

/// The book level at field `at` (see [`level_at`]).
fn read_level(price: i64, v: &Vec<i64>, at: usize) -> (level: BookLevel)
    requires
        at + 2 < v@.len(),
        at <= 64,
    ensures
        level == level_at(price, v@, at as int),
{
    BookLevel { price: shift(price, v[at]), volume: v[at + 2] }
}

/// Five book levels starting at field `first` (see [`levels_at`]).
fn read_levels(price: i64, v: &Vec<i64>, first: usize) -> (levels: [BookLevel; 5])
    requires
        first + 18 < v@.len(),
        first <= 16,
    ensures
        levels == levels_at(price, v@, first as int),
{
    [
        read_level(price, v, first),
        read_level(price, v, first + 4),
        read_level(price, v, first + 8),
        read_level(price, v, first + 12),
        read_level(price, v, first + 16),
    ]
}

/// Reads one quote (see [`parse_quote`]).
fn decode_quote(body: &mut ByteReader<'_>) -> (r: Result<QuoteRecord, TdxError>)
    ensures
        decoded(*old(body), *final(body), parse_quote(old(body).rest()), r),
{
    let ghost s = body.rest();
    let ghost start = body.offset();
    proof {
        reveal(parse_quote);
    }
    let market = body.u8()?;
    proof {
        assert(body.rest() =~= s.skip(1));
    }
    let bytes = body.array::<6>()?;
    let code = SecurityCode::from_bytes(bytes);
    proof {
        assert(body.rest() =~= s.skip(7));
        assert(bytes@ =~= s.subrange(1, 7));
        lemma_code_bytes(code, s.subrange(1, 7));
    }
    let layout = [
        Field::U16,
        Field::Varint,
        Field::Varint,
        Field::Varint,
        Field::Varint,
        Field::Varint,
        Field::Varint,
        Field::Varint,
        Field::Varint,
        Field::Varint,
        Field::U32,
        Field::Varint,
        Field::Varint,
        Field::Varint,
        Field::Varint,
        Field::Varint,
        Field::Varint,
        Field::Varint,
        Field::Varint,
        Field::Varint,
        Field::Varint,
        Field::Varint,
        Field::Varint,
        Field::Varint,
        Field::Varint,
        Field::Varint,
        Field::Varint,
        Field::Varint,
        Field::Varint,
        Field::Varint,
        Field::Varint,
        Field::Varint,
        Field::Varint,
        Field::Varint,
        Field::Varint,
        Field::U16,
        Field::Varint,
        Field::Varint,
        Field::Varint,
        Field::Varint,
        Field::I16,
        Field::U16
    ];
    proof {
        assert(layout@ =~= quote_fields());
    }
    let v = body.fields(&layout)?;
    let price = v[1];
    let previous_close = shift(price, v[2]);
    let open = shift(price, v[3]);
    let high = shift(price, v[4]);
    let low = shift(price, v[5]);
    let bids = read_levels(price, &v, 15);
    let asks = read_levels(price, &v, 16);
    Ok(QuoteRecord {
        market,
        code,
        active1: v[0] as u16,
        price,
        previous_close,
        open,
        high,
        low,
        server_time: v[6],
        unknown_1: v[7],
        volume: v[8],
        current_volume: v[9],
        amount: v[10] as u32,
        sell_volume: v[11],
        buy_volume: v[12],
        unknown_2: v[13],
        unknown_3: v[14],
        bids,
        asks,
        unknown_4: v[35] as u16,
        unknown_5: v[36],
        unknown_6: v[37],
        unknown_7: v[38],
        unknown_8: v[39],
        speed: v[40] as i16,
        active2: v[41] as u16,
    })
}

} // verus!

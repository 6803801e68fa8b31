//! The standard market server: Shanghai, Shenzhen and Beijing stocks, ETFs and indices
//! (port 7709 by default). Each file holds one family of commands.
use vstd::prelude::*;

use crate::client::Session;
use crate::error::TdxError;
use crate::request::Dialect;

mod bars;
mod handshake;
mod quotes;
mod transactions;
mod xdxr;

pub use bars::{
    bar_count_allowed, bar_fields, bar_from, bars_request_body, lemma_bar_prices_chain,
    lemma_index_bar_layout, parse_bar, parse_bar_rows, parse_index_bar, parse_index_bar_rows,
    parse_index_bars, parse_security_bars, period_code, period_is_intraday, BarDecoder,
    BarPeriod, BarRecord, IndexBarRecord, IndexBars, SecurityBars, MAX_BARS_PER_REQUEST,
};
pub use handshake::SetupStage;
pub use xdxr::{
    lemma_xdxr_record_layout, parse_xdxr, parse_xdxr_record, parse_xdxr_rows, xdxr_fields,
    xdxr_payload, xdxr_request_body, XdxrInfo, XdxrPayload, XdxrRecord,
};
pub use transactions::{
    lemma_decoded_transactions_valid, lemma_transaction_fields_in_order, parse_transaction,
    parse_transaction_rows, parse_transactions, transaction_fields, transaction_valid,
    transactions_request_body, Transaction, Transactions,
};
pub use quotes::{
    lemma_quote_book_in_wire_order, level_at, levels_at, parse_quote, parse_quote_rows,
    parse_security_quotes, quote_count_allowed, quote_entries, quote_fields, quote_from,
    quotes_request_body, BookLevel, QuoteRecord, SecurityQuotes,
};

verus! {

/// The standard market dialect.
pub struct Standard;

impl Dialect for Standard {
    const MARKER: u8 = 0x0c;

    /// Sends setup stage 1, then stage 2, and stops at the first failure, returning
    /// that error. The stage that goes to the session, and what follows each answer,
    /// are decided by [`SetupStage::after_reply`]; what the session answers is up to its
    /// implementation, so nothing is stated here of the result.
    fn handshake<S: Session<Self>>(session: &mut S) -> Result<(), TdxError> {
        let mut stage = SetupStage::first();
        loop
            invariant
                stage.stage() == 1 || stage.stage() == 2,
            decreases 3 - stage.stage(),
        {
            let reply = session.call(&stage);
            match stage.after_reply(reply) {
                Err(error) => return Err(error),
                Ok(Some(next)) => stage = next,
                Ok(None) => return Ok(()),
            }
        }
    }
}

/// A market number of the standard server.
#[derive(Clone, Copy, Debug, PartialEq, Eq, Hash)]
pub enum Market {
    Shenzhen,
    Shanghai,
    Beijing,
}

/// The number that stands for `market` on the wire.
pub open spec fn market_code(market: Market) -> u8 {
    match market {
        Market::Shenzhen => 0,
        Market::Shanghai => 1,
        Market::Beijing => 2,
    }
}

/// The market a wire number stands for, if any.
pub open spec fn market_of_code(code: u8) -> Option<Market> {
    if code == 0 {
        Some(Market::Shenzhen)
    } else if code == 1 {
        Some(Market::Shanghai)
    } else if code == 2 {
        Some(Market::Beijing)
    } else {
        None
    }
}

impl Market {
    /// The number that stands for this market on the wire.
    pub fn code(self) -> (code: u8)
        ensures
            code == market_code(self),
    {
        match self {
            Market::Shenzhen => 0,
            Market::Shanghai => 1,
            Market::Beijing => 2,
        }
    }

    /// The market a wire number stands for; `None` for numbers other than 0, 1, 2.
    pub fn from_code(code: u8) -> (market: Option<Self>)
        ensures
            market == market_of_code(code),
    {
        match code {
            0 => Some(Market::Shenzhen),
            1 => Some(Market::Shanghai),
            2 => Some(Market::Beijing),
            _ => None,
        }
    }
}

/// Market numbers and markets correspond one to one: every market's number leads back
/// to it, and every number that names a market is that market's number.
pub proof fn lemma_market_code_round_trip(market: Market, code: u8)
    ensures
        market_of_code(market_code(market)) == Some(market),
        market_of_code(code) matches Some(m) ==> market_code(m) == code,
        market_of_code(code) is Some <==> code < 3,
{
}

} // verus!

//! Stock quotes.
use vstd::prelude::*;

verus! {

/// One quote of a stock. The price is a double-precision number in the IEEE 754 layout, held as
/// its bit pattern: nothing here computes with it.
#[derive(Debug, PartialEq, Eq)]
pub struct StockQuote {
    /// The stock.
    pub ticker: String,
    /// The bit pattern of the price.
    pub price_bits: u64,
    /// The number of shares traded.
    pub volume: u32,
    /// When the quote was made, in milliseconds since the Unix epoch.
    pub timestamp: u64,
}

/// What a quote says.
#[verifier::ext_equal]
pub struct QuoteView {
    /// The stock.
    pub ticker: Seq<char>,
    /// The bit pattern of the price.
    pub price_bits: u64,
    /// The number of shares traded.
    pub volume: u32,
    /// When the quote was made.
    pub timestamp: u64,
}

impl View for StockQuote {
    type V = QuoteView;

    open spec fn view(&self) -> QuoteView {
        QuoteView {
            ticker: self.ticker@,
            price_bits: self.price_bits,
            volume: self.volume,
            timestamp: self.timestamp,
        }
    }
}

impl Clone for StockQuote {
    fn clone(&self) -> (r: Self)
        ensures
            r == *self,
    {
        StockQuote {
            ticker: self.ticker.clone(),
            price_bits: self.price_bits,
            volume: self.volume,
            timestamp: self.timestamp,
        }
    }
}

/// What the quotes of `v` say.
pub open spec fn quote_views(v: Seq<StockQuote>) -> Seq<QuoteView> {
    Seq::new(v.len(), |i: int| v[i]@)
}

/// What a quote says is all that it holds, and the quotes of a list stand in their order.
pub proof fn law_quote_says_all_it_holds(q: StockQuote, all: Seq<StockQuote>, i: int)
    ensures
        q@.ticker == q.ticker@,
        q@.price_bits == q.price_bits,
        q@.volume == q.volume,
        q@.timestamp == q.timestamp,
        quote_views(all).len() == all.len(),
        0 <= i < all.len() ==> quote_views(all)[i] == all[i]@,
{
}

} // verus!

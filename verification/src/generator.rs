//! The quote generator: it keeps the last quote of every ticker it knows, and makes a new one when
//! the last is older than a tick.
use vstd::hash_map::StringHashMap;
use vstd::prelude::*;

use crate::quote::{quote_views, QuoteView, StockQuote};
use crate::text::same_text;

verus! {

/// Why quotes cannot be given.
#[derive(Clone, Copy, PartialEq, Eq, Structural, Debug)]
pub enum QuoteGeneratorError {
    /// A ticker is not known.
    InvalidTicker,
}

/// What chance and the clock decide of a new quote.
#[derive(Clone, Copy, PartialEq, Eq, Structural, Debug)]
pub struct QuoteDraw {
    /// The bit pattern of the new price.
    pub price_bits: u64,
    /// How far the volume is above the least that the ticker has.
    pub volume_offset: u32,
    /// When the quote was made, in milliseconds since the Unix epoch.
    pub timestamp: u64,
}

/// A ticker is one of those that are traded most.
pub open spec fn popular(ticker: Seq<char>) -> bool {
    ticker == "AAPL"@ || ticker == "MSFT"@ || ticker == "TSLA"@
}

/// The least volume of a ticker.
pub open spec fn volume_base(ticker: Seq<char>) -> u32 {
    if popular(ticker) {
        1000
    } else {
        100
    }
}

/// How many volumes a ticker can have.
pub open spec fn volume_spread(ticker: Seq<char>) -> u32 {
    if popular(ticker) {
        5000
    } else {
        1000
    }
}

/// The new quote of a ticker.
pub open spec fn drawn(ticker: Seq<char>, draw: QuoteDraw) -> QuoteView {
    QuoteView {
        ticker,
        price_bits: draw.price_bits,
        volume: (volume_base(ticker) + draw.volume_offset) as u32,
        timestamp: draw.timestamp,
    }
}

/// A quote is older than a tick.
pub open spec fn due(quote: QuoteView, tick_duration: u64, now: u64) -> bool {
    quote.timestamp + tick_duration < now
}

/// The quote of a ticker before the first tick.
pub open spec fn opening_quote(ticker: Seq<char>, price_bits: u64) -> QuoteView {
    QuoteView { ticker, price_bits, volume: 0, timestamp: 0 }
}

/// The first quotes of `tickers` at `prices`. Of a ticker that is there twice the last price
/// counts.
pub open spec fn opening_quotes(tickers: Seq<Seq<char>>, prices: Seq<u64>) -> Map<
    Seq<char>,
    QuoteView,
>
    decreases tickers.len(),
{
    if tickers.len() == 0 {
        Map::empty()
    } else {
        opening_quotes(tickers.drop_last(), prices.drop_last()).insert(
            tickers.last(),
            opening_quote(tickers.last(), prices.last()),
        )
    }
}

/// `quotes` after the quotes of `tickers` became `given`, one after the other.
pub open spec fn replaced(
    quotes: Map<Seq<char>, QuoteView>,
    tickers: Seq<Seq<char>>,
    given: Seq<QuoteView>,
) -> Map<Seq<char>, QuoteView>
    decreases tickers.len(),
{
    if tickers.len() == 0 {
        quotes
    } else {
        replaced(quotes, tickers.drop_last(), given.drop_last()).insert(
            tickers.last(),
            given.last(),
        )
    }
}

/// What the strings of `v` hold.
pub open spec fn str_texts(v: Seq<&str>) -> Seq<Seq<char>> {
    Seq::new(v.len(), |i: int| v[i]@)
}

/// What a generator knows.
#[verifier::ext_equal]
pub struct GeneratorView {
    /// The last quote of each ticker.
    pub quotes: Map<Seq<char>, QuoteView>,
    /// By how many hundredths a price may move in a tick.
    pub price_deviation: u8,
    /// How long a quote lasts, in milliseconds.
    pub tick_duration: u64,
}

impl GeneratorView {
    /// A ticker is known.
    pub open spec fn knows(self, ticker: Seq<char>) -> bool {
        self.quotes.contains_key(ticker)
    }

    /// Every quote stands under its own ticker.
    pub open spec fn in_order(self) -> bool {
        forall|t: Seq<char>| self.knows(t) ==> (#[trigger] self.quotes[t]).ticker == t
    }

    /// `given` may be given for `ticker`: the last quote if it lasts, else a new one, drawn by
    /// `draw` from the last price, the deviation and the spread of the volume.
    pub open spec fn may_give<F: Fn(u64, u8, u32) -> QuoteDraw>(
        self,
        ticker: Seq<char>,
        now: u64,
        draw: F,
        given: QuoteView,
    ) -> bool {
        &&& self.knows(ticker)
        &&& if due(self.quotes[ticker], self.tick_duration, now) {
            exists|d: QuoteDraw| #[trigger]
                call_ensures(
                    draw,
                    (self.quotes[ticker].price_bits, self.price_deviation, volume_spread(ticker)),
                    d,
                ) && given == drawn(ticker, d)
        } else {
            given == self.quotes[ticker]
        }
    }

    /// After `given` was given for `tickers`.
    pub open spec fn after(self, tickers: Seq<Seq<char>>, given: Seq<QuoteView>) -> GeneratorView {
        GeneratorView { quotes: replaced(self.quotes, tickers, given), ..self }
    }

    /// `given` may be given for `tickers`, one after the other.
    pub open spec fn may_give_all<F: Fn(u64, u8, u32) -> QuoteDraw>(
        self,
        tickers: Seq<Seq<char>>,
        now: u64,
        draw: F,
        given: Seq<QuoteView>,
    ) -> bool {
        &&& given.len() == tickers.len()
        &&& forall|i: int|
            0 <= i < tickers.len() ==> self.after(tickers.take(i), given.take(i)).may_give(
                #[trigger] tickers[i],
                now,
                draw,
                given[i],
            )
    }

    /// `given` may be given for the first of `tickers`, and the next one is not known.
    pub open spec fn may_end<F: Fn(u64, u8, u32) -> QuoteDraw>(
        self,
        tickers: Seq<Seq<char>>,
        now: u64,
        draw: F,
        given: Seq<QuoteView>,
    ) -> bool {
        &&& given.len() < tickers.len()
        &&& !self.knows(tickers[given.len() as int])
        &&& self.may_give_all(tickers.take(given.len() as int), now, draw, given)
    }
}

/// At this deviation `draw` can be asked for any quote with a spread, and keeps the volume within
/// it.
pub open spec fn draws_well<F: Fn(u64, u8, u32) -> QuoteDraw>(draw: F, deviation: u8) -> bool {
    &&& forall|p: u64, s: u32| s > 0 ==> #[trigger] call_requires(draw, (p, deviation, s))
    &&& forall|p: u64, s: u32, r: QuoteDraw|
        s > 0 && #[trigger] call_ensures(draw, (p, deviation, s), r) ==> r.volume_offset < s
}

/// The quote generator.
pub struct QuoteGenerator {
    quotes: StringHashMap<StockQuote>,
    price_deviation: u8,
    tick_duration: u64,
}

impl View for QuoteGenerator {
    type V = GeneratorView;

    closed spec fn view(&self) -> GeneratorView {
        GeneratorView {
            quotes: self.quotes@.map_values(|q: StockQuote| q@),
            price_deviation: self.price_deviation,
            tick_duration: self.tick_duration,
        }
    }
}

/// Tells whether a ticker is one of those that are traded most.
fn is_popular(ticker: &str) -> (r: bool)
    ensures
        r == popular(ticker@),
{
    same_text(ticker, "AAPL") || same_text(ticker, "MSFT") || same_text(ticker, "TSLA")
}

impl QuoteGenerator {
    /// Every quote stands under its own ticker.
    pub open spec fn wf(&self) -> bool {
        self@.in_order()
    }

    /// A generator that knows `supported_tickers`, at these prices before the first tick.
    pub fn new(
        supported_tickers: Vec<&str>,
        opening_prices: Vec<u64>,
        price_deviation: u8,
        tick_duration: u64,
    ) -> (r: Self)
        requires
            supported_tickers@.len() == opening_prices@.len(),
        ensures
            r.wf(),
            r@ == (GeneratorView {
                quotes: opening_quotes(str_texts(supported_tickers@), opening_prices@),
                price_deviation,
                tick_duration,
            }),
    {
        let ghost all = str_texts(supported_tickers@);
        let mut r = QuoteGenerator { quotes: StringHashMap::new(), price_deviation, tick_duration };
        let mut i: usize = 0;
        assert(r@.quotes =~= opening_quotes(all.take(0), opening_prices@.take(0)));
        while i < supported_tickers.len()
            invariant
                i <= supported_tickers.len(),
                supported_tickers@.len() == opening_prices@.len(),
                all == str_texts(supported_tickers@),
                r.wf(),
                r@.quotes == opening_quotes(all.take(i as int), opening_prices@.take(i as int)),
                r.price_deviation == price_deviation,
                r.tick_duration == tick_duration,
            decreases supported_tickers.len() - i,
        {
            let ghost before = r@.quotes;
            let ticker = supported_tickers[i];
            let quote = StockQuote {
                ticker: ticker.to_owned(),
                price_bits: opening_prices[i],
                volume: 0,
                timestamp: 0,
            };
            r.quotes.insert(ticker.to_owned(), quote);
            proof {
                assert(r@.quotes =~= before.insert(ticker@, quote@));
                assert(all.take(i + 1).drop_last() =~= all.take(i as int));
                assert(opening_prices@.take(i + 1).drop_last() =~= opening_prices@.take(i as int));
            }
            i = i + 1;
        }
        proof {
            assert(all.take(all.len() as int) =~= all);
            assert(opening_prices@.take(all.len() as int) =~= opening_prices@);
        }
        r
    }

    /// How many volumes a ticker can have: a draw for it stays below.
    pub fn spread(ticker: &str) -> (r: u32)
        ensures
            r == volume_spread(ticker@),
    {
        if is_popular(ticker) {
            5000
        } else {
            1000
        }
    }

    /// The new quote of a ticker.
    pub fn generate_quote(ticker: &str, draw: QuoteDraw) -> (r: StockQuote)
        requires
            draw.volume_offset < volume_spread(ticker@),
        ensures
            r@ == drawn(ticker@, draw),
    {
        let base: u32 = if is_popular(ticker) {
            1000
        } else {
            100
        };
        StockQuote {
            ticker: ticker.to_owned(),
            price_bits: draw.price_bits,
            volume: base + draw.volume_offset,
            timestamp: draw.timestamp,
        }
    }

    /// The quote of one ticker, if it is known, made anew if it is older than a tick.
    fn get_quote<F: Fn(u64, u8, u32) -> QuoteDraw>(
        &mut self,
        ticker: &str,
        now: u64,
        draw: &F,
    ) -> (r: Option<StockQuote>)
        requires
            draws_well(*draw, old(self)@.price_deviation),
        ensures
            match r {
                Some(given) => {
                    &&& old(self)@.may_give(ticker@, now, *draw, given@)
                    &&& final(self)@ == (GeneratorView {
                        quotes: old(self)@.quotes.insert(ticker@, given@),
                        ..old(self)@
                    })
                },
                None => !old(self)@.knows(ticker@) && final(self)@ == old(self)@,
            },
    {
        let ghost here = self@;
        let last = match self.quotes.get(ticker) {
            None => {
                return None;
            },
            Some(last) => last.clone(),
        };
        assert(here.knows(ticker@));
        assert(here.quotes[ticker@] == last@);
        let timestamp: u64 = last.timestamp;
        let quote = if now > timestamp && now - timestamp > self.tick_duration {
            let d = draw(last.price_bits, self.price_deviation, Self::spread(ticker));
            Self::generate_quote(ticker, d)
        } else {
            last
        };
        self.quotes.insert(ticker.to_owned(), quote.clone());
        assert(self@.quotes =~= here.quotes.insert(ticker@, quote@));
        Some(quote)
    }

    /// The quotes of `tickers`. Those that are older than a tick are made anew: `draw` is given
    /// the last price, the deviation and the spread of the volume. At the first ticker that is
    /// not known it ends; what was made anew before stays.
    pub fn get_quotes<F: Fn(u64, u8, u32) -> QuoteDraw>(
        &mut self,
        tickers: Vec<&str>,
        now: u64,
        draw: F,
    ) -> (r: Result<Vec<StockQuote>, QuoteGeneratorError>)
        requires
            old(self).wf(),
            draws_well(draw, old(self)@.price_deviation),
        ensures
            final(self).wf(),
            r is Ok <==> forall|i: int|
                0 <= i < tickers@.len() ==> old(self)@.knows(#[trigger] tickers@[i]@),
            match r {
                Ok(given) => {
                    &&& old(self)@.may_give_all(
                        str_texts(tickers@),
                        now,
                        draw,
                        quote_views(given@),
                    )
                    &&& final(self)@ == old(self)@.after(
                        str_texts(tickers@),
                        quote_views(given@),
                    )
                },
                Err(e) => {
                    &&& e == QuoteGeneratorError::InvalidTicker
                    &&& exists|given: Seq<QuoteView>| #[trigger]
                        old(self)@.may_end(str_texts(tickers@), now, draw, given) && final(self)@
                            == old(self)@.after(
                            str_texts(tickers@).take(given.len() as int),
                            given,
                        )
                },
            },
    {
        let ghost all = str_texts(tickers@);
        let ghost start = self@;
        let mut r: Vec<StockQuote> = Vec::new();
        let mut i: usize = 0;
        assert(self@ =~= start.after(all.take(0), quote_views(r@)));
        while i < tickers.len()
            invariant
                i <= tickers.len(),
                all == str_texts(tickers@),
                start == old(self)@,
                self.wf(),
                draws_well(draw, start.price_deviation),
                forall|t: Seq<char>| self@.knows(t) <==> #[trigger] start.knows(t),
                forall|j: int| 0 <= j < i ==> start.knows(#[trigger] all[j]),
                r@.len() == i,
                start.may_give_all(all.take(i as int), now, draw, quote_views(r@)),
                self@ == start.after(all.take(i as int), quote_views(r@)),
            decreases tickers.len() - i,
        {
            let ghost given = quote_views(r@);
            assert(tickers@[i as int]@ == all[i as int]);
            match self.get_quote(tickers[i], now, &draw) {
                None => {
                    assert(start.may_end(all, now, draw, given));
                    return Err(QuoteGeneratorError::InvalidTicker);
                },
                Some(quote) => {
                    r.push(quote);
                    proof {
                        lemma_give_one_more(start, all, i as int, now, draw, given, quote@);
                        assert(quote_views(r@) =~= given.push(quote@));
                    }
                },
            }
            i = i + 1;
        }
        assert(all.take(all.len() as int) =~= all);
        assert forall|j: int| 0 <= j < tickers@.len() implies start.knows(
            #[trigger] tickers@[j]@,
        ) by {
            assert(all[j] == tickers@[j]@);
        }
        Ok(r)
    }
}

/// What may be given for some tickers and then for one more may be given for all of them.
proof fn lemma_give_one_more<F: Fn(u64, u8, u32) -> QuoteDraw>(
    start: GeneratorView,
    all: Seq<Seq<char>>,
    i: int,
    now: u64,
    draw: F,
    given: Seq<QuoteView>,
    quote: QuoteView,
)
    requires
        0 <= i < all.len(),
        start.may_give_all(all.take(i), now, draw, given),
        start.after(all.take(i), given).may_give(all[i], now, draw, quote),
    ensures
        start.may_give_all(all.take(i + 1), now, draw, given.push(quote)),
        start.after(all.take(i + 1), given.push(quote)) == (GeneratorView {
            quotes: start.after(all.take(i), given).quotes.insert(all[i], quote),
            ..start
        }),
{
    let next = given.push(quote);
    assert(next.drop_last() =~= given);
    assert(all.take(i + 1).drop_last() =~= all.take(i));
    assert forall|j: int| 0 <= j < i + 1 implies start.after(
        all.take(i + 1).take(j),
        next.take(j),
    ).may_give(#[trigger] all.take(i + 1)[j], now, draw, next[j]) by {
        assert(all.take(i + 1).take(j) =~= all.take(i).take(j));
        assert(next.take(j) =~= given.take(j));
        if j < i {
            assert(all.take(i)[j] == all[j]);
        } else {
            assert(all.take(i).take(j) =~= all.take(i));
            assert(given.take(j) =~= given);
        }
    }
}

/// The volume of a new quote is from 1000 up to 5999 for the tickers that are traded most, and
/// from 100 up to 1099 for the others.
pub proof fn law_volume_is_in_range(ticker: Seq<char>, draw: QuoteDraw)
    requires
        draw.volume_offset < volume_spread(ticker),
    ensures
        popular(ticker) ==> 1000 <= drawn(ticker, draw).volume <= 5999,
        !popular(ticker) ==> 100 <= drawn(ticker, draw).volume <= 1099,
        drawn(ticker, draw).volume == volume_base(ticker) + draw.volume_offset,
{
}

/// A generator starts with the tickers it is told, and no others, each with a quote of its own
/// from before the first tick.
pub proof fn law_supported_tickers_are_known(
    tickers: Seq<Seq<char>>,
    prices: Seq<u64>,
    ticker: Seq<char>,
)
    requires
        tickers.len() == prices.len(),
    ensures
        opening_quotes(tickers, prices).contains_key(ticker) <==> tickers.contains(ticker),
        tickers.contains(ticker) ==> exists|i: int|
            0 <= i < tickers.len() && tickers[i] == ticker && opening_quotes(tickers, prices)[ticker]
                == opening_quote(ticker, #[trigger] prices[i]),
    decreases tickers.len(),
{
    if tickers.len() > 0 {
        let first = tickers.drop_last();
        law_supported_tickers_are_known(first, prices.drop_last(), ticker);
        if ticker == tickers.last() {
            assert(tickers[tickers.len() - 1] == ticker);
            assert(prices[prices.len() - 1] == prices.last());
        } else if tickers.contains(ticker) {
            let k = choose|k: int| 0 <= k < tickers.len() && tickers[k] == ticker;
            assert(first[k] == ticker);
            let i = choose|i: int|
                0 <= i < first.len() && first[i] == ticker && opening_quotes(
                    first,
                    prices.drop_last(),
                )[ticker] == opening_quote(ticker, #[trigger] prices.drop_last()[i]);
            assert(tickers[i] == ticker && prices[i] == prices.drop_last()[i]);
        } else {
            if first.contains(ticker) {
                let k = choose|k: int| 0 <= k < first.len() && first[k] == ticker;
                assert(tickers[k] == ticker);
            }
        }
    }
}

/// A quote lasts for a tick: asked for again by then, it is the same.
pub proof fn law_quote_lasts_for_a_tick<
    F: Fn(u64, u8, u32) -> QuoteDraw,
    G: Fn(u64, u8, u32) -> QuoteDraw,
>(
    g: GeneratorView,
    ticker: Seq<char>,
    now: u64,
    draw: F,
    given: QuoteView,
    later: u64,
    redraw: G,
    again: QuoteView,
)
    requires
        g.may_give(ticker, now, draw, given),
        later <= given.timestamp + g.tick_duration,
        g.after(seq![ticker], seq![given]).may_give(ticker, later, redraw, again),
    ensures
        again == given,
{
    lemma_one_replaced(g.quotes, ticker, given);
}

/// A quote is made anew after a tick, from the price that was given last.
pub proof fn law_quote_moves_after_a_tick<
    F: Fn(u64, u8, u32) -> QuoteDraw,
    G: Fn(u64, u8, u32) -> QuoteDraw,
>(
    g: GeneratorView,
    ticker: Seq<char>,
    now: u64,
    draw: F,
    given: QuoteView,
    later: u64,
    redraw: G,
    again: QuoteView,
)
    requires
        g.may_give(ticker, now, draw, given),
        later > given.timestamp + g.tick_duration,
        g.after(seq![ticker], seq![given]).may_give(ticker, later, redraw, again),
    ensures
        exists|d: QuoteDraw| #[trigger]
            call_ensures(
                redraw,
                (given.price_bits, g.price_deviation, volume_spread(ticker)),
                d,
            ) && again == drawn(ticker, d),
{
    lemma_one_replaced(g.quotes, ticker, given);
}

/// One quote replaced.
proof fn lemma_one_replaced(quotes: Map<Seq<char>, QuoteView>, ticker: Seq<char>, given: QuoteView)
    ensures
        replaced(quotes, seq![ticker], seq![given]) == quotes.insert(ticker, given),
{
    reveal_with_fuel(replaced, 2);
    assert(seq![ticker].drop_last() =~= Seq::empty());
}

/// What may be given for tickers may be given for all but the last, and then the last for it.
proof fn lemma_may_give_first<F: Fn(u64, u8, u32) -> QuoteDraw>(
    g: GeneratorView,
    tickers: Seq<Seq<char>>,
    now: u64,
    draw: F,
    given: Seq<QuoteView>,
)
    requires
        tickers.len() > 0,
        g.may_give_all(tickers, now, draw, given),
    ensures
        g.may_give_all(tickers.drop_last(), now, draw, given.drop_last()),
        g.after(tickers.drop_last(), given.drop_last()).may_give(
            tickers.last(),
            now,
            draw,
            given.last(),
        ),
{
    let n = tickers.len() - 1;
    let first = tickers.drop_last();
    let early = given.drop_last();
    assert(tickers.take(n) =~= first);
    assert(given.take(n) =~= early);
    assert(tickers[n] == tickers.last());
    assert forall|i: int| 0 <= i < first.len() implies g.after(
        first.take(i),
        early.take(i),
    ).may_give(#[trigger] first[i], now, draw, early[i]) by {
        assert(first.take(i) =~= tickers.take(i));
        assert(early.take(i) =~= given.take(i));
        assert(first[i] == tickers[i]);
    }
}

/// One quote given, of a table in order.
proof fn lemma_one_given<F: Fn(u64, u8, u32) -> QuoteDraw>(
    g: GeneratorView,
    ticker: Seq<char>,
    now: u64,
    draw: F,
    given: QuoteView,
)
    requires
        g.in_order(),
        g.may_give(ticker, now, draw, given),
    ensures
        given.ticker == ticker,
        ({
            let end = GeneratorView { quotes: g.quotes.insert(ticker, given), ..g };
            end.in_order() && end.quotes.dom() == g.quotes.dom()
        }),
{
    let end = GeneratorView { quotes: g.quotes.insert(ticker, given), ..g };
    assert(g.quotes[ticker].ticker == ticker);
    assert(end.quotes.dom() =~= g.quotes.dom());
    assert forall|t: Seq<char>| end.knows(t) implies (#[trigger] end.quotes[t]).ticker == t by {
        assert(g.knows(t));
        assert(t != ticker ==> end.quotes[t] == g.quotes[t]);
    }
}

/// To give quotes changes neither which tickers are known nor that every quote stands under its
/// own ticker; and each quote given is of the ticker that was asked for.
#[verifier::spinoff_prover]
pub proof fn law_quotes_answer_their_tickers<F: Fn(u64, u8, u32) -> QuoteDraw>(
    g: GeneratorView,
    tickers: Seq<Seq<char>>,
    now: u64,
    draw: F,
    given: Seq<QuoteView>,
)
    requires
        g.in_order(),
        g.may_give_all(tickers, now, draw, given),
    ensures
        g.after(tickers, given).in_order(),
        g.after(tickers, given).quotes.dom() == g.quotes.dom(),
        forall|i: int| 0 <= i < tickers.len() ==> (#[trigger] given[i]).ticker == tickers[i],
    decreases tickers.len(),
{
    if tickers.len() > 0 {
        let first = tickers.drop_last();
        let early = given.drop_last();
        lemma_may_give_first(g, tickers, now, draw, given);
        law_quotes_answer_their_tickers(g, first, now, draw, early);
        lemma_one_given(g.after(first, early), tickers.last(), now, draw, given.last());
        assert forall|i: int| 0 <= i < tickers.len() implies (#[trigger] given[i]).ticker
            == tickers[i] by {
            if i < first.len() {
                assert(early[i] == given[i] && first[i] == tickers[i]);
            }
        }
    }
}

/// A new quote carries what was drawn: the ticker that was asked for, the price and the time of
/// the draw, whole, and the volume that the draw puts above the least one.
pub proof fn law_new_quote_carries_the_draw(ticker: &str, draw: QuoteDraw, r: StockQuote)
    requires
        draw.volume_offset < volume_spread(ticker@),
        call_ensures(QuoteGenerator::generate_quote, (ticker, draw), r),
    ensures
        r.ticker@ == ticker@,
        r.price_bits == draw.price_bits,
        r.timestamp == draw.timestamp,
        ticker@ == "AAPL"@ || ticker@ == "MSFT"@ || ticker@ == "TSLA"@ ==> r.volume == 1000
            + draw.volume_offset,
        ticker@ != "AAPL"@ && ticker@ != "MSFT"@ && ticker@ != "TSLA"@ ==> r.volume == 100
            + draw.volume_offset,
{
}

/// The quote that a draw makes has the ticker, the price and the time as they are, and a volume
/// above the least of the ticker by what was drawn.
pub proof fn law_drawn_quote_is_the_draw(ticker: Seq<char>, draw: QuoteDraw)
    requires
        draw.volume_offset < volume_spread(ticker),
    ensures
        drawn(ticker, draw).ticker == ticker,
        drawn(ticker, draw).price_bits == draw.price_bits,
        drawn(ticker, draw).timestamp == draw.timestamp,
        drawn(ticker, draw).volume - draw.volume_offset == (if ticker == "AAPL"@ || ticker
            == "MSFT"@ || ticker == "TSLA"@ {
            1000int
        } else {
            100
        }),
{
}

/// A quote of AAPL, MSFT or TSLA can have any volume from 1000 up to 5999, one of another ticker
/// any from 100 up to 1099, and neither any other.
pub proof fn law_every_volume_can_come(ticker: Seq<char>, volume: u32)
    ensures
        (exists|d: QuoteDraw|
            d.volume_offset < volume_spread(ticker) && (#[trigger] drawn(ticker, d)).volume
                == volume) <==> (if ticker == "AAPL"@ || ticker == "MSFT"@ || ticker == "TSLA"@ {
            1000 <= volume <= 5999
        } else {
            100 <= volume <= 1099
        }),
{
    let least: int = if ticker == "AAPL"@ || ticker == "MSFT"@ || ticker == "TSLA"@ {
        1000
    } else {
        100
    };
    if least <= volume {
        let d = QuoteDraw { price_bits: 0, volume_offset: (volume - least) as u32, timestamp: 0 };
        assert(d.volume_offset < volume_spread(ticker) ==> drawn(ticker, d).volume == volume);
    }
}

/// A draw for AAPL, MSFT or TSLA is one of 5000 volumes, one for another ticker one of 1000.
pub proof fn law_spread_of_a_ticker(ticker: &str, r: u32)
    requires
        call_ensures(QuoteGenerator::spread, (ticker,), r),
    ensures
        r == volume_spread(ticker@),
        r == (if ticker@ == "AAPL"@ || ticker@ == "MSFT"@ || ticker@ == "TSLA"@ {
            5000int
        } else {
            1000
        }),
{
}

/// A quote that is given is the last one, unchanged, until more than a tick has passed since it
/// was made; then it is a new one, of this ticker and with the price and the time of a draw that
/// was told the last price and the deviation. Only known tickers get quotes.
pub proof fn law_quote_is_the_last_or_new<F: Fn(u64, u8, u32) -> QuoteDraw>(
    g: GeneratorView,
    ticker: Seq<char>,
    now: u64,
    draw: F,
    given: QuoteView,
)
    requires
        g.may_give(ticker, now, draw, given),
        draws_well(draw, g.price_deviation),
    ensures
        g.quotes.contains_key(ticker),
        now <= g.quotes[ticker].timestamp + g.tick_duration ==> given == g.quotes[ticker],
        now > g.quotes[ticker].timestamp + g.tick_duration ==> exists|d: QuoteDraw| #[trigger]
            call_ensures(
                draw,
                (g.quotes[ticker].price_bits, g.price_deviation, volume_spread(ticker)),
                d,
            ) && given.ticker == ticker && given.price_bits == d.price_bits && given.timestamp
                == d.timestamp && given.volume == volume_base(ticker) + d.volume_offset,
{
    if now > g.quotes[ticker].timestamp + g.tick_duration {
        let s = volume_spread(ticker);
        let d = choose|d: QuoteDraw| #[trigger]
            call_ensures(draw, (g.quotes[ticker].price_bits, g.price_deviation, s), d) && given
                == drawn(ticker, d);
        assert(d.volume_offset < s);
    }
}

/// Within a tick the quote stays: if what is drawn bears the time at which it is drawn, a quote
/// that was made at `now` bears that time, and is given again at any time up to a tick later.
pub proof fn law_new_quote_stays_for_its_tick<
    F: Fn(u64, u8, u32) -> QuoteDraw,
    G: Fn(u64, u8, u32) -> QuoteDraw,
>(
    g: GeneratorView,
    ticker: Seq<char>,
    now: u64,
    draw: F,
    given: QuoteView,
    later: u64,
    redraw: G,
    again: QuoteView,
)
    requires
        g.may_give(ticker, now, draw, given),
        now > g.quotes[ticker].timestamp + g.tick_duration,
        forall|p: u64, v: u8, s: u32, d: QuoteDraw| #[trigger]
            call_ensures(draw, (p, v, s), d) ==> d.timestamp == now,
        later <= now + g.tick_duration,
        g.after(seq![ticker], seq![given]).may_give(ticker, later, redraw, again),
    ensures
        given.timestamp == now,
        again == given,
{
    lemma_one_replaced(g.quotes, ticker, given);
}

/// A generator starts with every ticker it is told and no other, each at the price that is told
/// last for it, with no volume and from before all time.
pub proof fn law_opening_quotes_are_blank(
    tickers: Seq<Seq<char>>,
    prices: Seq<u64>,
    i: int,
    other: Seq<char>,
)
    requires
        tickers.len() == prices.len(),
        0 <= i < tickers.len(),
        forall|k: int| i < k < tickers.len() ==> #[trigger] tickers[k] != tickers[i],
    ensures
        opening_quotes(tickers, prices).contains_key(tickers[i]),
        opening_quotes(tickers, prices)[tickers[i]].ticker == tickers[i],
        opening_quotes(tickers, prices)[tickers[i]].price_bits == prices[i],
        opening_quotes(tickers, prices)[tickers[i]].volume == 0,
        opening_quotes(tickers, prices)[tickers[i]].timestamp == 0,
        opening_quotes(tickers, prices).contains_key(other) ==> tickers.contains(other),
    decreases tickers.len(),
{
    law_supported_tickers_are_known(tickers, prices, other);
    let first = tickers.drop_last();
    if i < first.len() {
        assert(first[i] == tickers[i]);
        assert(tickers[tickers.len() - 1] != tickers[i]);
        assert forall|k: int| i < k < first.len() implies #[trigger] first[k] != first[i] by {
            assert(first[k] == tickers[k]);
        }
        law_opening_quotes_are_blank(first, prices.drop_last(), i, other);
    }
}

/// A new generator holds what it was told.
pub proof fn law_new_generator_holds_what_it_is_told(
    supported_tickers: Vec<&str>,
    opening_prices: Vec<u64>,
    price_deviation: u8,
    tick_duration: u64,
    r: QuoteGenerator,
    i: int,
)
    requires
        supported_tickers@.len() == opening_prices@.len(),
        call_ensures(
            QuoteGenerator::new,
            (supported_tickers, opening_prices, price_deviation, tick_duration),
            r,
        ),
        0 <= i < supported_tickers@.len(),
        forall|k: int|
            i < k < supported_tickers@.len() ==> (#[trigger] supported_tickers@[k])@
                != supported_tickers@[i]@,
    ensures
        r@.price_deviation == price_deviation,
        r@.tick_duration == tick_duration,
        r@.quotes.contains_key(supported_tickers@[i]@),
        r@.quotes[supported_tickers@[i]@] == (QuoteView {
            ticker: supported_tickers@[i]@,
            price_bits: opening_prices@[i],
            volume: 0,
            timestamp: 0,
        }),
{
    let all = str_texts(supported_tickers@);
    assert(all[i] == supported_tickers@[i]@);
    assert forall|k: int| i < k < all.len() implies #[trigger] all[k] != all[i] by {
        assert(all[k] == supported_tickers@[k]@);
    }
    law_opening_quotes_are_blank(all, opening_prices@, i, all[i]);
}

/// The quote of `ticker` before the request at `i` is served: the last one that was given for it
/// before, else the one in the table.
pub open spec fn standing(
    g: GeneratorView,
    tickers: Seq<Seq<char>>,
    given: Seq<QuoteView>,
    ticker: Seq<char>,
    i: int,
) -> QuoteView
    decreases i,
{
    if i <= 0 {
        g.quotes[ticker]
    } else if tickers[i - 1] == ticker {
        given[i - 1]
    } else {
        standing(g, tickers, given, ticker, i - 1)
    }
}

/// The table after requests holds for each ticker what stands for it then; nothing else in it
/// changes, and no ticker comes or goes.
proof fn lemma_table_after(
    g: GeneratorView,
    tickers: Seq<Seq<char>>,
    given: Seq<QuoteView>,
    i: int,
    ticker: Seq<char>,
)
    requires
        given.len() == tickers.len(),
        0 <= i <= tickers.len(),
        g.quotes.contains_key(ticker),
    ensures
        g.after(tickers.take(i), given.take(i)).quotes.contains_key(ticker),
        g.after(tickers.take(i), given.take(i)).quotes[ticker] == standing(
            g,
            tickers,
            given,
            ticker,
            i,
        ),
    decreases i,
{
    if i > 0 {
        lemma_table_after(g, tickers, given, i - 1, ticker);
        assert(tickers.take(i).drop_last() =~= tickers.take(i - 1));
        assert(given.take(i).drop_last() =~= given.take(i - 1));
        assert(tickers.take(i).last() == tickers[i - 1]);
        assert(given.take(i).last() == given[i - 1]);
    }
}

/// Requests are served one after the other. For each the quote that stands for its ticker then,
/// the one given last before or else the one of the table, is given again if it is not older than
/// a tick, and else a new one that is drawn from its price.
pub proof fn law_each_request_gets_its_quote<F: Fn(u64, u8, u32) -> QuoteDraw>(
    g: GeneratorView,
    tickers: Seq<Seq<char>>,
    now: u64,
    draw: F,
    given: Seq<QuoteView>,
    i: int,
)
    requires
        draws_well(draw, g.price_deviation),
        g.may_give_all(tickers, now, draw, given),
        0 <= i < tickers.len(),
        g.quotes.contains_key(tickers[i]),
    ensures
        given.len() == tickers.len(),
        ({
            let last = standing(g, tickers, given, tickers[i], i);
            if now <= last.timestamp + g.tick_duration {
                given[i] == last
            } else {
                exists|d: QuoteDraw| #[trigger]
                    call_ensures(
                        draw,
                        (last.price_bits, g.price_deviation, volume_spread(tickers[i])),
                        d,
                    ) && given[i].ticker == tickers[i] && given[i].price_bits == d.price_bits
                        && given[i].timestamp == d.timestamp && given[i].volume == volume_base(
                        tickers[i],
                    ) + d.volume_offset
            }
        }),
{
    lemma_table_after(g, tickers, given, i, tickers[i]);
    law_quote_is_the_last_or_new(
        g.after(tickers.take(i), given.take(i)),
        tickers[i],
        now,
        draw,
        given[i],
    );
}

/// After requests the table holds for each ticker the quote that was given last for it, and the
/// one from before if none was; no ticker comes, and neither the deviation nor the tick changes.
pub proof fn law_table_holds_what_was_given_last(
    g: GeneratorView,
    tickers: Seq<Seq<char>>,
    given: Seq<QuoteView>,
    ticker: Seq<char>,
)
    requires
        given.len() == tickers.len(),
    ensures
        g.after(tickers, given).price_deviation == g.price_deviation,
        g.after(tickers, given).tick_duration == g.tick_duration,
        g.quotes.contains_key(ticker) ==> g.after(tickers, given).quotes.contains_key(ticker)
            && g.after(tickers, given).quotes[ticker] == standing(
            g,
            tickers,
            given,
            ticker,
            tickers.len() as int,
        ),
        !g.quotes.contains_key(ticker) && !tickers.contains(ticker) ==> !g.after(
            tickers,
            given,
        ).quotes.contains_key(ticker),
    decreases tickers.len(),
{
    let n = tickers.len() as int;
    assert(tickers.take(n) =~= tickers);
    assert(given.take(n) =~= given);
    if g.quotes.contains_key(ticker) {
        lemma_table_after(g, tickers, given, n, ticker);
    } else if !tickers.contains(ticker) && n > 0 {
        assert(tickers[n - 1] != ticker);
        assert forall|k: int| 0 <= k < n - 1 implies #[trigger] tickers.drop_last()[k] != ticker by {
            assert(tickers[k] != ticker);
        }
        law_table_holds_what_was_given_last(g, tickers.drop_last(), given.drop_last(), ticker);
    }
}

/// Quotes are given for known tickers only.
#[verifier::spinoff_prover]
pub proof fn law_quotes_are_for_known_tickers<F: Fn(u64, u8, u32) -> QuoteDraw>(
    g: GeneratorView,
    tickers: Seq<Seq<char>>,
    now: u64,
    draw: F,
    given: Seq<QuoteView>,
    k: int,
)
    requires
        g.in_order(),
        g.may_give_all(tickers, now, draw, given),
        0 <= k < tickers.len(),
    ensures
        given.len() == tickers.len(),
        g.quotes.contains_key(tickers[k]),
    decreases tickers.len(),
{
    lemma_may_give_first(g, tickers, now, draw, given);
    let first = tickers.drop_last();
    if k < first.len() {
        law_quotes_are_for_known_tickers(g, first, now, draw, given.drop_last(), k);
    } else {
        law_quotes_answer_their_tickers(g, first, now, draw, given.drop_last());
        assert(g.after(first, given.drop_last()).quotes.dom().contains(tickers[k]));
    }
}

/// Requests fail at the first ticker that is not known, and nowhere else: all before it were
/// served.
pub proof fn law_failure_is_at_the_first_unknown_ticker<F: Fn(u64, u8, u32) -> QuoteDraw>(
    g: GeneratorView,
    tickers: Seq<Seq<char>>,
    now: u64,
    draw: F,
    given: Seq<QuoteView>,
)
    requires
        g.in_order(),
        g.may_end(tickers, now, draw, given),
    ensures
        given.len() < tickers.len(),
        !g.quotes.contains_key(tickers[given.len() as int]),
        forall|k: int| 0 <= k < given.len() ==> g.quotes.contains_key(#[trigger] tickers[k]),
        g.may_give_all(tickers.take(given.len() as int), now, draw, given),
{
    let first = tickers.take(given.len() as int);
    assert forall|k: int| 0 <= k < given.len() implies g.quotes.contains_key(
        #[trigger] tickers[k],
    ) by {
        law_quotes_are_for_known_tickers(g, first, now, draw, given, k);
        assert(first[k] == tickers[k]);
    }
}

} // verus!

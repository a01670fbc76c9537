use quote_stream::generator::{QuoteDraw, QuoteGenerator, QuoteGeneratorError};

fn price(bits: u64) -> f64 {
    f64::from_bits(bits)
}

fn moved(bits: u64, deviation: u8, spread: u32) -> QuoteDraw {
    let last = price(bits);
    let step = last * deviation as f64 / 100.0 * 0.5;
    QuoteDraw {
        price_bits: (last + step).to_bits(),
        volume_offset: spread - 1,
        timestamp: 10_000,
    }
}

#[test]
fn test_get_quotes_returns_correct_tickers() {
    let opening = vec![(0.25f64 * 1000.0).to_bits(), (0.5f64 * 1000.0).to_bits()];
    let mut generator = QuoteGenerator::new(vec!["AAPL", "GOOG"], opening, 5, 1000);
    let quotes = generator
        .get_quotes(vec!["AAPL", "GOOG"], 10_000, moved)
        .unwrap();
    assert_eq!(quotes.len(), 2);
    for quote in &quotes {
        assert!(price(quote.price_bits) > 0.0 && price(quote.price_bits) < 1000.0);
    }
    assert_eq!(quotes[0].ticker, "AAPL");
    assert_eq!(quotes[1].ticker, "GOOG");
    assert_eq!(quotes[0].price_bits, (250.0f64 + 6.25).to_bits());
    assert_eq!(quotes[0].timestamp, 10_000);
}

#[test]
fn test_quote_refreshes_after_tick() {
    let mut generator = QuoteGenerator::new(vec!["AAPL"], vec![100.0f64.to_bits()], 5, 100);
    let q1 = price(generator.get_quotes(vec!["AAPL"], 10_000, moved).unwrap()[0].price_bits);
    let mut q2 = price(generator.get_quotes(vec!["AAPL"], 10_000, moved).unwrap()[0].price_bits);
    assert!(q1 == q2);

    q2 = price(generator.get_quotes(vec!["AAPL"], 10_200, moved).unwrap()[0].price_bits);
    assert!(q1 != q2);
}

#[test]
fn test_invalid_ticker_returns_error() {
    let mut generator = QuoteGenerator::new(vec!["AAPL"], vec![1.0f64.to_bits()], 5, 1000);
    assert!(generator.get_quotes(vec!["INVALID"], 10_000, moved).is_err());
    assert_eq!(
        generator.get_quotes(vec!["INVALID"], 10_000, moved),
        Err(QuoteGeneratorError::InvalidTicker)
    );
}

#[test]
fn quote_lasts_exactly_one_tick() {
    let mut generator = QuoteGenerator::new(vec!["IBM"], vec![100.0f64.to_bits()], 5, 100);
    let first = generator.get_quotes(vec!["IBM"], 10_000, moved).unwrap();
    let at_tick = generator.get_quotes(vec!["IBM"], 10_100, moved).unwrap();
    assert_eq!(first, at_tick);
    let after_tick = generator.get_quotes(vec!["IBM"], 10_101, moved).unwrap();
    assert_ne!(first, after_tick);
}

#[test]
fn opening_quotes_are_given_before_the_first_tick() {
    let mut generator = QuoteGenerator::new(vec!["IBM"], vec![7], 5, 100);
    let quotes = generator.get_quotes(vec!["IBM"], 100, moved).unwrap();
    assert_eq!(quotes[0].price_bits, 7);
    assert_eq!(quotes[0].volume, 0);
    assert_eq!(quotes[0].timestamp, 0);
}

#[test]
fn a_huge_tick_never_ends() {
    let mut generator = QuoteGenerator::new(vec!["IBM"], vec![100.0f64.to_bits()], 5, 0);
    let first = generator.get_quotes(vec!["IBM"], 1, moved).unwrap();
    assert_eq!(first[0].timestamp, 10_000);
    let mut slow = QuoteGenerator::new(vec!["IBM"], vec![7], 5, u64::MAX);
    assert_eq!(slow.get_quotes(vec!["IBM"], u64::MAX, moved).unwrap()[0].price_bits, 7);
}

#[test]
fn what_was_made_before_an_unknown_ticker_stays() {
    let mut generator = QuoteGenerator::new(vec!["IBM"], vec![100.0f64.to_bits()], 10, 100);
    assert!(generator.get_quotes(vec!["IBM", "NONE"], 5_000, moved).is_err());
    let quotes = generator.get_quotes(vec!["IBM"], 5_001, moved).unwrap();
    assert_eq!(quotes[0].price_bits, 105.0f64.to_bits());
    assert_eq!(quotes[0].timestamp, 10_000);
}

#[test]
fn the_last_price_of_a_repeated_ticker_counts() {
    let mut generator = QuoteGenerator::new(vec!["A", "B", "A"], vec![1, 2, 3], 5, 100);
    let quotes = generator.get_quotes(vec!["A", "B", "A"], 0, moved).unwrap();
    assert_eq!(quotes[0].price_bits, 3);
    assert_eq!(quotes[1].price_bits, 2);
    assert_eq!(quotes[2], quotes[0]);
}

#[test]
fn draws_see_the_last_price_the_deviation_and_the_spread() {
    let mut generator = QuoteGenerator::new(vec!["AAPL", "IBM"], vec![11, 12], 7, 0);
    let seen = generator
        .get_quotes(vec!["AAPL", "IBM"], 1, |p, d, s| QuoteDraw {
            price_bits: p * 1_000_000 + d as u64 * 10_000 + s as u64,
            volume_offset: 0,
            timestamp: 1,
        })
        .unwrap();
    assert_eq!(seen[0].price_bits, 11_075_000);
    assert_eq!(seen[1].price_bits, 12_071_000);
}

#[test]
fn volumes_of_popular_tickers_are_larger() {
    let least = QuoteDraw { price_bits: 1, volume_offset: 0, timestamp: 2 };
    for ticker in ["AAPL", "MSFT", "TSLA"] {
        assert_eq!(QuoteGenerator::spread(ticker), 5000);
        assert_eq!(QuoteGenerator::generate_quote(ticker, least).volume, 1000);
        let most = QuoteDraw { volume_offset: 4999, ..least };
        assert_eq!(QuoteGenerator::generate_quote(ticker, most).volume, 5999);
    }
    assert_eq!(QuoteGenerator::spread("GOOG"), 1000);
    let quote = QuoteGenerator::generate_quote("GOOG", least);
    assert_eq!(quote.volume, 100);
    assert_eq!(quote.ticker, "GOOG");
    assert_eq!(quote.price_bits, 1);
    assert_eq!(quote.timestamp, 2);
    let most = QuoteDraw { volume_offset: 999, ..least };
    assert_eq!(QuoteGenerator::generate_quote("GOOG", most).volume, 1099);
}

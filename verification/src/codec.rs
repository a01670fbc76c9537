//! The wire format of a quote.
use vstd::bytes::*;
use vstd::prelude::*;
use vstd::utf8::*;

use crate::quote::{QuoteView, StockQuote};

verus! {

/// The error type of `bincode`.
#[verifier::external_type_specification]
#[verifier::external_body]
pub struct ExBincodeErrorKind(bincode::ErrorKind);

/// Why a datagram is no quote.
#[derive(Clone, Copy, PartialEq, Eq, Structural, Debug)]
pub enum DecodeError {
    /// The bytes do not start with a quote.
    NotAQuote,
}

/// How many bytes a quote takes besides its ticker.
pub const FIXED_BYTES: usize = 28;

/// Memory can hold the bytes of a quote of `ticker`.
pub open spec fn fits_memory(ticker: Seq<char>) -> bool {
    encode_utf8(ticker).len() + FIXED_BYTES <= isize::MAX
}

/// The quote with these fields.
pub open spec fn quote_of(
    ticker: Seq<char>,
    price_bits: u64,
    volume: u32,
    timestamp: u64,
) -> QuoteView {
    QuoteView { ticker, price_bits, volume, timestamp }
}

/// The bytes of a quote: the length of the ticker in UTF-8, the ticker in UTF-8, the bit pattern
/// of the price, the volume and the timestamp; every number of fixed width, its lowest byte first.
pub open spec fn quote_bytes(q: QuoteView) -> Seq<u8> {
    spec_u64_to_le_bytes(encode_utf8(q.ticker).len() as u64) + encode_utf8(q.ticker)
        + spec_u64_to_le_bytes(q.price_bits) + spec_u32_to_le_bytes(q.volume)
        + spec_u64_to_le_bytes(q.timestamp)
}

/// `bytes` start with the bytes of `q`.
pub open spec fn starts_with_quote(bytes: Seq<u8>, q: QuoteView) -> bool {
    quote_bytes(q).is_prefix_of(bytes)
}

/// The quote that `bytes` start with, if they start with one.
pub open spec fn quote_in(bytes: Seq<u8>) -> Option<QuoteView> {
    if exists|q: QuoteView| starts_with_quote(bytes, q) {
        Some(choose|q: QuoteView| starts_with_quote(bytes, q))
    } else {
        None
    }
}

/// Calls `bincode::serialize` on the fields of a quote, in their order. Claims that it succeeds
/// and gives the bytes of the quote. Memory must hold them.
#[verifier::external_body]
fn serialize_fields(ticker: &str, price_bits: u64, volume: u32, timestamp: u64) -> (r: Result<
    Vec<u8>,
    bincode::Error,
>)
    requires
        fits_memory(ticker@),
    ensures
        r is Ok,
        r->Ok_0@ == quote_bytes(quote_of(ticker@, price_bits, volume, timestamp)),
{
    bincode::serialize(&(ticker, price_bits, volume, timestamp))
}

/// Calls `bincode::deserialize` for the fields of a quote, in their order. Claims that it gives
/// the fields of a quote whose bytes `bytes` start with, and fails only if there is none.
#[verifier::external_body]
fn deserialize_fields(bytes: &[u8]) -> (r: Result<(String, u64, u32, u64), bincode::Error>)
    ensures
        match r {
            Ok(f) => starts_with_quote(bytes@, quote_of(f.0@, f.1, f.2, f.3)),
            Err(_) => forall|q: QuoteView| !starts_with_quote(bytes@, q),
        },
{
    bincode::deserialize::<(String, u64, u32, u64)>(bytes)
}

/// The bytes of a quote as they are sent.
pub fn encode_quote(quote: &StockQuote) -> (r: Vec<u8>)
    requires
        fits_memory(quote.ticker@),
    ensures
        r@ == quote_bytes(quote@),
{
    serialize_fields(quote.ticker.as_str(), quote.price_bits, quote.volume, quote.timestamp).unwrap()
}

/// The quote that a datagram starts with. What follows it is passed over.
pub fn decode_quote(bytes: &[u8]) -> (r: Result<StockQuote, DecodeError>)
    ensures
        match r {
            Ok(q) => quote_in(bytes@) == Some(q@),
            Err(e) => e == DecodeError::NotAQuote && quote_in(bytes@) is None,
        },
{
    let size: usize = bytes.len();
    match deserialize_fields(bytes) {
        Ok(fields) => {
            let (ticker, price_bits, volume, timestamp) = fields;
            let q = StockQuote { ticker, price_bits, volume, timestamp };
            proof {
                assert(bytes@.len() == size);
                assert(starts_with_quote(bytes@, q@));
                law_one_reading(bytes@, q@, quote_in(bytes@)->0);
            }
            Ok(q)
        },
        Err(_) => Err(DecodeError::NotAQuote),
    }
}

/// Bytes start with one quote at most, if there are no more of them than eight bytes can count.
pub proof fn law_one_reading(bytes: Seq<u8>, q: QuoteView, p: QuoteView)
    requires
        bytes.len() <= u64::MAX,
        starts_with_quote(bytes, q),
        starts_with_quote(bytes, p),
    ensures
        q == p,
{
    lemma_auto_spec_u64_to_from_le_bytes();
    lemma_auto_spec_u32_to_from_le_bytes();
    let n = lemma_fields(bytes, q);
    let m = lemma_fields(bytes, p);
    assert(n == m);
    encode_utf8_decode_utf8(q.ticker);
    encode_utf8_decode_utf8(p.ticker);
    assert(q.ticker == p.ticker);
}

/// Where the fields of a quote stand, and that they take as many bytes as they are said to.
proof fn lemma_fields(bytes: Seq<u8>, q: QuoteView) -> (n: int)
    requires
        bytes.len() <= u64::MAX,
        starts_with_quote(bytes, q),
    ensures
        n == encode_utf8(q.ticker).len(),
        n == spec_u64_from_le_bytes(bytes.subrange(0, 8)),
        n + FIXED_BYTES <= bytes.len(),
        quote_bytes(q).len() == n + FIXED_BYTES,
        encode_utf8(q.ticker) == bytes.subrange(8, 8 + n),
        q.price_bits == spec_u64_from_le_bytes(bytes.subrange(8 + n, 16 + n)),
        q.volume == spec_u32_from_le_bytes(bytes.subrange(16 + n, 20 + n)),
        q.timestamp == spec_u64_from_le_bytes(bytes.subrange(20 + n, 28 + n)),
{
    lemma_auto_spec_u64_to_from_le_bytes();
    lemma_auto_spec_u32_to_from_le_bytes();
    let t = encode_utf8(q.ticker);
    let n = t.len() as int;
    let length = spec_u64_to_le_bytes(t.len() as u64);
    let price = spec_u64_to_le_bytes(q.price_bits);
    let volume = spec_u32_to_le_bytes(q.volume);
    let time = spec_u64_to_le_bytes(q.timestamp);
    let all = quote_bytes(q);
    assert(all.len() == n + 28);
    assert(forall|i: int| 0 <= i < all.len() ==> all[i] == #[trigger] bytes[i]);
    assert(bytes.subrange(0, 8) =~= length);
    assert(bytes.subrange(8, 8 + n) =~= t);
    assert(bytes.subrange(8 + n, 16 + n) =~= price);
    assert(bytes.subrange(16 + n, 20 + n) =~= volume);
    assert(bytes.subrange(20 + n, 28 + n) =~= time);
    n
}

/// A datagram that starts with the bytes of a quote is read as that quote, whatever follows:
/// what is sent is what is received.
pub proof fn law_reads_what_was_sent(q: QuoteView, rest: Seq<u8>)
    requires
        quote_bytes(q).len() + rest.len() <= u64::MAX,
    ensures
        quote_in(quote_bytes(q) + rest) == Some(q),
{
    let bytes = quote_bytes(q) + rest;
    assert(starts_with_quote(bytes, q));
    law_one_reading(bytes, q, quote_in(bytes)->0);
}

/// The bytes of a quote, read back at their places: eight bytes that count the bytes of the
/// ticker, the ticker in UTF-8, eight bytes of the price, four of the volume and eight of the
/// time, each number with its lowest byte first; and nothing more.
pub proof fn law_layout_of_a_quote(q: QuoteView)
    requires
        quote_bytes(q).len() <= u64::MAX,
    ensures
        ({
            let bytes = quote_bytes(q);
            let n = encode_utf8(q.ticker).len() as int;
            &&& bytes.len() == 28 + n
            &&& spec_u64_from_le_bytes(bytes.subrange(0, 8)) == n
            &&& bytes.subrange(8, 8 + n) == encode_utf8(q.ticker)
            &&& spec_u64_from_le_bytes(bytes.subrange(8 + n, 16 + n)) == q.price_bits
            &&& spec_u32_from_le_bytes(bytes.subrange(16 + n, 20 + n)) == q.volume
            &&& spec_u64_from_le_bytes(bytes.subrange(20 + n, 28 + n)) == q.timestamp
        }),
{
    assert(starts_with_quote(quote_bytes(q), q));
    let n = lemma_fields(quote_bytes(q), q);
}

/// Bytes are read as a quote if and only if they start with the bytes of one, and then as that
/// one.
pub proof fn law_read_if_and_only_if_it_starts_so(bytes: Seq<u8>, q: QuoteView)
    requires
        bytes.len() <= u64::MAX,
    ensures
        quote_in(bytes) == Some(q) <==> quote_bytes(q).is_prefix_of(bytes),
        quote_in(bytes) is None ==> !quote_bytes(q).is_prefix_of(bytes),
{
    if starts_with_quote(bytes, q) {
        law_one_reading(bytes, q, quote_in(bytes)->0);
    }
}

/// What was encoded is decoded again, also with other bytes behind it.
pub proof fn law_decoded_as_encoded(
    quote: &StockQuote,
    encoded: Vec<u8>,
    datagram: &[u8],
    r: Result<StockQuote, DecodeError>,
)
    requires
        fits_memory(quote.ticker@),
        call_ensures(encode_quote, (quote,), encoded),
        encoded@.is_prefix_of(datagram@),
        datagram@.len() <= u64::MAX,
        call_ensures(decode_quote, (datagram,), r),
    ensures
        r is Ok,
        r->Ok_0@ == quote@,
        encoded@.len() == 28 + encode_utf8(quote.ticker@).len(),
{
    law_read_if_and_only_if_it_starts_so(datagram@, quote@);
    law_layout_of_a_quote(quote@);
}

} // verus!

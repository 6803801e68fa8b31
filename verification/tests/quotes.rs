use tdx::standard::{Market, SecurityQuotes};
use tdx::wire::{encode_varint, ByteReader, ByteWriter};
use tdx::{Request, SecurityCode, TdxError};

#[test]
fn request_lists_each_security_after_fixed_prefix() {
    let request = SecurityQuotes {
        securities: vec![
            (Market::Shanghai, SecurityCode::new("600000").unwrap()),
            (Market::Shenzhen, SecurityCode::new("159915").unwrap()),
        ],
    };
    let mut body = ByteWriter::new();
    request.encode(&mut body).unwrap();
    let mut expected = vec![5, 0, 0, 0, 0, 0, 0, 0, 2, 0, 1];
    expected.extend_from_slice(b"600000");
    expected.push(0);
    expected.extend_from_slice(b"159915");
    assert_eq!(body.as_slice(), expected.as_slice());
    assert!(SecurityQuotes { securities: vec![] }
        .encode(&mut ByteWriter::new())
        .is_err());
}

fn quote_bytes() -> Vec<u8> {
    let mut bytes = vec![0xb1, 0xcb, 1, 0, 1];
    bytes.extend_from_slice(b"510050");
    bytes.extend_from_slice(&[7, 0]);
    let varints = |bytes: &mut Vec<u8>, values: &[i64]| {
        for value in values {
            encode_varint(*value, bytes);
        }
    };
    // Price 3037, then previous close/open/high/low as differences, then time, reserved,
    // total volume and current volume.
    varints(&mut bytes, &[3037, 6, 11, 30, -3, 14_593_620, -1, 2_000, 5]);
    bytes.extend_from_slice(&123_456.0f32.to_le_bytes());
    varints(&mut bytes, &[900, 1_100, 0, 0]);
    for level in 0..5i64 {
        varints(&mut bytes, &[-1 - level, 1 + level, 10 + level, 20 + level]);
    }
    bytes.extend_from_slice(&[0, 0]);
    varints(&mut bytes, &[0, 0, 0, 0]);
    bytes.extend_from_slice(&(-12i16).to_le_bytes());
    bytes.extend_from_slice(&[7, 0]);
    bytes
}

#[test]
fn quote_prices_are_absolute_and_book_levels_are_ordered() {
    let bytes = quote_bytes();
    let request = SecurityQuotes { securities: vec![] };
    let quotes = request.decode(&mut ByteReader::new(&bytes)).unwrap();
    let quote = &quotes[0];
    assert_eq!(quote.code.to_string(), "510050");
    assert_eq!(
        (
            quote.price,
            quote.previous_close,
            quote.open,
            quote.high,
            quote.low
        ),
        (3037, 3043, 3048, 3067, 3034)
    );
    assert_eq!(
        (quote.volume, f64::from(f32::from_bits(quote.amount))),
        (2_000, 123_456.0)
    );
    assert_eq!((quote.bids[0].price, quote.asks[0].price), (3036, 3038));
    assert_eq!((quote.bids[4].price, quote.asks[4].volume), (3032, 24));
    assert_eq!((quote.speed, quote.active2), (-12, 7));
}

#[test]
fn quote_fields_land_where_the_layout_puts_them() {
    let bytes = quote_bytes();
    let mut reader = ByteReader::new(&bytes);
    let quotes = SecurityQuotes { securities: vec![] }.decode(&mut reader).unwrap();
    assert_eq!(reader.remaining(), 0);
    let quote = &quotes[0];
    assert_eq!((quote.market, quote.active1), (1, 7));
    assert_eq!((quote.server_time, quote.unknown_1, quote.current_volume), (14_593_620, -1, 5));
    assert_eq!((quote.sell_volume, quote.buy_volume), (900, 1_100));
    assert_eq!((quote.bids[2].price, quote.bids[2].volume), (3034, 12));
    assert_eq!((quote.asks[2].price, quote.asks[2].volume), (3040, 22));
}

#[test]
fn a_truncated_quote_is_a_decode_error() {
    let bytes = quote_bytes();
    let request = SecurityQuotes { securities: vec![] };
    for cut in [1, 3, 10, bytes.len() - 1] {
        assert!(matches!(
            request.decode(&mut ByteReader::new(&bytes[..cut])),
            Err(TdxError::Decode(_))
        ));
    }
}

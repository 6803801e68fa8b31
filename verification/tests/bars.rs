use tdx::standard::{BarDecoder, BarPeriod, IndexBars, Market, SecurityBars, MAX_BARS_PER_REQUEST};
use tdx::wire::{encode_varint, ByteReader, ByteWriter};
use tdx::{Request, SecurityCode, TdxDate, TdxError};

fn request(period: BarPeriod) -> SecurityBars {
    SecurityBars {
        market: Market::Shanghai,
        code: SecurityCode::new("600000").unwrap(),
        period,
        offset: 800,
        count: 2,
    }
}

/// A price in thousandths of a yuan, in yuan.
fn yuan(milli: i64) -> f64 {
    milli as f64 / 1000.0
}

/// A single-precision quantity carried as its bit pattern.
fn single(bits: u32) -> f64 {
    f64::from(f32::from_bits(bits))
}

#[test]
fn request_body_layout() {
    let mut body = ByteWriter::new();
    request(BarPeriod::Day).encode(&mut body).unwrap();
    assert_eq!(
        body.as_slice(),
        &[
            1, 0, b'6', b'0', b'0', b'0', b'0', b'0', 9, 0, 1, 0, 0x20, 0x03, 2, 0, 0, 0, 0, 0, 0,
            0, 0, 0, 0, 0
        ]
    );
    let mut too_many = request(BarPeriod::Day);
    too_many.count = 801;
    assert!(too_many.encode(&mut ByteWriter::new()).is_err());
}

fn encode_row(out: &mut Vec<u8>, date: u32, diffs: [i64; 4], volume: f32, amount: f32) {
    out.extend_from_slice(&date.to_le_bytes());
    for diff in diffs {
        encode_varint(diff, out);
    }
    out.extend_from_slice(&volume.to_le_bytes());
    out.extend_from_slice(&amount.to_le_bytes());
}

#[test]
fn prices_chain_from_previous_close() {
    let mut bytes = vec![2, 0];
    // First bar: open 10.000 (from 0), close +0.500, high +0.800, low -0.100.
    encode_row(
        &mut bytes,
        20_260_910,
        [10_000, 500, 800, -100],
        100.0,
        1_000.0,
    );
    // Second bar: open -0.200 from the previous close, close +0.000, high +0.300, low -0.050.
    encode_row(&mut bytes, 20_260_911, [-200, 0, 300, -50], 200.0, 2_000.0);

    let bars = request(BarPeriod::Day)
        .decode(&mut ByteReader::new(&bytes))
        .unwrap();
    assert_eq!(bars.len(), 2);
    assert_eq!(
        bars[0].time.date,
        TdxDate {
            year: 2026,
            month: 9,
            day: 10
        }
    );
    assert_eq!(
        (
            yuan(bars[0].open),
            yuan(bars[0].close),
            yuan(bars[0].high),
            yuan(bars[0].low)
        ),
        (10.0, 10.5, 10.8, 9.9)
    );
    assert_eq!(
        (
            yuan(bars[1].open),
            yuan(bars[1].close),
            yuan(bars[1].high),
            yuan(bars[1].low)
        ),
        (10.3, 10.3, 10.6, 10.25)
    );
    assert_eq!(
        (single(bars[1].volume), single(bars[1].amount)),
        (200.0, 2_000.0)
    );
    assert!(request(BarPeriod::Day)
        .decode(&mut ByteReader::new(&[0, 0]))
        .unwrap()
        .is_empty());

    let index = IndexBars {
        market: Market::Shanghai,
        code: SecurityCode::new("000001").unwrap(),
        period: BarPeriod::Day,
        offset: 0,
        count: 2,
    };
    assert!(
        index.decode(&mut ByteReader::new(&bytes)).is_err(),
        "index bars carry 4 extra bytes per row"
    );
    let mut index_bytes = vec![1, 0];
    encode_row(
        &mut index_bytes,
        20_260_910,
        [10_000, 500, 800, -100],
        100.0,
        1_000.0,
    );
    index_bytes.extend_from_slice(&[12, 0, 34, 0]);
    let rows = index.decode(&mut ByteReader::new(&index_bytes)).unwrap();
    assert_eq!((rows[0].advancers, rows[0].decliners), (12, 34));
    assert_eq!(yuan(rows[0].bar.close), 10.5);
}

#[test]
fn bar_count_must_be_between_one_and_the_page_limit() {
    let mut zero = request(BarPeriod::Minute5);
    zero.count = 0;
    let mut body = ByteWriter::new();
    body.u8(0xaa);
    assert!(matches!(
        zero.encode(&mut body),
        Err(TdxError::InvalidArgument(_))
    ));
    assert_eq!(body.as_slice(), &[0xaa], "a refused request writes nothing");
    let mut most = request(BarPeriod::Minute5);
    most.count = MAX_BARS_PER_REQUEST;
    assert!(most.encode(&mut ByteWriter::new()).is_ok());
}

#[test]
fn period_codes_and_intraday_flags() {
    let periods = [
        (BarPeriod::Minute1, 7, true),
        (BarPeriod::Minute5, 0, true),
        (BarPeriod::Minute15, 1, true),
        (BarPeriod::Minute30, 2, true),
        (BarPeriod::Minute60, 3, true),
        (BarPeriod::Day, 9, false),
        (BarPeriod::Week, 5, false),
        (BarPeriod::Month, 6, false),
    ];
    for (period, code, intraday) in periods {
        assert_eq!(period.code(), code);
        assert_eq!(period.is_intraday(), intraday);
    }
}

#[test]
fn intraday_bars_carry_a_time_of_day() {
    let mut bytes = vec![1, 0];
    bytes.extend_from_slice(&((22u16 << 11) | 911).to_le_bytes());
    bytes.extend_from_slice(&(9u16 * 60 + 31).to_le_bytes());
    for diff in [3_000i64, 10, 20, -5] {
        encode_varint(diff, &mut bytes);
    }
    bytes.extend_from_slice(&5.0f32.to_le_bytes());
    bytes.extend_from_slice(&6.0f32.to_le_bytes());
    let bars = request(BarPeriod::Minute1)
        .decode(&mut ByteReader::new(&bytes))
        .unwrap();
    assert_eq!((bars[0].time.hour, bars[0].time.minute), (9, 31));
    assert_eq!((bars[0].open, bars[0].close, bars[0].high, bars[0].low), (3_000, 3_010, 3_020, 2_995));
}

#[test]
fn a_price_sum_beyond_i64_wraps_around() {
    let mut bytes = vec![2, 0];
    bytes.extend_from_slice(&20_260_910u32.to_le_bytes());
    for diff in [i64::MAX, 0, 0, 0] {
        encode_varint(diff, &mut bytes);
    }
    bytes.extend_from_slice(&[0; 8]);
    bytes.extend_from_slice(&20_260_911u32.to_le_bytes());
    for diff in [1, 0, 0, 0] {
        encode_varint(diff, &mut bytes);
    }
    bytes.extend_from_slice(&[0; 8]);
    let bars = request(BarPeriod::Day).decode(&mut ByteReader::new(&bytes)).unwrap();
    assert_eq!(bars[0].close, i64::MAX);
    assert_eq!(bars[1].open, i64::MIN);
    assert_eq!(bars[1].close, i64::MIN);
}

#[test]
fn decoder_chains_each_bar_from_the_close_before() {
    let mut bytes = Vec::new();
    encode_row(&mut bytes, 20_260_910, [10_000, 500, 800, -100], 100.0, 1_000.0);
    encode_row(&mut bytes, 20_260_911, [-200, 300, 400, -50], 5.0, 6.0);
    let mut reader = ByteReader::new(&bytes);
    let mut decoder = BarDecoder::new(BarPeriod::Day);
    let first = decoder.next(&mut reader).unwrap();
    assert_eq!((first.open, first.close, first.high, first.low), (10_000, 10_500, 10_800, 9_900));
    assert_eq!(first.volume, 100.0f32.to_bits());
    assert_eq!(first.amount, 1_000.0f32.to_bits());
    let second = decoder.next(&mut reader).unwrap();
    assert_eq!((second.open, second.close, second.high, second.low), (10_300, 10_600, 10_700, 10_250));
    assert_eq!(second.time.date, TdxDate { year: 2026, month: 9, day: 11 });
    assert_eq!(reader.remaining(), 0);
    assert!(matches!(decoder.next(&mut reader), Err(TdxError::Decode(_))));
}

use tdx::standard::{Market, XdxrInfo, XdxrPayload};
use tdx::wire::{ByteReader, ByteWriter};
use tdx::{Request, SecurityCode, TdxDate};

fn row(date: u32, category: u8, payload: [u8; 16]) -> Vec<u8> {
    let mut bytes = vec![1];
    bytes.extend_from_slice(b"600000");
    bytes.push(0);
    bytes.extend_from_slice(&date.to_le_bytes());
    bytes.push(category);
    bytes.extend_from_slice(&payload);
    bytes
}

fn floats(values: [f32; 4]) -> [u8; 16] {
    let mut out = [0u8; 16];
    for (index, value) in values.iter().enumerate() {
        out[index * 4..index * 4 + 4].copy_from_slice(&value.to_le_bytes());
    }
    out
}

fn single(bits: u32) -> f32 {
    f32::from_bits(bits)
}

fn request() -> XdxrInfo {
    XdxrInfo {
        market: Market::Shanghai,
        code: SecurityCode::new("600000").unwrap(),
    }
}

#[test]
fn entries_decode_by_category() {
    let request = request();
    let mut bytes = vec![1, 0, 1];
    bytes.extend_from_slice(b"600000");
    bytes.extend_from_slice(&[3, 0]);
    bytes.extend(row(20_250_710, 1, floats([4.1, 0.0, 3.0, 0.0])));
    bytes.extend(row(20_260_203, 11, floats([0.0, 0.0, 3.0, 0.0])));
    bytes.extend(row(20_200_101, 5, floats([0.0, 0.0, 100.0, 200.0])));

    let entries = request.decode(&mut ByteReader::new(&bytes)).unwrap();
    assert_eq!(
        entries[0].date,
        TdxDate {
            year: 2025,
            month: 7,
            day: 10
        }
    );
    match entries[0].detail {
        XdxrPayload::Dividend {
            cash,
            rights_price,
            bonus_shares,
            rights_shares,
        } => assert_eq!(
            (
                single(cash),
                single(rights_price),
                single(bonus_shares),
                single(rights_shares)
            ),
            (4.1, 0.0, 3.0, 0.0)
        ),
        other => panic!("expected a dividend, got {other:?}"),
    }
    match entries[1].detail {
        XdxrPayload::Consolidation { ratio } => assert_eq!(single(ratio), 3.0),
        other => panic!("expected a consolidation, got {other:?}"),
    }
    match entries[2].detail {
        XdxrPayload::ShareChange {
            float_before,
            total_before,
            float_after,
            total_after,
        } => assert_eq!(
            (
                single(float_before),
                single(total_before),
                single(float_after),
                single(total_after)
            ),
            (0.0, 0.0, 100.0, 200.0)
        ),
        other => panic!("expected a share change, got {other:?}"),
    }

    assert!(request
        .decode(&mut ByteReader::new(&bytes[..9]))
        .unwrap()
        .is_empty());
}

#[test]
fn warrants_take_the_first_and_third_words() {
    let mut bytes = vec![1, 0, 1];
    bytes.extend_from_slice(b"600000");
    bytes.extend_from_slice(&[1, 0]);
    bytes.extend(row(20_240_102, 13, floats([5.5, 9.0, 1_000.0, 7.0])));
    let entries = request().decode(&mut ByteReader::new(&bytes)).unwrap();
    assert_eq!(entries[0].category, 13);
    match entries[0].detail {
        XdxrPayload::Warrant {
            exercise_price,
            shares,
        } => assert_eq!((single(exercise_price), single(shares)), (5.5, 1_000.0)),
        other => panic!("expected a warrant, got {other:?}"),
    }
}

#[test]
fn request_body_and_short_records() {
    let mut body = ByteWriter::new();
    request().encode(&mut body).unwrap();
    assert_eq!(body.as_slice(), &[1, 0, 1, b'6', b'0', b'0', b'0', b'0', b'0']);
    let mut bytes = vec![1, 0, 1];
    bytes.extend_from_slice(b"600000");
    bytes.extend_from_slice(&[1, 0]);
    let full = row(20_240_102, 5, floats([1.0, 2.0, 3.0, 4.0]));
    bytes.extend_from_slice(&full[..full.len() - 1]);
    assert!(request().decode(&mut ByteReader::new(&bytes)).is_err());
}

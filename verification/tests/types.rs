use tdx::wire::ByteReader;
use tdx::{SecurityCode, TdxDate, TdxDateTime, TdxError};

#[test]
fn security_code_requires_six_ascii_characters() {
    assert_eq!(SecurityCode::new("600000").unwrap().to_string(), "600000");
    assert!(SecurityCode::new("60000").is_err());
    assert!(SecurityCode::new("60000０").is_err());
}

#[test]
fn bar_time_decodes_intraday_and_daily_layouts() {
    // 2026-09-11 14:35: (2026-2004)<<11 | 911, and 14*60+35.
    let packed = ((22u16 << 11) | 911).to_le_bytes();
    let minutes = (14u16 * 60 + 35).to_le_bytes();
    let bytes = [packed[0], packed[1], minutes[0], minutes[1]];
    let intraday = TdxDateTime::read_bar_time(&mut ByteReader::new(&bytes), true).unwrap();
    assert_eq!(
        intraday,
        TdxDateTime {
            date: TdxDate {
                year: 2026,
                month: 9,
                day: 11
            },
            hour: 14,
            minute: 35
        }
    );

    let daily_bytes = 19_901_219u32.to_le_bytes();
    let daily = TdxDateTime::read_bar_time(&mut ByteReader::new(&daily_bytes), false).unwrap();
    assert_eq!(
        daily.date,
        TdxDate {
            year: 1990,
            month: 12,
            day: 19
        }
    );
    assert_eq!((daily.hour, daily.minute), (15, 0));
}

#[test]
fn security_code_rejects_punctuation_with_its_text() {
    let error = SecurityCode::new("60000-").unwrap_err();
    assert!(matches!(error, TdxError::InvalidArgument(_)));
    assert_eq!(
        error.to_string(),
        "invalid argument: security code must be ASCII alphanumeric: \"60000-\""
    );
    assert_eq!(SecurityCode::new("sh60A1").unwrap().as_bytes(), b"sh60A1");
}

#[test]
fn security_code_from_bytes_keeps_them() {
    let code = SecurityCode::from_bytes(*b"159915");
    assert_eq!(code.as_bytes(), b"159915");
    assert_eq!(code, SecurityCode::new("159915").unwrap());
}

#[test]
fn packed_dates_keep_their_low_bits() {
    let bytes = 20_260_911u32.to_le_bytes();
    assert_eq!(
        TdxDate::read_yyyymmdd(&mut ByteReader::new(&bytes)).unwrap(),
        TdxDate {
            year: 2026,
            month: 9,
            day: 11
        }
    );
    // 4294967295 / 10000 = 429496, which keeps its low 16 bits as the year.
    let bytes = u32::MAX.to_le_bytes();
    let date = TdxDate::read_yyyymmdd(&mut ByteReader::new(&bytes)).unwrap();
    assert_eq!(date.year, (429_496u32 % 65_536) as u16);
    assert_eq!((date.month, date.day), (72, 95));
    assert!(TdxDate::read_yyyymmdd(&mut ByteReader::new(&bytes[..3])).is_err());
}

#[test]
fn code_bytes_that_are_not_utf8_show_as_replacement_characters() {
    let code = SecurityCode::from_bytes([0xff, b'0', b'0', b'0', b'0', b'1']);
    assert_eq!(code.to_string(), "\u{fffd}00001");
    assert_eq!(code.as_bytes(), &[0xff, b'0', b'0', b'0', b'0', b'1']);
}

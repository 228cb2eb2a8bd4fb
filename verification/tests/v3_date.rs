use trustchain::v3::{Date, DateError, Day, Month, Year};

#[test]
fn cmp_and_eq_should_work() {
    assert_eq!(
        Date::new(Year(2000), Month::Jan, Day(31)),
        Date::new(Year(2000), Month::Jan, Day(31))
    );

    assert_ne!(
        Date::new(Year(2000), Month::Jan, Day(30)),
        Date::new(Year(2000), Month::Jan, Day(31))
    );

    assert_eq!(
        Date::new(Year(2000), Month::Jan, Day(30))
            .unwrap()
            .lt(&Date::new(Year(2000), Month::Jan, Day(31)).unwrap()),
        true
    );

    assert_eq!(
        Date::new(Year(2000), Month::Jan, Day(30))
            .unwrap()
            .gt(&Date::new(Year(2000), Month::Jan, Day(31)).unwrap()),
        false
    );

    assert_eq!(
        Date::new(Year(2000), Month::Jan, Day(30))
            .unwrap()
            .eq(&Date::new(Year(2000), Month::Jan, Day(31)).unwrap()),
        false
    );
}

#[test]
fn before_should_work() {
    assert_eq!(
        Date::new(Year(2000), Month::Jan, Day(30))
            .unwrap()
            .is_before(&Date::new(Year(2000), Month::Jan, Day(31)).unwrap()),
        true
    );
    assert_eq!(
        Date::new(Year(2000), Month::Jan, Day(31))
            .unwrap()
            .is_before(&Date::new(Year(2000), Month::Jan, Day(30)).unwrap()),
        false
    );
}

#[test]
fn after_should_work() {
    assert_eq!(
        Date::new(Year(2000), Month::Jan, Day(30))
            .unwrap()
            .is_after(&Date::new(Year(2000), Month::Jan, Day(31)).unwrap()),
        false
    );
    assert_eq!(
        Date::new(Year(2000), Month::Jan, Day(31))
            .unwrap()
            .is_after(&Date::new(Year(2000), Month::Jan, Day(30)).unwrap()),
        true
    );
}

#[test]
fn within_should_work() {
    let before = Date::new(Year(2000), Month::Jan, Day(29)).unwrap();
    let after = Date::new(Year(2000), Month::Jan, Day(31)).unwrap();
    let target = Date::new(Year(2000), Month::Jan, Day(30)).unwrap();
    assert_eq!(target.is_within(&before, &after), true);
    assert_eq!(before.is_within(&target, &after), false);
    assert_eq!(after.is_within(&before, &target), false);
}

#[test]
fn leap_year_days() {
    let leap_years = [
        1904, 1908, 1912, 1916, 1920, 1924, 1928, 1932, 1936, 1940, 1944, 1948, 1952, 1956, 1960,
        1964, 1968, 1972, 1976, 1980, 1984, 1988, 1992, 1996, 2000, 2004, 2008, 2012, 2016, 2020,
    ];

    for leap_year in leap_years.iter() {
        let leap_day = Date::new(Year(*leap_year), Month::Feb, Day(29));
        assert!(leap_day.is_ok());
        let leap_day = Date::new(Year(*leap_year + 1), Month::Feb, Day(29));
        assert!(leap_day.is_err());
    }
}

#[test]
fn date_should_encode_to_temporenc_format() {
    let date = Date::new(Year(1983), Month::Jan, Day(15));
    assert!(date.is_ok());
    let date = date.unwrap();
    let enc = date.as_bytes();
    assert_eq!(enc, [0b1000_1111, 0b0111_1110, 0b0000_1110]);

    let date = Date::new(Year(2014), Month::Oct, Day(23));
    assert!(date.is_ok());
    let date = date.unwrap();
    let enc = date.as_bytes();
    assert_eq!(enc, [0b1000_1111, 0b1011_1101, 0b0011_0110]);

    let date = Date::new(Year(2005), Month::Dec, Day(18));
    assert!(date.is_ok());
    let date = date.unwrap();
    let enc = date.as_bytes();
    assert_eq!(enc, [0b1000_1111, 0b1010_1011, 0b0111_0001]);

    let date = Date::new(Year(1978), Month::Dec, Day(25));
    assert!(date.is_ok());
    let date = date.unwrap();
    let enc = date.as_bytes();
    assert_eq!(enc, [0b1000_1111, 0b0111_0101, 0b0111_1000]);

    let date = Date::new(Year(1975), Month::Oct, Day(10));
    assert!(date.is_ok());
    let date = date.unwrap();
    let enc = date.as_bytes();
    assert_eq!(enc, [0b1000_1111, 0b0110_1111, 0b0010_1001]);
}

#[test]
fn temporenc_format_encoded_date_should_decode() {
    let expected = Date::new(Year(1983), Month::Jan, Day(15));
    assert!(expected.is_ok());
    let expected = expected.unwrap();
    let encoded = Date::from_bytes(&[0b1000_1111, 0b0111_1110, 0b0000_1110]);
    assert!(encoded.is_ok());
    let encoded = encoded.unwrap();
    assert_eq!(encoded, expected);

    let expected = Date::new(Year(2014), Month::Oct, Day(23));
    assert!(expected.is_ok());
    let expected = expected.unwrap();
    let encoded = Date::from_bytes(&[0b1000_1111, 0b1011_1101, 0b0011_0110]);
    assert!(encoded.is_ok());
    let encoded = encoded.unwrap();
    assert_eq!(encoded, expected);

    let expected = Date::new(Year(2005), Month::Dec, Day(18));
    assert!(expected.is_ok());
    let expected = expected.unwrap();
    let encoded = Date::from_bytes(&[0b1000_1111, 0b1010_1011, 0b0111_0001]);
    assert!(encoded.is_ok());
    let encoded = encoded.unwrap();
    assert_eq!(encoded, expected);

    let expected = Date::new(Year(1978), Month::Dec, Day(25));
    assert!(expected.is_ok());
    let expected = expected.unwrap();
    let encoded = Date::from_bytes(&[0b1000_1111, 0b0111_0101, 0b0111_1000]);
    assert!(encoded.is_ok());
    let encoded = encoded.unwrap();
    assert_eq!(encoded, expected);

    let expected = Date::new(Year(1975), Month::Oct, Day(10));
    assert!(expected.is_ok());
    let expected = expected.unwrap();
    let encoded = Date::from_bytes(&[0b1000_1111, 0b0110_1111, 0b0010_1001]);
    assert!(encoded.is_ok());
    let encoded = encoded.unwrap();
    assert_eq!(encoded, expected);
}

const MONTHS: [Month; 12] = [
    Month::Jan,
    Month::Feb,
    Month::Mar,
    Month::Apr,
    Month::May,
    Month::Jun,
    Month::Jul,
    Month::Aug,
    Month::Sep,
    Month::Oct,
    Month::Nov,
    Month::Dec,
];

fn days_in(month: Month, year: u16) -> u8 {
    match month {
        Month::Feb => {
            if (year % 4 == 0 && year % 100 != 0) || year % 400 == 0 {
                29
            } else {
                28
            }
        }
        Month::Apr | Month::Jun | Month::Sep | Month::Nov => 30,
        _ => 31,
    }
}

#[test]
fn every_date_survives_encoding_and_decoding() {
    let mut count: u32 = 0;
    for year in 0..=4094u16 {
        for month in MONTHS.iter() {
            for day in 1..=days_in(*month, year) {
                let date = Date::new(Year(year), *month, Day(day)).unwrap();
                let bytes = date.as_bytes();
                assert_eq!(bytes[0] & 0b1110_0000, 0b1000_0000);
                assert_eq!(Date::from_bytes(&bytes), Ok(date));
                count += 1;
            }
        }
    }
    assert_eq!(count, 1_495_669);
}

#[test]
fn days_that_do_not_exist_are_refused() {
    assert_eq!(Date::new(Year(2001), Month::Jan, Day(0)), Err(DateError::InvalidDay));
    assert_eq!(Date::new(Year(2001), Month::Jan, Day(32)), Err(DateError::InvalidDay));
    assert_eq!(Date::new(Year(2001), Month::Apr, Day(31)), Err(DateError::InvalidDay));
    assert_eq!(Date::new(Year(2001), Month::Feb, Day(29)), Err(DateError::InvalidDay));
    assert_eq!(Date::new(Year(1900), Month::Feb, Day(29)), Err(DateError::InvalidDay));
    assert_eq!(Date::new(Year(2100), Month::Feb, Day(29)), Err(DateError::InvalidDay));
    assert!(Date::new(Year(2000), Month::Feb, Day(29)).is_ok());
    assert!(Date::new(Year(2400), Month::Feb, Day(29)).is_ok());
    assert!(Date::new(Year(0), Month::Feb, Day(29)).is_ok());
    assert!(Date::new(Year(2001), Month::Apr, Day(30)).is_ok());
    assert!(Date::new(Year(2001), Month::Dec, Day(31)).is_ok());
}

#[test]
fn years_past_the_last_are_refused() {
    assert!(Date::new(Year(4094), Month::Dec, Day(31)).is_ok());
    assert_eq!(Date::new(Year(4095), Month::Jan, Day(1)), Err(DateError::InvalidYear));
    assert_eq!(Date::new(Year(65535), Month::Jan, Day(0)), Err(DateError::InvalidYear));
}

#[test]
fn leap_years_follow_the_gregorian_rule() {
    assert!(Year(2000).is_leap());
    assert!(Year(2004).is_leap());
    assert!(Year(0).is_leap());
    assert!(!Year(1900).is_leap());
    assert!(!Year(2001).is_leap());
    assert!(!Year(2100).is_leap());
}

#[test]
fn bytes_that_are_no_date_are_refused() {
    // too short
    assert_eq!(Date::from_bytes(&[]), Err(DateError::InvalidDate));
    assert_eq!(Date::from_bytes(&[0x8F, 0x7E]), Err(DateError::InvalidDate));
    // a tag other than 100
    assert_eq!(Date::from_bytes(&[0x0F, 0x7E, 0x0E]), Err(DateError::InvalidDate));
    assert_eq!(Date::from_bytes(&[0xAF, 0x7E, 0x0E]), Err(DateError::InvalidDate));
    assert_eq!(Date::from_bytes(&[0xCF, 0x7E, 0x0E]), Err(DateError::InvalidDate));
    // month index 12: low bit of the second byte set, top three of the third 100
    assert_eq!(Date::from_bytes(&[0x8F, 0x7F, 0x80]), Err(DateError::InvalidDate));
    // month index 15
    assert_eq!(Date::from_bytes(&[0x8F, 0x7F, 0xE0]), Err(DateError::InvalidDate));
    // year 4095
    assert_eq!(Date::from_bytes(&[0x9F, 0xFE, 0x00]), Err(DateError::InvalidDate));
    // the 31st of April 1983
    assert_eq!(Date::from_bytes(&[0x8F, 0x7E, 0x7E]), Err(DateError::InvalidDate));
    // the 30th of April 1983
    assert_eq!(
        Date::from_bytes(&[0x8F, 0x7E, 0x7D]),
        Date::new(Year(1983), Month::Apr, Day(30))
    );
}

#[test]
fn bytes_after_a_date_are_ignored() {
    assert_eq!(
        Date::from_bytes(&[0x8F, 0x7E, 0x0E, 0xFF, 0x00]),
        Date::new(Year(1983), Month::Jan, Day(15))
    );
}

#[test]
fn first_and_last_date_encode_as_expected() {
    let first = Date::new(Year(0), Month::Jan, Day(1)).unwrap();
    assert_eq!(first.as_bytes(), [0x80, 0x00, 0x00]);
    let last = Date::new(Year(4094), Month::Dec, Day(31)).unwrap();
    assert_eq!(last.as_bytes(), [0x9F, 0xFD, 0x7E]);
}

#[test]
fn dates_are_ordered_by_year_then_month_then_day() {
    let a = Date::new(Year(1999), Month::Dec, Day(31)).unwrap();
    let b = Date::new(Year(2000), Month::Jan, Day(1)).unwrap();
    let c = Date::new(Year(2000), Month::Feb, Day(1)).unwrap();
    let d = Date::new(Year(2000), Month::Feb, Day(2)).unwrap();
    assert!(a < b && b < c && c < d);
    assert!(a.is_before(&d) && d.is_after(&a));
    assert!(!a.is_before(&a) && !a.is_after(&a));
    assert!(a.is_within(&a, &a));
    assert!(b.is_within(&a, &c));
    assert!(!d.is_within(&a, &c));
    assert_eq!(a.cmp(&b), std::cmp::Ordering::Less);
    assert_eq!(d.cmp(&c), std::cmp::Ordering::Greater);
    assert_eq!(c.partial_cmp(&c), Some(std::cmp::Ordering::Equal));
    assert_eq!(c.partial_cmp(&d), Some(c.cmp(&d)));
}

#[test]
fn numbers_convert_to_years_months_and_days() {
    assert_eq!(Year::try_from(0i32), Ok(Year(0)));
    assert_eq!(Year::try_from(4094i32), Ok(Year(4094)));
    assert_eq!(Year::try_from(4095i32), Err(DateError::InvalidYear));
    assert_eq!(Year::try_from(-1i32), Err(DateError::InvalidYear));
    assert_eq!(Month::try_from(1u32), Ok(Month::Jan));
    assert_eq!(Month::try_from(7u32), Ok(Month::Jul));
    assert_eq!(Month::try_from(12u32), Ok(Month::Dec));
    assert_eq!(Month::try_from(0u32), Err(DateError::InvalidMonth));
    assert_eq!(Month::try_from(13u32), Err(DateError::InvalidMonth));
    assert_eq!(Day::try_from(1u32), Ok(Day(1)));
    assert_eq!(Day::try_from(31u32), Ok(Day(31)));
    assert_eq!(Day::try_from(0u32), Err(DateError::InvalidDay));
    assert_eq!(Day::try_from(32u32), Err(DateError::InvalidDay));
}

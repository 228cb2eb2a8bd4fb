use trustchain::v3::{Date, DateError, Day, Expiry, Month, NotAfter, NotBefore, TrustError, Year};

fn date(year: u16, month: Month, day: u8) -> Date {
    Date::new(Year(year), month, Day(day)).unwrap()
}

#[test]
fn expiry_must_not_end_before_it_starts() {
    let early = date(2020, Month::Jan, 13);
    let late = date(2020, Month::Jan, 14);
    assert!(Expiry::new(NotBefore(early), NotAfter(late)).is_ok());
    assert!(Expiry::new(NotBefore(early), NotAfter(early)).is_ok());
    assert_eq!(
        Expiry::new(NotBefore(late), NotAfter(early)),
        Err(TrustError::InvalidExpiry)
    );
    assert_eq!(
        Expiry::new(
            NotBefore(date(2021, Month::Jan, 1)),
            NotAfter(date(2020, Month::Dec, 31))
        ),
        Err(TrustError::InvalidExpiry)
    );
    assert_eq!(
        Expiry::new(
            NotBefore(date(2020, Month::Feb, 1)),
            NotAfter(date(2020, Month::Jan, 31))
        ),
        Err(TrustError::InvalidExpiry)
    );
}

#[test]
fn expiry_encodes_as_two_dates() {
    let expiry = Expiry::new(
        NotBefore(date(1983, Month::Jan, 15)),
        NotAfter(date(2014, Month::Oct, 23)),
    )
    .unwrap();
    assert_eq!(expiry.as_bytes(), [0x8F, 0x7E, 0x0E, 0x8F, 0xBD, 0x36]);
    assert_eq!(
        Expiry::from_bytes(&[0x8F, 0x7E, 0x0E, 0x8F, 0xBD, 0x36]),
        Ok(expiry)
    );
    // bytes after the window are not looked at
    assert_eq!(
        Expiry::from_bytes(&[0x8F, 0x7E, 0x0E, 0x8F, 0xBD, 0x36, 0x00, 0xFF]),
        Ok(expiry)
    );
}

#[test]
fn expiry_survives_encoding_and_decoding() {
    let days = [
        date(0, Month::Jan, 1),
        date(1975, Month::Oct, 10),
        date(2000, Month::Feb, 29),
        date(2020, Month::Jan, 14),
        date(4094, Month::Dec, 31),
    ];
    for (i, first) in days.iter().enumerate() {
        for last in days[i..].iter() {
            let expiry = Expiry::new(NotBefore(*first), NotAfter(*last)).unwrap();
            assert_eq!(Expiry::from_bytes(&expiry.as_bytes()), Ok(expiry));
        }
    }
}

#[test]
fn bytes_that_are_no_expiry_are_refused() {
    // too short
    assert_eq!(Expiry::from_bytes(&[]), Err(DateError::InvalidDate));
    assert_eq!(
        Expiry::from_bytes(&[0x8F, 0x7E, 0x0E, 0x8F, 0xBD]),
        Err(DateError::InvalidDate)
    );
    // the first date is none
    assert_eq!(
        Expiry::from_bytes(&[0x0F, 0x7E, 0x0E, 0x8F, 0xBD, 0x36]),
        Err(DateError::InvalidDate)
    );
    // the second date is none
    assert_eq!(
        Expiry::from_bytes(&[0x8F, 0x7E, 0x0E, 0x8F, 0xBD, 0x3F]),
        Err(DateError::InvalidDate)
    );
    // the window ends before it starts
    assert_eq!(
        Expiry::from_bytes(&[0x8F, 0xBD, 0x36, 0x8F, 0x7E, 0x0E]),
        Err(DateError::InvalidDate)
    );
}

#[test]
fn not_before_and_not_after_hand_out_their_date() {
    let day = date(2005, Month::Dec, 18);
    assert_eq!(NotBefore(day).date(), day);
    assert_eq!(NotAfter(day).date(), day);
    assert!(NotBefore(date(2005, Month::Dec, 17)) < NotBefore(day));
    assert!(NotAfter(date(2006, Month::Jan, 1)) > NotAfter(day));
}

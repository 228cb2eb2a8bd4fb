//! Calendar dates and their three-byte encoding.
//!
//! A date is packed into 24 bits, most significant bit first: three tag bits
//! `100`, twelve bits of year, four bits of month counted from zero, five bits
//! of day counted from zero.
use vstd::prelude::*;
use vstd::std_specs::cmp::PartialOrdSpecImpl;
use vstd::std_specs::convert::TryFromSpecImpl;
use core::cmp::Ordering;

verus! {

/// The tag of a date, already shifted to the top three bits of the first byte.
const DATE_TAG: u8 = 0b1000_0000;

/// The last year a date can hold.
pub const MAX_YEAR: u16 = 4094;

/// A year of the Gregorian calendar.
#[derive(Debug, Copy, Clone, PartialEq, Eq, PartialOrd, Ord, Structural)]
pub struct Year(pub u16);

/// A month of the year.
#[derive(Debug, Copy, Clone, PartialEq, Eq, PartialOrd, Ord, Structural)]
pub enum Month {
    Jan,
    Feb,
    Mar,
    Apr,
    May,
    Jun,
    Jul,
    Aug,
    Sep,
    Oct,
    Nov,
    Dec,
}

/// A day of a month, counted from 1.
#[derive(Debug, Copy, Clone, PartialEq, Eq, PartialOrd, Ord, Structural)]
pub struct Day(pub u8);

/// Why there is no date.
#[derive(Debug, Copy, Clone, PartialEq, Eq, Structural)]
pub enum DateError {
    /// The bytes do not encode a date.
    InvalidDate,
    /// The day does not exist in its month.
    InvalidDay,
    /// The month is not one of the twelve.
    InvalidMonth,
    /// The year lies outside `0..=MAX_YEAR`.
    InvalidYear,
}

/// A day of the Gregorian calendar between the years 0 and `MAX_YEAR`.
/// Every value of this type is a day that exists.
#[derive(Debug, Copy, Clone, PartialEq, Eq, Ord, Structural)]
pub struct Date {
    year: Year,
    month: Month,
    day: Day,
}

/// Whether `year` is a leap year: divisible by 4 and not by 100, or divisible by 400.
pub open spec fn leap(year: int) -> bool {
    (year % 4 == 0 && year % 100 != 0) || year % 400 == 0
}

/// The number of days that `month` has in `year`.
pub open spec fn max_day(month: Month, year: int) -> int {
    match month {
        Month::Feb => if leap(year) { 29 } else { 28 },
        Month::Apr | Month::Jun | Month::Sep | Month::Nov => 30,
        _ => 31,
    }
}

/// The position of `month` in the year, counted from zero.
pub open spec fn month_index(month: Month) -> int {
    match month {
        Month::Jan => 0,
        Month::Feb => 1,
        Month::Mar => 2,
        Month::Apr => 3,
        Month::May => 4,
        Month::Jun => 5,
        Month::Jul => 6,
        Month::Aug => 7,
        Month::Sep => 8,
        Month::Oct => 9,
        Month::Nov => 10,
        Month::Dec => 11,
    }
}

/// The month at position `index`, counted from zero; December for any index past 10.
pub open spec fn month_at(index: int) -> Month {
    if index <= 0 {
        Month::Jan
    } else if index == 1 {
        Month::Feb
    } else if index == 2 {
        Month::Mar
    } else if index == 3 {
        Month::Apr
    } else if index == 4 {
        Month::May
    } else if index == 5 {
        Month::Jun
    } else if index == 6 {
        Month::Jul
    } else if index == 7 {
        Month::Aug
    } else if index == 8 {
        Month::Sep
    } else if index == 9 {
        Month::Oct
    } else if index == 10 {
        Month::Nov
    } else {
        Month::Dec
    }
}

/// Whether year, month and day name a day that a `Date` can hold.
pub open spec fn is_calendar_day(year: int, month: Month, day: int) -> bool {
    0 <= year <= MAX_YEAR && 1 <= day <= max_day(month, year)
}

/// The 24-bit number that encodes a date: the tag `100`, then the year, the
/// month counted from zero and the day counted from zero.
pub open spec fn packed(year: int, month: Month, day: int) -> int {
    4 * 0x20_0000 + year * 0x200 + month_index(month) * 0x20 + (day - 1)
}

/// The three bytes of a 24-bit number, most significant first.
pub open spec fn big_endian_24(n: int) -> Seq<u8> {
    seq![(n / 0x1_0000) as u8, (n / 0x100 % 0x100) as u8, (n % 0x100) as u8]
}

/// The number whose big-endian bytes are the first three of `bytes`.
pub open spec fn leading_24(bytes: Seq<u8>) -> int {
    bytes[0] * 0x1_0000 + bytes[1] * 0x100 + bytes[2]
}

impl Year {
    /// Whether the year is a leap year.
    pub open spec fn spec_is_leap(&self) -> bool {
        leap(self.0 as int)
    }

    /// Whether the year is a leap year.
    #[verifier::when_used_as_spec(spec_is_leap)]
    pub fn is_leap(&self) -> (r: bool)
        ensures
            r == leap(self.0 as int),
    {
        ((self.0 % 4 == 0) && (self.0 % 100 != 0)) || (self.0 % 400 == 0)
    }
}

impl TryFrom<i32> for Year {
    type Error = DateError;

    fn try_from(value: i32) -> (r: Result<Year, DateError>) {
        if value < 0 || value > 4094 {
            return Err(DateError::InvalidYear);
        }
        Ok(Year(value as u16))
    }
}

impl TryFromSpecImpl<i32> for Year {
    open spec fn obeys_try_from_spec() -> bool {
        true
    }

    open spec fn try_from_spec(value: i32) -> Result<Year, DateError> {
        if 0 <= value <= MAX_YEAR {
            Ok(Year(value as u16))
        } else {
            Err(DateError::InvalidYear)
        }
    }
}

impl TryFrom<u32> for Month {
    type Error = DateError;

    fn try_from(value: u32) -> (r: Result<Month, DateError>) {
        match value {
            1 => Ok(Month::Jan),
            2 => Ok(Month::Feb),
            3 => Ok(Month::Mar),
            4 => Ok(Month::Apr),
            5 => Ok(Month::May),
            6 => Ok(Month::Jun),
            7 => Ok(Month::Jul),
            8 => Ok(Month::Aug),
            9 => Ok(Month::Sep),
            10 => Ok(Month::Oct),
            11 => Ok(Month::Nov),
            12 => Ok(Month::Dec),
            _ => Err(DateError::InvalidMonth),
        }
    }
}

impl TryFromSpecImpl<u32> for Month {
    open spec fn obeys_try_from_spec() -> bool {
        true
    }

    /// Months are numbered from 1 here, as on a calendar.
    open spec fn try_from_spec(value: u32) -> Result<Month, DateError> {
        if 1 <= value <= 12 {
            Ok(month_at(value - 1))
        } else {
            Err(DateError::InvalidMonth)
        }
    }
}

impl TryFrom<u32> for Day {
    type Error = DateError;

    fn try_from(value: u32) -> (r: Result<Day, DateError>) {
        if value < 1 || value > 31 {
            return Err(DateError::InvalidDay);
        }
        Ok(Day(value as u8))
    }
}

impl TryFromSpecImpl<u32> for Day {
    open spec fn obeys_try_from_spec() -> bool {
        true
    }

    open spec fn try_from_spec(value: u32) -> Result<Day, DateError> {
        if 1 <= value <= 31 {
            Ok(Day(value as u8))
        } else {
            Err(DateError::InvalidDay)
        }
    }
}

impl View for Date {
    type V = (Year, Month, Day);

    /// Year, month and day of the date.
    closed spec fn view(&self) -> (Year, Month, Day) {
        (self.year, self.month, self.day)
    }
}

impl Date {
    /// The date with the given year, month and day.
    pub closed spec fn of(year: Year, month: Month, day: Day) -> Date {
        Date { year, month, day }
    }

    /// Whether the date is a day that exists. Every `Date` that a program
    /// holds is one.
    #[verifier::type_invariant]
    pub closed spec fn exists_in_calendar(self) -> bool {
        is_calendar_day(self.year.0 as int, self.month, self.day.0 as int)
    }

    /// What `new` answers: the date, or the reason there is none.
    pub open spec fn checked(year: Year, month: Month, day: Day) -> Result<Date, DateError> {
        if year.0 > MAX_YEAR {
            Err(DateError::InvalidYear)
        } else if day.0 < 1 || day.0 > max_day(month, year.0 as int) {
            Err(DateError::InvalidDay)
        } else {
            Ok(Date::of(year, month, day))
        }
    }

    /// The three bytes that encode the date.
    pub open spec fn encoding(self) -> Seq<u8> {
        big_endian_24(packed(self@.0.0 as int, self@.1, self@.2.0 as int))
    }

    /// What the first three bytes of `bytes` decode to. The tag must be `100`,
    /// the month below twelve, and the day must exist.
    pub open spec fn decoded(bytes: Seq<u8>) -> Result<Date, DateError> {
        if bytes.len() < 3 {
            Err(DateError::InvalidDate)
        } else {
            let n = leading_24(bytes);
            let year = n / 0x200 % 0x1000;
            let month = n / 0x20 % 0x10;
            let day = n % 0x20 + 1;
            if n / 0x20_0000 != 4 || month >= 12 || !is_calendar_day(year, month_at(month), day) {
                Err(DateError::InvalidDate)
            } else {
                Ok(Date::of(Year(year as u16), month_at(month), Day(day as u8)))
            }
        }
    }

    /// Whether `self` comes before `other`: by year, then by month, then by day.
    pub open spec fn earlier_than(self, other: Date) -> bool {
        let (y, m, d) = self@;
        let (oy, om, od) = other@;
        y.0 < oy.0 || (y.0 == oy.0 && (month_index(m) < month_index(om) || (m == om && d.0
            < od.0)))
    }

    /// `of` and the view are inverse to each other, and the view tells
    /// whether the date exists.
    pub broadcast proof fn lemma_of_view(year: Year, month: Month, day: Day)
        ensures
            (#[trigger] Date::of(year, month, day))@ == (year, month, day),
            Date::of(year, month, day).exists_in_calendar() == is_calendar_day(
                year.0 as int,
                month,
                day.0 as int,
            ),
    {
    }

    /// A date is determined by its year, month and day.
    pub proof fn lemma_view_determines(self)
        ensures
            self == Date::of(self@.0, self@.1, self@.2),
    {
    }

    /// Makes a date, if the day exists.
    pub fn new(year: Year, month: Month, day: Day) -> (r: Result<Date, DateError>)
        ensures
            r == Date::checked(year, month, day),
            r matches Ok(d) ==> d.exists_in_calendar(),
    {
        if year.0 > MAX_YEAR {
            return Err(DateError::InvalidYear);
        }
        let max: u8 = match month {
            Month::Feb => if year.is_leap() { 29 } else { 28 },
            Month::Apr | Month::Jun | Month::Sep | Month::Nov => 30,
            _ => 31,
        };
        if day.0 < 1 || day.0 > max {
            return Err(DateError::InvalidDay);
        }
        Ok(Date { year, month, day })
    }

    /// The position of `month` in the year, counted from zero.
    fn index_of(month: Month) -> (index: u8)
        ensures
            index == month_index(month),
    {
        match month {
            Month::Jan => 0,
            Month::Feb => 1,
            Month::Mar => 2,
            Month::Apr => 3,
            Month::May => 4,
            Month::Jun => 5,
            Month::Jul => 6,
            Month::Aug => 7,
            Month::Sep => 8,
            Month::Oct => 9,
            Month::Nov => 10,
            Month::Dec => 11,
        }
    }

    /// Encodes the date in three bytes.
    pub fn as_bytes(&self) -> (bytes: [u8; 3])
        ensures
            bytes@ == self.encoding(),
    {
        proof {
            use_type_invariant(self);
        }
        let year: u16 = self.year.0;
        let day: u8 = self.day.0 - 1;
        let month: u8 = Date::index_of(self.month);
        let high: u8 = (year >> 7) as u8;
        let middle: u8 = #[verifier::truncate] ((year << 1) as u8);
        let bytes = [DATE_TAG | high, middle | (month >> 3), (month << 5) | day];
        proof {
            lemma_packed_bytes(year, month, day);
            assert(bytes@ =~= self.encoding());
        }
        bytes
    }

    /// Decodes a date from the first three bytes of `bytes`; any further bytes
    /// are not looked at.
    pub fn from_bytes(bytes: &[u8]) -> (r: Result<Date, DateError>)
        ensures
            r == Date::decoded(bytes@),
            r matches Ok(d) ==> d.exists_in_calendar(),
    {
        if bytes.len() < 3 {
            return Err(DateError::InvalidDate);
        }
        let b0: u8 = bytes[0];
        let b1: u8 = bytes[1];
        let b2: u8 = bytes[2];
        proof {
            lemma_unpacked_fields(b0, b1, b2);
        }
        if b0 & 0b1110_0000 != DATE_TAG {
            return Err(DateError::InvalidDate);
        }
        let year: u16 = (((b0 & 0x1F) as u16) << 7) | ((b1 as u16) >> 1);
        let month: u8 = ((b1 & 0x01) << 3) | ((b2 & 0xE0) >> 5);
        let day: u8 = b2 & 0x1F;
        let month = match month {
            0 => Month::Jan,
            1 => Month::Feb,
            2 => Month::Mar,
            3 => Month::Apr,
            4 => Month::May,
            5 => Month::Jun,
            6 => Month::Jul,
            7 => Month::Aug,
            8 => Month::Sep,
            9 => Month::Oct,
            10 => Month::Nov,
            11 => Month::Dec,
            _ => return Err(DateError::InvalidDate),
        };
        match Date::new(Year(year), month, Day(day + 1)) {
            Ok(date) => Ok(date),
            Err(_) => Err(DateError::InvalidDate),
        }
    }

    /// Whether `self` lies strictly before `other`.
    pub fn is_before(&self, other: &Date) -> (r: bool)
        ensures
            r == self.earlier_than(*other),
    {
        self < other
    }

    /// Whether `self` lies strictly after `other`.
    pub fn is_after(&self, other: &Date) -> (r: bool)
        ensures
            r == other.earlier_than(*self),
    {
        self > other
    }

    /// Whether `self` lies between `before` and `after`, both included.
    pub fn is_within(&self, before: &Date, after: &Date) -> (r: bool)
        ensures
            r == (!after.earlier_than(*self) && !self.earlier_than(*before)),
    {
        self <= after && self >= before
    }
}

impl PartialOrd for Date {
    /// Orders dates by year, then by month, then by day.
    fn partial_cmp(&self, other: &Date) -> (r: Option<Ordering>) {
        let month = Date::index_of(self.month);
        let other_month = Date::index_of(other.month);
        if self.year.0 < other.year.0 {
            Some(Ordering::Less)
        } else if self.year.0 > other.year.0 {
            Some(Ordering::Greater)
        } else if month < other_month {
            Some(Ordering::Less)
        } else if month > other_month {
            Some(Ordering::Greater)
        } else if self.day.0 < other.day.0 {
            Some(Ordering::Less)
        } else if self.day.0 > other.day.0 {
            Some(Ordering::Greater)
        } else {
            Some(Ordering::Equal)
        }
    }
}

impl PartialOrdSpecImpl for Date {
    open spec fn obeys_partial_cmp_spec() -> bool {
        true
    }

    open spec fn partial_cmp_spec(&self, other: &Date) -> Option<Ordering> {
        if self.earlier_than(*other) {
            Some(Ordering::Less)
        } else if other.earlier_than(*self) {
            Some(Ordering::Greater)
        } else {
            Some(Ordering::Equal)
        }
    }
}

/// The order of dates is a strict total order: no date lies before itself,
/// of two different dates exactly one lies before the other, and what lies
/// before an earlier date lies before a later one.
pub proof fn lemma_order_total(a: Date, b: Date, c: Date)
    ensures
        !a.earlier_than(a),
        a == b || a.earlier_than(b) || b.earlier_than(a),
        !(a.earlier_than(b) && b.earlier_than(a)),
        a.earlier_than(b) && b.earlier_than(c) ==> a.earlier_than(c),
{
    a.lemma_view_determines();
    b.lemma_view_determines();
    if a@ != b@ {
        let (y, m, d) = a@;
        let (oy, om, od) = b@;
        if y.0 == oy.0 && m == om {
            assert(d.0 != od.0);
        }
    }
}

/// Encoding what bytes decode to gives the first three of those bytes back.
pub proof fn lemma_codec_inverse(bytes: Seq<u8>)
    ensures
        Date::decoded(bytes) matches Ok(date) ==> date.exists_in_calendar() && date.encoding()
            == bytes.take(3),
{
    if let Ok(date) = Date::decoded(bytes) {
        let n = leading_24(bytes);
        lemma_spelled_digits(bytes[0], bytes[1], bytes[2]);
        let month = n / 0x20 % 0x10;
        assert(month_index(month_at(month)) == month);
        assert(packed(n / 0x200 % 0x1000, month_at(month), n % 0x20 + 1) == n);
        assert(date.encoding() =~= bytes.take(3));
    }
}

/// The digits of the number that three bytes spell: the bytes can be read
/// back from it, and so can it from its fields.
proof fn lemma_spelled_digits(b0: u8, b1: u8, b2: u8)
    by (bit_vector)
    ensures
        ({
            let n = b0 * 0x1_0000 + b1 * 0x100 + b2;
            &&& n / 0x1_0000 == b0
            &&& n / 0x100 % 0x100 == b1
            &&& n % 0x100 == b2
            &&& (n / 0x20_0000) * 0x20_0000 + (n / 0x200 % 0x1000) * 0x200 + (n / 0x20 % 0x10)
                * 0x20 + n % 0x20 == n
            &&& n / 0x200 % 0x1000 < 0x1000
            &&& n % 0x20 < 0x20
        }),
{
}

/// Decoding the encoding of a date gives that date back.
pub proof fn lemma_codec_roundtrip(date: Date)
    requires
        date.exists_in_calendar(),
    ensures
        Date::decoded(date.encoding()) == Ok::<Date, DateError>(date),
{
    let (year, month, day) = date@;
    let index = month_index(month);
    assert(month_at(index) == month);
    lemma_packed_digits(year.0 as u32, index as u32, (day.0 - 1) as u32);
    date.lemma_view_determines();
}

/// The digits of a packed number: its three bytes spell it, and each field
/// can be read back from it.
proof fn lemma_packed_digits(year: u32, month: u32, day: u32)
    by (bit_vector)
    requires
        year < 0x1000,
        month < 0x10,
        day < 0x20,
    ensures
        ({
            let n = 4 * 0x20_0000 + year * 0x200 + month * 0x20 + day;
            &&& n / 0x1_0000 < 0x100
            &&& (n / 0x1_0000) * 0x1_0000 + (n / 0x100 % 0x100) * 0x100 + n % 0x100 == n
            &&& n / 0x20_0000 == 4
            &&& n / 0x200 % 0x1000 == year
            &&& n / 0x20 % 0x10 == month
            &&& n % 0x20 == day
        }),
{
}

/// The bytes that the shifts of `as_bytes` produce are the big-endian bytes
/// of the packed number.
proof fn lemma_packed_bytes(year: u16, month: u8, day: u8)
    requires
        year <= 4094,
        month < 12,
        day < 31,
    ensures
        ({
            let n = 4 * 0x20_0000 + year * 0x200 + month * 0x20 + day;
            &&& (0x80u8 | ((year >> 7) as u8)) == n / 0x1_0000
            &&& (((year << 1) as u8) | (month >> 3)) == n / 0x100 % 0x100
            &&& ((month << 5) | day) == n % 0x100
        }),
{
    assert((0x80u8 | ((year >> 7) as u8)) == (4 * 0x20_0000 + year * 0x200 + month * 0x20 + day)
        / 0x1_0000) by (bit_vector)
        requires
            year <= 4094,
            month < 12,
            day < 31,
    ;
    assert((((year << 1) as u8) | (month >> 3)) == (4 * 0x20_0000 + year * 0x200 + month * 0x20
        + day) / 0x100 % 0x100) by (bit_vector)
        requires
            year <= 4094,
            month < 12,
            day < 31,
    ;
    assert(((month << 5) | day) == (4 * 0x20_0000 + year * 0x200 + month * 0x20 + day) % 0x100)
        by (bit_vector)
        requires
            year <= 4094,
            month < 12,
            day < 31,
    ;
}

/// The fields that the masks of `from_bytes` read are the digits of the
/// number that the three bytes spell.
proof fn lemma_unpacked_fields(b0: u8, b1: u8, b2: u8)
    ensures
        ({
            let n = b0 * 0x1_0000 + b1 * 0x100 + b2;
            &&& (b0 & 0b1110_0000 == 0x80u8) == (n / 0x20_0000 == 4)
            &&& ((((b0 & 0x1F) as u16) << 7) | ((b1 as u16) >> 1)) == n / 0x200 % 0x1000
            &&& (((b1 & 0x01) << 3) | ((b2 & 0xE0) >> 5)) == n / 0x20 % 0x10
            &&& (b2 & 0x1F) == n % 0x20
            &&& (b2 & 0x1F) < 32
        }),
{
    assert((b0 & 0b1110_0000 == 0x80u8) == ((b0 * 0x1_0000 + b1 * 0x100 + b2) / 0x20_0000 == 4))
        by (bit_vector);
    assert(((((b0 & 0x1F) as u16) << 7) | ((b1 as u16) >> 1)) == (b0 * 0x1_0000 + b1 * 0x100
        + b2) / 0x200 % 0x1000) by (bit_vector);
    assert((((b1 & 0x01) << 3) | ((b2 & 0xE0) >> 5)) == (b0 * 0x1_0000 + b1 * 0x100 + b2) / 0x20
        % 0x10) by (bit_vector);
    assert((b2 & 0x1F) == (b0 * 0x1_0000 + b1 * 0x100 + b2) % 0x20 && (b2 & 0x1F) < 32)
        by (bit_vector);
}

} // verus!

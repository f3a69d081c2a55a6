//! Dates of the Shahanshahi era.
use vstd::prelude::*;
use vstd::string::StringExecFns;
use crate::calendar::{days_in_month, jalali_month_len, jalali_month_name, month_name, CalendarError};
use crate::convert::{gregorian_date_exists, gregorian_to_jalali, to_jalali, MAX_GREGORIAN_YEAR, MIN_GREGORIAN_YEAR};
use crate::events::{events_on, occasion_names, Event};
use crate::text::{padded_decimal, zero_padded};

verus! {

/// Years between the Jalali era and the Shahanshahi era.
pub const SH_OFFSET: i32 = 1180;

/// chrono's calendar date, only tested for presence here.
#[verifier::external_type_specification]
#[verifier::external_body]
pub struct ExNaiveDate(chrono::NaiveDate);

/// Relies on chrono's `NaiveDate::from_ymd_opt`: a date comes back exactly
/// when the triple is a day of the proleptic Gregorian calendar and the year
/// lies within chrono's range.
pub assume_specification[ chrono::NaiveDate::from_ymd_opt ](year: i32, month: u32, day: u32) -> (r:
    Option<chrono::NaiveDate>)
    ensures
        r.is_some() <==> (MIN_GREGORIAN_YEAR <= year <= MAX_GREGORIAN_YEAR
            && gregorian_date_exists(year as int, month as int, day as int)),
;

/// A date of the Shahanshahi era: the Jalali date with its year moved by
/// `SH_OFFSET`.
#[derive(Debug, Clone, Copy, PartialEq, Eq, Structural)]
pub struct ShahanshahiDate {
    pub year: i32,
    pub month: u8,
    pub day: u8,
}

/// The date with Jalali year `jy`, month `jm` and day `jd`.
pub open spec fn shahanshahi_of_jalali(jy: int, jm: int, jd: int) -> ShahanshahiDate {
    ShahanshahiDate { year: (jy + SH_OFFSET) as i32, month: jm as u8, day: jd as u8 }
}

/// The date that a Gregorian date converts to.
pub open spec fn shahanshahi_of_gregorian(gy: int, gm: int, gd: int) -> ShahanshahiDate {
    let j = to_jalali(gy, gm, gd);
    shahanshahi_of_jalali(j.0, j.1, j.2)
}

/// Whether `(gy, gm, gd)` is a Gregorian date that can be converted.
pub open spec fn gregorian_accepted(gy: int, gm: int, gd: int) -> bool {
    MIN_GREGORIAN_YEAR <= gy <= MAX_GREGORIAN_YEAR && gregorian_date_exists(gy, gm, gd)
}

/// The Jalali `(year, month, day)` of Gregorian `gy-gm-gd`, or an error when
/// that Gregorian date does not exist.
pub fn jalali_from_gregorian(gy: i32, gm: u32, gd: u32) -> (r: Result<(i32, i32, i32), CalendarError>)
    ensures
        match r {
            Ok(j) => gregorian_accepted(gy as int, gm as int, gd as int) && (j.0 as int, j.1 as int, j.2 as int)
                == to_jalali(gy as int, gm as int, gd as int) && 1 <= j.1 <= 12
                && -300000 < j.0 < 300000,
            Err(e) => !gregorian_accepted(gy as int, gm as int, gd as int) && e
                == CalendarError::InvalidGregorianDate,
        },
{
    if chrono::NaiveDate::from_ymd_opt(gy, gm, gd).is_none() {
        return Err(CalendarError::InvalidGregorianDate);
    }
    Ok(gregorian_to_jalali(gy, gm as i32, gd as i32))
}

impl ShahanshahiDate {
    /// Whether the month and day name a day of the Jalali year that the
    /// year stands for.
    pub open spec fn is_valid(&self) -> bool {
        1 <= self.month <= 12 && 1 <= self.day <= jalali_month_len(
            self.year - SH_OFFSET,
            self.month as int,
        )
    }

    /// The date of Jalali `jy/jm/jd`, when that Jalali date exists.
    pub fn new(jy: i32, jm: u8, jd: u8) -> (r: Option<Self>)
        requires
            jy <= i32::MAX - SH_OFFSET,
        ensures
            r == (if 1 <= jm <= 12 && 1 <= jd <= jalali_month_len(jy as int, jm as int) {
                Some(shahanshahi_of_jalali(jy as int, jm as int, jd as int))
            } else {
                None::<ShahanshahiDate>
            }),
            r matches Some(d) ==> d.is_valid(),
    {
        if jm < 1 || jm > 12 {
            return None;
        }
        let max = match days_in_month(jy, jm) {
            Ok(n) => n,
            Err(_) => 0,
        };
        if jd < 1 || jd > max {
            return None;
        }
        Some(Self { year: jy + SH_OFFSET, month: jm, day: jd })
    }

    /// The date of Jalali `jy/jm/jd`, taken as it is.
    pub fn from_jalali(jy: i32, jm: u8, jd: u8) -> (r: Self)
        requires
            jy <= i32::MAX - SH_OFFSET,
        ensures
            r == shahanshahi_of_jalali(jy as int, jm as int, jd as int),
    {
        Self { year: jy + SH_OFFSET, month: jm, day: jd }
    }

    /// The date that Gregorian `gy-gm-gd` converts to, or an error when that
    /// Gregorian date does not exist. Dates before 1600-03-20 come out as the
    /// transform gives them, the day taken modulo 256.
    pub fn from_gregorian(gy: i32, gm: u32, gd: u32) -> (r: Result<Self, CalendarError>)
        ensures
            gregorian_accepted(gy as int, gm as int, gd as int) ==> r == Ok::<
                ShahanshahiDate,
                CalendarError,
            >(shahanshahi_of_gregorian(gy as int, gm as int, gd as int)),
            !gregorian_accepted(gy as int, gm as int, gd as int) ==> r == Err::<
                ShahanshahiDate,
                CalendarError,
            >(CalendarError::InvalidGregorianDate),
    {
        let (jy, jm, jd) = match jalali_from_gregorian(gy, gm, gd) {
            Ok(j) => j,
            Err(e) => return Err(e),
        };
        Ok(Self { year: jy + SH_OFFSET, month: jm as u8, day: #[verifier::truncate] (jd as u8) })
    }

    /// The date of today, given today's Gregorian date.
    pub fn today(gy: i32, gm: u32, gd: u32) -> (r: Self)
        requires
            gregorian_accepted(gy as int, gm as int, gd as int),
        ensures
            r == shahanshahi_of_gregorian(gy as int, gm as int, gd as int),
    {
        Self::from_gregorian(gy, gm, gd).unwrap()
    }

    /// The names of the occasions of `dataset` that fall on this date's
    /// month and day, in dataset order.
    pub fn events(&self, dataset: &Vec<Event>) -> (r: Vec<String>)
        ensures
            r@.map_values(|s: String| s@) == occasion_names(dataset@, self.month, self.day),
    {
        events_on(dataset, self.month, self.day)
    }

    /// The name of this date's month.
    pub fn get_month_name(&self) -> (r: Result<String, CalendarError>)
        ensures
            match r {
                Ok(s) => 1 <= self.month <= 12 && s@ == jalali_month_name(self.month as int),
                Err(e) => !(1 <= self.month <= 12) && e == CalendarError::InvalidMonth,
            },
    {
        match month_name(self.month) {
            Ok(s) => Ok(String::from_str(s)),
            Err(e) => Err(e),
        }
    }

    /// The date as `YYYY/MM/DD`: the year zero-padded to four characters,
    /// month and day to two.
    pub fn format(&self) -> (r: String)
        ensures
            r@ == padded_decimal(self.year as int, 4) + seq!['/'] + padded_decimal(
                self.month as int,
                2,
            ) + seq!['/'] + padded_decimal(self.day as int, 2),
    {
        let mut s = zero_padded(self.year as i64, 4);
        let slash = "/";
        proof {
            reveal_strlit("/");
        }
        s.append(slash);
        let m = zero_padded(self.month as i64, 2);
        s.append(m.as_str());
        s.append(slash);
        let d = zero_padded(self.day as i64, 2);
        s.append(d.as_str());
        s
    }
}

} // verus!

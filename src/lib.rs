//! Gregorian to Jalali conversion and dates of the Shahanshahi era.
pub mod calendar;
pub mod convert;
pub mod date;
pub mod events;
pub mod text;

pub use calendar::{days_in_month, is_jalali_leap, month_name, CalendarError};
pub use convert::gregorian_to_jalali;
pub use date::{jalali_from_gregorian, ShahanshahiDate, SH_OFFSET};

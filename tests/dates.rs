use shahanshahi_core::events::{events_on, Event};
use shahanshahi_core::{
    days_in_month, gregorian_to_jalali, is_jalali_leap, jalali_from_gregorian, month_name,
    CalendarError,
    ShahanshahiDate,
};

fn event(month: u8, day: u8, name: &str) -> Event {
    Event { month, day, name: name.to_string() }
}

#[test]
fn test_nowruz_2025() {
    let d = ShahanshahiDate::from_gregorian(2025, 3, 21).unwrap();
    assert_eq!(d.year, 2584);
    assert_eq!(d.month, 1);
    assert_eq!(d.day, 1);
}

#[test]
fn test_invalid_date() {
    assert!(ShahanshahiDate::new(1400, 12, 30).is_none());
}

#[test]
fn leap_years_known() {
    assert!(is_jalali_leap(1399));
    assert!(!is_jalali_leap(1400));
    assert!(!is_jalali_leap(1403));
}

#[test]
fn leap_rule_repeats_every_cycle() {
    for y in [474, 1000, 1399, 1400, 1403, 2000, 3000] {
        assert_eq!(is_jalali_leap(y), is_jalali_leap(y + 2820));
        assert_eq!(is_jalali_leap(y), is_jalali_leap(y + 2 * 2820));
    }
    for y in [-5000, -100, 0, 1, 100, 473] {
        assert_eq!(is_jalali_leap(y), is_jalali_leap(y - 2820));
    }
}

#[test]
fn leap_rule_extreme_years() {
    assert_eq!(is_jalali_leap(i32::MIN), is_jalali_leap(i32::MIN + 2820));
    assert_eq!(is_jalali_leap(i32::MAX), is_jalali_leap(i32::MAX - 2820));
}

#[test]
fn month_lengths() {
    for m in 1..=6u8 {
        assert_eq!(days_in_month(1400, m), Ok(31));
    }
    for m in 7..=11u8 {
        assert_eq!(days_in_month(1400, m), Ok(30));
    }
    assert_eq!(days_in_month(1399, 12), Ok(30));
    assert_eq!(days_in_month(1400, 12), Ok(29));
}

#[test]
fn month_length_invalid_month() {
    assert_eq!(days_in_month(1400, 0), Err(CalendarError::InvalidMonth));
    assert_eq!(days_in_month(1400, 13), Err(CalendarError::InvalidMonth));
}

#[test]
fn converter_known_dates() {
    assert_eq!(gregorian_to_jalali(2025, 3, 21), (1404, 1, 1));
    assert_eq!(gregorian_to_jalali(2025, 3, 20), (1403, 12, 30));
    assert_eq!(gregorian_to_jalali(1979, 2, 11), (1357, 11, 22));
    assert_eq!(gregorian_to_jalali(2000, 1, 1), (1378, 10, 11));
    assert_eq!(gregorian_to_jalali(2024, 2, 29), (1402, 12, 10));
    assert_eq!(gregorian_to_jalali(2021, 3, 21), (1400, 1, 1));
}

#[test]
fn converter_consecutive_days() {
    assert_eq!(gregorian_to_jalali(2024, 12, 31), (1403, 10, 11));
    assert_eq!(gregorian_to_jalali(2025, 1, 1), (1403, 10, 12));
    assert_eq!(gregorian_to_jalali(2024, 3, 19), (1402, 12, 29));
    assert_eq!(gregorian_to_jalali(2024, 3, 20), (1403, 1, 1));
}

#[test]
fn from_gregorian_rejects_missing_days() {
    assert_eq!(
        ShahanshahiDate::from_gregorian(2023, 2, 29),
        Err(CalendarError::InvalidGregorianDate)
    );
    assert_eq!(
        ShahanshahiDate::from_gregorian(2023, 4, 31),
        Err(CalendarError::InvalidGregorianDate)
    );
    assert_eq!(
        ShahanshahiDate::from_gregorian(2023, 13, 1),
        Err(CalendarError::InvalidGregorianDate)
    );
    assert_eq!(
        ShahanshahiDate::from_gregorian(2023, 1, 0),
        Err(CalendarError::InvalidGregorianDate)
    );
    assert_eq!(
        ShahanshahiDate::from_gregorian(1900, 2, 29),
        Err(CalendarError::InvalidGregorianDate)
    );
    assert_eq!(
        ShahanshahiDate::from_gregorian(400000, 1, 1),
        Err(CalendarError::InvalidGregorianDate)
    );
}

#[test]
fn from_gregorian_leap_day() {
    let d = ShahanshahiDate::from_gregorian(2024, 2, 29).unwrap();
    assert_eq!(d, ShahanshahiDate { year: 2582, month: 12, day: 10 });
    let c = ShahanshahiDate::from_gregorian(2000, 2, 29).unwrap();
    assert_eq!(c.year, 1378 + 1180);
}

#[test]
fn from_jalali_applies_offset() {
    let d = ShahanshahiDate::from_jalali(1403, 1, 1);
    assert_eq!(d, ShahanshahiDate { year: 2583, month: 1, day: 1 });
    let loose = ShahanshahiDate::from_jalali(1400, 13, 40);
    assert_eq!(loose, ShahanshahiDate { year: 2580, month: 13, day: 40 });
}

#[test]
fn new_validates() {
    assert_eq!(
        ShahanshahiDate::new(1399, 12, 30),
        Some(ShahanshahiDate { year: 2579, month: 12, day: 30 })
    );
    assert_eq!(
        ShahanshahiDate::new(1400, 12, 29),
        Some(ShahanshahiDate { year: 2580, month: 12, day: 29 })
    );
    assert!(ShahanshahiDate::new(1400, 0, 1).is_none());
    assert!(ShahanshahiDate::new(1400, 13, 1).is_none());
    assert!(ShahanshahiDate::new(1400, 1, 0).is_none());
    assert!(ShahanshahiDate::new(1400, 1, 32).is_none());
    assert!(ShahanshahiDate::new(1400, 7, 31).is_none());
}

#[test]
fn today_from_given_date() {
    let d = ShahanshahiDate::today(2025, 3, 21);
    assert_eq!(d, ShahanshahiDate { year: 2584, month: 1, day: 1 });
}

#[test]
fn month_names() {
    assert_eq!(month_name(5), Ok("Amordad"));
    assert_eq!(month_name(1), Ok("Farvardin"));
    assert_eq!(month_name(12), Ok("Esfand"));
    assert_eq!(month_name(0), Err(CalendarError::InvalidMonth));
    assert_eq!(month_name(13), Err(CalendarError::InvalidMonth));
}

#[test]
fn date_month_name() {
    let d = ShahanshahiDate::from_jalali(1403, 9, 1);
    assert_eq!(d.get_month_name(), Ok("Azar".to_string()));
    let bad = ShahanshahiDate::from_jalali(1403, 0, 1);
    assert_eq!(bad.get_month_name(), Err(CalendarError::InvalidMonth));
}

#[test]
fn format_pads_fields() {
    assert_eq!(ShahanshahiDate::from_jalali(1403, 1, 1).format(), "2583/01/01");
    assert_eq!(ShahanshahiDate::from_jalali(1403, 11, 22).format(), "2583/11/22");
    assert_eq!(ShahanshahiDate::from_jalali(-1170, 3, 4).format(), "0010/03/04");
    assert_eq!(ShahanshahiDate::from_jalali(-1190, 3, 4).format(), "-010/03/04");
}

#[test]
fn events_none_matching() {
    let empty: Vec<Event> = Vec::new();
    assert!(events_on(&empty, 1, 1).is_empty());
    let data = vec![event(1, 2, "a"), event(2, 1, "b")];
    assert!(events_on(&data, 1, 1).is_empty());
}

#[test]
fn events_matching_in_order() {
    let data = vec![
        event(1, 1, "Nowruz"),
        event(1, 13, "Sizdah Bedar"),
        event(1, 1, "Spring"),
    ];
    assert_eq!(events_on(&data, 1, 1), vec!["Nowruz".to_string(), "Spring".to_string()]);
    let d = ShahanshahiDate::from_gregorian(2025, 4, 2).unwrap();
    assert_eq!((d.month, d.day), (1, 13));
    assert_eq!(d.events(&data), vec!["Sizdah Bedar".to_string()]);
}

#[test]
fn converter_epoch() {
    assert_eq!(gregorian_to_jalali(1600, 3, 20), (979, 1, 1));
    assert_eq!(gregorian_to_jalali(1600, 3, 21), (979, 1, 2));
}

#[test]
fn checked_conversion() {
    assert_eq!(jalali_from_gregorian(2025, 3, 21), Ok((1404, 1, 1)));
    assert_eq!(jalali_from_gregorian(1979, 2, 11), Ok((1357, 11, 22)));
    assert_eq!(jalali_from_gregorian(2023, 2, 30), Err(CalendarError::InvalidGregorianDate));
    assert_eq!(jalali_from_gregorian(2023, 0, 1), Err(CalendarError::InvalidGregorianDate));
}

#[test]
fn converter_year_boundaries() {
    assert_eq!(gregorian_to_jalali(2024, 12, 31), (1403, 10, 11));
    assert_eq!(gregorian_to_jalali(2023, 12, 31), (1402, 10, 10));
    assert_eq!(gregorian_to_jalali(2024, 1, 1), (1402, 10, 11));
    assert_eq!(gregorian_to_jalali(2024, 2, 28), (1402, 12, 9));
    assert_eq!(gregorian_to_jalali(2024, 3, 1), (1402, 12, 11));
}

use glean_core::Date;

fn parts(days: u32) -> (u32, u8, u8) {
    let date = Date::from_days(days);
    (date.year(), date.month(), date.day())
}

#[test]
fn day_zero_is_the_first_of_january_1970() {
    assert_eq!((1970, 1, 1), parts(0));
    assert_eq!("1970-01-01", Date::from_days(0).render());
}

#[test]
fn months_and_years_turn_over() {
    assert_eq!((1970, 1, 31), parts(30));
    assert_eq!((1970, 2, 1), parts(31));
    assert_eq!((1970, 2, 28), parts(58));
    assert_eq!((1970, 3, 1), parts(59));
    assert_eq!((1970, 12, 31), parts(364));
    assert_eq!((1971, 1, 1), parts(365));
}

#[test]
fn leap_years_have_a_29th_of_february() {
    // 1972 is the first leap year after 1970.
    assert_eq!((1972, 2, 29), parts(730 + 59));
    assert_eq!((1972, 3, 1), parts(730 + 60));
    assert_eq!((1972, 12, 31), parts(730 + 365));
    assert_eq!((1973, 1, 1), parts(730 + 366));
    // 2000 is a leap year, 2100 is not.
    assert_eq!((2000, 2, 29), parts(11016));
    assert_eq!((2000, 3, 1), parts(11017));
    assert_eq!((2100, 2, 28), parts(47540));
    assert_eq!((2100, 3, 1), parts(47541));
}

#[test]
fn known_days_are_found() {
    assert_eq!("2019-05-09", Date::from_days(18025).render());
    assert_eq!("2001-09-09", Date::from_days(11574).render());
    assert_eq!("2038-01-19", Date::from_days(24855).render());
    assert_eq!("2026-10-28", Date::from_days(20754).render());
}

#[test]
fn the_text_pads_month_and_day_but_not_the_year() {
    assert_eq!("1970-01-09", Date::from_days(8).render());
    assert_eq!("1970-10-10", Date::from_days(282).render());
    assert_eq!("10000-01-01", Date::from_days(2932897).render());
}

#[test]
fn the_last_day_that_can_be_counted_is_a_date() {
    let date = Date::from_days(u32::MAX);
    assert_eq!((11761191, 1, 20), (date.year(), date.month(), date.day()));
    assert_eq!("11761191-01-20", date.render());
}

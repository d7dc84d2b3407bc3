use kibbled::localtime::{device_tz, next_occurrence_utc, Civil, Tz};

#[test]
fn epoch_day_known_values() {
    assert_eq!(Civil { year: 1970, month: 1, day: 1 }.epoch_day(), 0);
    assert_eq!(Civil { year: 1969, month: 12, day: 31 }.epoch_day(), -1);
    assert_eq!(Civil { year: 2026, month: 1, day: 15 }.epoch_day(), 20468);
    assert_eq!(Civil { year: 2026, month: 9, day: 16 }.epoch_day(), 20712);
    assert_eq!(Civil { year: 2000, month: 2, day: 28 }.epoch_day(), 11015);
    assert_eq!(Civil { year: 2000, month: 2, day: 29 }.epoch_day(), 11016);
    assert_eq!(Civil { year: 2000, month: 3, day: 1 }.epoch_day(), 11017);
}

#[test]
fn epoch_day_round_trips_across_a_wide_range() {
    for z in -5000..15000 {
        let c = Civil::from_epoch_day(z);
        assert_eq!(c.epoch_day(), z, "round trip failed for epoch day {z} -> {c:?}");
    }
}

#[test]
fn weekday_matches_known_days() {
    assert_eq!(Civil { year: 1970, month: 1, day: 1 }.weekday(), 4); // Thursday
    assert_eq!(Civil { year: 2026, month: 3, day: 8 }.weekday(), 0); // Sunday (verified below)
    assert_eq!(Civil { year: 2026, month: 11, day: 1 }.weekday(), 0); // Sunday
}

#[test]
fn nth_weekday_finds_the_real_2026_dst_transition_dates() {
    assert_eq!(Civil::nth_weekday(2026, 3, 0, 2), Civil { year: 2026, month: 3, day: 8 });
    assert_eq!(Civil::nth_weekday(2026, 11, 0, 1), Civil { year: 2026, month: 11, day: 1 });
}

#[test]
fn matches_the_studys_own_worked_example() {
    let date = Civil { year: 2026, month: 9, day: 16 };
    assert_eq!(device_tz().local_to_utc(date, 17 * 3600 + 25 * 60), 1_789_593_900);
    assert!(device_tz().is_dst(1_789_593_900), "September must be DST");
}

#[test]
fn plain_winter_day_is_standard_time() {
    let date = Civil { year: 2026, month: 1, day: 15 };
    assert_eq!(device_tz().local_to_utc(date, 7 * 3600 + 30 * 60), 1_768_480_200);
    assert!(!device_tz().is_dst(1_768_480_200));
}

#[test]
fn to_local_is_the_exact_inverse_of_local_to_utc_on_ordinary_days() {
    let date = Civil { year: 2026, month: 9, day: 16 };
    let sod = 17 * 3600 + 25 * 60;
    let utc = device_tz().local_to_utc(date, sod);
    assert_eq!(device_tz().to_local(utc), (date, sod));
}

#[test]
fn same_local_time_of_day_stays_the_same_local_time_across_the_spring_transition() {
    let before = device_tz().local_to_utc(Civil { year: 2026, month: 3, day: 7 }, 17 * 3600 + 25 * 60);
    let after = device_tz().local_to_utc(Civil { year: 2026, month: 3, day: 9 }, 17 * 3600 + 25 * 60);
    assert_eq!(before, 1_772_922_300);
    assert_eq!(after, 1_773_091_500);
    assert_eq!(after - before, 2 * 86_400 - 3600);
    assert_eq!(device_tz().to_local(before).1, 17 * 3600 + 25 * 60);
    assert_eq!(device_tz().to_local(after).1, 17 * 3600 + 25 * 60);
}

#[test]
fn same_local_time_of_day_stays_the_same_local_time_across_the_fall_transition() {
    let before = device_tz().local_to_utc(Civil { year: 2026, month: 10, day: 30 }, 17 * 3600 + 25 * 60);
    let after = device_tz().local_to_utc(Civil { year: 2026, month: 11, day: 2 }, 17 * 3600 + 25 * 60);
    assert_eq!(after - before, 3 * 86_400 + 3600);
    assert_eq!(device_tz().to_local(before).1, 17 * 3600 + 25 * 60);
    assert_eq!(device_tz().to_local(after).1, 17 * 3600 + 25 * 60);
}

#[test]
fn dst_edge_cases_repeated_fall_back_hour_resolves_to_the_earlier_instant() {
    let date = Civil { year: 2026, month: 11, day: 1 };
    let resolved = device_tz().local_to_utc(date, 1 * 3600 + 30 * 60);
    assert_eq!(resolved, 1_793_511_000, "must resolve to the earlier (still-daylight) instant");
    assert!(device_tz().is_dst(resolved), "the earlier instant is still on daylight time");
}

#[test]
fn dst_edge_cases_skipped_spring_forward_hour_resolves_to_the_later_instant() {
    let date = Civil { year: 2026, month: 3, day: 8 };
    let resolved = device_tz().local_to_utc(date, 2 * 3600 + 30 * 60);
    assert_eq!(resolved, 1_772_955_000);
    assert!(resolved > 1_772_953_200, "must resolve to after the real transition instant, never before it");
}

#[test]
fn next_occurrence_is_today_if_still_ahead_else_tomorrow() {
    let now = device_tz().local_to_utc(Civil { year: 2026, month: 1, day: 15 }, 8 * 3600);
    assert_eq!(now, 1_768_482_000);
    assert_eq!(next_occurrence_utc(&device_tz(), 7 * 60, now), 1_768_564_800);
    assert_eq!(next_occurrence_utc(&device_tz(), 9 * 60, now), 1_768_485_600);
}

#[test]
fn next_occurrence_right_at_the_boundary_is_still_today() {
    let now = device_tz().local_to_utc(Civil { year: 2026, month: 1, day: 15 }, 8 * 3600);
    assert_eq!(next_occurrence_utc(&device_tz(), 8 * 60, now), now);
}

#[test]
fn zone_without_dst_never_reports_dst_and_never_shifts() {
    let tz = Tz { std_offset_secs: -6 * 3600, dst_offset_secs: -6 * 3600 };
    let utc = tz.local_to_utc(Civil { year: 2026, month: 7, day: 4 }, 12 * 3600);
    assert!(!tz.is_dst(utc));
    assert_eq!(tz.to_local(utc), (Civil { year: 2026, month: 7, day: 4 }, 12 * 3600));
}

#[test]
fn days_follow_each_other() {
    let last = Civil { year: 2023, month: 12, day: 31 };
    assert_eq!(last.succ(), Civil { year: 2024, month: 1, day: 1 });
    let leap = Civil { year: 2024, month: 2, day: 29 };
    assert_eq!(leap.succ(), Civil { year: 2024, month: 3, day: 1 });
    assert_eq!(Civil { year: 2024, month: 3, day: 1 }.pred(), leap);
}

#[test]
fn dates_are_written_so_that_they_sort() {
    assert_eq!(Civil { year: 2026, month: 3, day: 8 }.to_iso(), "2026-03-08");
    assert!(Civil { year: 2026, month: 3, day: 8 }.to_iso() < Civil { year: 2026, month: 11, day: 1 }.to_iso());
}

#[test]
fn summer_begins_and_ends_at_two() {
    let (start, end) = device_tz().dst_range_utc(2026);
    assert_eq!(start, 1_772_953_200);
    assert_eq!(end, 1_793_512_800);
    assert!(!device_tz().is_dst(start - 1) && device_tz().is_dst(start));
    assert!(device_tz().is_dst(end - 1) && !device_tz().is_dst(end));
    assert_eq!(device_tz().offset_at(start), -4 * 3600);
    assert_eq!(device_tz().offset_at(end), -5 * 3600);
    assert!(device_tz().observes_dst());
}

#[test]
fn no_occurrence_lies_before_the_next_one() {
    let tz = device_tz();
    for now in [1_772_953_199, 1_772_953_200, 1_793_512_799, 1_793_516_400] {
        let next = next_occurrence_utc(&tz, 90, now);
        assert!(next >= now);
        let day = tz.to_local(now).0;
        let days = [day.pred(), day, day.succ(), day.succ().succ()];
        assert!(days.iter().any(|d| tz.local_to_utc(*d, 90 * 60) == next));
        assert!(days.iter().all(|d| {
            let due = tz.local_to_utc(*d, 90 * 60);
            due < now || due >= next
        }));
    }
}

#[test]
fn instants_are_counted_up_to_the_limit_of_the_machine() {
    let tz = device_tz();
    for now in [9_223_372_036_700_000_000, -9_223_372_036_700_000_000] {
        let next = next_occurrence_utc(&tz, 450, now);
        assert!(next >= now && next - now <= 90_000);
        assert_eq!(tz.to_local(next).1, 27_000);
    }
}

#[test]
fn weekdays_are_found_far_from_the_month() {
    assert_eq!(Civil::nth_weekday(2026, 3, 0, 0), Civil { year: 2026, month: 2, day: 22 });
    assert_eq!(Civil::nth_weekday(2026, 3, 7, 2), Civil::nth_weekday(2026, 3, 0, 2));
    let far = Civil::nth_weekday(2026, 3, 0, 1_000_000_000_000_000_000);
    assert_eq!(far.weekday(), 0);
    assert_eq!(far.epoch_day(), 20_513 + 7 * 999_999_999_999_999_999);
    let last = Civil::from_epoch_day(i64::MAX - 719_468);
    assert_eq!(last.epoch_day(), i64::MAX - 719_468);
    assert_eq!(last.pred().succ(), last);
}

use chrono::{DateTime, Datelike, Utc};
use workshop::ulids::{decode_ulids, read_ulids, timestamp_ms, ulids_to_uuids, UlidCount};

fn made() -> Vec<u128> {
    read_ulids(&texts(&MADE)).unwrap()
}

fn ulid_from_text(text: &str) -> Option<u128> {
    read_ulids(&vec![text.to_string()]).map(|read| read[0])
}

fn texts(list: &[&str]) -> Vec<String> {
    list.iter().map(|text| text.to_string()).collect()
}

const MADE: [&str; 9] = [
    "00WEGGF0G0J5HEYXS3D7RWZGV8",
    "76EP4G39R8JD1N8AQNYDVJBRCF",
    "018CJ7KMG0051CDCS3B7BFJ3AK",
    "00Y986KPG0AMGB78RD45E9109K",
    "010451HTG0NYWMPWCEXG6AJ8F2",
    "01HH9SJEG0KY16H81S3N1BMXM4",
    "01HH9SJEG0P9M22Z9VGHH9C8CX",
    "017F8YY0G0NQA16HHC2QT5JD6X",
    "03QCPC7P003V1NND3B3QJW72QJ",
];

#[test]
fn reads_an_identifier() {
    assert_eq!(ulid_from_text("01BJQ0E1C3Z56ABCD0E11HYX4M"), Some(0x015cae070583f94ca5b1a070431f7494));
    assert_eq!(ulid_from_text("01bjq0e1c3z56abcd0e11hyx4m"), Some(0x015cae070583f94ca5b1a070431f7494));
    assert_eq!(ulid_from_text("00000000000000000000000000"), Some(0));
    assert_eq!(ulid_from_text("00000000000000000000000010"), Some(32));
    assert_eq!(ulid_from_text("7ZZZZZZZZZZZZZZZZZZZZZZZZZ"), Some(u128::MAX));
}

#[test]
fn bits_beyond_the_word_are_cut() {
    assert_eq!(ulid_from_text("ZZZZZZZZZZZZZZZZZZZZZZZZZZ"), Some(u128::MAX));
    assert_eq!(ulid_from_text("80000000000000000000000000"), Some(0));
    assert_eq!(ulid_from_text("G0000000000000000000000001"), Some(1));
}

#[test]
fn refuses_what_is_no_identifier() {
    assert_eq!(ulid_from_text(""), None);
    assert_eq!(ulid_from_text("01BJQ0E1C3Z56ABCD0E11HYX4"), None);
    assert_eq!(ulid_from_text("01BJQ0E1C3Z56ABCD0E11HYX4MM"), None);
    assert_eq!(ulid_from_text("01BJQ0E1C3Z56ABCD0E11HYX4I"), None);
    assert_eq!(ulid_from_text("01BJQ0E1C3Z56ABCD0E11HYX4L"), None);
    assert_eq!(ulid_from_text("01BJQ0E1C3Z56ABCD0E11HYX4O"), None);
    assert_eq!(ulid_from_text("01BJQ0E1C3Z56ABCD0E11HYX4U"), None);
    assert_eq!(ulid_from_text("01BJQ0E1C3Z56ABCD0E11HYX4u"), None);
    assert_eq!(ulid_from_text("01BJQ0E1C3Z56ABCD0E11HYX4-"), None);
    assert_eq!(ulid_from_text("01BJQ0E1C3Z56ABCD0E11HYX é"), None);
    assert_eq!(ulid_from_text("01BJQ0E1C3Z56ABCD0E11HYXé"), None);
    assert_eq!(ulid_from_text("01BJQ0E1C3Z56ABCD0E11HYX4é"), None);
}

#[test]
fn every_digit_has_its_value() {
    let alphabet = "0123456789ABCDEFGHJKMNPQRSTVWXYZ";
    for (value, digit) in alphabet.chars().enumerate() {
        let upper = format!("0000000000000000000000000{}", digit);
        let lower = upper.to_lowercase();
        assert_eq!(ulid_from_text(&upper), Some(value as u128));
        assert_eq!(ulid_from_text(&lower), Some(value as u128));
    }
    for other in "ILOUilou!@[`{/: ".chars() {
        assert_eq!(ulid_from_text(&format!("0000000000000000000000000{}", other)), None);
    }
}

#[test]
fn timestamp_is_the_upper_48_bits() {
    assert_eq!(timestamp_ms(0), 0);
    assert_eq!(timestamp_ms(u128::MAX), (1 << 48) - 1);
    assert_eq!(timestamp_ms(1 << 80), 1);
    assert_eq!(timestamp_ms((1 << 80) - 1), 0);
    assert_eq!(timestamp_ms(ulid_from_text(MADE[0]).unwrap()), 977659200000);
}

#[test]
fn identifiers_become_uuids_in_reverse() {
    let data = texts(&[
        "01BJQ0E1C3Z56ABCD0E11HYX4M",
        "01BJQ0E1C3Z56ABCD0E11HYX5N",
        "01BJQ0E1C3Z56ABCD0E11HYX6Q",
        "01BJQ0E1C3Z56ABCD0E11HYX7R",
        "01BJQ0E1C3Z56ABCD0E11HYX8P",
    ]);
    assert_eq!(
        ulids_to_uuids(&data),
        vec![
            0x015cae07_0583_f94c_a5b1_a070431f7516,
            0x015cae07_0583_f94c_a5b1_a070431f74f8,
            0x015cae07_0583_f94c_a5b1_a070431f74d7,
            0x015cae07_0583_f94c_a5b1_a070431f74b5,
            0x015cae07_0583_f94c_a5b1_a070431f7494,
        ]
    );
}

#[test]
fn texts_that_write_no_identifier_are_passed_over() {
    let data = texts(&["nothing", "00000000000000000000000001", "", "00000000000000000000000002", "I"]);
    assert_eq!(ulids_to_uuids(&data), vec![2, 1]);
    assert_eq!(ulids_to_uuids(&texts(&["x", "y"])), Vec::<u128>::new());
    assert_eq!(ulids_to_uuids(&Vec::new()), Vec::<u128>::new());
}

#[test]
fn counts_among_identifiers() {
    let now_ms = 1_702_339_200_000;
    let count = decode_ulids(5, &made(), now_ms);
    assert_eq!(count, UlidCount { christmas_eve: 3, weekday: 1, in_the_future: 2, lsb_is_one: 5 });
    let count = decode_ulids(6, &made(), now_ms);
    assert_eq!(count, UlidCount { christmas_eve: 3, weekday: 3, in_the_future: 2, lsb_is_one: 5 });
    let count = decode_ulids(0, &made(), 0);
    assert_eq!(count, UlidCount { christmas_eve: 3, weekday: 0, in_the_future: 9, lsb_is_one: 5 });
    let count = decode_ulids(7, &made(), u64::MAX);
    assert_eq!(count, UlidCount { christmas_eve: 3, weekday: 0, in_the_future: 0, lsb_is_one: 5 });
}

#[test]
fn the_future_starts_after_now() {
    let made = read_ulids(&texts(&[MADE[5]])).unwrap();
    assert_eq!(decode_ulids(0, &made, 1_702_209_599_999).in_the_future, 1);
    assert_eq!(decode_ulids(0, &made, 1_702_209_600_000).in_the_future, 0);
    assert_eq!(decode_ulids(0, &made, 1_702_209_600_001).in_the_future, 0);
}

#[test]
fn counts_of_nothing_are_zero() {
    let none = UlidCount { christmas_eve: 0, weekday: 0, in_the_future: 0, lsb_is_one: 0 };
    assert_eq!(decode_ulids(3, &Vec::new(), 0), none);
    assert_eq!(read_ulids(&Vec::new()), Some(Vec::new()));
}

#[test]
fn reading_refuses_other_text() {
    let mut data = texts(&MADE);
    assert_eq!(read_ulids(&data).map(|read| read.len()), Some(9));
    data.push("not an identifier".to_string());
    assert_eq!(read_ulids(&data), None);
    assert_eq!(read_ulids(&texts(&["", "00000000000000000000000003"])), None);
    assert_eq!(
        read_ulids(&texts(&["00000000000000000000000003", "00000000000000000000000001"])),
        Some(vec![3, 1])
    );
}

#[test]
fn days_of_the_calendar() {
    let day = 86_400_000u128;
    let at = |days: u128, ms: u128| vec![((days * day + ms) << 80) | 1];
    // The first of January 1970 was a Thursday.
    assert_eq!(decode_ulids(3, &at(0, 0), 0).weekday, 1);
    assert_eq!(decode_ulids(3, &at(0, 86_399_999), 0).weekday, 1);
    assert_eq!(decode_ulids(4, &at(1, 0), 0).weekday, 1);
    assert_eq!(decode_ulids(0, &at(4, 0), 0).weekday, 1);
    assert_eq!(decode_ulids(6, &at(3, 0), 0).weekday, 1);
    assert_eq!(decode_ulids(7, &at(3, 0), 0).weekday, 0);
    // The 24th of December 1970 was day 357 of the year.
    assert_eq!(decode_ulids(0, &at(357, 0), 0).christmas_eve, 1);
    assert_eq!(decode_ulids(0, &at(357, 86_399_999), 0).christmas_eve, 1);
    assert_eq!(decode_ulids(0, &at(356, 86_399_999), 0).christmas_eve, 0);
    assert_eq!(decode_ulids(0, &at(358, 0), 0).christmas_eve, 0);
    // The 24th of November and the 24th of December 2024, a leap year.
    assert_eq!(decode_ulids(0, &at(20051, 0), 0).christmas_eve, 0);
    assert_eq!(decode_ulids(0, &at(20081, 0), 0).christmas_eve, 1);
    // The largest instant an identifier can hold.
    assert_eq!(decode_ulids(0, &vec![u128::MAX], 0).in_the_future, 1);
}

#[test]
fn counting_agrees_with_the_calendar_crate() {
    let mut ulids = Vec::new();
    let mut ms: u64 = 0;
    while ms < (1 << 48) {
        ulids.push(((ms as u128) << 80) | (ms as u128 & 3));
        ms = ms * 3 + 40_000_000_007;
    }
    assert!(ulids.len() > 5);
    for day in 0..7 {
        let dates: Vec<DateTime<Utc>> = ulids
            .iter()
            .map(|ulid| DateTime::<Utc>::from(ulid::Ulid(*ulid).datetime()))
            .collect();
        let expected = UlidCount {
            christmas_eve: dates.iter().filter(|d| d.month() == 12 && d.day() == 24).count(),
            weekday: dates.iter().filter(|d| d.weekday().num_days_from_monday() == day).count(),
            in_the_future: ulids.iter().filter(|u| ulid::Ulid(**u).timestamp_ms() > 1 << 40).count(),
            lsb_is_one: ulids.iter().filter(|u| *u & 1 == 1).count(),
        };
        assert_eq!(decode_ulids(day, &ulids, 1 << 40), expected);
    }
}

#[test]
fn weekdays_go_round_from_a_thursday() {
    let mut ms: u64 = 0;
    while ms < (1 << 48) {
        let expected = ((ms / 86_400_000 + 3) % 7) as u32;
        for day in 0..8 {
            let count = decode_ulids(day, &vec![(ms as u128) << 80], 0);
            assert_eq!(count.weekday, (day == expected) as usize, "{} ms", ms);
        }
        ms = ms + ms / 7 + 86_399_999;
    }
}

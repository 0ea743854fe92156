use wisp::globals::{civil_from_days, date_parts, pack_globals, GlobalKind, GlobalsSchema, GlobalsValues};

#[test]
fn epoch() {
    assert_eq!(date_parts(0), (1970, 1, 1, 0));
}

#[test]
fn day_two() {
    assert_eq!(date_parts(86_400), (1970, 1, 2, 0));
}

#[test]
fn known_dates() {
    // 2025-01-01 00:00:00 UTC.
    assert_eq!(date_parts(1_735_689_600), (2025, 1, 1, 0));
    // One hour, one minute and one second later.
    assert_eq!(date_parts(1_735_689_600 + 3_661), (2025, 1, 1, 3_661));
    // 2000-02-29 (leap day) is 11_016 days after the epoch.
    assert_eq!(date_parts(11_016 * 86_400), (2000, 2, 29, 0));
}

#[test]
fn dates_before_the_epoch_and_century_leap_rules() {
    assert_eq!(civil_from_days(-1), (1969, 12, 31));
    // 1900 is not a leap year: 1900-02-28 is followed by 1900-03-01.
    assert_eq!(civil_from_days(-25_509), (1900, 2, 28));
    assert_eq!(civil_from_days(-25_508), (1900, 3, 1));
    // 2100-02-28 is followed by 2100-03-01.
    assert_eq!(civil_from_days(47_540), (2100, 2, 28));
    assert_eq!(civil_from_days(47_541), (2100, 3, 1));
    // 2024-12-31 closes a leap year.
    assert_eq!(civil_from_days(20_088), (2024, 12, 31));
}

#[test]
fn name_round_trips() {
    for kind in GlobalKind::ALL {
        assert_eq!(GlobalKind::from_name(kind.name()), Some(kind));
    }
    assert_eq!(GlobalKind::from_name("vibes"), None);
}

#[test]
fn pack_offsets() {
    let schema = GlobalsSchema {
        size: 16,
        fields: vec![(GlobalKind::Time, 0), (GlobalKind::Resolution, 8)],
    };
    let values = GlobalsValues {
        time: 2.0f32.to_bits(),
        resolution: [640.0f32.to_bits(), 480.0f32.to_bits()],
        ..Default::default()
    };
    let bytes = pack_globals(&schema, &values);
    assert_eq!(bytes.len(), 16);
    let floats: Vec<f32> = bytes
        .chunks(4)
        .map(|c| f32::from_ne_bytes([c[0], c[1], c[2], c[3]]))
        .collect();
    assert_eq!(floats, vec![2.0, 0.0, 640.0, 480.0]);
}

#[test]
fn pack_u32_fields() {
    let schema = GlobalsSchema {
        size: 8,
        fields: vec![(GlobalKind::Frame, 0), (GlobalKind::PassIndex, 4)],
    };
    let values = GlobalsValues {
        frame: 7,
        pass_index: 2,
        ..Default::default()
    };
    let bytes = pack_globals(&schema, &values);
    let words: Vec<u32> = bytes
        .chunks(4)
        .map(|c| u32::from_ne_bytes([c[0], c[1], c[2], c[3]]))
        .collect();
    assert_eq!(words, vec![7, 2]);
}

#[test]
fn pack_vec4_members_and_trailing_padding() {
    let schema = GlobalsSchema {
        size: 48,
        fields: vec![(GlobalKind::Mouse, 0), (GlobalKind::Date, 16)],
    };
    let values = GlobalsValues {
        mouse: [1, 2, 3, 4],
        date: [5, 6, 7, 8],
        frame: 99,
        ..Default::default()
    };
    let bytes = pack_globals(&schema, &values);
    let words: Vec<u32> = bytes
        .chunks(4)
        .map(|c| u32::from_ne_bytes([c[0], c[1], c[2], c[3]]))
        .collect();
    assert_eq!(words, vec![1, 2, 3, 4, 5, 6, 7, 8, 0, 0, 0, 0]);
}

#[test]
fn the_next_day_count_is_the_next_date() {
    assert_eq!(civil_from_days(58), (1970, 2, 28));
    assert_eq!(civil_from_days(59), (1970, 3, 1));
    assert_eq!(civil_from_days(-1), (1969, 12, 31));
    assert_eq!(civil_from_days(0), (1970, 1, 1));
}

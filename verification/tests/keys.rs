use playlist_sort::{build_key, precedes_or_equals, Episode, Field, Item, Track, ValidationError};

fn track(name: &str, date: Option<&str>, precision: Option<&str>, disc: i32, number: u32) -> Track {
    Track {
        name: name.to_string(),
        artists: vec!["Daft Punk".to_string(), "Pharrell".to_string()],
        album: "Discovery".to_string(),
        release_date: date.map(|d| d.to_string()),
        release_date_precision: precision.map(|p| p.to_string()),
        disc_number: disc,
        track_number: number,
        is_local: false,
    }
}

fn key(t: Track) -> String {
    build_key(&Item::Track(t)).unwrap()
}

#[test]
fn key_joins_the_fields_with_hyphens() {
    let t = track("Harder", Some("2001-03-12"), Some("day"), 1, 4);
    assert_eq!(key(t), "Daft Punk-2001-03-12-Discovery-000001-000004-Harder");
}

#[test]
fn key_uses_only_the_primary_artist() {
    let mut t = track("Harder", Some("2001-03-12"), Some("day"), 1, 4);
    t.artists = vec!["Romanthony".to_string(), "Daft Punk".to_string()];
    assert_eq!(key(t), "Romanthony-2001-03-12-Discovery-000001-000004-Harder");
}

#[test]
fn year_precision_counts_as_first_of_january() {
    let t = track("Harder", Some("2001"), Some("year"), 1, 4);
    assert_eq!(key(t), "Daft Punk-2001-01-01-Discovery-000001-000004-Harder");
}

#[test]
fn month_precision_counts_as_first_of_the_month() {
    let t = track("Harder", Some("2001-03"), Some("month"), 1, 4);
    assert_eq!(key(t), "Daft Punk-2001-03-01-Discovery-000001-000004-Harder");
}

#[test]
fn any_other_precision_leaves_the_date_alone() {
    let t = track("Harder", Some("2001-03"), Some("Year"), 1, 4);
    assert_eq!(key(t), "Daft Punk-2001-03-Discovery-000001-000004-Harder");
    let t = track("Harder", Some("2001"), Some(""), 1, 4);
    assert_eq!(key(t), "Daft Punk-2001-Discovery-000001-000004-Harder");
}

#[test]
fn numbers_are_padded_to_six_digits() {
    let t = track("x", Some("2001-03-12"), Some("day"), 0, 0);
    assert_eq!(key(t), "Daft Punk-2001-03-12-Discovery-000000-000000-x");
    let t = track("x", Some("2001-03-12"), Some("day"), 12, 345678);
    assert_eq!(key(t), "Daft Punk-2001-03-12-Discovery-000012-345678-x");
    let t = track("x", Some("2001-03-12"), Some("day"), 999999, 100000);
    assert_eq!(key(t), "Daft Punk-2001-03-12-Discovery-999999-100000-x");
}

#[test]
fn numbers_longer_than_the_padding_are_kept_whole() {
    let t = track("x", Some("2001-03-12"), Some("day"), 1234567, 4294967295);
    assert_eq!(key(t), "Daft Punk-2001-03-12-Discovery-1234567-4294967295-x");
    let t = track("x", Some("2001-03-12"), Some("day"), 2147483647, 1000000);
    assert_eq!(key(t), "Daft Punk-2001-03-12-Discovery-2147483647-1000000-x");
}

#[test]
fn negative_disc_numbers_are_padded_in_front_of_the_sign() {
    let t = track("x", Some("2001-03-12"), Some("day"), -1, 1);
    assert_eq!(key(t), "Daft Punk-2001-03-12-Discovery-0000-1-000001-x");
    let t = track("x", Some("2001-03-12"), Some("day"), -12345, 1);
    assert_eq!(key(t), "Daft Punk-2001-03-12-Discovery--12345-000001-x");
    let t = track("x", Some("2001-03-12"), Some("day"), -2147483648, 1);
    assert_eq!(key(t), "Daft Punk-2001-03-12-Discovery--2147483648-000001-x");
}

#[test]
fn padded_numbers_agree_with_the_formatter() {
    for n in [0i32, 7, 10, 99, 100, 4321, 99999, 100000, 999999, 1000000, -1, -9, -10, -99999, -100000] {
        let t = track("x", Some("2001"), Some("day"), n, 1);
        let expected = format!("Daft Punk-2001-Discovery-{:0>6}-{:0>6}-x", n, 1);
        assert_eq!(key(t), expected);
    }
    for n in [0u32, 5, 10, 123456, 999999, 1000000, 4000000000] {
        let t = track("x", Some("2001"), Some("day"), 1, n);
        let expected = format!("Daft Punk-2001-Discovery-{:0>6}-{:0>6}-x", 1, n);
        assert_eq!(key(t), expected);
    }
}

#[test]
fn track_nine_sorts_before_track_ten() {
    let nine = key(track("Zebra", Some("2001-03-12"), Some("day"), 1, 9));
    let ten = key(track("Aardvark", Some("2001-03-12"), Some("day"), 1, 10));
    assert!(precedes_or_equals(&nine, &ten));
    assert!(!precedes_or_equals(&ten, &nine));
    assert!(nine < ten);
}

#[test]
fn disc_one_sorts_before_disc_two_whatever_the_track() {
    let first = key(track("Zebra", Some("2001-03-12"), Some("day"), 1, 12));
    let second = key(track("Aardvark", Some("2001-03-12"), Some("day"), 2, 1));
    assert!(precedes_or_equals(&first, &second));
    assert!(!precedes_or_equals(&second, &first));
}

#[test]
fn year_precision_sorts_before_a_later_day_of_that_year() {
    let year_only = key(track("b", Some("2001"), Some("year"), 1, 1));
    let later = key(track("a", Some("2001-03-12"), Some("day"), 1, 1));
    assert!(precedes_or_equals(&year_only, &later));
    assert!(!precedes_or_equals(&later, &year_only));
}

#[test]
fn episode_is_ineligible_and_carries_its_identity() {
    let e = Item::Episode(Episode { id: "4rOoJ6Egrf8K2IrywzwOMk".to_string(), name: "Talk".to_string() });
    assert_eq!(
        build_key(&e),
        Err(ValidationError::IneligibleItem {
            name: "Talk".to_string(),
            id: Some("4rOoJ6Egrf8K2IrywzwOMk".to_string()),
        })
    );
}

#[test]
fn local_track_is_ineligible() {
    let mut t = track("Tape", Some("2001"), Some("year"), 1, 1);
    t.is_local = true;
    assert_eq!(
        build_key(&Item::Track(t)),
        Err(ValidationError::IneligibleItem { name: "Tape".to_string(), id: None })
    );
}

#[test]
fn local_track_is_rejected_before_its_fields_are_looked_at() {
    let mut t = track("Tape", None, None, 1, 1);
    t.is_local = true;
    t.artists = vec![];
    assert_eq!(
        build_key(&Item::Track(t)),
        Err(ValidationError::IneligibleItem { name: "Tape".to_string(), id: None })
    );
}

#[test]
fn missing_artist_is_reported() {
    let mut t = track("Solo", None, None, 1, 1);
    t.artists = vec![];
    assert_eq!(
        build_key(&Item::Track(t)),
        Err(ValidationError::MissingField { field: Field::Artist, item: "Solo".to_string() })
    );
}

#[test]
fn missing_release_date_is_reported() {
    let t = track("Undated", None, None, 1, 1);
    assert_eq!(
        build_key(&Item::Track(t)),
        Err(ValidationError::MissingField { field: Field::ReleaseDate, item: "Undated".to_string() })
    );
}

#[test]
fn missing_precision_is_reported() {
    let t = track("Vague", Some("2001"), None, 1, 1);
    assert_eq!(
        build_key(&Item::Track(t)),
        Err(ValidationError::MissingField {
            field: Field::ReleaseDatePrecision,
            item: "Vague".to_string(),
        })
    );
}

#[test]
fn entry_with_nothing_behind_it_is_reported() {
    assert_eq!(
        build_key(&Item::Nothing),
        Err(ValidationError::MissingField { field: Field::Payload, item: String::new() })
    );
}

#[test]
fn messages_name_the_offending_item() {
    let podcast = ValidationError::IneligibleItem { name: "Talk".to_string(), id: Some("id".to_string()) };
    assert_eq!(podcast.message(), "The playlist cannot be sorted, as it has a podcast: Talk");
    let local = ValidationError::IneligibleItem { name: "Tape".to_string(), id: None };
    assert_eq!(
        local.message(),
        "The playlist cannot be sorted, as it has a music from your storage: Tape"
    );
    let blank = ValidationError::MissingField { field: Field::ReleaseDate, item: "Undated".to_string() };
    assert_eq!(
        blank.message(),
        "The sorting process failed because the music Undated param album.release_date is blank"
    );
    let blank = ValidationError::MissingField {
        field: Field::ReleaseDatePrecision,
        item: "Vague".to_string(),
    };
    assert_eq!(
        blank.message(),
        "The sorting process failed because the music Vague param album.release_date_precision is blank"
    );
}

#[test]
fn field_names_follow_the_remote_documents() {
    assert_eq!(Field::Payload.name(), "track");
    assert_eq!(Field::Artist.name(), "artists");
    assert_eq!(Field::ReleaseDate.name(), "album.release_date");
    assert_eq!(Field::ReleaseDatePrecision.name(), "album.release_date_precision");
}

#[test]
fn key_order_agrees_with_string_order() {
    let samples = [
        "", "a", "ab", "abc", "abd", "b", "B", "-", "0", "000009", "000010", "é", "z", "zz", "日本", "a-b",
        "a b", "\u{10FFFF}", "\u{FFFF}", "\u{E000}", "\u{D7FF}", "~",
    ];
    for a in samples {
        for b in samples {
            assert_eq!(precedes_or_equals(a, b), a <= b, "{:?} against {:?}", a, b);
        }
    }
}

use zarrs_sqlite::{
    earliest_supported_version, latest_version, Error, Flags, Metadata, SqliteStoreMetadata,
    SqliteStoreMetadataBuilder, TextMap, Timestamp, Version,
};

fn rows(entries: &[(&str, &str)]) -> Vec<(String, String)> {
    entries
        .iter()
        .map(|(k, v)| (k.to_string(), v.to_string()))
        .collect()
}

fn unknown_of(metadata: &SqliteStoreMetadata) -> Vec<(String, String)> {
    (0..metadata.unknown.len())
        .map(|i| {
            let (k, v) = metadata.unknown.entry(i);
            (k.to_string(), v.to_string())
        })
        .collect()
}

#[test]
fn roundtrip_version() {
    let version = Version { major: 1, minor: 2 };
    let s = version.to_string();
    assert_eq!(s, "1.2");
    let parsed = s.parse::<Version>().unwrap();
    assert_eq!(version, parsed);
}

#[test]
fn roundtrip_flags() {
    let flags = Flags::from_iter(vec!["a".to_string(), "b".to_string()]);
    let s = flags.to_string();
    let parsed: Flags = s.parse().unwrap();
    assert_eq!(flags, parsed);
}

#[test]
fn versions_that_cannot_be_read() {
    for text in [
        "", "1", "1.", ".1", "1.2.3", "1.2.", "a.b", "1,2", " 1.2", "1. 2", "-1.0", "1.-0", "1.2x",
        "18446744073709551616.0", "0.18446744073709551616", "+", "+.+", "1.+",
    ] {
        match text.parse::<Version>() {
            Err(Error::InvalidVersion { version }) => assert_eq!(version, text),
            other => panic!("{text:?} was read as {other:?}"),
        }
    }
}

#[test]
fn versions_that_can_be_read() {
    assert_eq!("0.0".parse::<Version>().unwrap(), Version::new(0, 0));
    assert_eq!("007.010".parse::<Version>().unwrap(), Version::new(7, 10));
    assert_eq!("+1.+2".parse::<Version>().unwrap(), Version::new(1, 2));
    assert_eq!(
        "18446744073709551615.18446744073709551615".parse::<Version>().unwrap(),
        Version::new(u64::MAX, u64::MAX)
    );
}

#[test]
fn version_text_of_large_numbers() {
    assert_eq!(
        Version::new(u64::MAX, 0).to_string(),
        "18446744073709551615.0"
    );
    assert_eq!(Version::new(0, 1000).to_string(), "0.1000");
}

#[test]
fn version_compatibility() {
    let v1_0 = Version::new(1, 0);
    let v1_2 = Version::new(1, 2);
    let v2_0 = Version::new(2, 0);
    assert!(v1_2.minor_compatible(&v1_0));
    assert!(v1_2.minor_compatible(&v1_2));
    assert!(!v1_0.minor_compatible(&v1_2));
    assert!(!v2_0.minor_compatible(&v1_2));
    assert!(v1_0.major_compatible(&v1_2));
    assert!(!v1_0.major_compatible(&v2_0));
}

#[test]
fn version_defaults() {
    assert_eq!(latest_version(), Version::new(1, 0));
    assert_eq!(earliest_supported_version(), Version::new(1, 0));
    assert_eq!(Version::default(), latest_version());
    assert_eq!(Version::from((3, 4)), Version::new(3, 4));
    assert!(Version::new(1, 9) < Version::new(2, 0));
}

#[test]
fn flags_are_sorted_and_distinct() {
    let flags = Flags::from_iter(
        ["zeta", "", "alpha", "mid", "alpha"].map(String::from).to_vec(),
    );
    assert_eq!(flags.iter(), vec!["alpha", "mid", "zeta"]);
    assert_eq!(flags.to_string(), "alpha,mid,zeta");
}

#[test]
fn flags_sort_by_code_point() {
    let flags = Flags::from_iter(["é", "z", "Z", "ab", "a", "\u{1F600}", "\u{FFFD}"].map(String::from).to_vec());
    assert_eq!(
        flags.iter(),
        vec!["Z", "a", "ab", "z", "é", "\u{FFFD}", "\u{1F600}"]
    );
}

#[test]
fn empty_flags() {
    assert_eq!(Flags::default().to_string(), "");
    assert_eq!("".parse::<Flags>().unwrap(), Flags::default());
    assert_eq!(",,,".parse::<Flags>().unwrap(), Flags::default());
    assert_eq!(Flags::default().iter().len(), 0);
}

#[test]
fn a_flag_with_a_comma_is_read_as_two() {
    let flags = Flags::from_iter(vec!["a,b".to_string()]);
    let read: Flags = flags.to_string().parse().unwrap();
    assert_eq!(read.iter(), vec!["a", "b"]);
}

#[test]
fn flags_can_be_copied() {
    let flags: Flags = "b,a".parse().unwrap();
    assert_eq!(flags.clone(), flags);
}

#[test]
fn text_map_keeps_one_value_per_key() {
    let mut map = TextMap::new();
    assert_eq!(map.len(), 0);
    map.insert("b".to_string(), "1".to_string());
    map.insert("a".to_string(), "2".to_string());
    map.insert("b".to_string(), "3".to_string());
    assert_eq!(map.len(), 2);
    assert_eq!(map.get("a"), Some("2"));
    assert_eq!(map.get("b"), Some("3"));
    assert_eq!(map.get("c"), None);
    assert_eq!(map.entry(0), ("a", "2"));
    assert_eq!(map.entry(1), ("b", "3"));
    assert_eq!(map.clone(), map);
    assert_eq!(TextMap::default().len(), 0);
}

#[test]
fn metadata_from_rows() {
    let metadata = SqliteStoreMetadata::from_rows(&rows(&[
        ("created_time", "2024-05-06T07:08:09Z"),
        ("custom", "kept"),
        ("sqlitestore_version", "1.3"),
        ("compatible_flags", "b,a"),
        ("incompatible_flags", ""),
        ("created_by", "someone"),
        ("modified_at", "2024-05-06T07:08:10.5Z"),
    ]))
    .unwrap();
    assert_eq!(metadata.sqlitestore_version, Version::new(1, 3));
    assert_eq!(metadata.compatible_flags.iter(), vec!["a", "b"]);
    assert_eq!(metadata.incompatible_flags.iter().len(), 0);
    assert_eq!(metadata.created_by.as_deref(), Some("someone"));
    assert_eq!(metadata.created_at.as_nanosecond(), 1_714_979_289_000_000_000);
    assert_eq!(
        metadata.modified_at.unwrap().as_nanosecond(),
        1_714_979_290_500_000_000
    );
    assert_eq!(unknown_of(&metadata), rows(&[("custom", "kept")]));
}

#[test]
fn metadata_defaults_for_missing_entries() {
    let metadata = SqliteStoreMetadata::from_rows(&rows(&[
        ("sqlitestore_version", "1.0"),
        ("created_time", "1970-01-01T00:00:00Z"),
    ]))
    .unwrap();
    assert_eq!(metadata.compatible_flags, Flags::default());
    assert_eq!(metadata.incompatible_flags, Flags::default());
    assert_eq!(metadata.created_by, None);
    assert_eq!(metadata.created_at.as_nanosecond(), 0);
    assert_eq!(metadata.modified_at, Some(metadata.created_at));
    assert_eq!(metadata.unknown.len(), 0);
}

#[test]
fn modified_at_is_preferred_to_modified_time() {
    let base = [
        ("sqlitestore_version", "1.0"),
        ("created_time", "1970-01-01T00:00:00Z"),
        ("modified_time", "1970-01-01T00:00:01Z"),
    ];
    let metadata = SqliteStoreMetadata::from_rows(&rows(&base)).unwrap();
    assert_eq!(metadata.modified_at.unwrap().as_nanosecond(), 1_000_000_000);
    let mut more = rows(&base);
    more.insert(0, ("modified_at".to_string(), "1970-01-01T00:00:02Z".to_string()));
    let metadata = SqliteStoreMetadata::from_rows(&more).unwrap();
    assert_eq!(metadata.modified_at.unwrap().as_nanosecond(), 2_000_000_000);
}

#[test]
fn missing_entries_are_reported() {
    match SqliteStoreMetadata::from_rows(&rows(&[])) {
        Err(Error::InvalidMetadata { key, value }) => {
            assert_eq!(key, "sqlitestore_version");
            assert_eq!(value, None);
        }
        other => panic!("{other:?}"),
    }
    match SqliteStoreMetadata::from_rows(&rows(&[("sqlitestore_version", "1.0")])) {
        Err(Error::InvalidMetadata { key, value }) => {
            assert_eq!(key, "created_time");
            assert_eq!(value, None);
        }
        other => panic!("{other:?}"),
    }
}

#[test]
fn unreadable_entries_are_reported() {
    for (k, v) in [
        ("sqlitestore_version", "one"),
        ("created_time", "yesterday"),
        ("modified_at", "2024-05-06"),
        ("modified_time", ""),
    ] {
        let table = rows(&[("sqlitestore_version", "1.0"), (k, v), ("created_time", "never")]);
        match SqliteStoreMetadata::from_rows(&table) {
            Err(Error::InvalidMetadata { key, value }) => {
                assert_eq!(key, k);
                assert_eq!(value.as_deref(), Some(v));
            }
            other => panic!("{other:?}"),
        }
    }
}

#[test]
fn row_order_does_not_matter() {
    let mut table = rows(&[
        ("x", "1"),
        ("sqlitestore_version", "1.0"),
        ("created_time", "2024-05-06T07:08:09Z"),
        ("a", "2"),
    ]);
    let forward = SqliteStoreMetadata::from_rows(&table).unwrap();
    table.reverse();
    let backward = SqliteStoreMetadata::from_rows(&table).unwrap();
    assert_eq!(forward.created_at, backward.created_at);
    assert_eq!(unknown_of(&forward), unknown_of(&backward));
}

#[test]
fn builder_tells_known_keys_from_unknown_ones() {
    let mut builder = SqliteStoreMetadataBuilder::new();
    assert!(builder.add_key_value("sqlitestore_version", "1.0").unwrap());
    assert!(builder.add_key_value("created_time", "2024-05-06T07:08:09Z").unwrap());
    assert!(!builder.add_key_value("created_at", "whenever").unwrap());
    let metadata = builder.clone().build().unwrap();
    assert_eq!(unknown_of(&metadata), rows(&[("created_at", "whenever")]));
    assert!(SqliteStoreMetadataBuilder::default().build().is_err());
}

#[test]
fn metadata_of_a_new_store() {
    let before = Timestamp::now();
    let metadata = Metadata::with_created_by("tester".to_string());
    let after = Timestamp::now();
    assert!(before <= metadata.created_at && metadata.created_at <= after);
    assert_eq!(metadata.modified_at, Some(metadata.created_at));
    assert_eq!(metadata.created_by.as_deref(), Some("tester"));
    assert_eq!(metadata.sqlitestore_version, latest_version());
    assert_eq!(Metadata::default().created_by, None);
}

use zarrs_sqlite::keys::{StoreKey, StorePrefix};
use zarrs_sqlite::{
    CheckpointResult, Error, IoErrorKind, PageWriteCounts, StorageError, Timestamp, MAX_NANOSECOND,
    MIN_NANOSECOND,
};

#[test]
fn keys() {
    for text in ["", "a", "a/b", "a/b/c", "zarr.json", ".", "a b", "é/ü"] {
        assert_eq!(StoreKey::new(text).unwrap().as_str(), text);
    }
    for text in ["/", "/a", "a/", "a//b", "//"] {
        assert!(StoreKey::new(text).is_none(), "{text:?}");
    }
}

#[test]
fn prefixes() {
    for text in ["", "a/", "a/b/", "a//"] {
        assert_eq!(StorePrefix::new(text).unwrap().as_str(), text);
    }
    for text in ["a", "/", "/a/", "a/b"] {
        assert!(StorePrefix::new(text).is_none(), "{text:?}");
    }
}

#[test]
fn timestamps_are_written_in_utc() {
    let timestamp = Timestamp::from_nanosecond(1_714_979_289_123_456_000).unwrap();
    assert_eq!(timestamp.to_string(), "2024-05-06T07:08:09.123456Z");
    assert_eq!(Timestamp::from_nanosecond(0).unwrap().to_string(), "1970-01-01T00:00:00Z");
}

#[test]
fn timestamps_are_read_with_any_offset() {
    let timestamp: Timestamp = "2024-05-06T09:08:09.123456+02:00".parse().unwrap();
    assert_eq!(timestamp.as_nanosecond(), 1_714_979_289_123_456_000);
    assert_eq!(timestamp.to_string(), "2024-05-06T07:08:09.123456Z");
}

#[test]
fn timestamps_round_trip() {
    for nanosecond in [MIN_NANOSECOND, -1, 0, 1, 999_999_999, MAX_NANOSECOND] {
        let timestamp = Timestamp::from_nanosecond(nanosecond).unwrap();
        let read: Timestamp = timestamp.to_string().parse().unwrap();
        assert_eq!(read, timestamp);
        assert_eq!(read.as_nanosecond(), nanosecond);
    }
}

#[test]
fn timestamps_out_of_range() {
    assert!(Timestamp::from_nanosecond(MIN_NANOSECOND - 1).is_none());
    assert!(Timestamp::from_nanosecond(MAX_NANOSECOND + 1).is_none());
}

#[test]
fn timestamps_that_cannot_be_read() {
    for text in ["", "now", "2024-05-06", "2024-05-06T07:08:09", "2024-13-06T07:08:09Z"] {
        match text.parse::<Timestamp>() {
            Err(Error::InvalidTimestamp(shown)) => assert_eq!(shown, text),
            other => panic!("{other:?}"),
        }
    }
}

#[test]
fn the_present_is_not_the_epoch() {
    assert!(Timestamp::now() > Timestamp::from_nanosecond(1_700_000_000_000_000_000).unwrap());
}

#[test]
fn error_messages() {
    let missing = Error::invalid_metadata("created_time", None);
    assert_eq!(
        missing.to_string(),
        "Invalid store metadata: key=created_time, value=None"
    );
    let unreadable = Error::invalid_metadata("k", Some("a\"b\n"));
    assert_eq!(
        unreadable.to_string(),
        "Invalid store metadata: key=k, value=Some(\"a\\\"b\\n\")"
    );
    assert_eq!(
        Error::invalid_version("x").to_string(),
        "Invalid {major}.{minor} version: x"
    );
    assert_eq!(Error::invalid_timestamp("x").to_string(), "Invalid timestamp: x");
    assert_eq!(Error::General("as it is".to_string()).to_string(), "as it is");
    let io = Error::Io {
        kind: IoErrorKind::NotFound,
        message: "File does not exist".to_string(),
    };
    assert_eq!(io.to_string(), "File does not exist");
}

#[test]
fn io_errors_are_passed_on() {
    let io = Error::Io {
        kind: IoErrorKind::AlreadyExists,
        message: "File already exists".to_string(),
    };
    match StorageError::from_error(io) {
        StorageError::IOError { kind, message } => {
            assert_eq!(kind, IoErrorKind::AlreadyExists);
            assert_eq!(message, "File already exists");
        }
        other => panic!("{other:?}"),
    }
}

#[test]
fn other_errors_are_passed_on_by_message() {
    match StorageError::from_error(Error::invalid_version("1")) {
        StorageError::Other(message) => {
            assert_eq!(message, "zarrs_sqlite: Invalid {major}.{minor} version: 1")
        }
        other => panic!("{other:?}"),
    }
}

#[test]
fn checkpoints() {
    let done = CheckpointResult::new(0, 7, 5);
    assert!(!done.busy);
    assert!(done.wal_mode());
    assert_eq!(done.pages_written, Some(PageWriteCounts { to_wal: 7, to_db: 5 }));
    let busy = CheckpointResult::new(1, 0, 0);
    assert!(busy.busy && busy.wal_mode());
    assert!(CheckpointResult::new(-1, 0, 0).busy);
    for (to_wal, to_db) in [(-1, -1), (-1, 3), (3, -1)] {
        let result = CheckpointResult::new(0, to_wal, to_db);
        assert_eq!(result.pages_written, None);
        assert!(!result.wal_mode());
    }
    assert_eq!(
        PageWriteCounts::maybe_new(i64::MAX, 0),
        Some(PageWriteCounts { to_wal: i64::MAX as u64, to_db: 0 })
    );
}

use cubestore::digits::{parse_digits_range, u128_to_dec_string};
use cubestore::naming::{
    catalog_snapshot_id, current_object, log_chunk_name, log_seq_of_name, logs_dir,
    pointer_snapshot_id, remote_file_path, snapshot_id_of_path, snapshot_prefix,
};

#[test]
fn decimal_rendering_exact() {
    assert_eq!(u128_to_dec_string(0).as_str(), "0");
    assert_eq!(u128_to_dec_string(7).as_str(), "7");
    assert_eq!(u128_to_dec_string(10).as_str(), "10");
    assert_eq!(u128_to_dec_string(1724229600000).as_str(), "1724229600000");
    assert_eq!(
        u128_to_dec_string(u128::MAX).as_str(),
        "340282366920938463463374607431768211455"
    );
}

#[test]
fn decimal_parsing_exact() {
    assert_eq!(parse_digits_range("12345", 0, 5), Some(12345));
    assert_eq!(parse_digits_range("12345", 1, 3), Some(23));
    assert_eq!(parse_digits_range("0042", 0, 4), Some(42));
    assert_eq!(parse_digits_range("", 0, 0), None);
    assert_eq!(parse_digits_range("12a45", 0, 5), None);
    assert_eq!(parse_digits_range("+1", 0, 2), None);
    // One above u128::MAX does not fit.
    assert_eq!(
        parse_digits_range("340282366920938463463374607431768211456", 0, 39),
        None
    );
    assert_eq!(
        parse_digits_range("340282366920938463463374607431768211455", 0, 39),
        Some(u128::MAX)
    );
}

#[test]
fn builders_render_the_persisted_layout() {
    assert_eq!(snapshot_prefix("metastore", 42).as_str(), "metastore-42");
    assert_eq!(logs_dir("metastore", 42).as_str(), "metastore-42-logs");
    assert_eq!(current_object("cachestore").as_str(), "cachestore-current");
    assert_eq!(
        log_chunk_name("metastore-42-logs", 7).as_str(),
        "metastore-42-logs/7.flex"
    );
    assert_eq!(
        remote_file_path("metastore-42", "000017.sst").as_str(),
        "metastore-42/000017.sst"
    );
}

#[test]
fn snapshot_id_parses_file_set_and_log_names() {
    assert_eq!(
        snapshot_id_of_path("metastore-", "metastore-123/000017.sst"),
        Some(123)
    );
    assert_eq!(
        snapshot_id_of_path("metastore-", "metastore-123-logs/0.flex"),
        Some(123)
    );
    assert_eq!(
        snapshot_id_of_path("metastore-", "metastore-123-index-logs/0.flex"),
        Some(123)
    );
    // The id is the whole first segment even with no slash at all.
    assert_eq!(snapshot_id_of_path("metastore-", "metastore-123"), Some(123));
}

#[test]
fn snapshot_id_ignores_foreign_names() {
    assert_eq!(snapshot_id_of_path("metastore-", "cachestore-1/x"), None);
    assert_eq!(snapshot_id_of_path("metastore-", "metastore-current"), None);
    assert_eq!(snapshot_id_of_path("metastore-", "metastore-abc/x"), None);
    assert_eq!(snapshot_id_of_path("metastore-", "metastore-/x"), None);
    assert_eq!(snapshot_id_of_path("metastore-", ""), None);
    // A value too large for 128 bits is ignored, not an error.
    assert_eq!(
        snapshot_id_of_path(
            "metastore-",
            "metastore-340282366920938463463374607431768211456/x"
        ),
        None
    );
}

#[test]
fn pointer_round_trip_recovers_the_id() {
    let prefix = snapshot_prefix("metastore", 42);
    let content = format!("{}/2024-08-21", prefix);
    assert_eq!(pointer_snapshot_id("metastore", &content), Some(42));
    // The bare prefix with nothing after it round-trips too.
    assert_eq!(pointer_snapshot_id("metastore", prefix.as_str()), Some(42));
}

#[test]
fn pointer_parse_rejects_malformed_content() {
    assert_eq!(pointer_snapshot_id("metastore", ""), None);
    assert_eq!(pointer_snapshot_id("metastore", "metastore-"), None);
    assert_eq!(pointer_snapshot_id("metastore", "metastore-x42"), None);
    assert_eq!(pointer_snapshot_id("metastore", "cachestore-42"), None);
    assert_eq!(pointer_snapshot_id("metastore", "a metastore-42"), None);
    assert_eq!(
        pointer_snapshot_id("metastore", "metastore-340282366920938463463374607431768211456"),
        None
    );
}

#[test]
fn catalog_id_counts_only_file_sets() {
    assert_eq!(catalog_snapshot_id("metastore", "metastore-5/file"), Some(5));
    // A log directory is not a snapshot file set.
    assert_eq!(catalog_snapshot_id("metastore", "metastore-5-logs/0.flex"), None);
    // Without a slash right after the digits there is no match.
    assert_eq!(catalog_snapshot_id("metastore", "metastore-5"), None);
    assert_eq!(catalog_snapshot_id("metastore", "metastore-current"), None);
    assert_eq!(catalog_snapshot_id("metastore", "metastore-/file"), None);
}

#[test]
fn log_seq_parses_the_trailing_sequence_number() {
    assert_eq!(log_seq_of_name("metastore-1-logs/7.flex"), Some(7));
    assert_eq!(log_seq_of_name("metastore-1-logs/0007.flex"), Some(7));
    assert_eq!(log_seq_of_name("7.flex"), Some(7));
    // A trailing `.flex` marker is stripped when present, not demanded.
    assert_eq!(log_seq_of_name("dir/7"), Some(7));
    assert_eq!(log_seq_of_name("metastore-1-logs/a.flex"), None);
    assert_eq!(log_seq_of_name("metastore-1-logs/.flex"), None);
    assert_eq!(log_seq_of_name("metastore-1-logs/"), None);
    // A sequence number above 64 bits is a naming violation.
    assert_eq!(log_seq_of_name("dir/18446744073709551616.flex"), None);
    assert_eq!(
        log_seq_of_name("dir/18446744073709551615.flex"),
        Some(u64::MAX)
    );
}

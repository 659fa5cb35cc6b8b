use kra_stat::kra_history::{read_kra_history, KraHistory, KraHistoryError, KraHistoryItem};
use kra_stat::timestamp::Timestamp;

#[test]
fn kra_history_test() {
    let history_item = "2024-03-07 22:50:48##D:/DESKTOP/TUTOR/预科/第1周/第1天/2.复制组合线条.kra##d18810fd-f9de-4ea6-ae42-587ff2d7507a##180";
    KraHistoryItem::try_from(history_item).expect("!!");

    let history_item = "2024-03-07 22:50:48####d18810fd-f9de-4ea6-ae42-587ff2d7507a##180";
    KraHistoryItem::try_from(history_item).expect("!!");

    let history_item = "
        2024-03-07 22:48:48####d18810fd-f9de-4ea6-a142-587ff2d7507a##180
        2024-03-07 22:49:48##h1ello.kra##d18810fd-f9de-4ea6-ae42-587ff2d7507a##180
        2024-03-07 22:50:48####d18810fd-f9de-4ea6-ae42-587ff2d7507a##180
        2024-03-07 22:51:48##hello.kra##d18810fd-f9de-4ea6-ae42-587ff2d7507a##180
        "
    .to_owned();
    read_kra_history(&history_item).unwrap();
}

#[test]
fn parse_known_line_exact_fields() {
    let item =
        KraHistoryItem::try_from("2024-03-07 22:50:48####d18810fd##180").unwrap();
    assert_eq!(item.time, Timestamp { day: 738952, secs: 82248 });
    assert_eq!(item.file_path, None);
    assert_eq!(item.file_id, "d18810fd".to_owned());
    assert_eq!(item.duration, 180);

    let item = KraHistoryItem::try_from("  2024-03-07 22:50:48##a.kra##id-1##0  ").unwrap();
    assert_eq!(item.file_path, Some("a.kra".to_owned()));
    assert_eq!(item.duration, 0);
}

#[test]
fn parse_error_variants() {
    // Three fields only.
    assert!(matches!(
        KraHistoryItem::try_from("2024-03-07 22:50:48##a##b"),
        Err(KraHistoryError::MalformedLine(_))
    ));
    // Five fields.
    assert!(matches!(
        KraHistoryItem::try_from("2024-03-07 22:50:48##a##b##1##2"),
        Err(KraHistoryError::MalformedLine(_))
    ));
    // Unreadable timestamp.
    assert!(matches!(
        KraHistoryItem::try_from("not a time##a##b##1"),
        Err(KraHistoryError::InvalidTimestamp(_))
    ));
    // Invalid calendar date.
    assert!(matches!(
        KraHistoryItem::try_from("2023-02-30 10:00:00##a##b##1"),
        Err(KraHistoryError::InvalidTimestamp(_))
    ));
    // Empty resource id.
    assert!(matches!(
        KraHistoryItem::try_from("2024-03-07 22:50:48##a.kra####180"),
        Err(KraHistoryError::MissingResourceId(_))
    ));
    // Blank resource id.
    assert!(matches!(
        KraHistoryItem::try_from("2024-03-07 22:50:48##a.kra##   ##180"),
        Err(KraHistoryError::MissingResourceId(_))
    ));
    // Empty duration.
    assert!(matches!(
        KraHistoryItem::try_from("2024-03-07 22:50:48##a.kra##id##"),
        Err(KraHistoryError::MissingDuration(_))
    ));
    // Non-numeric duration.
    assert!(matches!(
        KraHistoryItem::try_from("2024-03-07 22:50:48##a.kra##id##12a"),
        Err(KraHistoryError::InvalidDuration(_))
    ));
    // Duration too large for u32.
    assert!(matches!(
        KraHistoryItem::try_from("2024-03-07 22:50:48##a.kra##id##4294967296"),
        Err(KraHistoryError::InvalidDuration(_))
    ));
    // Largest duration that still fits.
    let item =
        KraHistoryItem::try_from("2024-03-07 22:50:48##a.kra##id##4294967295").unwrap();
    assert_eq!(item.duration, u32::MAX);
}

#[test]
fn round_trip_format_then_parse() {
    let line = "2024-03-07 22:50:48##hello.kra##id-7##180";
    let item = KraHistoryItem::try_from(line).unwrap();
    let printed = item.to_line().unwrap();
    assert_eq!(printed, line.to_owned());
    let again = KraHistoryItem::try_from(&printed).unwrap();
    assert_eq!(again.time, item.time);
    assert_eq!(again.file_path, item.file_path);
    assert_eq!(again.file_id, item.file_id);
    assert_eq!(again.duration, item.duration);

    // A record without a name round-trips to an empty second field.
    let line = "2024-03-07 22:50:48####id-7##0";
    let item = KraHistoryItem::try_from(line).unwrap();
    assert_eq!(item.to_line().unwrap(), line.to_owned());
}

#[test]
fn backfill_uses_nearest_later_name() {
    let content = "
        2024-01-01 10:00:00##A.kra##id1##10
        2024-01-02 10:00:00####id1##20
        2024-01-03 10:00:00##B.kra##id1##30
        2024-01-04 10:00:00####id1##5
        ";
    let items = read_kra_history(content).unwrap();
    assert_eq!(items.len(), 4);
    let paths: Vec<Option<String>> = items.iter().map(|x| x.file_path.clone()).collect();
    // The reverse pass sees the newest line first: its gap has no later
    // name to borrow and stays absent; the older gap takes the nearest
    // later name, "B.kra", not the older "A.kra".
    assert_eq!(
        paths,
        vec![
            Some("A.kra".to_owned()),
            Some("B.kra".to_owned()),
            Some("B.kra".to_owned()),
            None,
        ]
    );
    // Order is the original line order.
    assert_eq!(items[0].duration, 10);
    assert_eq!(items[3].duration, 5);
}

#[test]
fn backfill_leaves_unknown_ids_absent() {
    let content = "2024-01-01 10:00:00####id9##10\n2024-01-02 10:00:00##X.kra##other##20";
    let items = read_kra_history(content).unwrap();
    assert_eq!(items[0].file_path, None);
    assert_eq!(items[1].file_path, Some("X.kra".to_owned()));
}

#[test]
fn ingestion_fails_fast_on_any_bad_line() {
    let content = "2024-01-01 10:00:00##A.kra##id1##10\ngarbage\n";
    assert!(matches!(
        read_kra_history(content),
        Err(KraHistoryError::MalformedLine(_))
    ));
    assert!(kra_stat::f(content).is_err());
    assert!(kra_stat::f("").is_ok());
    assert!(kra_stat::f("  \n \n").is_ok());
}

#[test]
fn between_inclusive_filters_and_keeps_order() {
    let content = "
        2024-01-01 10:00:00##A.kra##id1##10
        2024-01-02 10:00:00##B.kra##id2##20
        2024-01-03 10:00:00##C.kra##id3##30
        ";
    let h = KraHistory::from_content(content).unwrap();
    let t1 = Timestamp { day: 738886, secs: 36000 };
    let t3 = Timestamp { day: 738888, secs: 36000 };

    // A range strictly before all records.
    let r = h.between_inclusive(
        Timestamp { day: 0, secs: 0 },
        Timestamp { day: 1, secs: 0 },
    );
    assert_eq!(r.len(), 0);
    // A range strictly after all records.
    let r = h.between_inclusive(
        Timestamp { day: 800000, secs: 0 },
        Timestamp { day: 800001, secs: 0 },
    );
    assert_eq!(r.len(), 0);
    // A full span returns everything in original order.
    let r = h.between_inclusive(
        Timestamp { day: i64::MIN, secs: 0 },
        Timestamp { day: i64::MAX, secs: 86399 },
    );
    assert_eq!(r.len(), 3);
    assert_eq!(r[0].file_id, "id1".to_owned());
    assert_eq!(r[2].file_id, "id3".to_owned());
    // Inclusive at both ends.
    let r = h.between_inclusive(t1, t3);
    assert_eq!(r.len(), 3);
    // Just inside.
    let r = h.between_inclusive(
        Timestamp { day: 738886, secs: 36001 },
        Timestamp { day: 738888, secs: 35999 },
    );
    assert_eq!(r.len(), 1);
    assert_eq!(r[0].file_id, "id2".to_owned());

    assert_eq!(h.iter().len(), 3);
    assert_eq!(h.sum_between(t1, t3), 60);
    assert_eq!(h.sum_between(t1, t1), 10);
}

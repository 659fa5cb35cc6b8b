use kra_stat::date_util::{
    day_range_iter, get_belong_day, get_day_range, last_n_day_range, last_n_day_range_at,
    span_range, today_range,
};
use kra_stat::kra_history::{KraHistory, KraHistoryError};
use kra_stat::timestamp::{Date, Timestamp};

#[test]
fn today_range_test() {
    let r = today_range(6);
    assert!(r.is_ok());
    println!("{:?}", r.unwrap());
    let r = today_range(18);
    assert!(r.is_ok());
    println!("{:?}", r.unwrap());
}

#[test]
fn belong_day_concrete() {
    // At or after the start hour the instant keeps its own date.
    let d = get_belong_day(6, Timestamp { day: 100, secs: 6 * 3600 });
    assert_eq!(d, Date { day: 100 });
    // One second before the start hour it belongs to the previous date.
    let d = get_belong_day(6, Timestamp { day: 100, secs: 6 * 3600 - 1 });
    assert_eq!(d, Date { day: 99 });
    // Midnight boundary with start hour zero.
    let d = get_belong_day(0, Timestamp { day: 100, secs: 0 });
    assert_eq!(d, Date { day: 100 });
}

#[test]
fn day_range_concrete() {
    let r = get_day_range(6, Date { day: 100 }).unwrap();
    assert_eq!(r.start, Timestamp { day: 100, secs: 6 * 3600 });
    assert_eq!(r.end, Timestamp { day: 101, secs: 6 * 3600 - 1 });

    let r = get_day_range(0, Date { day: 100 }).unwrap();
    assert_eq!(r.start, Timestamp { day: 100, secs: 0 });
    assert_eq!(r.end, Timestamp { day: 100, secs: 86399 });

    // Consecutive day ranges meet with no gap and no overlap.
    let a = get_day_range(6, Date { day: 100 }).unwrap();
    let b = get_day_range(6, Date { day: 101 }).unwrap();
    assert_eq!(a.end, Timestamp { day: b.start.day, secs: b.start.secs - 1 });

    // An hour outside the clock is rejected.
    assert!(matches!(
        get_day_range(24, Date { day: 100 }),
        Err(KraHistoryError::InvalidConfiguration)
    ));
    assert!(matches!(today_range(24), Err(KraHistoryError::InvalidConfiguration)));
}

#[test]
fn span_range_concrete() {
    // A single-day span collapses to the day's own range.
    let single = span_range(6, Date { day: 100 }, Date { day: 100 }).unwrap();
    assert_eq!(single, get_day_range(6, Date { day: 100 }).unwrap());

    let wide = span_range(6, Date { day: 100 }, Date { day: 102 }).unwrap();
    assert_eq!(wide.start, Timestamp { day: 100, secs: 6 * 3600 });
    assert_eq!(wide.end, Timestamp { day: 103, secs: 6 * 3600 - 1 });
}

#[test]
fn day_range_iter_concrete() {
    let v = day_range_iter(6, Date { day: 10 }, Date { day: 12 }).unwrap();
    assert_eq!(v.len(), 3);
    assert_eq!(v[0].0, Date { day: 10 });
    assert_eq!(v[1].0, Date { day: 11 });
    assert_eq!(v[2].0, Date { day: 12 });
    for (date, range) in &v {
        assert_eq!(*range, get_day_range(6, *date).unwrap());
    }
    // An empty span yields no entries.
    let v = day_range_iter(6, Date { day: 12 }, Date { day: 10 }).unwrap();
    assert_eq!(v.len(), 0);
    assert!(day_range_iter(30, Date { day: 10 }, Date { day: 12 }).is_err());
}

#[test]
fn last_n_day_range_concrete() {
    let now = Timestamp { day: 200, secs: 12 * 3600 };
    // One day: exactly the logical day of `now`.
    let r = last_n_day_range_at(6, 1, now).unwrap();
    assert_eq!(r, get_day_range(6, Date { day: 200 }).unwrap());
    // Three days ending with the logical day of `now`.
    let r = last_n_day_range_at(6, 3, now).unwrap();
    assert_eq!(r.start, Timestamp { day: 198, secs: 6 * 3600 });
    assert_eq!(r.end, Timestamp { day: 201, secs: 6 * 3600 - 1 });
    // Before the start hour, the logical day is the previous date.
    let early = Timestamp { day: 200, secs: 3 * 3600 };
    let r = last_n_day_range_at(6, 1, early).unwrap();
    assert_eq!(r, get_day_range(6, Date { day: 199 }).unwrap());

    assert!(last_n_day_range(6, 1).is_ok());
    assert!(last_n_day_range(24, 1).is_err());
}

#[test]
fn daily_durations_concrete() {
    let content = "
        2024-01-01 10:00:00##A.kra##id1##600
        2024-01-01 23:30:00##A.kra##id1##60
        2024-01-02 03:00:00##A.kra##id1##30
        2024-01-02 10:00:00##B.kra##id2##120
        ";
    let h = KraHistory::from_content(content).unwrap();
    // Day numbers: 2024-01-01 is day 738886.
    let totals = h
        .daily_durations(6, Date { day: 738886 }, Date { day: 738887 })
        .unwrap();
    assert_eq!(totals.len(), 2);
    // The 03:00 session belongs to the previous logical day under a
    // six-o'clock boundary.
    assert_eq!(totals[0], (Date { day: 738886 }, 690));
    assert_eq!(totals[1], (Date { day: 738887 }, 120));

    let m = kra_stat::kra_history::max_total(&totals);
    assert_eq!(m, 690);
    let c = kra_stat::kra_history::count_positive(&totals);
    assert_eq!(c, 2);
    let empty: Vec<(Date, u64)> = Vec::new();
    assert_eq!(kra_stat::kra_history::max_total(&empty), 0);
    assert_eq!(kra_stat::kra_history::count_positive(&empty), 0);
}

use brea_core::history::{
    compact_series, compaction_victims, insert_observation, newest_first, price_changed, should_record, PriceObservation,
};

const HOUR: i64 = 3600;
const DAY: i64 = 86400;
const T0: i64 = 1710892800;

fn obs(price_usd: u64, observed_at: i64) -> PriceObservation {
    PriceObservation { price_usd, observed_at }
}

#[test]
fn change_threshold() {
    let last = Some(obs(100000, T0));
    assert!(!should_record(last, 100100, T0 + HOUR));
    assert!(should_record(last, 100200, T0 + HOUR));
    assert!(should_record(last, 99800, T0 + HOUR));
    assert!(!should_record(last, 99900, T0 + HOUR));
}

#[test]
fn time_threshold() {
    let last = Some(obs(100000, T0));
    assert!(should_record(last, 100000, T0 + 169 * HOUR));
    assert!(!should_record(last, 100000, T0 + 168 * HOUR));
    assert!(!should_record(last, 100000, T0 + HOUR));
}

#[test]
fn first_save_always_records() {
    assert!(should_record(None, 5, T0));
}

#[test]
fn price_change_edges() {
    assert!(!price_changed(0, 0));
    assert!(price_changed(0, 1));
    assert!(!price_changed(1000, 1001));
    assert!(price_changed(1000, 1002));
    assert!(price_changed(u64::MAX, 0));
}

#[test]
fn compaction_shape() {
    let d1 = T0;
    let d2 = T0 + DAY;
    let series = vec![
        obs(100000, d1 + HOUR),
        obs(100000, d1 + 2 * HOUR),
        obs(100000, d1 + 3 * HOUR),
        obs(120000, d2 + HOUR),
    ];
    let kept = compact_series(&series);
    assert_eq!(kept, vec![obs(100000, d1 + HOUR), obs(120000, d2 + HOUR)]);
}

#[test]
fn compaction_keeps_material_changes_within_a_day() {
    let series = vec![
        obs(10000, T0),
        obs(10010, T0 + 60),
        obs(9998, T0 + 120),
        obs(11000, T0 + 180),
    ];
    let kept = compact_series(&series);
    assert_eq!(kept, vec![obs(10000, T0), obs(11000, T0 + 180)]);
    assert_eq!(compact_series(&kept), kept);
}

#[test]
fn compaction_twice_deletes_nothing() {
    let series = vec![
        obs(100000, T0),
        obs(100050, T0 + 10),
        obs(100000, T0 + 20),
        obs(100000, T0 + DAY),
        obs(300000, T0 + DAY + 5),
        obs(300000, T0 + 3 * DAY),
    ];
    let once = compact_series(&series);
    let twice = compact_series(&once);
    assert_eq!(once.len(), 4);
    assert_eq!(twice, once);
}

#[test]
fn compaction_of_empty_series() {
    assert!(compact_series(&Vec::new()).is_empty());
}

#[test]
fn history_is_newest_first() {
    let series = vec![obs(1, T0), obs(2, T0 + 1), obs(3, T0 + 2)];
    assert_eq!(newest_first(&series), vec![obs(3, T0 + 2), obs(2, T0 + 1), obs(1, T0)]);
}

#[test]
fn duplicate_timestamp_is_ignored() {
    let mut series = vec![obs(1, T0), obs(3, T0 + 20)];
    assert!(insert_observation(&mut series, obs(2, T0 + 10)));
    assert_eq!(series, vec![obs(1, T0), obs(2, T0 + 10), obs(3, T0 + 20)]);
    assert!(!insert_observation(&mut series, obs(9, T0 + 10)));
    assert_eq!(series.len(), 3);
    assert_eq!(series[1].price_usd, 2);
}

#[test]
fn compaction_victims_complement_kept() {
    let series = vec![
        obs(100000, T0 + HOUR),
        obs(100000, T0 + 2 * HOUR),
        obs(100000, T0 + 3 * HOUR),
        obs(120000, T0 + DAY + HOUR),
    ];
    assert_eq!(compaction_victims(&series), vec![1, 2]);
    assert!(compaction_victims(&compact_series(&series)).is_empty());
}

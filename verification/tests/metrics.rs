use systemg::daemon::pid_file::PidFile;
use systemg::daemon::state_file::{ServiceLifecycleStatus, ServiceStateFile};
use systemg::logs::instant::{Instant, EARLIEST_SECOND};
use systemg::metrics::bucket::{align_to_span, fold_into, Bucket, Sample};
use systemg::metrics::spillover::MetricsSpillover;
use systemg::metrics::targets::ConfiguredUnit;
use systemg::metrics::{gather_unit_targets, MetricsSettings, MetricsStore, UnitTarget};
use systemg::state_store::StateStore;

fn sample(secs: i64, rss: u64) -> Sample {
    Sample {
        timestamp: Instant { secs, nanos: 0 },
        rss_bytes: rss,
        io_read_bytes: 0,
        io_write_bytes: 0,
        net_rx_bytes: 0,
        net_tx_bytes: 0,
        sample_count: 1,
        span_secs: 0,
        rss_min: None,
        rss_max: None,
    }
}

fn observations(buckets: &[Bucket]) -> u64 {
    buckets.iter().map(|b| b.count as u64).sum()
}

#[test]
fn settings_have_defaults() {
    let s = MetricsSettings::default();
    assert_eq!((s.retention, s.sample_interval, s.max_memory_bytes), (43200, 1, 10 * 1024 * 1024));
    assert_eq!(s.raw_capacity(), 120);
    assert_eq!(s.coarse_span(), 900);
    let slow = MetricsSettings { sample_interval: 10, retention: 96 * 3600, ..s };
    assert_eq!(slow.raw_capacity(), 30);
    assert_eq!(slow.coarse_span(), 7200);
}

#[test]
fn stretches_are_aligned() {
    let at = |secs| Instant { secs, nanos: 5 };
    assert_eq!(align_to_span(at(125), 60), Instant { secs: 120, nanos: 0 });
    assert_eq!(align_to_span(at(-1), 60), Instant { secs: -60, nanos: 0 });
    assert_eq!(align_to_span(at(-60), 60), Instant { secs: -60, nanos: 0 });
}

#[test]
fn merging_keeps_the_peak_and_the_newest_reading() {
    let a = Bucket::raw(1, &sample(10, 500));
    let b = Bucket::raw(2, &sample(5, 900));
    let m = a.merge(b);
    assert_eq!((m.rss_min, m.rss_max, m.rss_bytes, m.count), (500, 900, 500, 2));
    assert_eq!(m.last_observed.secs, 10);
    let told = m.to_sample();
    assert_eq!((told.rss_low(), told.rss_high()), (500, 900));
    assert_eq!(a.to_sample().rss_max, None);
}

#[test]
fn an_older_stretch_is_put_where_it_belongs() {
    let mut tier = Vec::new();
    assert!(fold_into(&mut tier, Bucket::raw(1, &sample(200, 1)), 60).is_none());
    assert!(fold_into(&mut tier, Bucket::raw(2, &sample(70, 1)), 60).is_none());
    let merge = fold_into(&mut tier, Bucket::raw(3, &sample(130, 1)), 60);
    assert!(merge.is_none());
    let merge = fold_into(&mut tier, Bucket::raw(4, &sample(75, 1)), 60).unwrap();
    assert_eq!((merge.into, merge.from), (2, 4));
    let starts: Vec<i64> = tier.iter().map(|b| b.timestamp.secs).collect();
    assert_eq!(starts, vec![60, 120, 180]);
}

#[test]
fn history_stays_bounded_and_loses_no_observation() {
    let settings = MetricsSettings { retention: 30 * 24 * 3600, ..MetricsSettings::default() };
    let mut store = MetricsStore::new(settings, 112);
    for i in 0..20_000 {
        let out = store.record_sample("u", i, &sample(1_000_000 + i as i64, 10 + i % 7));
        assert!(out.evicted.is_empty() && out.trimmed.is_empty());
    }
    let all = store.snapshot_unit("u").unwrap();
    assert!(all.len() <= 276);
    assert_eq!(observations(&all), 20_000);
    assert_eq!(all.iter().map(|b| b.to_sample().rss_high()).max(), Some(16));
    assert_eq!(all.iter().map(|b| b.to_sample().rss_low()).min(), Some(10));
    assert!(all.windows(2).all(|w| w[0].timestamp.secs <= w[1].timestamp.secs));
    assert_eq!(store.latest_samples("u", 3).len(), 3);
    let totals = store.summarize_unit("u").unwrap();
    assert_eq!(totals.observations, 20_000);
    assert_eq!(totals.latest.timestamp.secs, 1_019_999);
    assert!(store.summarize_unit("missing").is_none());
    store.remove_unit("u");
    assert!(store.snapshot_unit("u").is_none());
    store.register_unit("u");
    assert_eq!(store.snapshot_unit("u").unwrap().len(), 0);
    assert_eq!((store.retention(), store.sample_interval()), (30 * 24 * 3600, 1));
}

#[test]
fn everything_seen_is_kept_or_given_up() {
    let settings =
        MetricsSettings { max_memory_bytes: 100 * 112, ..MetricsSettings::default() };
    let mut store = MetricsStore::new(settings, 112);
    let mut gone: Vec<Bucket> = Vec::new();
    for i in 0..2_000u64 {
        for unit in ["u", "v"] {
            let rss = if i == 7 { 9_999 } else if i == 11 { 3 } else { 100 + i % 5 };
            let out = store.record_sample(unit, i, &sample(1_000_000 + i as i64, rss));
            if unit == "u" {
                gone.extend(out.evicted.iter().copied());
            }
            gone.extend(out.trimmed.iter().filter(|d| d.unit == "u").map(|d| d.bucket));
        }
    }
    let kept = store.snapshot_unit("u").unwrap();
    assert!(!gone.is_empty());
    assert_eq!(observations(&kept) + observations(&gone), 2_000);
    assert_eq!(kept.iter().chain(&gone).map(|b| b.rss_max).max(), Some(9_999));
    assert_eq!(kept.iter().chain(&gone).map(|b| b.rss_min).min(), Some(3));
    assert!(kept.windows(2).all(|w| w[0].timestamp.secs <= w[1].timestamp.secs));
}

#[test]
fn late_samples_are_put_in_place() {
    let settings = MetricsSettings { retention: 30 * 24 * 3600, ..MetricsSettings::default() };
    let mut store = MetricsStore::new(settings, 112);
    for i in 0..6_000u64 {
        let late = if i % 10 == 9 { 5_000 } else { 0 };
        let out = store.record_sample("u", i, &sample(1_000_000 + 2 * i as i64 - late, 1));
        assert!(out.evicted.is_empty() && out.trimmed.is_empty());
    }
    let all = store.snapshot_unit("u").unwrap();
    assert!(all.iter().any(|b| b.span_secs > 60));
    assert_eq!(observations(&all), 6_000);
    assert!(all.windows(2).all(|w| w[0].timestamp.secs <= w[1].timestamp.secs));
}

#[test]
fn what_is_too_old_is_given_up() {
    let settings = MetricsSettings { retention: 10, ..MetricsSettings::default() };
    let mut store = MetricsStore::new(settings, 112);
    store.record_sample("u", 1, &sample(100, 1));
    store.record_sample("u", 2, &sample(105, 1));
    let out = store.record_sample("u", 3, &sample(111, 1));
    assert_eq!(out.evicted.iter().map(|b| b.id).collect::<Vec<_>>(), vec![1]);
    let out = store.record_sample("u", 4, &sample(115, 1));
    assert_eq!(out.evicted.iter().map(|b| b.id).collect::<Vec<_>>(), vec![2]);
}

#[test]
fn units_take_turns_to_give_up_history() {
    let settings = MetricsSettings { max_memory_bytes: 3 * 112, ..MetricsSettings::default() };
    let mut store = MetricsStore::new(settings, 112);
    store.record_sample("b", 1, &sample(100, 1));
    store.record_sample("a", 2, &sample(100, 1));
    store.record_sample("b", 3, &sample(101, 1));
    let out = store.record_sample("b", 4, &sample(102, 1));
    let gone: Vec<(&str, u64)> = out.trimmed.iter().map(|d| (d.unit.as_str(), d.bucket.id)).collect();
    assert_eq!(gone, vec![("a", 2)]);
    let out = store.record_sample("b", 5, &sample(103, 1));
    let gone: Vec<(&str, u64)> = out.trimmed.iter().map(|d| (d.unit.as_str(), d.bucket.id)).collect();
    assert_eq!(gone, vec![("b", 1)]);
}

#[test]
fn segments_are_closed_and_the_oldest_goes_first() {
    let mut spill = MetricsSpillover::new("/m".to_string(), 25, 20, vec![]);
    assert_eq!(spill.ensure_writer(7).as_deref(), Some("/m/metrics-7.jsonl"));
    assert_eq!(spill.ensure_writer(8), None);
    spill.wrote(12);
    assert!(spill.current.is_some());
    spill.wrote(10);
    assert!(spill.current.is_none());
    assert_eq!(spill.segments[0].bytes, 22);
    assert_eq!(spill.enforce_budget(), None);
    spill.ensure_writer(9);
    spill.wrote(10);
    assert_eq!(spill.enforce_budget().as_deref(), Some("/m/metrics-7.jsonl"));
    spill.removed(Some(22));
    assert_eq!(spill.enforce_budget(), None);
    assert_eq!(spill.total_bytes, 10);
}

#[test]
fn configured_units_are_sampled_first() {
    let store = || StateStore::at("/s".to_string());
    let mut pids = PidFile::empty(store());
    pids.insert_in_memory("db", 5);
    let mut states = ServiceStateFile::empty(store());
    states.set_in_memory("h-web", ServiceLifecycleStatus::Running, Some(9), None, None);
    states.set_in_memory("h-old", ServiceLifecycleStatus::Stopped, None, None, None);
    let units = vec![
        ConfiguredUnit { service: "web".to_string(), hash: "h-web".to_string() },
        ConfiguredUnit { service: "db".to_string(), hash: "h-db".to_string() },
    ];
    let target = |hash: &str, pid| UnitTarget { hash: hash.to_string(), pid };
    assert_eq!(
        gather_unit_targets(&units, &pids, &states),
        vec![target("h-web", Some(9)), target("h-db", Some(5)), target("h-old", None)]
    );
}

#[test]
fn samples_need_room_for_the_retention_before_them() {
    let store = MetricsStore::new(MetricsSettings::default(), 112);
    assert!(store.takes(Instant { secs: 1_000_000, nanos: 0 }));
    assert!(!store.takes(Instant { secs: EARLIEST_SECOND + 43199, nanos: 0 }));
    assert!(store.takes(Instant { secs: EARLIEST_SECOND + 43200, nanos: 0 }));
    assert!(!store.takes(Instant { secs: i64::MAX, nanos: 0 }));
}

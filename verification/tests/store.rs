use backend::clock::{now, Clock};
use backend::data::{InputRecord, Record};
use backend::facade::StoreFacade;
use backend::registry::DeviceRegistry;
use backend::ring::RingBuffer;
use backend::series::TimeSeriesStore;
use backend::CAPACITY;

fn input(rate: f32, total_volume: f32) -> InputRecord {
    InputRecord { rate: rate.to_bits(), total_volume: total_volume.to_bits() }
}

fn stamped(timestamp: u64) -> Record {
    Record { timestamp, rate: 0, total_volume: 0 }
}

#[test]
fn write_echoes_input_and_polls_back() {
    let mut store = StoreFacade::new();
    let r = store.write("dev1".to_string(), input(1.5, 10.0));
    assert_eq!(f32::from_bits(r.rate), 1.5);
    assert_eq!(f32::from_bits(r.total_volume), 10.0);
    let out = store.snapshot();
    assert_eq!(out.len(), 1);
    assert_eq!(out[0].device_id, "dev1");
    assert_eq!(out[0].alias, "dev1");
    assert_eq!(out[0].record, r);
}

#[test]
fn latest_is_last_of_sequential_writes() {
    let mut store = StoreFacade::new();
    let mut prev_ts = 0u64;
    let mut last = None;
    for i in 0..5 {
        let r = store.write("dev".to_string(), input(i as f32, (10 + i) as f32));
        assert!(r.timestamp >= prev_ts);
        prev_ts = r.timestamp;
        last = Some(r);
    }
    let l = store.latest(&"dev".to_string()).unwrap();
    assert_eq!(l, last.unwrap());
    assert_eq!(f32::from_bits(l.rate), 4.0);
    assert_eq!(f32::from_bits(l.total_volume), 14.0);
}

#[test]
fn ring_grows_by_one_until_full_then_evicts_oldest() {
    let mut buf = RingBuffer::new(3);
    assert_eq!(buf.len(), 0);
    for i in 0..3u64 {
        buf.push(stamped(i));
        assert_eq!(buf.len(), (i + 1) as usize);
    }
    buf.push(stamped(3));
    assert_eq!(buf.len(), 3);
    assert_eq!(buf.get(0), stamped(1));
    assert_eq!(buf.get(1), stamped(2));
    assert_eq!(buf.get(2), stamped(3));
    assert_eq!(buf.latest(), Some(stamped(3)));
    assert_eq!(buf.last(), stamped(3));
}

#[test]
fn ring_at_capacity_keeps_most_recent_window() {
    let mut buf = RingBuffer::new(CAPACITY);
    for i in 0..(CAPACITY as u64 + 1) {
        buf.push(stamped(i));
    }
    assert_eq!(buf.len(), CAPACITY);
    assert_eq!(buf.get(0), stamped(1));
    assert_eq!(buf.get(CAPACITY - 1), stamped(CAPACITY as u64));
    assert_eq!(buf.last(), stamped(CAPACITY as u64));
}

#[test]
fn poll_reflects_only_latest_after_capacity_overflow() {
    let mut store = StoreFacade::new();
    for i in 0..(CAPACITY as u32 + 1) {
        store.write("dev1".to_string(), input(1.0, i as f32));
    }
    let out = store.snapshot();
    assert_eq!(out.len(), 1);
    assert_eq!(f32::from_bits(out[0].record.total_volume), CAPACITY as f32);
}

#[test]
fn register_makes_alias_visible_and_overwrites() {
    let mut reg = DeviceRegistry::new();
    reg.register("dev".to_string(), "First".to_string());
    assert_eq!(reg.alias_of(&"dev".to_string()), Some("First".to_string()));
    reg.register("dev".to_string(), "Second".to_string());
    assert_eq!(reg.alias_of(&"dev".to_string()), Some("Second".to_string()));
    assert_eq!(reg.alias_of(&"other".to_string()), None);
}

#[test]
fn poll_shows_registered_alias() {
    let mut store = StoreFacade::new();
    store.register("dev1".to_string(), "Kitchen Sensor".to_string());
    store.write("dev1".to_string(), input(2.0, 12.0));
    let out = store.snapshot();
    assert_eq!(out.len(), 1);
    assert_eq!(out[0].alias, "Kitchen Sensor");
    assert_eq!(f32::from_bits(out[0].record.rate), 2.0);
    assert_eq!(f32::from_bits(out[0].record.total_volume), 12.0);
}

#[test]
fn registered_but_never_written_is_not_polled() {
    let mut store = StoreFacade::new();
    store.register("dev2".to_string(), "X".to_string());
    store.write("dev1".to_string(), input(1.0, 1.0));
    let out = store.snapshot();
    assert_eq!(out.len(), 1);
    assert_eq!(out[0].device_id, "dev1");
    assert!(out.iter().all(|o| o.device_id != "dev2"));
}

#[test]
fn snapshot_lists_exactly_the_writers_once() {
    let mut store = StoreFacade::new();
    store.write("dev_b".to_string(), input(1.0, 1.0));
    store.write("dev_a".to_string(), input(2.0, 2.0));
    store.write("dev_b".to_string(), input(3.0, 3.0));
    store.register("dev_c".to_string(), "silent".to_string());
    let out = store.snapshot();
    let mut ids: Vec<String> = out.iter().map(|o| o.device_id.clone()).collect();
    ids.sort();
    assert_eq!(ids, vec!["dev_a".to_string(), "dev_b".to_string()]);
}

#[test]
fn snapshots_without_writes_are_identical() {
    let mut store = StoreFacade::new();
    store.write("dev1".to_string(), input(1.0, 5.0));
    store.write("dev2".to_string(), input(2.0, 6.0));
    store.register("dev2".to_string(), "Two".to_string());
    let s1 = store.snapshot();
    let s2 = store.snapshot();
    assert_eq!(s1, s2);
}

#[test]
fn series_tracks_devices_and_latest() {
    let mut series = TimeSeriesStore::new();
    series.write("dev".to_string(), stamped(7));
    series.write("dev".to_string(), stamped(9));
    let devices = series.known_devices();
    assert_eq!(devices, vec!["dev".to_string()]);
    assert_eq!(series.latest(&"dev".to_string()), Some(stamped(9)));
    assert_eq!(series.latest(&"ghost".to_string()), None);
}

#[test]
fn empty_store_has_nothing_to_report() {
    let store = StoreFacade::new();
    assert!(store.snapshot().is_empty());
    assert_eq!(store.latest(&"dev".to_string()), None);
    assert_eq!(store.alias_of(&"dev".to_string()), None);
}

#[test]
fn clock_never_goes_backwards() {
    let mut clock = Clock::new();
    let t1 = clock.tick();
    let t2 = clock.tick();
    assert!(t2 >= t1);
    assert!(now() > 0);
}

#[test]
fn default_record_is_zeroed() {
    let r = Record::default();
    assert_eq!(f32::from_bits(r.rate), 0.0);
    assert_eq!(f32::from_bits(r.total_volume), 0.0);
}

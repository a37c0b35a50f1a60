use livegrid::cache::CellCache;
use livegrid::cell::{CellContent, CellRecord};
use livegrid::color::Rgba;
use livegrid::debounce::Debouncer;
use livegrid::loader::Loader;
use livegrid::region::Region;
use livegrid::wire::encode_cell;

fn record(id: i64, raw: &str, comp: &str) -> CellRecord {
    CellRecord {
        id,
        raw_value: raw.to_string(),
        computed_value: comp.to_string(),
        background: 0,
    }
}

#[test]
fn get_is_idempotent_and_schedules_once() {
    let mut cache = CellCache::new(1, 10_000);
    cache.on_channel_event(true);
    let first = cache.get(500, 0);
    assert_eq!(first.id, 500);
    assert_eq!(first.content, "");
    // the same id again: identical content, and no second fetch while the
    // covering range is still the current range
    let again = cache.get(500, 10);
    assert_eq!(again.id, 500);
    assert_eq!(again.content, first.content);
    // one debounced fetch is pending, for the window around the first miss
    let msg = cache.poll_fetch(100).expect("the one debounced fetch");
    assert_eq!(msg, "{\"from\":400,\"to\":600}");
    assert!(cache.poll_fetch(1000).is_none());
    // a miss inside the covered window schedules nothing either, even
    // though the fetch is long done: the guard is never cleared
    cache.get(400, 2000);
    assert!(cache.poll_fetch(3000).is_none());
}

#[test]
fn miss_outside_covered_window_reschedules() {
    let mut cache = CellCache::new(1, 10_000);
    cache.on_channel_event(true);
    cache.get(500, 0);
    // a miss far away replaces the single remembered window
    cache.get(5000, 10);
    let msg = cache.poll_fetch(110).expect("the replaced fetch");
    assert_eq!(msg, "{\"from\":4900,\"to\":5100}");
}

#[test]
fn prefetch_window_is_clipped_to_the_address_space() {
    let mut cache = CellCache::new(1, 150);
    cache.on_channel_event(true);
    cache.get(10, 0);
    let msg = cache.poll_fetch(100).expect("clipped fetch");
    assert_eq!(msg, "{\"from\":0,\"to\":110}");
}

#[test]
fn fetch_due_while_channel_closed_is_dropped() {
    let mut cache = CellCache::new(1, 10_000);
    cache.get(500, 0);
    assert!(cache.poll_fetch(100).is_none());
    // the slot was emptied; reopening does not revive the dropped fetch
    cache.on_channel_event(true);
    assert!(cache.poll_fetch(200).is_none());
}

#[test]
fn capacity_is_kept_and_lru_entries_leave() {
    let mut cache = CellCache::new(1, 10_000);
    // capacity is 200 cells for a one-column viewport
    for id in 0..250u64 {
        cache.set(id, CellContent::from(record(id as i64, "r", "c")));
    }
    assert_eq!(cache.len(), 200);
    // the most recent insert survived with its content
    let kept = cache.get(249, 0);
    assert_eq!(kept.content, "c");
    // the oldest inserts were evicted: a get finds only a fresh placeholder
    let evicted = cache.get(0, 1);
    assert_eq!(evicted.content, "");
}

#[test]
fn touched_entries_survive_eviction() {
    let mut cache = CellCache::new(1, 10_000);
    for id in 0..200u64 {
        cache.set(id, CellContent::from(record(id as i64, "r", "c")));
    }
    // touch id 0, making id 1 the least recently used
    cache.get(0, 0);
    cache.set(900, CellContent::from(record(900, "r", "c")));
    assert_eq!(cache.len(), 200);
    assert_eq!(cache.get(0, 1).content, "c");
    assert_eq!(cache.get(1, 2).content, "");
}

#[test]
fn ingest_line_stores_pushed_cells() {
    let mut cache = CellCache::new(1, 10_000);
    let line = encode_cell(&record(77, "=2*3", "6"));
    cache.ingest_line(&line);
    let got = cache.get(77, 0);
    assert_eq!(got.content, "6");
    assert_eq!(got.write_buffer, "=2*3");
    // garbage is skipped
    cache.ingest_line("not a cell");
    assert_eq!(cache.len(), 1);
}

#[test]
fn channel_open_fires_the_initial_fetch() {
    let mut cache = CellCache::new(1, 10_000);
    let msg = cache.on_channel_event(true).expect("initial fetch");
    assert_eq!(msg, "{\"from\":0,\"to\":2600}");
    assert!(cache.on_channel_event(false).is_none());
}

#[test]
fn debounce_coalesces_a_burst_into_the_last_action() {
    let mut d: Debouncer<u32> = Debouncer::new();
    // three calls, each within the delay of the one before
    d.debounce(0, 100, 1);
    d.debounce(50, 100, 2);
    d.debounce(90, 100, 3);
    // nothing fires before the last deadline
    assert!(d.poll(120).is_none());
    assert!(d.poll(189).is_none());
    // exactly one action fires: the most recently supplied one
    assert_eq!(d.poll(190), Some(3));
    // and never again
    assert!(d.poll(1000).is_none());
}

#[test]
fn loader_gates_fetches_on_the_open_flag() {
    let mut l = Loader::new();
    let r = Region { from: 0, to: 10 };
    assert!(l.fetch(r).is_none());
    l.set_open(true);
    assert_eq!(l.fetch(r).unwrap(), "{\"from\":0,\"to\":10}");
    l.set_open(false);
    assert!(l.fetch(r).is_none());
}

#[test]
fn cell_editing_round_trip() {
    let mut c = CellContent::from(record(5, "=1", "1"));
    assert!(!c.is_editing());
    c.edit();
    assert!(c.is_editing());
    c.write_buffer = "=2".to_string();
    // losing focus without reverting keeps the draft; saving yields the
    // update exactly because the draft changed
    c.disable_edit(false);
    let req = c.save().expect("changed draft owes an update");
    assert_eq!(req.id, 5);
    assert_eq!(req.raw_value, "=2");
    // a second save without further edits owes nothing
    assert!(c.save().is_none());
}

#[test]
fn cell_editing_revert_restores_the_old_draft() {
    let mut c = CellContent::from(record(5, "=1", "1"));
    c.edit();
    c.write_buffer = "=2".to_string();
    c.disable_edit(true);
    assert_eq!(c.write_buffer, "=1");
    assert!(c.save().is_none());
}

#[test]
fn set_background_debounces_one_update() {
    let mut c = CellContent::from(record(5, "=1", "1"));
    c.set_background(Rgba { r: 10, g: 20, b: 30, a: 255 }, 0);
    c.set_background(Rgba { r: 1, g: 2, b: 3, a: 4 }, 100);
    // nothing due before the last deadline
    assert!(c.bg_debounce.poll(300).is_none());
    let req = c.bg_debounce.poll(450).expect("debounced background update");
    assert_eq!(req.id, 5);
    assert_eq!(req.background, c.background);
    assert_eq!(c.background_color(), Rgba { r: 1, g: 2, b: 3, a: 4 });
    assert!(c.bg_debounce.poll(10_000).is_none());
}

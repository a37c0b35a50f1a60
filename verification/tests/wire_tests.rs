use livegrid::cell::CellRecord;
use livegrid::color::{pack_rgba, unpack_rgba, Rgba};
use livegrid::region::Region;
use livegrid::stats::{parse_stats, Stats};
use livegrid::wire::{encode_cell, encode_region, parse_cell, parse_region};

fn cell(id: i64, raw: &str, comp: &str, bg: i32) -> CellRecord {
    CellRecord {
        id,
        raw_value: raw.to_string(),
        computed_value: comp.to_string(),
        background: bg,
    }
}

#[test]
fn region_encodes_canonically() {
    let r = Region { from: 0, to: 2500 };
    assert_eq!(encode_region(r), "{\"from\":0,\"to\":2500}");
}

#[test]
fn region_round_trips() {
    for (from, to) in [(0i64, 2500i64), (5000, 7500), (-3, 17), (0, 0)] {
        let r = Region { from, to };
        let text = encode_region(r);
        let back = parse_region(&text).expect("canonical region text must parse");
        assert_eq!(back.from, from);
        assert_eq!(back.to, to);
    }
}

#[test]
fn region_rejects_non_canonical_texts() {
    assert!(parse_region("").is_none());
    assert!(parse_region("{\"from\": 0,\"to\":2500}").is_none());
    assert!(parse_region("{\"from\":00,\"to\":2500}").is_none());
    assert!(parse_region("{\"from\":0,\"to\":2500} ").is_none());
    assert!(parse_region("{\"to\":2500,\"from\":0}").is_none());
    assert!(parse_region("{\"from\":-0,\"to\":1}").is_none());
    assert!(parse_region("{\"from\":1000000000000000000,\"to\":1}").is_none());
}

#[test]
fn cell_encodes_canonically() {
    let c = cell(42, "=1+2", "3", -1);
    assert_eq!(
        encode_cell(&c),
        "{\"id\":42,\"raw_value\":\"=1+2\",\"computed_value\":\"3\",\"background\":-1}"
    );
}

#[test]
fn cell_round_trips() {
    let c = cell(7, "say \"hi\" \\ there", "ok", 123456);
    let text = encode_cell(&c);
    let back = parse_cell(&text).expect("canonical cell text must parse");
    assert_eq!(back.id, 7);
    assert_eq!(back.raw_value, "say \"hi\" \\ there");
    assert_eq!(back.computed_value, "ok");
    assert_eq!(back.background, 123456);
}

#[test]
fn cell_rejects_non_canonical_texts() {
    assert!(parse_cell("").is_none());
    assert!(parse_cell("{\"id\":1}").is_none());
    assert!(
        parse_cell("{\"id\":1,\"raw_value\":\"a\",\"computed_value\":\"b\",\"background\":0}x")
            .is_none()
    );
    // backgrounds must fit a 32-bit signed integer
    assert!(
        parse_cell(
            "{\"id\":1,\"raw_value\":\"a\",\"computed_value\":\"b\",\"background\":2147483648}"
        )
        .is_none()
    );
    // a raw control character cannot stand inside a string
    assert!(
        parse_cell("{\"id\":1,\"raw_value\":\"a\nb\",\"computed_value\":\"\",\"background\":0}")
            .is_none()
    );
}

#[test]
fn cell_background_boundaries_parse() {
    let min = "{\"id\":0,\"raw_value\":\"\",\"computed_value\":\"\",\"background\":-2147483648}";
    let max = "{\"id\":0,\"raw_value\":\"\",\"computed_value\":\"\",\"background\":2147483647}";
    assert_eq!(parse_cell(min).unwrap().background, i32::MIN);
    assert_eq!(parse_cell(max).unwrap().background, i32::MAX);
}

#[test]
fn stats_parses_canonical_snapshot() {
    let text = "{\"filled_total\":12,\"filled_this_hour\":3,\"filled_today\":4,\
                \"filled_this_week\":5,\"currently_active_users\":6}";
    let s = parse_stats(text).expect("canonical stats text must parse");
    assert_eq!(s.filled_total, 12);
    assert_eq!(s.filled_this_hour, 3);
    assert_eq!(s.filled_today, 4);
    assert_eq!(s.filled_this_week, 5);
    assert_eq!(s.currently_active_users, 6);
}

#[test]
fn stats_default_is_all_zero() {
    let s = Stats::default();
    assert_eq!(s.filled_total, 0);
    assert_eq!(s.currently_active_users, 0);
}

#[test]
fn stats_rejects_malformed_snapshots() {
    assert!(parse_stats("").is_none());
    assert!(parse_stats("{\"filled_total\":1}").is_none());
}

#[test]
fn rgba_round_trips_through_packing() {
    for c in [
        Rgba { r: 0, g: 0, b: 0, a: 0 },
        Rgba { r: 1, g: 2, b: 3, a: 4 },
        Rgba { r: 255, g: 255, b: 255, a: 255 },
        Rgba { r: 200, g: 0, b: 100, a: 128 },
    ] {
        assert_eq!(unpack_rgba(pack_rgba(c)), c);
    }
}

#[test]
fn rgba_unpacks_the_sign_bit() {
    // -1 is all bits set: every channel full
    assert_eq!(unpack_rgba(-1), Rgba { r: 255, g: 255, b: 255, a: 255 });
    assert_eq!(pack_rgba(Rgba { r: 255, g: 255, b: 255, a: 255 }), -1);
    assert_eq!(pack_rgba(Rgba { r: 0, g: 0, b: 0, a: 0 }), 0);
}

use std::collections::{BTreeMap, HashMap};

use map_overhead::csv::{csv_text, push_decimal};
use map_overhead::keys::usize_to_bytes;
use map_overhead::results::{key_equal, key_less, TestResults};
use map_overhead::subjects::{DataStruct, InsertionOrderedMap};
use map_overhead::sweep::{measure_overhead, overhead, OverheadError};
use map_overhead::tracker::Tracker;

const HEADER: &str = "length, k_sz, v_sz, ovh_size\n";

#[test]
fn key_of_width_one_keeps_low_byte() {
    assert_eq!(usize_to_bytes::<1>(300), [44u8]);
    assert_eq!(usize_to_bytes::<1>(7), [7u8]);
}

#[test]
fn key_of_width_two_is_little_endian() {
    assert_eq!(usize_to_bytes::<2>(258), [2u8, 1]);
    assert_eq!(usize_to_bytes::<2>(0x1_0001), [1u8, 0]);
}

#[test]
fn key_of_width_three() {
    assert_eq!(usize_to_bytes::<3>(0x0A0B0C0D), [0x0Du8, 0x0C, 0x0B]);
}

#[test]
fn key_of_width_four_copies_four_bytes() {
    assert_eq!(usize_to_bytes::<4>(0x01020304), [4u8, 3, 2, 1]);
}

#[test]
fn wide_key_is_zero_padded_past_four_bytes() {
    assert_eq!(usize_to_bytes::<8>(0x05_0403_0201), [1u8, 2, 3, 4, 0, 0, 0, 0]);
    assert_eq!(usize_to_bytes::<0>(9), [0u8; 0]);
}

#[test]
fn tracker_reports_growth_since_capture() {
    let t = Tracker::new(100);
    assert_eq!(t.baseline_value(), 100);
    assert_eq!(t.allocated(100), 0);
    assert_eq!(t.allocated(150), 50);
}

#[test]
fn tracker_reports_shrinking_as_negative() {
    let t = Tracker::new(100);
    assert_eq!(t.allocated(40), -60);
    assert_eq!(Tracker::new(usize::MAX).allocated(0), -(usize::MAX as i128));
}

#[test]
fn readings_below_baseline_still_measure() {
    let t = Tracker::new(1000);
    assert_eq!(measure_overhead(&t, 200, 296, 8, 4), Ok(64));
    assert_eq!(measure_overhead(&t, 900, 1100, 8, 4), Ok(168));
    assert_eq!(measure_overhead(&t, 300, 200, 0, 4), Err(OverheadError::CounterWentBack));
    let mut r = TestResults::new("x".to_string());
    let out = r.run_tests(&t, 1, 1, &vec![(0, 10, 50), (5, 60, 130)]);
    assert_eq!(out, vec![Ok(40), Ok(60)]);
    assert_eq!(r.export(), vec![((0, 1, 1), 40), ((5, 1, 1), 60)]);
}

#[test]
fn table_text_keeps_records() {
    let mut t = TestResults::new("x".to_string());
    t.insert((2, 1, 1), 9);
    assert_eq!(t.to_csv(), format!("{}2,1,1,9\n", HEADER));
    assert_eq!(t.len(), 1);
    assert_eq!(t.rows(), &vec![((2, 1, 1), 9)]);
}

#[test]
fn overhead_subtracts_payload() {
    assert_eq!(overhead(10, 30, 2, 4), Ok(12));
    assert_eq!(overhead(0, 0, 0, 8), Ok(0));
    assert_eq!(overhead(5, 13, 4, 2), Ok(0));
}

#[test]
fn overhead_reports_shortfall() {
    assert_eq!(overhead(10, 15, 3, 2), Err(OverheadError::BelowPayload));
    assert_eq!(overhead(0, usize::MAX, usize::MAX, 2), Err(OverheadError::BelowPayload));
}

#[test]
fn overhead_reports_counter_going_back() {
    assert_eq!(overhead(30, 10, 0, 0), Err(OverheadError::CounterWentBack));
}

#[test]
fn outside_allocations_do_not_change_a_measurement() {
    let t = Tracker::new(1000);
    // the same construction cost (96 bytes) read after different amounts of
    // unrelated allocation before the first reading
    let quiet = measure_overhead(&t, 1000, 1096, 8, 4);
    let busy = measure_overhead(&t, 5000, 5096, 8, 4);
    assert_eq!(quiet, Ok(64));
    assert_eq!(busy, Ok(64));
}

#[test]
fn key_order_is_by_count_then_sizes() {
    assert!(key_less((1, 9, 9), (2, 0, 0)));
    assert!(key_less((1, 1, 9), (1, 2, 0)));
    assert!(key_less((1, 1, 1), (1, 1, 2)));
    assert!(!key_less((1, 1, 2), (1, 1, 2)));
    assert!(key_equal((1, 1, 2), (1, 1, 2)));
    assert!(!key_equal((1, 1, 2), (1, 2, 1)));
}

#[test]
fn new_store_is_empty_and_named() {
    let t = TestResults::new("HashMap".to_string());
    assert_eq!(t.family(), "HashMap");
    assert_eq!(t.len(), 0);
}

#[test]
fn export_orders_records_by_key() {
    let mut t = TestResults::new("x".to_string());
    t.insert((10, 1, 1), 3);
    t.insert((0, 2, 1), 4);
    t.insert((10, 1, 0), 5);
    t.insert((5, 4, 8), 6);
    t.insert((0, 1, 8), 7);
    let rows = t.export();
    assert_eq!(
        rows,
        vec![((0, 1, 8), 7), ((0, 2, 1), 4), ((5, 4, 8), 6), ((10, 1, 0), 5), ((10, 1, 1), 3)]
    );
    for w in rows.windows(2) {
        assert!(w[0].0 < w[1].0);
    }
    assert_eq!(t.len(), 0);
}

#[test]
fn insert_replaces_equal_key() {
    let mut t = TestResults::new("x".to_string());
    t.insert((5, 1, 1), 3);
    t.insert((5, 1, 1), 9);
    assert_eq!(t.len(), 1);
    assert_eq!(t.export(), vec![((5, 1, 1), 9)]);
}

#[test]
fn csv_text_has_header_and_rows() {
    let rows = vec![((0, 1, 2), 48), ((105, 4, 8), 1234)];
    assert_eq!(csv_text(&rows), format!("{}0,1,2,48\n105,4,8,1234\n", HEADER));
    assert_eq!(csv_text(&Vec::new()), HEADER);
}

#[test]
fn decimal_numerals() {
    let mut s = String::from("n=");
    push_decimal(&mut s, 0);
    push_decimal(&mut s, 7);
    push_decimal(&mut s, 1000);
    assert_eq!(s, "n=071000");
    let mut m = String::new();
    push_decimal(&mut m, usize::MAX);
    assert_eq!(m, usize::MAX.to_string());
}

#[test]
fn second_export_is_header_only() {
    let mut t = TestResults::new("x".to_string());
    t.insert((3, 1, 1), 2);
    assert_eq!(t.export_csv(), format!("{}3,1,1,2\n", HEADER));
    assert_eq!(t.export_csv(), HEADER);
    assert_eq!(t.family(), "x");
}

#[test]
fn record_stores_outcome() {
    let tr = Tracker::new(0);
    let mut t = TestResults::new("x".to_string());
    assert_eq!(t.record(&tr, 4, 1, 2, 100, 130), Ok(18));
    assert_eq!(t.record(&tr, 4, 1, 2, 100, 105), Err(OverheadError::BelowPayload));
    assert_eq!(t.record(&tr, 6, 1, 2, 100, 90), Err(OverheadError::CounterWentBack));
    assert_eq!(t.record(&tr, 0, usize::MAX, 2, 100, 110), Ok(10));
    assert_eq!(t.record(&tr, 1, usize::MAX, 2, 100, 110), Err(OverheadError::BelowPayload));
    assert_eq!(t.export(), vec![((0, usize::MAX, 2), 10), ((4, 1, 2), 18)]);
}

#[test]
fn sweep_with_base_and_per_entry_overhead() {
    // base overhead 40 bytes, 6 bytes per entry beyond its 2-byte payload
    let tr = Tracker::new(500);
    let mut t = TestResults::new("subject".to_string());
    let mut readings = Vec::new();
    let mut counter = 700;
    for len in [0usize, 5, 10] {
        let cost = 40 + len * (2 + 6);
        readings.push((len, counter, counter + cost));
        counter += 13;
    }
    let out = t.run_tests(&tr, 1, 1, &readings);
    assert_eq!(out, vec![Ok(40), Ok(70), Ok(100)]);
    assert_eq!(
        t.export_csv(),
        format!("{}0,1,1,40\n5,1,1,70\n10,1,1,100\n", HEADER)
    );
}

#[test]
fn sweep_keeps_last_value_and_skips_anomalies() {
    let tr = Tracker::new(0);
    let mut t = TestResults::new("x".to_string());
    let readings = vec![(2, 10, 30), (2, 10, 20), (3, 50, 40), (4, 0, 3)];
    let out = t.run_tests(&tr, 2, 2, &readings);
    assert_eq!(
        out,
        vec![
            Ok(12),
            Ok(2),
            Err(OverheadError::CounterWentBack),
            Err(OverheadError::BelowPayload)
        ]
    );
    assert_eq!(t.export(), vec![((2, 2, 2), 2)]);
}

#[test]
fn sweeps_with_equal_costs_agree() {
    let tr = Tracker::new(0);
    let mut a = TestResults::new("a".to_string());
    let mut b = TestResults::new("b".to_string());
    a.run_tests(&tr, 1, 4, &vec![(0, 0, 16), (5, 16, 80)]);
    b.run_tests(&tr, 1, 4, &vec![(0, 900, 916), (5, 4000, 4064)]);
    assert_eq!(a.export(), b.export());
}

#[test]
fn btree_subject_holds_distinct_keys() {
    let m: BTreeMap<[u8; 2], [u8; 1]> = DataStruct::new_with_size(300);
    assert_eq!(m.len(), 300);
    assert_eq!(m.keys().next(), Some(&[0u8, 0]));
    assert!(m.contains_key(&[43u8, 1]));
}

#[test]
fn narrow_keys_collide_past_their_range() {
    let m: HashMap<[u8; 1], u8> = DataStruct::new_with_size(300);
    assert_eq!(m.len(), 256);
}

#[test]
fn index_subject_keeps_insertion_order() {
    let m: InsertionOrderedMap<4, [u8; 8]> = DataStruct::new_with_size(10);
    assert_eq!(m.map().len(), 10);
    assert_eq!(m.map().get_index(3), Some((&[3u8, 0, 0, 0], &[0u8; 8])));
}

#[test]
fn index_subject_keeps_first_places_of_repeated_keys() {
    let m: InsertionOrderedMap<1, u8> = DataStruct::new_with_size(300);
    assert_eq!(m.map().len(), 256);
    assert_eq!(m.map().get_index(44), Some((&[44u8], &0u8)));
}

#[test]
fn btree_subject_with_narrow_keys_has_span_entries() {
    let m: BTreeMap<[u8; 1], u8> = DataStruct::new_with_size(1000);
    assert_eq!(m.len(), 256);
}

#[test]
fn vector_subject_is_reserved_only() {
    let v: Vec<usize> = DataStruct::new_with_size(2);
    assert!(v.is_empty());
    assert!(v.capacity() >= 2);
}

#[test]
fn keys_are_distinct_within_their_width() {
    let mut seen = std::collections::HashSet::new();
    for i in 0..65_536usize {
        assert!(seen.insert(usize_to_bytes::<2>(i)));
    }
    assert_eq!(usize_to_bytes::<2>(65_536), usize_to_bytes::<2>(0));
}

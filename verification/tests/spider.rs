use std::sync::Arc;
use yclass::bytes::ByteOrder;
use yclass::field::FieldKind;
use yclass::process::{ProcessInterface, Snapshot};
use yclass::spider::scanner::{
    recursive_first_search, scan_level, ScannerReport, ScannerState,
};
use yclass::spider::{next_search, FilterMode, SearchOptions, SearchResult};
use yclass::value::Value;

const FIRST: usize = 0x10_0000;
const SECOND: usize = 0x20_0000;

fn options(address: usize, alignment: usize, size: usize, depth: usize, value: Value) -> SearchOptions {
    SearchOptions {
        offsets: Arc::new(Vec::new()),
        struct_size: size,
        alignment,
        address,
        depth,
        value,
    }
}

/// One region of 64 bytes, every byte 0xEE, with 42 as an `i32` at 0x10.
fn one_region() -> Snapshot {
    let mut memory = Snapshot::new(ByteOrder::host());
    memory.add(FIRST, vec![0xEE; 64]);
    memory.write(FIRST + 0x10, &42i32.to_ne_bytes());
    memory
}

/// Two regions of 64 bytes: the first holds at 0x20 the address of the
/// second, which holds 42 as an `i32` at 0x08.
fn two_regions(with_direct_match: bool) -> Snapshot {
    let mut memory = Snapshot::new(ByteOrder::host());
    memory.add(FIRST, vec![0xEE; 64]);
    memory.add(SECOND, vec![0xEE; 64]);
    if with_direct_match {
        memory.write(FIRST + 0x10, &42i32.to_ne_bytes());
    }
    memory.write(FIRST + 0x20, &(SECOND as u64).to_ne_bytes());
    memory.write(SECOND + 0x08, &42i32.to_ne_bytes());
    memory
}

fn shape(results: &[SearchResult]) -> Vec<(Vec<usize>, usize)> {
    results.iter().map(|r| ((*r.parent_offsets).clone(), r.offset)).collect()
}

#[test]
fn first_search_finds_the_single_match() {
    let memory = one_region();
    let mut results = Vec::new();
    recursive_first_search(&memory, &mut results, &options(FIRST, 4, 64, 1, Value::I32(42)));
    assert_eq!(shape(&results), vec![(vec![], 0x10)]);
    assert_eq!(results[0].last_value, Value::I32(42));
}

#[test]
fn first_search_follows_a_pointer() {
    let memory = two_regions(true);
    let mut results = Vec::new();
    recursive_first_search(&memory, &mut results, &options(FIRST, 4, 64, 2, Value::I32(42)));
    let found = shape(&results);
    assert!(found.contains(&(vec![], 0x10)));
    assert!(found.contains(&(vec![0x20], 0x08)));
    assert_eq!(found.len(), 2);
}

#[test]
fn first_search_without_direct_match_finds_the_chain_only() {
    let memory = two_regions(false);
    let mut results = Vec::new();
    recursive_first_search(&memory, &mut results, &options(FIRST, 4, 64, 2, Value::I32(42)));
    assert_eq!(shape(&results), vec![(vec![0x20], 0x08)]);
}

#[test]
fn depth_zero_probes_its_window_and_does_not_descend() {
    let memory = two_regions(true);
    let mut results = Vec::new();
    recursive_first_search(&memory, &mut results, &options(FIRST, 4, 64, 0, Value::I32(42)));
    assert_eq!(shape(&results), vec![(vec![], 0x10)]);
    let outcome = scan_level(&memory, &options(FIRST, 4, 64, 0, Value::I32(42)));
    assert_eq!(shape(&outcome.hits), vec![(vec![], 0x10)]);
    assert!(outcome.children.is_empty());
}

#[test]
fn depth_one_descends_once() {
    let memory = two_regions(true);
    let outcome = scan_level(&memory, &options(FIRST, 4, 64, 1, Value::I32(42)));
    assert_eq!(outcome.children.len(), 1);
    let child = &outcome.children[0];
    assert_eq!(*child.offsets, vec![0x20]);
    assert_eq!(child.address, SECOND);
    assert_eq!(child.depth, 0);
    assert_eq!(child.alignment, 4);
    assert_eq!(child.struct_size, 64);
}

#[test]
fn pointers_are_followed_at_multiples_of_eight_only() {
    let mut memory = Snapshot::new(ByteOrder::host());
    memory.add(FIRST, vec![0; 64]);
    memory.add(SECOND, vec![0; 64]);
    // The address of the second region lies at 0x24: a probed offset, but no
    // multiple of eight.
    memory.write(FIRST + 0x24, &(SECOND as u64).to_ne_bytes());
    memory.write(SECOND, &7u16.to_ne_bytes());
    let mut results = Vec::new();
    recursive_first_search(&memory, &mut results, &options(FIRST, 4, 64, 3, Value::U16(7)));
    assert!(results.is_empty());
}

#[test]
fn the_window_begins_at_the_aligned_address() {
    let mut memory = Snapshot::new(ByteOrder::host());
    memory.add(FIRST, vec![0xEE; 64]);
    memory.write(FIRST + 8, &[5]);
    let opts = options(FIRST + 3, 8, 16, 0, Value::U8(5));
    assert_eq!(opts.window_start(), FIRST + 8);
    let mut results = Vec::new();
    recursive_first_search(&memory, &mut results, &opts);
    assert_eq!(shape(&results), vec![(vec![], 0)]);
}

#[test]
fn results_are_added_behind_those_already_there() {
    let memory = one_region();
    let mut results = Vec::new();
    let opts = options(FIRST, 4, 64, 1, Value::I32(42));
    recursive_first_search(&memory, &mut results, &opts);
    recursive_first_search(&memory, &mut results, &opts);
    assert_eq!(shape(&results), vec![(vec![], 0x10), (vec![], 0x10)]);
}

#[test]
fn every_probed_offset_can_match() {
    let mut memory = Snapshot::new(ByteOrder::host());
    memory.add(FIRST, vec![9; 16]);
    let mut results = Vec::new();
    recursive_first_search(&memory, &mut results, &options(FIRST, 4, 16, 0, Value::U8(9)));
    assert_eq!(
        shape(&results),
        vec![(vec![], 0), (vec![], 4), (vec![], 8), (vec![], 12)]
    );
}

#[test]
fn unreadable_memory_reads_as_zero() {
    let memory = Snapshot::new(ByteOrder::host());
    assert!(!memory.can_read(0x1234));
    let mut buf = [0xAA; 8];
    memory.read(0x1234, &mut buf);
    assert_eq!(buf, [0; 8]);
}

/// A structure at a base address that holds, at 0x08, the address of the
/// cell with the value.
fn pointed_cell(value: i32) -> Snapshot {
    let mut memory = Snapshot::new(ByteOrder::host());
    memory.add(FIRST, vec![0; 64]);
    memory.add(SECOND, vec![0; 64]);
    memory.write(FIRST + 0x08, &(SECOND as u64).to_ne_bytes());
    memory.write(SECOND, &value.to_ne_bytes());
    memory
}

fn result_at(path: Vec<usize>, offset: usize, last: Value) -> SearchResult {
    SearchResult { parent_offsets: Arc::new(path), offset, last_value: last }
}

#[test]
fn refinement_reads_the_cell_behind_the_slot() {
    let memory = pointed_cell(42);
    let result = result_at(vec![], 0x08, Value::I32(0));
    assert_eq!(result.current_value(&memory, FIRST), Value::I32(42));
}

#[test]
fn refinement_walks_the_path() {
    let mut memory = Snapshot::new(ByteOrder::host());
    memory.add(FIRST, vec![0; 64]);
    memory.add(SECOND, vec![0; 64]);
    memory.add(0x30_0000, vec![0; 64]);
    memory.write(FIRST + 0x20, &(SECOND as u64).to_ne_bytes());
    memory.write(SECOND + 0x10, &0x30_0000u64.to_ne_bytes());
    memory.write(0x30_0000, &(-5i16).to_ne_bytes());
    let result = result_at(vec![0x20], 0x10, Value::I16(0));
    assert_eq!(result.current_value(&memory, FIRST), Value::I16(-5));
}

#[test]
fn equal_keeps_what_matches_and_drops_what_does_not() {
    let memory = pointed_cell(42);
    let mut results = vec![
        result_at(vec![], 0x08, Value::I32(42)),
        result_at(vec![], 0x08, Value::I32(1)),
    ];
    next_search(&mut results, &memory, FIRST, FilterMode::Equal, Value::I32(42));
    assert_eq!(results.len(), 2);
    assert!(results.iter().all(|r| r.last_value == Value::I32(42)));
    next_search(&mut results, &memory, FIRST, FilterMode::Equal, Value::I32(43));
    assert!(results.is_empty());
}

#[test]
fn changed_keeps_and_unchanged_drops_after_a_change() {
    let mut memory = pointed_cell(42);
    let mut kept = result_at(vec![], 0x08, Value::I32(42));
    let mut dropped = result_at(vec![], 0x08, Value::I32(42));
    memory.write(SECOND, &77i32.to_ne_bytes());
    assert!(kept.should_remain(&memory, FIRST, FilterMode::Changed, Value::I32(0)));
    assert_eq!(kept.last_value, Value::I32(77));
    assert!(!dropped.should_remain(&memory, FIRST, FilterMode::Unchanged, Value::I32(0)));
    assert_eq!(dropped.last_value, Value::I32(77));
}

#[test]
fn unchanged_keeps_while_nothing_changes() {
    let memory = pointed_cell(42);
    let mut result = result_at(vec![], 0x08, Value::I32(42));
    assert!(result.should_remain(&memory, FIRST, FilterMode::Unchanged, Value::I32(0)));
    assert!(!result.should_remain(&memory, FIRST, FilterMode::Changed, Value::I32(0)));
    assert_eq!(result.last_value, Value::I32(42));
}

#[test]
fn comparisons_hold_the_live_value_against_the_wanted_one() {
    let memory = pointed_cell(10);
    let verdict = |mode: FilterMode, wanted: i32| {
        result_at(vec![], 0x08, Value::I32(0)).should_remain(&memory, FIRST, mode, Value::I32(wanted))
    };
    assert!(verdict(FilterMode::Greater, 9));
    assert!(!verdict(FilterMode::Greater, 10));
    assert!(verdict(FilterMode::GreaterEq, 10));
    assert!(!verdict(FilterMode::GreaterEq, 11));
    assert!(verdict(FilterMode::Less, 11));
    assert!(!verdict(FilterMode::Less, 10));
    assert!(verdict(FilterMode::LessEq, 10));
    assert!(!verdict(FilterMode::LessEq, 9));
    assert!(verdict(FilterMode::Equal, 10));
    assert!(!verdict(FilterMode::Equal, 9));
    assert!(verdict(FilterMode::NotEqual, 9));
    assert!(!verdict(FilterMode::NotEqual, 10));
}

#[test]
fn next_search_keeps_the_order_of_what_stays() {
    let mut memory = Snapshot::new(ByteOrder::host());
    memory.add(FIRST, vec![0; 64]);
    memory.add(SECOND, vec![0; 64]);
    for slot in 0..4usize {
        memory.write(FIRST + slot * 8, &((SECOND + slot * 8) as u64).to_ne_bytes());
        memory.write(SECOND + slot * 8, &(slot as u8).to_ne_bytes());
    }
    let mut results: Vec<SearchResult> =
        (0..4usize).map(|slot| result_at(vec![], slot * 8, Value::U8(0))).collect();
    next_search(&mut results, &memory, FIRST, FilterMode::NotEqual, Value::U8(1));
    assert_eq!(shape(&results), vec![(vec![], 0), (vec![], 16), (vec![], 24)]);
    assert_eq!(
        results.iter().map(|r| r.last_value).collect::<Vec<_>>(),
        vec![Value::U8(0), Value::U8(2), Value::U8(3)]
    );
}

#[test]
fn filter_labels() {
    assert_eq!(FilterMode::Greater.label(), "Greater");
    assert_eq!(FilterMode::GreaterEq.label(), "Greater or Equal");
    assert_eq!(FilterMode::Less.label(), "Less");
    assert_eq!(FilterMode::LessEq.label(), "Less or Equal");
    assert_eq!(FilterMode::Equal.label(), "Equal");
    assert_eq!(FilterMode::NotEqual.label(), "Not equal");
    assert_eq!(FilterMode::Changed.label(), "Changed");
    assert_eq!(FilterMode::Unchanged.label(), "Unchanged");
}

#[test]
fn scanner_is_idle_until_begun() {
    let mut scanner = ScannerState::new();
    assert!(!scanner.active());
    assert!(matches!(scanner.try_take(), ScannerReport::Idle));
}

#[test]
fn scanner_reports_progress_and_then_the_results_once() {
    let memory = two_regions(true);
    let mut scanner = ScannerState::new();
    assert!(scanner.begin(options(FIRST, 4, 64, 2, Value::I32(42))));
    assert!(scanner.active());
    assert!(matches!(scanner.try_take(), ScannerReport::InProgress));
    assert!(scanner.advance(&memory));
    assert!(matches!(scanner.try_take(), ScannerReport::InProgress));
    scanner.run(&memory);
    match scanner.try_take() {
        ScannerReport::Finished(_, results) => {
            assert_eq!(shape(&results), vec![(vec![], 0x10), (vec![0x20], 0x08)]);
        }
        _ => panic!("the search is over"),
    }
    assert!(!scanner.active());
    assert!(matches!(scanner.try_take(), ScannerReport::Idle));
}

#[test]
fn scanner_does_not_begin_twice() {
    let memory = one_region();
    let mut scanner = ScannerState::new();
    assert!(scanner.begin(options(FIRST, 4, 64, 1, Value::I32(42))));
    assert!(!scanner.begin(options(FIRST, 4, 64, 1, Value::I32(7))));
    scanner.run(&memory);
    match scanner.try_take() {
        ScannerReport::Finished(_, results) => assert_eq!(shape(&results), vec![(vec![], 0x10)]),
        _ => panic!("the search is over"),
    }
}

#[test]
fn scanner_counts_branches_that_are_handed_out() {
    let memory = two_regions(true);
    let mut scanner = ScannerState::new();
    scanner.begin(options(FIRST, 4, 64, 2, Value::I32(42)));
    let root = scanner.checkout().expect("the root waits");
    assert!(scanner.checkout().is_none());
    // The root is handed out: nothing waits, but the search is not over.
    assert!(matches!(scanner.try_take(), ScannerReport::InProgress));
    let outcome = scan_level(&memory, &root);
    assert!(scanner.complete(outcome));
    assert!(matches!(scanner.try_take(), ScannerReport::InProgress));
    let child = scanner.checkout().expect("the child waits");
    assert_eq!(*child.offsets, vec![0x20]);
    assert!(scanner.complete(scan_level(&memory, &child)));
    match scanner.try_take() {
        ScannerReport::Finished(_, results) => {
            assert_eq!(shape(&results), vec![(vec![], 0x10), (vec![0x20], 0x08)]);
        }
        _ => panic!("the search is over"),
    }
}

#[test]
fn scanner_drops_an_outcome_that_nobody_was_asked_for() {
    let memory = one_region();
    let mut scanner = ScannerState::new();
    let outcome = scan_level(&memory, &options(FIRST, 4, 64, 0, Value::I32(42)));
    assert!(!scanner.complete(outcome));
    assert!(matches!(scanner.try_take(), ScannerReport::Idle));
}

#[test]
fn the_report_lists_shallow_results_first() {
    // The pointer lies before the direct match, so that the deep result is
    // found first.
    let mut memory = Snapshot::new(ByteOrder::host());
    memory.add(FIRST, vec![0xEE; 64]);
    memory.add(SECOND, vec![0xEE; 64]);
    memory.write(FIRST, &(SECOND as u64).to_ne_bytes());
    memory.write(FIRST + 0x30, &42i32.to_ne_bytes());
    memory.write(SECOND + 0x08, &42i32.to_ne_bytes());
    memory.write(SECOND + 0x10, &(FIRST as u64).to_ne_bytes());
    let mut scanner = ScannerState::new();
    scanner.begin(options(FIRST, 4, 64, 2, Value::I32(42)));
    scanner.run(&memory);
    match scanner.try_take() {
        ScannerReport::Finished(_, results) => {
            assert_eq!(
                shape(&results),
                vec![(vec![], 0x30), (vec![0], 0x08), (vec![0, 0x10], 0x30)]
            );
        }
        _ => panic!("the search is over"),
    }
}

#[test]
fn sixty_four_bit_values_and_floats_are_found_by_their_bits() {
    let mut memory = Snapshot::new(ByteOrder::host());
    memory.add(FIRST, vec![0xEE; 64]);
    memory.write(FIRST + 8, &1.1f64.to_ne_bytes());
    memory.write(FIRST + 24, &(-0.0f32).to_ne_bytes());
    let mut results = Vec::new();
    recursive_first_search(
        &memory,
        &mut results,
        &options(FIRST, 8, 64, 0, Value::F64(1.1f64.to_bits())),
    );
    assert_eq!(shape(&results), vec![(vec![], 8)]);
    let mut results = Vec::new();
    recursive_first_search(
        &memory,
        &mut results,
        &options(FIRST, 8, 64, 0, Value::F32(0.0f32.to_bits())),
    );
    // Minus zero equals zero; the result holds what lies in memory.
    assert_eq!(shape(&results), vec![(vec![], 24)]);
    assert_eq!(results[0].last_value.kind(), FieldKind::F32);
    assert!(matches!(results[0].last_value, Value::F32(bits) if bits == (-0.0f32).to_bits()));
}

#[test]
fn the_results_of_a_level_share_its_path() {
    let memory = two_regions(true);
    let root = options(FIRST, 4, 64, 1, Value::I32(42));
    let outcome = scan_level(&memory, &root);
    assert!(Arc::ptr_eq(&outcome.hits[0].parent_offsets, &root.offsets));
    let child = &outcome.children[0];
    let below = scan_level(&memory, child);
    assert!(Arc::ptr_eq(&below.hits[0].parent_offsets, &child.offsets));
    assert!(!Arc::ptr_eq(&child.offsets, &root.offsets));
}

#[test]
fn a_search_wraps_round_the_end_of_the_address_space() {
    let mut memory = Snapshot::new(ByteOrder::host());
    memory.add(usize::MAX - 7, vec![0; 8]);
    memory.add(0, vec![0, 0, 0, 0, 5, 0, 0, 0]);
    let mut results = Vec::new();
    recursive_first_search(
        &memory,
        &mut results,
        &options(usize::MAX - 7, 4, 16, 0, Value::U8(5)),
    );
    assert_eq!(shape(&results), vec![(vec![], 12)]);
}

#[test]
fn a_window_that_the_step_does_not_divide_is_probed_to_its_end() {
    let mut memory = Snapshot::new(ByteOrder::host());
    memory.add(FIRST, vec![1; 16]);
    let mut results = Vec::new();
    recursive_first_search(&memory, &mut results, &options(FIRST, 3, 8, 0, Value::U8(1)));
    assert_eq!(shape(&results), vec![(vec![], 0), (vec![], 3), (vec![], 6)]);
    let mut results = Vec::new();
    recursive_first_search(&memory, &mut results, &options(FIRST, 4, 0, 5, Value::U8(1)));
    assert!(results.is_empty());
    let mut results = Vec::new();
    recursive_first_search(
        &memory,
        &mut results,
        &options(FIRST, usize::MAX, usize::MAX, 0, Value::U8(1)),
    );
    assert!(results.len() <= 1);
}

/// A tree of structures: the first holds the addresses of the second and
/// the third, and each of these that of the fourth. The value 7 lies in all
/// of them.
fn tree() -> Snapshot {
    let mut memory = Snapshot::new(ByteOrder::host());
    for base in [0x1000usize, 0x2000, 0x3000, 0x4000] {
        memory.add(base, vec![0xEE; 32]);
        memory.write(base + 24, &7u16.to_ne_bytes());
    }
    memory.write(0x1000, &0x2000u64.to_ne_bytes());
    memory.write(0x1000 + 8, &0x3000u64.to_ne_bytes());
    memory.write(0x2000 + 16, &0x4000u64.to_ne_bytes());
    memory.write(0x3000, &0x4000u64.to_ne_bytes());
    memory
}

#[test]
fn results_name_the_slot_in_which_their_value_lies() {
    let memory = tree();
    let mut results = Vec::new();
    recursive_first_search(&memory, &mut results, &options(0x1000, 2, 32, 3, Value::U16(7)));
    assert_eq!(results.len(), 5);
    for result in &results {
        let mut address = 0x1000usize;
        for hop in result.parent_offsets.iter() {
            let mut word = [0u8; 8];
            memory.read(address + hop, &mut word);
            address = u64::from_ne_bytes(word) as usize;
        }
        let mut slot = [0u8; 2];
        memory.read(address + result.offset, &mut slot);
        assert_eq!(Value::U16(u16::from_ne_bytes(slot)), result.last_value);
        assert_eq!(result.last_value, Value::U16(7));
    }
}

fn sorted_shape(results: &[SearchResult]) -> Vec<(Vec<usize>, usize)> {
    let mut shape = shape(results);
    shape.sort();
    shape
}

#[test]
fn a_search_finds_the_same_in_whatever_order_its_branches_run() {
    let memory = tree();
    let root = || options(0x1000, 2, 32, 3, Value::U16(7));
    let mut in_order = Vec::new();
    recursive_first_search(&memory, &mut in_order, &root());

    let mut stepwise = ScannerState::new();
    stepwise.begin(root());
    while stepwise.advance(&memory) {}
    let ScannerReport::Finished(_, by_steps) = stepwise.try_take() else {
        panic!("the search is over");
    };

    let mut crossed = ScannerState::new();
    crossed.begin(root());
    let first = crossed.checkout().unwrap();
    crossed.complete(scan_level(&memory, &first));
    // Two branches wait: both are handed out, and the second comes back
    // first.
    let second = crossed.checkout().unwrap();
    let third = crossed.checkout().unwrap();
    assert!(crossed.checkout().is_none());
    crossed.complete(scan_level(&memory, &third));
    crossed.complete(scan_level(&memory, &second));
    assert!(matches!(crossed.try_take(), ScannerReport::InProgress));
    while let Some(branch) = crossed.checkout() {
        crossed.complete(scan_level(&memory, &branch));
    }
    let ScannerReport::Finished(_, by_crossing) = crossed.try_take() else {
        panic!("the search is over");
    };

    assert_eq!(
        shape(&in_order),
        vec![
            (vec![], 24),
            (vec![0], 24),
            (vec![0, 16], 24),
            (vec![8], 24),
            (vec![8, 0], 24)
        ]
    );
    assert_eq!(sorted_shape(&by_steps), sorted_shape(&in_order));
    assert_eq!(sorted_shape(&by_crossing), sorted_shape(&in_order));
    // Both reports list the results with the fewest hops first.
    assert_eq!(
        shape(&by_steps),
        vec![
            (vec![], 24),
            (vec![0], 24),
            (vec![8], 24),
            (vec![0, 16], 24),
            (vec![8, 0], 24)
        ]
    );
    let hops: Vec<usize> = by_crossing.iter().map(|r| r.parent_offsets.len()).collect();
    assert_eq!(hops, vec![0, 1, 1, 2, 2]);
}

use std::sync::Arc;
use yclass::bytes::ByteOrder;
use yclass::field::FieldKind;
use yclass::gui::utils::{FromStrCount, HexAddress, NumberError, TextConvert, TextEditBind};
use yclass::gui::TextEditFromStrBind;
use yclass::process::Snapshot;
use yclass::spider::report::sort_by_depth;
use yclass::spider::session::{SessionError, SessionState, SpiderSession};
use yclass::spider::{FilterMode, SearchOptions, SearchResult};
use yclass::value::Value;

const BASE: usize = 0x5000;
const CELLS: usize = 0x9000;

/// A structure of four slots; each holds the address of a cell, and the
/// cells hold 10, 20, 30 and 40.
fn memory() -> Snapshot {
    let mut memory = Snapshot::new(ByteOrder::host());
    memory.add(BASE, vec![0; 32]);
    memory.add(CELLS, vec![0; 32]);
    for slot in 0..4usize {
        memory.write(BASE + slot * 8, &((CELLS + slot * 8) as u64).to_ne_bytes());
        memory.write(CELLS + slot * 8, &(10 * (slot as i32 + 1)).to_ne_bytes());
    }
    memory
}

fn options(depth: usize, value: Value) -> SearchOptions {
    SearchOptions {
        offsets: Arc::new(Vec::new()),
        struct_size: 32,
        alignment: 4,
        address: BASE,
        depth,
        value,
    }
}

fn result(path: Vec<usize>, offset: usize, value: Value) -> SearchResult {
    SearchResult { parent_offsets: Arc::new(path), offset, last_value: value }
}

fn shape(results: &[SearchResult]) -> Vec<(Vec<usize>, usize)> {
    results.iter().map(|r| ((*r.parent_offsets).clone(), r.offset)).collect()
}

#[test]
fn a_session_begins_empty_and_for_i32() {
    let session = SpiderSession::new();
    assert_eq!(session.kind(), FieldKind::I32);
    assert_eq!(session.state(), SessionState::Empty);
    assert!(session.results().is_empty());
}

#[test]
fn a_first_search_populates_the_session() {
    let memory = memory();
    let mut session = SpiderSession::new();
    assert_eq!(session.first_search(&memory, &options(1, Value::I32(30))), Ok(()));
    assert_eq!(session.state(), SessionState::Populated);
    // Each window behind a pointer reaches over the cells that follow.
    assert_eq!(shape(session.results()), vec![(vec![0], 16), (vec![8], 8), (vec![16], 0)]);
    assert_eq!(
        session.first_search(&memory, &options(1, Value::I32(30))),
        Err(SessionError::NotEmpty)
    );
}

#[test]
fn a_first_search_that_finds_nothing_leaves_the_session_empty() {
    let memory = memory();
    let mut session = SpiderSession::new();
    assert_eq!(session.first_search(&memory, &options(1, Value::I32(31))), Ok(()));
    assert_eq!(session.state(), SessionState::Empty);
    assert_eq!(session.first_search(&memory, &options(1, Value::I32(30))), Ok(()));
    assert_eq!(session.state(), SessionState::Populated);
}

#[test]
fn a_first_search_is_turned_down_for_a_value_of_another_kind() {
    let memory = memory();
    let mut session = SpiderSession::new();
    assert_eq!(
        session.first_search(&memory, &options(1, Value::U32(30))),
        Err(SessionError::KindMismatch)
    );
    let mut no_step = options(1, Value::I32(30));
    no_step.alignment = 0;
    assert_eq!(session.first_search(&memory, &no_step), Err(SessionError::NoAlignment));
    assert_eq!(session.state(), SessionState::Empty);
}

#[test]
fn the_kind_can_be_chosen_while_the_session_is_empty() {
    let memory = memory();
    let mut session = SpiderSession::new();
    assert_eq!(session.set_kind(FieldKind::Ptr), Err(SessionError::NotNumeric));
    assert_eq!(session.set_kind(FieldKind::U8), Ok(()));
    assert_eq!(session.kind(), FieldKind::U8);
    assert_eq!(session.first_search(&memory, &options(1, Value::U8(40))), Ok(()));
    assert_eq!(session.set_kind(FieldKind::I32), Err(SessionError::NotEmpty));
    assert_eq!(session.kind(), FieldKind::U8);
}

#[test]
fn next_searches_narrow_the_results_down_until_they_are_cleared() {
    let mut memory = memory();
    let mut session = SpiderSession::new();
    assert_eq!(
        session.next_search(&memory, BASE, FilterMode::Equal, Value::I32(0)),
        Err(SessionError::NotPopulated)
    );
    let found = (0..4usize).map(|slot| result(vec![], slot * 8, Value::I32(0))).collect();
    assert_eq!(session.adopt(found), Ok(()));
    assert_eq!(
        session.next_search(&memory, BASE, FilterMode::Greater, Value::I64(15)),
        Err(SessionError::KindMismatch)
    );
    assert_eq!(session.results().len(), 4);
    assert_eq!(session.next_search(&memory, BASE, FilterMode::Greater, Value::I32(15)), Ok(()));
    assert_eq!(shape(session.results()), vec![(vec![], 8), (vec![], 16), (vec![], 24)]);
    memory.write(CELLS + 16, &31i32.to_ne_bytes());
    assert_eq!(session.next_search(&memory, BASE, FilterMode::Unchanged, Value::I32(0)), Ok(()));
    assert_eq!(shape(session.results()), vec![(vec![], 8), (vec![], 24)]);
    assert_eq!(session.next_search(&memory, BASE, FilterMode::LessEq, Value::I32(20)), Ok(()));
    assert_eq!(shape(session.results()), vec![(vec![], 8)]);
    assert_eq!(session.results()[0].last_value, Value::I32(20));
    assert_eq!(session.clear(), Ok(()));
    assert_eq!(session.state(), SessionState::Empty);
    assert_eq!(session.clear(), Err(SessionError::NotPopulated));
    assert_eq!(session.first_search(&memory, &options(0, Value::I32(1))), Ok(()));
}

#[test]
fn a_next_search_that_keeps_nothing_empties_the_session() {
    let memory = memory();
    let mut session = SpiderSession::new();
    session.adopt(vec![result(vec![], 0, Value::I32(0))]).unwrap();
    assert_eq!(session.next_search(&memory, BASE, FilterMode::Equal, Value::I32(11)), Ok(()));
    assert_eq!(session.state(), SessionState::Empty);
}

#[test]
fn results_of_another_kind_are_not_adopted() {
    let mut session = SpiderSession::new();
    let mixed = vec![result(vec![], 0, Value::I32(1)), result(vec![], 8, Value::U32(1))];
    assert_eq!(session.adopt(mixed), Err(SessionError::KindMismatch));
    assert_eq!(session.state(), SessionState::Empty);
    session.adopt(vec![result(vec![], 0, Value::I32(1))]).unwrap();
    assert_eq!(session.adopt(Vec::new()), Err(SessionError::NotEmpty));
}

#[test]
fn adopted_results_are_sorted_by_depth() {
    let mut session = SpiderSession::new();
    let found = vec![
        result(vec![1, 2], 0, Value::I32(0)),
        result(vec![], 1, Value::I32(0)),
        result(vec![3], 2, Value::I32(0)),
        result(vec![4, 5], 3, Value::I32(0)),
        result(vec![], 4, Value::I32(0)),
    ];
    session.adopt(found).unwrap();
    assert_eq!(
        shape(session.results()),
        vec![(vec![], 1), (vec![], 4), (vec![3], 2), (vec![1, 2], 0), (vec![4, 5], 3)]
    );
}

#[test]
fn sorting_by_depth_keeps_the_order_among_equals() {
    assert!(sort_by_depth(Vec::new()).is_empty());
    let sorted = sort_by_depth(vec![
        result(vec![9, 9, 9], 0, Value::U8(1)),
        result(vec![7], 1, Value::U8(2)),
        result(vec![8], 2, Value::U8(3)),
        result(vec![9, 9, 9], 3, Value::U8(4)),
    ]);
    assert_eq!(
        shape(&sorted),
        vec![(vec![7], 1), (vec![8], 2), (vec![9, 9, 9], 0), (vec![9, 9, 9], 3)]
    );
    assert_eq!(
        sorted.iter().map(|r| r.last_value).collect::<Vec<_>>(),
        vec![Value::U8(2), Value::U8(3), Value::U8(1), Value::U8(4)]
    );
}

#[test]
fn a_field_has_no_value_until_something_is_typed() {
    let mut bind: TextEditFromStrBind = TextEditBind::new_from_str();
    assert_eq!(bind.value(), None);
    assert_eq!(bind.as_str(), "");
    assert_eq!(bind.insert_text("12", 0), 2);
    assert_eq!(bind.value(), Some(Ok(&12)));
    assert_eq!(bind.insert_text("3", 1), 1);
    assert_eq!(bind.as_str(), "132");
    assert_eq!(bind.value_clone(), Some(Ok(132)));
    assert_eq!(bind.insert_text("é", 3), 1);
    assert_eq!(bind.as_str(), "132é");
    assert_eq!(bind.value_clone(), Some(Err(NumberError::Invalid)));
    bind.delete_char_range(1, 4);
    assert_eq!(bind.as_str(), "1");
    assert_eq!(bind.value_clone(), Some(Ok(1)));
    bind.delete_char_range(0, 1);
    assert_eq!(bind.value_clone(), Some(Err(NumberError::Empty)));
}

#[test]
fn a_field_can_be_made_with_its_value() {
    let bind = TextEditBind::new_from_str_with(String::from("4"), Some(4));
    assert_eq!(bind.value_clone(), Some(Ok(4)));
    assert_eq!(bind.as_str(), "4");
    // The text is not read when the field is made.
    let bind = TextEditBind::new_with(String::from("zz"), Some(7), FromStrCount);
    assert_eq!(bind.value_clone(), Some(Ok(7)));
    let bind = TextEditBind::new_with(String::from("10"), None, HexAddress);
    assert_eq!(bind.value_clone(), None);
}

#[test]
fn an_address_field_reads_hexadecimals() {
    let mut bind = TextEditBind::new(HexAddress);
    bind.insert_text("0x1F", 0);
    assert_eq!(bind.value_clone(), Some(Ok(0x1f)));
    bind.insert_text("g", 4);
    assert_eq!(bind.value_clone(), Some(Err(())));
    bind.set(0x20, String::from("20"));
    assert_eq!(bind.value_clone(), Some(Ok(0x20)));
    assert_eq!(bind.as_str(), "20");
    bind.update();
    assert_eq!(bind.value_clone(), Some(Ok(0x20)));
    assert_eq!(HexAddress.convert("ff"), Ok(255));
    assert_eq!(FromStrCount.convert("ff"), Err(NumberError::Invalid));
}

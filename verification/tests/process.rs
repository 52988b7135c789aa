use yclass::bytes::ByteOrder;
use yclass::process::{can_read, MemoryRegion, ProcessInterface, Snapshot};
use yclass::spider::scanner::recursive_first_search;
use yclass::spider::SearchOptions;
use yclass::value::Value;
use std::sync::Arc;

/// Memory that holds the low byte of each address at that address.
struct Counting;

impl ProcessInterface for Counting {
    fn read(&self, address: usize, buf: &mut [u8]) {
        for (i, byte) in buf.iter_mut().enumerate() {
            *byte = address.wrapping_add(i) as u8;
        }
    }

    fn can_read(&self, _address: usize) -> bool {
        false
    }

    fn byte_order(&self) -> ByteOrder {
        ByteOrder::Little
    }

    fn module_base(&self, _name: Option<&str>) -> Option<usize> {
        None
    }
}

#[test]
fn a_search_runs_on_any_address_space() {
    let mut results = Vec::new();
    let opts = SearchOptions {
        offsets: Arc::new(Vec::new()),
        struct_size: 0x200,
        alignment: 1,
        address: 0,
        depth: 5,
        value: Value::U16(0x0201),
    };
    recursive_first_search(&Counting, &mut results, &opts);
    let offsets: Vec<usize> = results.iter().map(|r| r.offset).collect();
    assert_eq!(offsets, vec![0x001, 0x101]);
}

#[test]
fn big_endian_memory_is_read_most_significant_byte_first() {
    let mut memory = Snapshot::new(ByteOrder::Big);
    memory.add(0x1000, vec![0x12, 0x34, 0x56, 0x78, 0, 0, 0, 0]);
    let mut results = Vec::new();
    let opts = SearchOptions {
        offsets: Arc::new(Vec::new()),
        struct_size: 4,
        alignment: 4,
        address: 0x1000,
        depth: 0,
        value: Value::U32(0x1234_5678),
    };
    recursive_first_search(&memory, &mut results, &opts);
    assert_eq!(results.len(), 1);
}

#[test]
fn snapshot_reads_what_was_added() {
    let mut memory = Snapshot::new(ByteOrder::host());
    memory.add(0x1000, vec![1, 2, 3, 4]);
    assert!(memory.can_read(0x1000));
    assert!(memory.can_read(0x1003));
    assert!(!memory.can_read(0x1004));
    assert!(!memory.can_read(0xfff));
    let mut buf = [9u8; 6];
    memory.read(0x0fff, &mut buf);
    assert_eq!(buf, [0, 1, 2, 3, 4, 0]);
    assert_eq!(memory.peek(0x1002), 3);
}

#[test]
fn snapshot_reads_the_block_added_first_where_blocks_overlap() {
    let mut memory = Snapshot::new(ByteOrder::host());
    memory.add(0x1000, vec![1, 1]);
    memory.add(0x1001, vec![2, 2]);
    let mut buf = [0u8; 3];
    memory.read(0x1000, &mut buf);
    assert_eq!(buf, [1, 1, 2]);
}

#[test]
fn snapshot_writes_where_memory_is_held() {
    let mut memory = Snapshot::new(ByteOrder::host());
    memory.add(0x1000, vec![0; 4]);
    memory.write(0x0ffe, &[1, 2, 3, 4]);
    let mut buf = [0u8; 6];
    memory.read(0x0ffe, &mut buf);
    assert_eq!(buf, [0, 0, 3, 4, 0, 0]);
    assert!(memory.poke(0x1003, 9));
    assert!(!memory.poke(0x1004, 9));
    assert_eq!(memory.peek(0x1003), 9);
}

#[test]
fn snapshot_reads_round_the_end_of_the_address_space() {
    let mut memory = Snapshot::new(ByteOrder::host());
    memory.add(usize::MAX, vec![7]);
    memory.add(0, vec![8]);
    let mut buf = [0u8; 2];
    memory.read(usize::MAX, &mut buf);
    assert_eq!(buf, [7, 8]);
}

#[test]
fn a_region_admits_its_addresses_if_it_may_be_read() {
    let regions = vec![
        MemoryRegion { from: 0x1000, to: 0x1fff, readable: false },
        MemoryRegion { from: 0x3000, to: 0x3fff, readable: true },
    ];
    assert!(!can_read(&regions, 0x1000));
    assert!(!can_read(&regions, 0x2fff));
    assert!(can_read(&regions, 0x3000));
    assert!(can_read(&regions, 0x3fff));
    assert!(!can_read(&regions, 0x4000));
    assert!(!can_read(&Vec::new(), 0));
}

#[test]
fn the_host_order_is_the_order_of_native_bytes() {
    let expected = if 1u16.to_ne_bytes()[0] == 1 { ByteOrder::Little } else { ByteOrder::Big };
    assert_eq!(ByteOrder::host(), expected);
}

#[test]
fn the_order_is_told_from_how_one_reads() {
    assert_eq!(ByteOrder::of_reading(u16::from_le_bytes([1, 0])), ByteOrder::Little);
    assert_eq!(ByteOrder::of_reading(u16::from_be_bytes([1, 0])), ByteOrder::Big);
    assert_eq!(ByteOrder::of_reading(1), ByteOrder::Little);
    assert_eq!(ByteOrder::of_reading(256), ByteOrder::Big);
    assert_eq!(ByteOrder::of_reading(u16::from_ne_bytes([1, 0])), ByteOrder::host());
}

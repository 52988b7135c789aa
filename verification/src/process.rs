//! The address space that the spider reads.

use crate::bytes::ByteOrder;
use vstd::prelude::*;
use crate::text::same_text;
use vstd::string::*;

verus! {

/// The address `offset` bytes after `address`. Addresses wrap round at the
/// end of the address space.
pub open spec fn address_after(address: usize, offset: int) -> usize {
    address.wrapping_add(offset as usize)
}

/// One state of an address space. While a value is borrowed shared, reading
/// it again gives the same bytes: what a read observes is a function of the
/// value and the address.
///
/// The first three items are the model that the contracts speak of. A
/// verified implementation states them; one outside the verifier leaves them
/// as they are, and answers for its `read`, `can_read` and `byte_order`
/// being repeatable.
pub trait ProcessInterface {
    /// The byte that a read observes at `address`. At an address that cannot
    /// be read this is whatever the address space hands out for it.
    open spec fn byte_at(&self, address: usize) -> u8 {
        0
    }

    /// Whether `address` may be dereferenced.
    open spec fn readable(&self, address: usize) -> bool {
        false
    }

    /// The byte order in which numbers lie in this address space.
    open spec fn order(&self) -> ByteOrder {
        ByteOrder::Little
    }

    /// Where the module called `name` begins, if the address space has one;
    /// without a name, where its main module begins.
    open spec fn base_of(&self, name: Option<Seq<char>>) -> Option<usize> {
        None
    }

    /// Fills `buf` with the bytes that start at `address`.
    fn read(&self, address: usize, buf: &mut [u8])
        ensures
            final(buf)@ == Seq::new(
                old(buf)@.len(),
                |i: int| self.byte_at(address_after(address, i)),
            ),
    ;

    /// False means: do not dereference `address`.
    fn can_read(&self, address: usize) -> (r: bool)
        ensures
            r == self.readable(address),
    ;

    /// The byte order of the numbers in this address space: for a process of
    /// this machine, `ByteOrder::host()`.
    fn byte_order(&self) -> (r: ByteOrder)
        ensures
            r == self.order(),
    ;

    /// Where the module called `name` begins; without a name, where the main
    /// module begins. Nothing means that there is no such module.
    fn module_base(&self, name: Option<&str>) -> (base: Option<usize>)
        ensures
            base == self.base_of(
                match name {
                    Some(text) => Some(text@),
                    None => None,
                },
            ),
    ;
}

/// The `len` bytes that a read at `address` observes.
pub open spec fn span<P: ProcessInterface>(process: &P, address: usize, len: nat) -> Seq<u8> {
    Seq::new(len, |i: int| process.byte_at(address_after(address, i)))
}

/// The eight bytes at `address`.
pub fn read_word<P: ProcessInterface>(process: &P, address: usize) -> (word: [u8; 8])
    ensures
        word@ == span(process, address, 8),
{
    let mut word: [u8; 8] = [0; 8];
    process.read(address, &mut word);
    word
}

/// A process that can be attached to.
#[derive(Debug, Clone)]
pub struct ProcessEntry {
    pub name: String,
    pub id: u32,
}

/// A stretch of an address space with one protection: the addresses from
/// `from` up to and with `to`.
#[derive(Debug, Clone, Copy)]
pub struct MemoryRegion {
    pub from: usize,
    pub to: usize,
    /// Whether the stretch may be read.
    pub readable: bool,
}

impl MemoryRegion {
    /// `address` lies in this stretch and the stretch may be read.
    pub open spec fn admits(self, address: usize) -> bool {
        self.from <= address && self.to >= address && self.readable
    }
}

/// Some region of the map admits `address`.
pub open spec fn mapped_readable(regions: Seq<MemoryRegion>, address: usize) -> bool {
    exists|i: int| 0 <= i < regions.len() && (#[trigger] regions[i]).admits(address)
}

/// Whether `address` lies in a region of the map that may be read.
pub fn can_read(regions: &Vec<MemoryRegion>, address: usize) -> (r: bool)
    ensures
        r == mapped_readable(regions@, address),
{
    let mut i: usize = 0;
    while i < regions.len()
        invariant
            i <= regions@.len(),
            forall|k: int| 0 <= k < i ==> !(#[trigger] regions@[k]).admits(address),
        decreases regions@.len() - i,
    {
        let region = &regions[i];
        if region.from <= address && region.to >= address && region.readable {
            return true;
        }
        i += 1;
    }
    false
}

/// A run of bytes and the address of its first byte. A block that holds a
/// module bears the name of the module.
pub struct MemoryBlock {
    pub base: usize,
    pub bytes: Vec<u8>,
    pub name: Option<String>,
}

impl MemoryBlock {
    /// The block has a byte for `address`.
    pub open spec fn holds(self, address: usize) -> bool {
        self.base <= address < self.base + self.bytes@.len()
    }
}

/// The first block at `from` or behind it that has a byte for `address`.
pub open spec fn block_for(blocks: Seq<MemoryBlock>, from: int, address: usize) -> Option<int>
    decreases blocks.len() - from,
{
    if from < 0 || from >= blocks.len() {
        None
    } else if blocks[from].holds(address) {
        Some(from)
    } else {
        block_for(blocks, from + 1, address)
    }
}

/// The first block at `from` or behind it that holds the module called
/// `name`; without a name, the first that holds a module.
pub open spec fn module_block(blocks: Seq<MemoryBlock>, from: int, name: Option<Seq<char>>) -> Option<
    int,
>
    decreases blocks.len() - from,
{
    if from < 0 || from >= blocks.len() {
        None
    } else if match (blocks[from].name, name) {
        (Some(held), Some(wanted)) => held@ == wanted,
        (Some(_), None) => true,
        (None, _) => false,
    } {
        Some(from)
    } else {
        module_block(blocks, from + 1, name)
    }
}

/// The byte that a list of blocks has for `address`: that of the first block
/// that holds one, and zero where none does.
pub open spec fn byte_in(blocks: Seq<MemoryBlock>, address: usize) -> u8 {
    match block_for(blocks, 0, address) {
        Some(i) => blocks[i].bytes@[address - blocks[i].base],
        None => 0,
    }
}

/// The byte for `address` after `data` was written at `start`: the first
/// `count` bytes of `data` lie over what `blocks` held, as far as the
/// addresses are held by a block.
pub open spec fn overwritten(
    blocks: Seq<MemoryBlock>,
    start: usize,
    data: Seq<u8>,
    count: nat,
    address: usize,
) -> u8
    decreases count,
{
    if count == 0 {
        byte_in(blocks, address)
    } else if address_after(start, count - 1) == address && block_for(blocks, 0, address)
        is Some {
        data[count - 1]
    } else {
        overwritten(blocks, start, data, (count - 1) as nat, address)
    }
}

/// A copy of parts of an address space: a list of blocks of bytes. An
/// address is readable where a block holds a byte for it.
pub struct Snapshot {
    blocks: Vec<MemoryBlock>,
    order: ByteOrder,
}

impl Snapshot {
    /// The blocks, in the order in which they were added.
    pub closed spec fn layout(&self) -> Seq<MemoryBlock> {
        self.blocks@
    }

    /// The byte order that the numbers in the blocks are read in.
    pub closed spec fn number_order(&self) -> ByteOrder {
        self.order
    }

    /// A snapshot without a block, whose numbers are read in `order`.
    pub fn new(order: ByteOrder) -> (snapshot: Snapshot)
        ensures
            snapshot.layout() == Seq::<MemoryBlock>::empty(),
            snapshot.number_order() == order,
    {
        Snapshot { blocks: Vec::new(), order }
    }

    /// Adds a block without a name behind those that are there. Where
    /// blocks overlap, the one added first is read.
    pub fn add(&mut self, base: usize, bytes: Vec<u8>)
        ensures
            final(self).layout() == old(self).layout().push(
                MemoryBlock { base, bytes, name: None },
            ),
            final(self).number_order() == old(self).number_order(),
    {
        self.blocks.push(MemoryBlock { base, bytes, name: None });
    }

    /// Adds the block of a module behind those that are there. The module
    /// added first is the main module.
    pub fn add_module(&mut self, name: String, base: usize, bytes: Vec<u8>)
        ensures
            final(self).layout() == old(self).layout().push(
                MemoryBlock { base, bytes, name: Some(name) },
            ),
            final(self).number_order() == old(self).number_order(),
    {
        self.blocks.push(MemoryBlock { base, bytes, name: Some(name) });
    }

    /// The index of the block that `address` is read from.
    fn locate(&self, address: usize) -> (found: Option<usize>)
        ensures
            match found {
                Some(i) => {
                    &&& block_for(self.layout(), 0, address) == Some(i as int)
                    &&& i < self.layout().len()
                    &&& self.layout()[i as int].holds(address)
                },
                None => block_for(self.layout(), 0, address) is None,
            },
    {
        let mut i: usize = 0;
        while i < self.blocks.len()
            invariant
                i <= self.blocks@.len(),
                block_for(self.blocks@, 0, address) == block_for(self.blocks@, i as int, address),
            decreases self.blocks@.len() - i,
        {
            let block = &self.blocks[i];
            if block.base <= address && address - block.base < block.bytes.len() {
                return Some(i);
            }
            i += 1;
        }
        None
    }

    /// The byte at `address`.
    pub fn peek(&self, address: usize) -> (byte: u8)
        ensures
            byte == byte_in(self.layout(), address),
    {
        match self.locate(address) {
            Some(i) => {
                let block = &self.blocks[i];
                block.bytes[address - block.base]
            },
            None => 0,
        }
    }

    /// Puts `byte` at `address` if a block holds a byte for it. Says whether
    /// one does.
    pub fn poke(&mut self, address: usize, byte: u8) -> (held: bool)
        ensures
            held == (block_for(old(self).layout(), 0, address) is Some),
            final(self).number_order() == old(self).number_order(),
            final(self).layout().len() == old(self).layout().len(),
            forall|a: usize|
                block_for(final(self).layout(), 0, a) == block_for(old(self).layout(), 0, a),
            forall|a: usize|
                byte_in(final(self).layout(), a) == if a == address && held {
                    byte
                } else {
                    byte_in(old(self).layout(), a)
                },
    {
        match self.locate(address) {
            Some(i) => {
                let ghost before = self.blocks@;
                let index: usize = address - self.blocks[i].base;
                self.blocks[i].bytes.set(index, byte);
                proof {
                    let after = self.blocks@;
                    assert forall|k: int| 0 <= k < before.len() implies (#[trigger] after[k]).base
                        == before[k].base && after[k].bytes@.len() == before[k].bytes@.len() by {}
                    assert(after[i as int].bytes@ == before[i as int].bytes@.update(
                        index as int,
                        byte,
                    ));
                    assert forall|k: int| 0 <= k < before.len() && k != i implies after[k]
                        == before[k] by {}
                    assert forall|a: usize|
                        block_for(after, 0, a) == block_for(before, 0, a) by {
                        lemma_block_for_same_shape(before, after, 0, a);
                    }
                    assert forall|a: usize|
                        byte_in(after, a) == if a == address {
                            byte
                        } else {
                            byte_in(before, a)
                        } by {
                        lemma_block_for_found(before, 0, a);
                    }
                }
                true
            },
            None => false,
        }
    }

    /// Writes `data` at `address`, byte by byte, as far as blocks hold the
    /// addresses.
    pub fn write(&mut self, address: usize, data: &[u8])
        ensures
            final(self).number_order() == old(self).number_order(),
            forall|a: usize|
                block_for(final(self).layout(), 0, a) == block_for(old(self).layout(), 0, a),
            forall|a: usize|
                byte_in(final(self).layout(), a) == overwritten(
                    old(self).layout(),
                    address,
                    data@,
                    data@.len(),
                    a,
                ),
    {
        let mut i: usize = 0;
        while i < data.len()
            invariant
                i <= data@.len(),
                self.number_order() == old(self).number_order(),
                forall|a: usize|
                    block_for(self.layout(), 0, a) == block_for(old(self).layout(), 0, a),
                forall|a: usize|
                    byte_in(self.layout(), a) == overwritten(
                        old(self).layout(),
                        address,
                        data@,
                        i as nat,
                        a,
                    ),
            decreases data@.len() - i,
        {
            self.poke(address.wrapping_add(i), data[i]);
            i += 1;
        }
    }
}

/// A block that is found lies at or behind `from` and holds the address.
proof fn lemma_block_for_found(blocks: Seq<MemoryBlock>, from: int, address: usize)
    ensures
        match block_for(blocks, from, address) {
            Some(i) => from <= i < blocks.len() && blocks[i].holds(address),
            None => true,
        },
    decreases blocks.len() - from,
{
    if from < 0 || from >= blocks.len() {
    } else if blocks[from].holds(address) {
    } else {
        lemma_block_for_found(blocks, from + 1, address);
    }
}

/// Blocks that differ only in the bytes they hold are found under the same
/// addresses.
proof fn lemma_block_for_same_shape(
    before: Seq<MemoryBlock>,
    after: Seq<MemoryBlock>,
    from: int,
    address: usize,
)
    requires
        before.len() == after.len(),
        forall|k: int|
            0 <= k < before.len() ==> (#[trigger] after[k]).base == before[k].base
                && after[k].bytes@.len() == before[k].bytes@.len(),
    ensures
        block_for(after, from, address) == block_for(before, from, address),
    decreases before.len() - from,
{
    if from < 0 || from >= before.len() {
    } else {
        lemma_block_for_same_shape(before, after, from + 1, address);
    }
}

impl ProcessInterface for Snapshot {
    open spec fn byte_at(&self, address: usize) -> u8 {
        byte_in(self.layout(), address)
    }

    open spec fn readable(&self, address: usize) -> bool {
        block_for(self.layout(), 0, address) is Some
    }

    open spec fn order(&self) -> ByteOrder {
        self.number_order()
    }

    fn read(&self, address: usize, buf: &mut [u8]) {
        let mut i: usize = 0;
        while i < buf.len()
            invariant
                i <= buf@.len(),
                buf@.len() == old(buf)@.len(),
                forall|k: int|
                    0 <= k < i ==> buf@[k] == self.byte_at(address_after(address, k)),
            decreases buf@.len() - i,
        {
            let byte = self.peek(address.wrapping_add(i));
            buf[i] = byte;
            i += 1;
        }
    }

    fn can_read(&self, address: usize) -> (r: bool) {
        self.locate(address).is_some()
    }

    fn byte_order(&self) -> (r: ByteOrder) {
        self.order
    }

    open spec fn base_of(&self, name: Option<Seq<char>>) -> Option<usize> {
        match module_block(self.layout(), 0, name) {
            Some(i) => Some(self.layout()[i].base),
            None => None,
        }
    }

    fn module_base(&self, name: Option<&str>) -> (base: Option<usize>) {
        let ghost wanted: Option<Seq<char>> = match name {
            Some(text) => Some(text@),
            None => None,
        };
        let mut i: usize = 0;
        while i < self.blocks.len()
            invariant
                i <= self.blocks@.len(),
                wanted == match name {
                    Some(text) => Some(text@),
                    None => None,
                },
                module_block(self.blocks@, 0, wanted) == module_block(self.blocks@, i as int, wanted),
            decreases self.blocks@.len() - i,
        {
            let block = &self.blocks[i];
            let found = match (&block.name, name) {
                (Some(held), Some(text)) => same_text(held.as_str(), text),
                (Some(_), None) => true,
                (None, _) => false,
            };
            if found {
                return Some(block.base);
            }
            i += 1;
        }
        None
    }
}

} // verus!

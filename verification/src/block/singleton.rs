use super::aligned_block::{
    AlignedBlock, BlockClone, BlockFetch, BlockStore, IndexedBlock,
};
use vstd::prelude::*;

verus! {

impl<Item> IndexedBlock for (usize, Item) {
    type Index = usize;

    type Item = Item;

    open spec fn inv(&self) -> bool {
        true
    }

    open spec fn readable(&self, index: usize) -> bool {
        index == self.0
    }

    open spec fn writable(&self, index: usize) -> bool {
        index == self.0
    }

    open spec fn spec_at(&self, index: usize) -> Item {
        self.1
    }
}

impl<Item> AlignedBlock for (usize, Item) {
    open spec fn spec_alignment() -> nat {
        1
    }

    open spec fn spec_position(&self) -> nat {
        self.0 as nat
    }

    proof fn lemma_wf(&self) {
    }

    fn alignment() -> usize {
        1
    }

    fn position(&self) -> usize {
        self.0
    }

    fn is_well_formed(&self) -> bool {
        true
    }
}

impl<Item: Copy> BlockFetch for (usize, Item) {
    fn fetch(&self, index: usize) -> Item {
        self.1
    }
}

impl<Item> BlockStore for (usize, Item) {
    fn store(&mut self, index: usize, item: Item) {
        self.1 = item;
    }
}

impl<Item: Copy> BlockClone for (usize, Item) {
    fn clone_block(&self) -> (r: Self) {
        (self.0, self.1)
    }
}

impl<Item> IndexedBlock for (u16, Item) {
    type Index = u16;

    type Item = Item;

    open spec fn inv(&self) -> bool {
        true
    }

    open spec fn readable(&self, index: u16) -> bool {
        index == self.0
    }

    open spec fn writable(&self, index: u16) -> bool {
        index == self.0
    }

    open spec fn spec_at(&self, index: u16) -> Item {
        self.1
    }
}

impl<Item> AlignedBlock for (u16, Item) {
    open spec fn spec_alignment() -> nat {
        1
    }

    open spec fn spec_position(&self) -> nat {
        self.0 as nat
    }

    proof fn lemma_wf(&self) {
    }

    fn alignment() -> u16 {
        1
    }

    fn position(&self) -> u16 {
        self.0
    }

    fn is_well_formed(&self) -> bool {
        true
    }
}

impl<Item: Copy> BlockFetch for (u16, Item) {
    fn fetch(&self, index: u16) -> Item {
        self.1
    }
}

impl<Item> BlockStore for (u16, Item) {
    fn store(&mut self, index: u16, item: Item) {
        self.1 = item;
    }
}

impl<Item: Copy> BlockClone for (u16, Item) {
    fn clone_block(&self) -> (r: Self) {
        (self.0, self.1)
    }
}

impl<Item> IndexedBlock for (u32, Item) {
    type Index = u32;

    type Item = Item;

    open spec fn inv(&self) -> bool {
        true
    }

    open spec fn readable(&self, index: u32) -> bool {
        index == self.0
    }

    open spec fn writable(&self, index: u32) -> bool {
        index == self.0
    }

    open spec fn spec_at(&self, index: u32) -> Item {
        self.1
    }
}

impl<Item> AlignedBlock for (u32, Item) {
    open spec fn spec_alignment() -> nat {
        1
    }

    open spec fn spec_position(&self) -> nat {
        self.0 as nat
    }

    proof fn lemma_wf(&self) {
    }

    fn alignment() -> u32 {
        1
    }

    fn position(&self) -> u32 {
        self.0
    }

    fn is_well_formed(&self) -> bool {
        true
    }
}

impl<Item: Copy> BlockFetch for (u32, Item) {
    fn fetch(&self, index: u32) -> Item {
        self.1
    }
}

impl<Item> BlockStore for (u32, Item) {
    fn store(&mut self, index: u32, item: Item) {
        self.1 = item;
    }
}

impl<Item: Copy> BlockClone for (u32, Item) {
    fn clone_block(&self) -> (r: Self) {
        (self.0, self.1)
    }
}

impl<Item> IndexedBlock for (u64, Item) {
    type Index = u64;

    type Item = Item;

    open spec fn inv(&self) -> bool {
        true
    }

    open spec fn readable(&self, index: u64) -> bool {
        index == self.0
    }

    open spec fn writable(&self, index: u64) -> bool {
        index == self.0
    }

    open spec fn spec_at(&self, index: u64) -> Item {
        self.1
    }
}

impl<Item> AlignedBlock for (u64, Item) {
    open spec fn spec_alignment() -> nat {
        1
    }

    open spec fn spec_position(&self) -> nat {
        self.0 as nat
    }

    proof fn lemma_wf(&self) {
    }

    fn alignment() -> u64 {
        1
    }

    fn position(&self) -> u64 {
        self.0
    }

    fn is_well_formed(&self) -> bool {
        true
    }
}

impl<Item: Copy> BlockFetch for (u64, Item) {
    fn fetch(&self, index: u64) -> Item {
        self.1
    }
}

impl<Item> BlockStore for (u64, Item) {
    fn store(&mut self, index: u64, item: Item) {
        self.1 = item;
    }
}

impl<Item: Copy> BlockClone for (u64, Item) {
    fn clone_block(&self) -> (r: Self) {
        (self.0, self.1)
    }
}

impl<Item> IndexedBlock for (u128, Item) {
    type Index = u128;

    type Item = Item;

    open spec fn inv(&self) -> bool {
        true
    }

    open spec fn readable(&self, index: u128) -> bool {
        index == self.0
    }

    open spec fn writable(&self, index: u128) -> bool {
        index == self.0
    }

    open spec fn spec_at(&self, index: u128) -> Item {
        self.1
    }
}

impl<Item> AlignedBlock for (u128, Item) {
    open spec fn spec_alignment() -> nat {
        1
    }

    open spec fn spec_position(&self) -> nat {
        self.0 as nat
    }

    proof fn lemma_wf(&self) {
    }

    fn alignment() -> u128 {
        1
    }

    fn position(&self) -> u128 {
        self.0
    }

    fn is_well_formed(&self) -> bool {
        true
    }
}

impl<Item: Copy> BlockFetch for (u128, Item) {
    fn fetch(&self, index: u128) -> Item {
        self.1
    }
}

impl<Item> BlockStore for (u128, Item) {
    fn store(&mut self, index: u128, item: Item) {
        self.1 = item;
    }
}

impl<Item: Copy> BlockClone for (u128, Item) {
    fn clone_block(&self) -> (r: Self) {
        (self.0, self.1)
    }
}

} // verus!

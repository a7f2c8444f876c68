use crate::numerical_index::NumericalIndex;
use vstd::prelude::*;

verus! {

/// The ways a block or a container of blocks can reject its input.
#[derive(Clone, Copy, Debug, PartialEq, Eq, Structural)]
pub enum StorageError {
    /// The backing collection handed to a block does not hold exactly
    /// `alignment` items.
    WrongLength,
    /// A block's position is not a multiple of its alignment, or a block is
    /// otherwise malformed.
    NotAligned,
    /// The blocks handed to a densely packed container do not sit at
    /// positions `0, alignment, 2 * alignment, ...` in order.
    NotDenselyPacked,
    /// The blocks handed to a sparse container are not in strictly
    /// increasing order of position.
    NotMonotonic,
    /// A generator ran out of items before a whole block was filled.
    UnderfullGenerator,
}

/// A block of data which has an index type and an item type, together with
/// its mathematical model: a structural invariant `inv`, the set of indices
/// it can serve (`readable`), and the item observed at each index
/// (`spec_at`).
///
/// Containers of blocks implement this trait as well; for them `readable`
/// and `spec_at` describe the whole collection.
pub trait IndexedBlock {
    /// How the block is indexed (for example, by `usize`).
    type Index: NumericalIndex;

    /// Type of the items held.
    type Item;

    /// The structural invariant of the implementing type.
    spec fn inv(&self) -> bool;

    /// The indices at which an item can be read.
    spec fn readable(&self, index: Self::Index) -> bool;

    /// The indices at which an item can be written.
    spec fn writable(&self, index: Self::Index) -> bool;

    /// The item observed at `index`; meaningful where `readable` holds
    /// (and, for containers with a default policy, everywhere).
    spec fn spec_at(&self, index: Self::Index) -> Self::Item;
}

/// A block of data with a fixed alignment (its length, identical for every
/// block of the type) and a position (the absolute index of its first
/// element, always a multiple of the alignment).
///
/// This differs from a plain vector, which always begins at zero and has an
/// arbitrary length.
pub trait AlignedBlock: IndexedBlock {
    /// The alignment of this kind of block: the number of addressable slots.
    spec fn spec_alignment() -> nat;

    /// The absolute index of this block's first element.
    spec fn spec_position(&self) -> nat;

    /// A well-formed block has a positive, index-representable alignment,
    /// sits at a position that is a multiple of the alignment, and serves
    /// exactly the indices of its span.
    proof fn lemma_wf(&self)
        requires
            self.inv(),
        ensures
            0 < Self::spec_alignment() <= Self::Index::spec_max(),
            self.spec_position() % Self::spec_alignment() == 0,
            self.spec_position() <= Self::Index::spec_max(),
            forall|i: Self::Index|
                #[trigger] self.readable(i) <==> self.spec_position() <= i.as_nat()
                    < self.spec_position() + Self::spec_alignment(),
            forall|i: Self::Index| #[trigger] self.writable(i) <==> self.readable(i),
    ;

    /// The required alignment for this kind of block.
    fn alignment() -> (r: Self::Index)
        ensures
            r.as_nat() == Self::spec_alignment(),
    ;

    /// The position of the starting element of this block.
    fn position(&self) -> (r: Self::Index)
        ensures
            r.as_nat() == self.spec_position(),
    ;

    /// Whether this block satisfies its structural invariant.
    fn is_well_formed(&self) -> (r: bool)
        ensures
            r == self.inv(),
    ;
}

/// A block where any individual element can be read.
pub trait BlockFetch: IndexedBlock {
    /// Get the element at an absolute index.
    fn fetch(&self, index: Self::Index) -> (r: Self::Item)
        requires
            self.inv(),
            self.readable(index),
        ensures
            r == self.spec_at(index),
    ;
}

/// A block where any individual element can be written.
pub trait BlockStore: IndexedBlock {
    /// Set the element at an absolute index, leaving every other observable
    /// index unchanged.
    fn store(&mut self, index: Self::Index, item: Self::Item)
        requires
            old(self).inv(),
            old(self).writable(index),
        ensures
            final(self).inv(),
            final(self).spec_at(index) == item,
            forall|j: Self::Index|
                #![trigger final(self).spec_at(j)]
                old(self).readable(j) && j.as_nat() != index.as_nat() ==> final(self).spec_at(j)
                    == old(self).spec_at(j),
            forall|j: Self::Index| #[trigger] final(self).readable(j) <==> old(self).readable(j),
            forall|j: Self::Index| #[trigger] final(self).writable(j) <==> old(self).writable(j),
    ;
}

/// Construct default values for a given item at a given index.
///
/// `spec_default_at` is the pure function the policy computes; `policy_wf`
/// is what the policy needs of itself before it can be queried.
pub trait DefaultPerIndex<Index, Item> {
    /// What this policy needs of itself before it can be queried.
    spec fn policy_wf(&self) -> bool;

    /// The value this policy yields at `i`.
    spec fn spec_default_at(&self, i: Index) -> Item;

    /// Determine the default value at the given index.
    fn default_at_index(&self, i: Index) -> (r: Item)
        requires
            self.policy_wf(),
        ensures
            r == self.spec_default_at(i),
    ;
}

/// A block that can be constructed at a position, with every slot filled by
/// a default-value policy queried at that slot's absolute index.
pub trait AlignedBlockFromDefault: AlignedBlock + Sized {
    /// Construct a block at `position` whose every slot holds the policy's
    /// value for that slot's absolute index.
    fn default_per_index<D: DefaultPerIndex<Self::Index, Self::Item>>(
        position: Self::Index,
        value: &D,
    ) -> (r: Self)
        requires
            value.policy_wf(),
            Self::spec_alignment() > 0,
            position.as_nat() % Self::spec_alignment() == 0,
            position.as_nat() + Self::spec_alignment() <= Self::Index::spec_max() + 1,
        ensures
            r.inv(),
            r.spec_position() == position.as_nat(),
            forall|i: Self::Index|
                r.readable(i) ==> #[trigger] r.spec_at(i) == value.spec_default_at(i),
    ;
}

/// An aligned block that can be constructed from the leading elements of a
/// collection of items.
pub trait AlignedBlockFromIterator: AlignedBlock + Sized {
    /// Consume as many leading items from `items` as needed to fill a whole
    /// block at `position`; fail with `UnderfullGenerator` when there are
    /// too few, leaving `items` untouched.
    fn from_iterator(position: Self::Index, items: &mut Vec<Self::Item>) -> (r: Result<
        Self,
        StorageError,
    >)
        requires
            Self::spec_alignment() > 0,
            position.as_nat() % Self::spec_alignment() == 0,
            position.as_nat() + Self::spec_alignment() <= Self::Index::spec_max() + 1,
        ensures
            r is Ok <==> old(items)@.len() >= Self::spec_alignment(),
            r matches Ok(b) ==> {
                &&& b.inv()
                &&& b.spec_position() == position.as_nat()
                &&& final(items)@ == old(items)@.skip(Self::spec_alignment() as int)
                &&& forall|i: Self::Index|
                    b.readable(i) ==> #[trigger] b.spec_at(i) == old(items)@[i.as_nat()
                        - position.as_nat()]
            },
            r is Err ==> r == Result::<Self, StorageError>::Err(StorageError::UnderfullGenerator)
                && *final(items) == *old(items),
    ;
}

/// A block whose contents can be duplicated without observable change, so
/// that a copy-on-write handle can take a private copy before mutating.
pub trait BlockClone: AlignedBlock + Sized {
    /// Produce a block observationally equal to this one.
    fn clone_block(&self) -> (r: Self)
        requires
            self.inv(),
        ensures
            r.inv(),
            r.spec_position() == self.spec_position(),
            forall|i: Self::Index| (#[trigger] r.readable(i)) <==> self.readable(i),
            forall|i: Self::Index| (#[trigger] r.spec_at(i)) == self.spec_at(i),
            forall|i: Self::Index| (#[trigger] r.writable(i)) <==> self.writable(i),
    ;
}

/// Two well-formed blocks of one type that serve the same indices sit at
/// the same position. Storing into a block preserves the indices it serves,
/// so this recovers that its position is preserved as well.
pub proof fn lemma_same_span_same_position<B: AlignedBlock>(b1: &B, b2: &B)
    requires
        b1.inv(),
        b2.inv(),
        forall|i: B::Index| b1.readable(i) <==> b2.readable(i),
    ensures
        b1.spec_position() == b2.spec_position(),
{
    b1.lemma_wf();
    b2.lemma_wf();
    let p1 = b1.spec_position();
    let p2 = b2.spec_position();
    B::Index::lemma_from_nat(p1);
    B::Index::lemma_from_nat(p2);
    let i1 = B::Index::from_nat(p1);
    let i2 = B::Index::from_nat(p2);
    assert(b1.readable(i1));
    assert(b2.readable(i2));
}

/// A default-value policy that yields a type's natural zero value at every
/// index.
pub struct DefaultValue;

impl Default for DefaultValue {
    /// The policy is a unit value.
    fn default() -> (r: Self)
        ensures
            r == DefaultValue,
    {
        DefaultValue
    }
}

impl<Index> DefaultPerIndex<Index, bool> for DefaultValue {
    open spec fn policy_wf(&self) -> bool {
        true
    }

    open spec fn spec_default_at(&self, i: Index) -> bool {
        false
    }

    fn default_at_index(&self, i: Index) -> bool {
        false
    }
}

impl<Index> DefaultPerIndex<Index, u8> for DefaultValue {
    open spec fn policy_wf(&self) -> bool {
        true
    }

    open spec fn spec_default_at(&self, i: Index) -> u8 {
        0
    }

    fn default_at_index(&self, i: Index) -> u8 {
        0
    }
}

impl<Index> DefaultPerIndex<Index, u16> for DefaultValue {
    open spec fn policy_wf(&self) -> bool {
        true
    }

    open spec fn spec_default_at(&self, i: Index) -> u16 {
        0
    }

    fn default_at_index(&self, i: Index) -> u16 {
        0
    }
}

impl<Index> DefaultPerIndex<Index, u32> for DefaultValue {
    open spec fn policy_wf(&self) -> bool {
        true
    }

    open spec fn spec_default_at(&self, i: Index) -> u32 {
        0
    }

    fn default_at_index(&self, i: Index) -> u32 {
        0
    }
}

impl<Index> DefaultPerIndex<Index, u64> for DefaultValue {
    open spec fn policy_wf(&self) -> bool {
        true
    }

    open spec fn spec_default_at(&self, i: Index) -> u64 {
        0
    }

    fn default_at_index(&self, i: Index) -> u64 {
        0
    }
}

impl<Index> DefaultPerIndex<Index, u128> for DefaultValue {
    open spec fn policy_wf(&self) -> bool {
        true
    }

    open spec fn spec_default_at(&self, i: Index) -> u128 {
        0
    }

    fn default_at_index(&self, i: Index) -> u128 {
        0
    }
}

impl<Index> DefaultPerIndex<Index, usize> for DefaultValue {
    open spec fn policy_wf(&self) -> bool {
        true
    }

    open spec fn spec_default_at(&self, i: Index) -> usize {
        0
    }

    fn default_at_index(&self, i: Index) -> usize {
        0
    }
}

impl<Index> DefaultPerIndex<Index, i8> for DefaultValue {
    open spec fn policy_wf(&self) -> bool {
        true
    }

    open spec fn spec_default_at(&self, i: Index) -> i8 {
        0
    }

    fn default_at_index(&self, i: Index) -> i8 {
        0
    }
}

impl<Index> DefaultPerIndex<Index, i16> for DefaultValue {
    open spec fn policy_wf(&self) -> bool {
        true
    }

    open spec fn spec_default_at(&self, i: Index) -> i16 {
        0
    }

    fn default_at_index(&self, i: Index) -> i16 {
        0
    }
}

impl<Index> DefaultPerIndex<Index, i128> for DefaultValue {
    open spec fn policy_wf(&self) -> bool {
        true
    }

    open spec fn spec_default_at(&self, i: Index) -> i128 {
        0
    }

    fn default_at_index(&self, i: Index) -> i128 {
        0
    }
}

impl<Index> DefaultPerIndex<Index, isize> for DefaultValue {
    open spec fn policy_wf(&self) -> bool {
        true
    }

    open spec fn spec_default_at(&self, i: Index) -> isize {
        0
    }

    fn default_at_index(&self, i: Index) -> isize {
        0
    }
}

impl<Index> DefaultPerIndex<Index, i32> for DefaultValue {
    open spec fn policy_wf(&self) -> bool {
        true
    }

    open spec fn spec_default_at(&self, i: Index) -> i32 {
        0
    }

    fn default_at_index(&self, i: Index) -> i32 {
        0
    }
}

impl<Index> DefaultPerIndex<Index, i64> for DefaultValue {
    open spec fn policy_wf(&self) -> bool {
        true
    }

    open spec fn spec_default_at(&self, i: Index) -> i64 {
        0
    }

    fn default_at_index(&self, i: Index) -> i64 {
        0
    }
}

impl<'a, Index> DefaultPerIndex<Index, &'a str> for DefaultValue {
    open spec fn policy_wf(&self) -> bool {
        true
    }

    open spec fn spec_default_at(&self, i: Index) -> &'a str {
        ""
    }

    fn default_at_index(&self, i: Index) -> &'a str {
        ""
    }
}

} // verus!

//! An indexed pool of bump allocators.
//!
//! Each slot of the pool holds a bump arena behind a reference-counted
//! cell. `get` hands out a cloned handle; a cell whose handles have all
//! been dropped except the pool's own can be reset, which recycles its
//! memory without deallocating it. The pool itself is a ledger: its
//! length is the number of live slots and its capacity the number of
//! slots reserved for it, and the ratchet tree budgets its layers against
//! those numbers.
//!
//! A handle cloned out of the pool defers recycling for as long as it is
//! alive: `clear` fails with `CellBorrowed` until the outside holder
//! drops it.

use vstd::prelude::*;

use std::rc::Rc;

verus! {

/// The kinds of failure a pool operation can report.
#[derive(Clone, Copy, Debug, PartialEq, Eq, Structural)]
pub enum AllocatorPoolErrorKind {
    /// The slot index names no allocator.
    NoAllocatorAtIndex,
    /// The cell cannot be reset because an outside handle is still alive.
    CellBorrowed,
}

/// Failure of an allocator-pool operation.
#[derive(Clone, Copy, Debug)]
pub struct AllocatorPoolError {
    pub kind: AllocatorPoolErrorKind,
    pub reason: &'static str,
}

#[verifier::external_type_specification]
#[verifier::external_body]
pub struct ExBump<const MIN_ALIGN: usize>(bumpalo::Bump<MIN_ALIGN>);

/// A reference-counted handle to one bump arena. Cloning the cell shares
/// the arena; resetting it is possible only through the last live handle.
#[derive(Clone)]
pub struct AllocatorCell {
    bump: Rc<bumpalo::Bump>,
}

impl AllocatorCell {
    /// Wraps a bump arena in a fresh reference-counted cell.
    pub fn new(allocator: bumpalo::Bump) -> AllocatorCell {
        AllocatorCell { bump: Rc::new(allocator) }
    }
}

/// Relies on `bumpalo::Bump::with_capacity`: a fresh arena whose first
/// chunk can hold at least `bytes` bytes.
#[verifier::external_body]
fn bump_with_capacity(bytes: usize) -> bumpalo::Bump {
    bumpalo::Bump::with_capacity(bytes)
}

/// Relies on `std::rc::Rc::get_mut`, which yields exclusive access only
/// while no other handle is alive, and on `bumpalo::Bump::reset`, which
/// retires every suballocation of the arena while keeping its memory.
/// Returns whether the reset happened.
#[verifier::external_body]
fn reset_cell_if_unique(cells: &mut Vec<AllocatorCell>, index: usize) -> (r: bool)
    requires
        index < old(cells)@.len(),
    ensures
        final(cells)@.len() == old(cells)@.len(),
{
    match Rc::get_mut(&mut cells[index].bump) {
        Some(bump) => {
            bump.reset();
            true
        },
        None => false,
    }
}

/// What the pool looks like to its callers: how many slots are live and
/// how many are reserved.
pub ghost struct PoolView {
    pub len: int,
    pub cap: int,
}

/// An ordered pool of allocator cells, indexed by slot number.
pub struct AllocatorPool {
    root: bumpalo::Bump,
    cells: Vec<AllocatorCell>,
    slots: usize,
}

impl View for AllocatorPool {
    type V = PoolView;

    closed spec fn view(&self) -> PoolView {
        PoolView { len: self.cells@.len() as int, cap: self.slots as int }
    }
}

impl AllocatorPool {
    /// An empty pool over an externally provided root arena.
    pub fn new(root_alloc: bumpalo::Bump) -> (r: AllocatorPool)
        ensures
            r@.len == 0,
            r@.cap == 0,
    {
        AllocatorPool { root: root_alloc, cells: Vec::new(), slots: 0 }
    }

    /// A pool with `num_allocators` slots, each backed by a fresh arena
    /// sized for `length` values of type `T`.
    pub fn new_with_init<T>(
        root_alloc: bumpalo::Bump,
        num_allocators: usize,
        length: usize,
    ) -> (r: AllocatorPool)
        requires
            vstd::layout::size_of::<T>() * length <= usize::MAX,
        ensures
            r@.len == num_allocators,
            r@.cap == num_allocators,
    {
        let mut cells: Vec<AllocatorCell> = Vec::with_capacity(num_allocators);
        let mut i: usize = 0;
        while i < num_allocators
            invariant
                cells@.len() == i,
                i <= num_allocators,
                vstd::layout::size_of::<T>() * length <= usize::MAX,
            decreases num_allocators - i,
        {
            cells.push(AllocatorCell::new(Self::create_bumpalo::<T>(length)));
            i = i + 1;
        }
        AllocatorPool { root: root_alloc, cells, slots: num_allocators }
    }

    /// A fresh bump arena sized for `length` values of type `T`.
    pub fn create_bumpalo<T>(length: usize) -> bumpalo::Bump
        requires
            vstd::layout::size_of::<T>() * length <= usize::MAX,
    {
        bump_with_capacity(core::mem::size_of::<T>() * length)
    }

    /// Reserves room for `length` more slots.
    pub fn expand(&mut self, length: usize) -> (r: Result<(), std::collections::TryReserveError>)
        requires
            old(self)@.len + length <= usize::MAX,
        ensures
            final(self)@.len == old(self)@.len,
            r is Ok ==> final(self)@.cap == vstd::math::max(
                old(self)@.cap,
                old(self)@.len + length,
            ),
            r is Err ==> final(self)@.cap == old(self)@.cap,
    {
        match self.cells.try_reserve(length) {
            Ok(()) => {
                let reserved = self.cells.len() + length;
                if reserved > self.slots {
                    self.slots = reserved;
                }
                Ok(())
            },
            Err(e) => Err(e),
        }
    }

    /// Drops every slot past `length` and returns the reservation to the
    /// remaining slots.
    pub fn shrink(&mut self, length: usize)
        ensures
            final(self)@.len == vstd::math::min(old(self)@.len, length as int),
            final(self)@.cap == final(self)@.len,
    {
        self.cells.truncate(length);
        self.slots = self.cells.len();
    }

    /// Inserts a fresh slot at `index`, shifting later slots up. The
    /// arena is sized for `length` values of type `T`.
    pub fn initialize<T>(&mut self, index: usize, length: usize)
        requires
            index <= old(self)@.len,
            old(self)@.len < usize::MAX,
            vstd::layout::size_of::<T>() * length <= usize::MAX,
        ensures
            final(self)@.len == old(self)@.len + 1,
            final(self)@.cap == vstd::math::max(old(self)@.cap, old(self)@.len + 1),
    {
        let grown = self.cells.len() + 1;
        if grown > self.slots {
            self.slots = grown;
        }
        self.cells.insert(index, AllocatorCell::new(Self::create_bumpalo::<T>(length)));
    }

    /// A cloned handle to the cell at `index`; the clone defers the
    /// slot's recycling until it is dropped.
    pub fn get(&self, index: usize) -> AllocatorCell
        requires
            index < self@.len,
    {
        self.cells[index].clone()
    }

    /// A borrowed handle to the cell at `index`.
    pub fn get_ref(&self, index: usize) -> &AllocatorCell
        requires
            index < self@.len,
    {
        &self.cells[index]
    }

    /// A mutable handle to the cell at `index`. However the caller
    /// rewires the cell, the pool keeps its slot count.
    pub fn get_mut(&mut self, index: usize) -> (r: &mut AllocatorCell)
        requires
            index < old(self)@.len,
        ensures
            final(self)@.len == old(self)@.len,
            final(self)@.cap == old(self)@.cap,
    {
        &mut self.cells[index]
    }

    /// Whether a slot exists at `index`.
    pub fn has(&self, index: usize) -> (r: bool)
        ensures
            r == (index < self@.len),
    {
        index < self.cells.len()
    }

    /// Resets the single cell at `index`, recycling its arena. Fails with
    /// `NoAllocatorAtIndex` when the slot does not exist and with
    /// `CellBorrowed` when an outside handle still shares the arena.
    pub fn clear(&mut self, index: usize) -> (r: Result<(), AllocatorPoolError>)
        ensures
            final(self)@ == old(self)@,
            index >= old(self)@.len <==> (r matches Err(e) && e.kind
                == AllocatorPoolErrorKind::NoAllocatorAtIndex),
            (r matches Err(e) && e.kind == AllocatorPoolErrorKind::CellBorrowed) ==> index < old(
                self,
            )@.len,
    {
        if index >= self.cells.len() {
            return Err(
                AllocatorPoolError {
                    kind: AllocatorPoolErrorKind::NoAllocatorAtIndex,
                    reason: "No allocator found at index",
                },
            );
        }
        if reset_cell_if_unique(&mut self.cells, index) {
            Ok(())
        } else {
            Err(
                AllocatorPoolError {
                    kind: AllocatorPoolErrorKind::CellBorrowed,
                    reason: "Unable to acquire mut ref for allocator at index",
                },
            )
        }
    }

    /// The number of live slots.
    pub fn len(&self) -> (r: usize)
        ensures
            r == self@.len,
    {
        self.cells.len()
    }

    /// The number of reserved slots.
    pub fn capacity(&self) -> (r: usize)
        ensures
            r == self@.cap,
    {
        self.slots
    }
}

} // verus!

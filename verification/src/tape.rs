//! The data tape: a sparse store of 8-bit cells, unbounded in both directions.

use vstd::prelude::*;
use std::collections::HashMap;

verus! {

broadcast use vstd::std_specs::hash::group_hash_axioms;

/// The value of the cell at `addr` on a tape whose written entries are
/// `cells`: an address without an entry holds zero.
pub open spec fn cell_at(cells: Map<int, u8>, addr: int) -> u8 {
    if cells.contains_key(addr) {
        cells[addr]
    } else {
        0
    }
}

/// The entries after a visit to `addr`: a first visit gives the address an
/// entry that holds zero, a later one changes nothing.
pub open spec fn touched(cells: Map<int, u8>, addr: int) -> Map<int, u8> {
    if cells.contains_key(addr) {
        cells
    } else {
        cells.insert(addr, 0)
    }
}

/// A cell plus one, modulo 256.
pub open spec fn succ_cell(v: u8) -> u8 {
    ((v + 1) % 256) as u8
}

/// A cell minus one, modulo 256.
pub open spec fn pred_cell(v: u8) -> u8 {
    ((v + 255) % 256) as u8
}

/// The entries of a map keyed by machine addresses, keyed by integers.
pub open spec fn entries(m: Map<isize, u8>) -> Map<int, u8> {
    Map::new(
        |a: int| isize::MIN <= a <= isize::MAX && m.contains_key(a as isize),
        |a: int| m[a as isize],
    )
}

/// A sparse tape. Only the addresses that were visited have an entry; every
/// other address reads as zero.
pub struct Tape {
    cells: HashMap<isize, u8>,
}

impl View for Tape {
    type V = Map<int, u8>;

    /// The entries the tape holds, by address.
    closed spec fn view(&self) -> Map<int, u8> {
        entries(self.cells@)
    }
}

impl Tape {
    /// The tape without any entry: every cell reads as zero.
    pub fn new() -> (tape: Tape)
        ensures
            tape@ == Map::<int, u8>::empty(),
    {
        let tape = Tape { cells: HashMap::new() };
        tape
    }

    /// Whether `addr` was visited.
    pub fn contains(&self, addr: isize) -> (b: bool)
        ensures
            b == self@.contains_key(addr as int),
    {
        self.cells.contains_key(&addr)
    }

    /// Visits `addr`: zero-fills it if it has no entry yet.
    pub fn touch(&mut self, addr: isize)
        ensures
            final(self)@ == touched(old(self)@, addr as int),
    {
        if !self.cells.contains_key(&addr) {
            self.cells.insert(addr, 0);
        }
    }

    /// Reads the cell at `addr`, which counts as a visit.
    pub fn read(&mut self, addr: isize) -> (v: u8)
        ensures
            v == cell_at(old(self)@, addr as int),
            final(self)@ == touched(old(self)@, addr as int),
    {
        let found = match self.cells.get(&addr) {
            Some(v) => Some(*v),
            None => None,
        };
        match found {
            Some(v) => v,
            None => {
                self.cells.insert(addr, 0);
                0
            },
        }
    }

    /// Reads the cell at `addr` without visiting it.
    pub fn peek(&self, addr: isize) -> (v: u8)
        ensures
            v == cell_at(self@, addr as int),
    {
        match self.cells.get(&addr) {
            Some(v) => *v,
            None => 0,
        }
    }

    /// Writes `value` to the cell at `addr`.
    pub fn write(&mut self, addr: isize, value: u8)
        ensures
            final(self)@ == old(self)@.insert(addr as int, value),
    {
        self.cells.insert(addr, value);
    }
}

/// A cell that was never visited reads as zero, and visiting it does not
/// change what any cell holds.
pub proof fn lemma_touch_keeps_cells(cells: Map<int, u8>, addr: int, other: int)
    ensures
        !cells.contains_key(addr) ==> cell_at(cells, addr) == 0,
        touched(cells, addr).contains_key(addr),
        cell_at(touched(cells, addr), other) == cell_at(cells, other),
{
}

/// Cell arithmetic wraps: the successor of 255 is 0, the predecessor of 0 is
/// 255, and each undoes the other.
pub proof fn lemma_cell_arithmetic_wraps(v: u8)
    ensures
        succ_cell(v) == (if v == 255 { 0u8 } else { (v + 1) as u8 }),
        pred_cell(v) == (if v == 0 { 255u8 } else { (v - 1) as u8 }),
        pred_cell(succ_cell(v)) == v,
        succ_cell(pred_cell(v)) == v,
{
}

} // verus!

//! What a layout is, as mathematical values, and the laws of its changes.
//!
//! Every block has an address, which it keeps for as long as it stands. A
//! cell names the address of the block that covers it. A block is one cell,
//! or two cells side by side.

use vstd::prelude::*;
use crate::cube::CubeSpec;
use crate::grid::included_at;
use crate::grid::included_below;
use crate::grid::lemma_coordinates_in_range;
use crate::grid::lemma_grid_size;
use crate::grid::lemma_included_below;
use crate::grid::lemma_position_in_range;
use crate::grid::n_cells;
use crate::grid::position;
use crate::grid::x_of;
use crate::grid::y_of;

verus! {

/// How often a probe looks for a cell that it can change before it gives up.
pub const PROBE_TRIES: usize = 10;

/// What a probe did to the layout.
#[derive(Clone, Copy, Debug, PartialEq, Eq, Structural)]
pub enum Probe {
    /// Nothing: no try found a block that could be changed.
    Unchanged,
    /// The single-cell block at this position, which had this address, was
    /// taken away.
    Deleted(usize, usize),
    /// The block at this position grew over its neighbour, towards higher x
    /// where the flag is set and towards higher y where it is not.
    Extended(usize, bool),
}

/// What a layout holds, as mathematical values.
pub struct LayoutView {
    /// The largest cell coordinate.
    pub count_r: int,
    /// For each position, the address of the block that covers the cell.
    pub cells: Seq<Option<usize>>,
    /// For each address, the block, unless it is gone.
    pub blocks: Seq<Option<CubeSpec>>,
}

impl LayoutView {
    /// The position of a block's lowest cell.
    pub open spec fn low_position(self, cube: CubeSpec) -> int {
        position(self.count_r, cube.lowx as int, cube.lowy as int)
    }

    /// The position of a block's highest cell.
    pub open spec fn high_position(self, cube: CubeSpec) -> int {
        position(self.count_r, cube.highx as int, cube.highy as int)
    }

    /// The cell at `position` is empty, or names a standing block of which
    /// it is one of the two corners.
    pub open spec fn cell_ok(self, position: int) -> bool {
        match self.cells[position] {
            None => true,
            Some(address) => address < self.blocks.len() && match self.blocks[address as int] {
                None => false,
                Some(cube) => position == self.low_position(cube) || position
                    == self.high_position(cube),
            },
        }
    }

    /// The block at `address` is gone, or lies in the grid and both of its
    /// corner cells name it.
    pub open spec fn block_ok(self, address: int) -> bool {
        match self.blocks[address] {
            None => true,
            Some(cube) => {
                &&& cube.within(self.count_r)
                &&& 0 <= self.low_position(cube) < self.cells.len()
                &&& 0 <= self.high_position(cube) < self.cells.len()
                &&& self.cells[self.low_position(cube)] == Some(address as usize)
                &&& self.cells[self.high_position(cube)] == Some(address as usize)
            },
        }
    }

    /// Cells and blocks agree: the cells that name a block are exactly the
    /// cells that the block covers. Positions fit the machine's integers.
    pub open spec fn wf(self) -> bool {
        &&& self.count_r >= 0
        &&& self.cells.len() == n_cells(self.count_r) <= isize::MAX
        &&& self.blocks.len() <= usize::MAX
        &&& forall|position: int|
            0 <= position < self.cells.len() ==> #[trigger] self.cell_ok(position)
        &&& forall|address: int|
            0 <= address < self.blocks.len() ==> #[trigger] self.block_ok(address)
    }

    /// The cell at `position` carries a single-cell block.
    pub open spec fn small_at(self, position: int) -> bool {
        &&& 0 <= position < self.cells.len()
        &&& self.cells[position] is Some
        &&& self.block_at(position).small()
    }

    /// The block that covers the cell at `position`.
    pub open spec fn block_at(self, position: int) -> CubeSpec
        recommends
            0 <= position < self.cells.len(),
            self.cells[position] is Some,
    {
        self.blocks[self.cells[position].unwrap() as int].unwrap()
    }

    /// The layout without the block at `position` and with its cell empty.
    pub open spec fn deleted(self, position: int) -> LayoutView
        recommends
            self.small_at(position),
    {
        LayoutView {
            count_r: self.count_r,
            cells: self.cells.update(position, None),
            blocks: self.blocks.update(self.cells[position].unwrap() as int, None),
        }
    }

    /// The block at `position`, made one cell longer towards higher x or
    /// higher y.
    pub open spec fn grown(self, position: int, along_x: bool) -> CubeSpec
        recommends
            self.small_at(position),
    {
        let cube = self.block_at(position);
        if along_x {
            CubeSpec { highx: (cube.highx + 1) as isize, ..cube }
        } else {
            CubeSpec { highy: (cube.highy + 1) as isize, ..cube }
        }
    }

    /// The block at `position` is a single cell, and so is the block on the
    /// next cell towards higher x or higher y, which lies in the grid.
    pub open spec fn can_extend(self, position: int, along_x: bool) -> bool {
        &&& self.small_at(position)
        &&& self.grown(position, along_x).within(self.count_r)
        &&& self.small_at(self.high_position(self.grown(position, along_x)))
    }

    /// The number of blocks that stand.
    pub open spec fn standing(self) -> nat {
        held(self.blocks)
    }

    /// The number of cells that a block covers.
    pub open spec fn occupied(self) -> nat {
        held(self.cells)
    }

    /// Whether a try at `position` can fail: to delete, where the cell
    /// carries no single-cell block; to grow, where the block there cannot
    /// grow towards higher x or cannot grow towards higher y.
    pub open spec fn resists(self, position: int, want_to_delete: bool) -> bool {
        if want_to_delete {
            !self.small_at(position)
        } else {
            !self.can_extend(position, true) || !self.can_extend(position, false)
        }
    }

    /// The layout after a probe that reports `probe`.
    pub open spec fn probed(self, probe: Probe) -> LayoutView {
        match probe {
            Probe::Unchanged => self,
            Probe::Deleted(position, _) => self.deleted(position as int),
            Probe::Extended(position, along_x) => self.extended(position as int, along_x),
        }
    }

    /// Whether a probe may report `probe` of this layout.
    pub open spec fn admits(self, probe: Probe) -> bool {
        match probe {
            Probe::Unchanged => true,
            Probe::Deleted(position, address) => self.small_at(position as int)
                && self.cells[position as int] == Some(address),
            Probe::Extended(position, along_x) => self.can_extend(position as int, along_x),
        }
    }

    /// The layout after the probes that report `probes`, one after another.
    pub open spec fn probed_all(self, probes: Seq<Probe>) -> LayoutView
        decreases probes.len(),
    {
        if probes.len() == 0 {
            self
        } else {
            self.probed_all(probes.drop_last()).probed(probes.last())
        }
    }

    /// Whether probes may report `probes` of this layout, one after another.
    pub open spec fn admits_all(self, probes: Seq<Probe>) -> bool
        decreases probes.len(),
    {
        if probes.len() == 0 {
            true
        } else {
            &&& self.admits_all(probes.drop_last())
            &&& self.probed_all(probes.drop_last()).admits(probes.last())
        }
    }

    /// The layout in which the block at `position` has grown over its
    /// neighbour, whose block is gone.
    pub open spec fn extended(self, position: int, along_x: bool) -> LayoutView
        recommends
            self.can_extend(position, along_x),
    {
        let address = self.cells[position].unwrap();
        let grown = self.grown(position, along_x);
        let other = self.high_position(grown);
        LayoutView {
            count_r: self.count_r,
            cells: self.cells.update(other, Some(address)),
            blocks: self.blocks.update(self.cells[other].unwrap() as int, None).update(
                address as int,
                Some(grown),
            ),
        }
    }
}

/// The cell at `position` in the first layout: a cell of the city names the
/// block whose address counts the city's cells before it.
pub open spec fn initial_cell(count_r: int, position: int) -> Option<usize> {
    if included_at(count_r, position) {
        Some(included_below(count_r, position).len() as usize)
    } else {
        None
    }
}

/// The block that the cell at `position` carries in the first layout.
pub open spec fn initial_block(count_r: int, position: int) -> Option<CubeSpec> {
    Some(CubeSpec::single(x_of(count_r, position), y_of(count_r, position)))
}

/// The first layout: each cell of the city carries a single-cell block, and
/// the blocks are addressed in the order of their cells' positions.
pub open spec fn initial(count_r: int) -> LayoutView {
    LayoutView {
        count_r,
        cells: Seq::new(n_cells(count_r) as nat, |p: int| initial_cell(count_r, p)),
        blocks: included_below(count_r, n_cells(count_r)).map_values(
            |p: int| initial_block(count_r, p),
        ),
    }
}

/// In the first layout cells and blocks agree.
pub proof fn lemma_initial_wf(count_r: int)
    requires
        count_r >= 0,
        n_cells(count_r) <= isize::MAX,
    ensures
        initial(count_r).wf(),
{
    let view = initial(count_r);
    let n = n_cells(count_r);
    lemma_grid_size(count_r);
    lemma_included_below(count_r, n);
    assert forall|p: int| 0 <= p < view.cells.len() implies #[trigger] view.cell_ok(p) by {
        lemma_coordinates_in_range(count_r, p);
        if included_at(count_r, p) {
            lemma_included_below(count_r, p);
            let i = included_below(count_r, p).len() as int;
            assert(included_below(count_r, n)[i] == p);
        }
    }
    assert forall|a: int| 0 <= a < view.blocks.len() implies #[trigger] view.block_ok(a) by {
        let p = included_below(count_r, n)[a];
        lemma_coordinates_in_range(count_r, p);
    }
}

/// Blocks never overlap: a cell that two standing blocks cover is covered
/// by one block under one address.
pub proof fn lemma_blocks_apart(view: LayoutView, first: int, second: int, x: int, y: int)
    requires
        view.wf(),
        0 <= first < view.blocks.len(),
        0 <= second < view.blocks.len(),
        view.blocks[first] is Some,
        view.blocks[second] is Some,
        view.blocks[first].unwrap().covers(x, y),
        view.blocks[second].unwrap().covers(x, y),
    ensures
        first == second,
{
    assert(view.block_ok(first));
    assert(view.block_ok(second));
}

/// A cell names the block that covers it: the cell at `position` names an
/// address exactly when the block at that address covers the cell.
pub proof fn lemma_cell_names_cover(view: LayoutView, p: int, address: int)
    requires
        view.wf(),
        0 <= p < view.cells.len(),
        0 <= address < view.blocks.len(),
    ensures
        view.cells[p] == Some(address as usize) <==> view.blocks[address] is Some
            && view.blocks[address].unwrap().covers(
            x_of(view.count_r, p),
            y_of(view.count_r, p),
        ),
{
    assert(view.cell_ok(p));
    assert(view.block_ok(address));
    lemma_coordinates_in_range(view.count_r, p);
    if view.blocks[address] is Some {
        let cube = view.blocks[address].unwrap();
        lemma_position_in_range(view.count_r, cube.lowx as int, cube.lowy as int);
        lemma_position_in_range(view.count_r, cube.highx as int, cube.highy as int);
    }
}

/// Deleting and extending keep the addresses: no block moves, and a block
/// that is gone stays gone.
pub proof fn lemma_probe_keeps_addresses(view: LayoutView, probe: Probe, address: int)
    requires
        view.wf(),
        view.admits(probe),
        0 <= address < view.blocks.len(),
    ensures
        view.probed(probe).blocks.len() == view.blocks.len(),
        view.blocks[address] is None ==> view.probed(probe).blocks[address] is None,
        view.probed(probe).blocks[address] is Some ==> {
            let before = view.blocks[address].unwrap();
            let after = view.probed(probe).blocks[address].unwrap();
            &&& after.lowx == before.lowx
            &&& after.lowy == before.lowy
            &&& after.highx >= before.highx
            &&& after.highy >= before.highy
        },
{
    match probe {
        Probe::Unchanged => {},
        Probe::Deleted(position, _) => {
            assert(view.cell_ok(position as int));
        },
        Probe::Extended(position, along_x) => {
            assert(view.cell_ok(position as int));
            assert(view.block_ok(view.cells[position as int].unwrap() as int));
            let other = view.high_position(view.grown(position as int, along_x));
            assert(view.cell_ok(other));
        },
    }
}

/// How many entries of `entries` hold something.
pub open spec fn held<T>(entries: Seq<Option<T>>) -> nat
    decreases entries.len(),
{
    if entries.len() == 0 {
        0
    } else if entries.last() is Some {
        held(entries.drop_last()) + 1
    } else {
        held(entries.drop_last())
    }
}

/// Replacing one entry changes the count of held entries by what went and
/// what came.
pub proof fn lemma_held_update<T>(entries: Seq<Option<T>>, i: int, entry: Option<T>)
    requires
        0 <= i < entries.len(),
    ensures
        held(entries.update(i, entry)) + (if entries[i] is Some { 1nat } else { 0 }) == held(
            entries,
        ) + (if entry is Some { 1nat } else { 0 }),
    decreases entries.len(),
{
    if i == entries.len() - 1 {
        assert(entries.update(i, entry).drop_last() =~= entries.drop_last());
    } else {
        assert(entries.update(i, entry).drop_last() =~= entries.drop_last().update(i, entry));
        lemma_held_update(entries.drop_last(), i, entry);
    }
}

/// A probe that changes the layout takes exactly one block from it. Where it
/// deletes, one cell falls empty; where it extends, no cell does.
pub proof fn lemma_probe_takes_one_block(view: LayoutView, probe: Probe)
    requires
        view.wf(),
        view.admits(probe),
    ensures
        probe is Unchanged ==> view.probed(probe) == view,
        !(probe is Unchanged) ==> view.probed(probe).standing() + 1 == view.standing(),
        probe is Deleted ==> view.probed(probe).occupied() + 1 == view.occupied(),
        probe is Extended ==> view.probed(probe).occupied() == view.occupied(),
        view.probed(probe).count_r == view.count_r,
        view.probed(probe).cells.len() == view.cells.len(),
        view.probed(probe).blocks.len() == view.blocks.len(),
{
    match probe {
        Probe::Unchanged => {},
        Probe::Deleted(position, address) => {
            let p = position as int;
            assert(view.cell_ok(p));
            lemma_held_update(view.cells, p, None);
            lemma_held_update(view.blocks, address as int, None);
        },
        Probe::Extended(position, along_x) => {
            let p = position as int;
            let address = view.cells[p].unwrap();
            let grown = view.grown(p, along_x);
            let other = view.high_position(grown);
            let swallowed = view.cells[other].unwrap();
            assert(view.cell_ok(p));
            assert(view.block_ok(address as int));
            assert(view.cell_ok(other));
            assert(view.block_ok(swallowed as int));
            let cube = view.block_at(p);
            lemma_grid_size(view.count_r);
            lemma_position_in_range(view.count_r, cube.lowx as int, cube.lowy as int);
            lemma_position_in_range(view.count_r, grown.highx as int, grown.highy as int);
            assert(other != p);
            assert(swallowed != address);
            lemma_held_update(view.cells, other, Some(address));
            lemma_held_update(view.blocks, swallowed as int, None);
            lemma_held_update(
                view.blocks.update(swallowed as int, None),
                address as int,
                Some(grown),
            );
        },
    }
}

/// How many of `probes` report a change.
pub open spec fn changes(probes: Seq<Probe>) -> nat
    decreases probes.len(),
{
    if probes.len() == 0 {
        0
    } else if probes.last() is Unchanged {
        changes(probes.drop_last())
    } else {
        changes(probes.drop_last()) + 1
    }
}

/// Probes take as many blocks from the layout as they report changes, and
/// leave the grid and the addresses as they are.
pub proof fn lemma_probes_take_blocks(view: LayoutView, probes: Seq<Probe>)
    requires
        view.wf(),
        view.admits_all(probes),
    ensures
        view.probed_all(probes).standing() + changes(probes) == view.standing(),
        view.probed_all(probes).count_r == view.count_r,
        view.probed_all(probes).cells.len() == view.cells.len(),
        view.probed_all(probes).blocks.len() == view.blocks.len(),
    decreases probes.len(),
{
    if probes.len() > 0 {
        let before = view.probed_all(probes.drop_last());
        lemma_probes_take_blocks(view, probes.drop_last());
        lemma_probed_all_wf(view, probes.drop_last());
        lemma_probe_takes_one_block(before, probes.last());
    }
}

/// Taking a single-cell block away keeps cells and blocks in agreement.
pub proof fn lemma_deleted_wf(view: LayoutView, p: int)
    requires
        view.wf(),
        view.small_at(p),
    ensures
        view.deleted(p).wf(),
{
    let after = view.deleted(p);
    assert(view.cell_ok(p));
    assert forall|q: int| 0 <= q < after.cells.len() implies #[trigger] after.cell_ok(q) by {
        assert(view.cell_ok(q));
    }
    assert forall|a: int| 0 <= a < after.blocks.len() implies #[trigger] after.block_ok(a) by {
        assert(view.block_ok(a));
    }
}

/// Letting a single-cell block grow over a single-cell neighbour keeps cells
/// and blocks in agreement.
pub proof fn lemma_extended_wf(view: LayoutView, p: int, along_x: bool)
    requires
        view.wf(),
        view.can_extend(p, along_x),
    ensures
        view.extended(p, along_x).wf(),
{
    let after = view.extended(p, along_x);
    let grown = view.grown(p, along_x);
    let other = view.high_position(grown);
    assert(view.cell_ok(p));
    assert(view.block_ok(view.cells[p].unwrap() as int));
    assert(view.cell_ok(other));
    assert(view.block_ok(view.cells[other].unwrap() as int));
    lemma_position_in_range(view.count_r, grown.highx as int, grown.highy as int);
    assert forall|q: int| 0 <= q < after.cells.len() implies #[trigger] after.cell_ok(q) by {
        assert(view.cell_ok(q));
    }
    assert forall|a: int| 0 <= a < after.blocks.len() implies #[trigger] after.block_ok(a) by {
        assert(view.block_ok(a));
    }
}

/// Whatever a probe may report, cells and blocks agree afterwards.
pub proof fn lemma_probed_wf(view: LayoutView, probe: Probe)
    requires
        view.wf(),
        view.admits(probe),
    ensures
        view.probed(probe).wf(),
{
    match probe {
        Probe::Unchanged => {},
        Probe::Deleted(position, _) => {
            lemma_deleted_wf(view, position as int);
        },
        Probe::Extended(position, along_x) => {
            lemma_extended_wf(view, position as int, along_x);
        },
    }
}

/// Whatever probes may report one after another, cells and blocks agree
/// afterwards.
pub proof fn lemma_probed_all_wf(view: LayoutView, probes: Seq<Probe>)
    requires
        view.wf(),
        view.admits_all(probes),
    ensures
        view.probed_all(probes).wf(),
    decreases probes.len(),
{
    if probes.len() > 0 {
        lemma_probed_all_wf(view, probes.drop_last());
        lemma_probed_wf(view.probed_all(probes.drop_last()), probes.last());
    }
}

/// A block that a probe has changed is no single cell any more, or is gone:
/// no block is changed twice.
pub proof fn lemma_changed_once(view: LayoutView, probe: Probe, address: int)
    requires
        view.wf(),
        view.admits(probe),
        0 <= address < view.blocks.len(),
        view.probed(probe).blocks[address] != view.blocks[address],
    ensures
        view.blocks[address] is Some,
        view.blocks[address].unwrap().small(),
        view.probed(probe).blocks[address] is Some ==> !view.probed(probe).blocks[
            address
        ].unwrap().small(),
{
    match probe {
        Probe::Unchanged => {},
        Probe::Deleted(position, _) => {
            assert(view.cell_ok(position as int));
        },
        Probe::Extended(position, along_x) => {
            assert(view.cell_ok(position as int));
            assert(view.block_ok(view.cells[position as int].unwrap() as int));
            let other = view.high_position(view.grown(position as int, along_x));
            assert(view.cell_ok(other));
        },
    }
}

} // verus!

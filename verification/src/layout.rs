//! The ground plan of the city: a square grid of cells, and the blocks that
//! stand on them.
//!
//! At first each cell of a disc around the origin carries a block of its
//! own. The city is then spread: single-cell blocks are taken away, or grow
//! by one cell over a neighbouring single-cell block, which disappears.

use vstd::prelude::*;
use vstd::arithmetic::div_mod::lemma_fundamental_div_mod;
use vstd::arithmetic::div_mod::lemma_mod_bound;
use crate::cube::CubeSpec;
use crate::grid::included_below;
use crate::grid::lemma_grid_size;
use crate::grid::lemma_included_below;
use crate::grid::lemma_position_in_range;
use crate::grid::lemma_square_in_range;
use crate::grid::n_cells;
use crate::grid::position;
use crate::grid::row_length;
use crate::layout_model::initial;
use crate::layout_model::initial_block;
use crate::layout_model::initial_cell;
use crate::layout_model::lemma_deleted_wf;
use crate::layout_model::lemma_extended_wf;
use crate::layout_model::lemma_initial_wf;
use crate::layout_model::LayoutView;
use crate::layout_model::Probe;
use crate::layout_model::PROBE_TRIES;
use crate::random::draw_below;
use crate::random::draw_bool;

verus! {

/// Whether `probe` did what one of the answers of `want_to_delete` asked for:
/// it took no block away unless deleting was wanted, and let none grow
/// unless it was not.
pub open spec fn obeys<F: Fn() -> bool>(want_to_delete: F, probe: Probe) -> bool {
    exists|delete: bool| #[trigger]
        call_ensures(want_to_delete, (), delete) && (delete ==> !(probe is Extended)) && (!delete
            ==> !(probe is Deleted))
}

/// A layout: the grid's cells and the blocks on them.
pub struct Layout {
    count_r: isize,
    cubespecs: Vec<Option<usize>>,
    cubespec_index: Vec<Option<CubeSpec>>,
}

impl View for Layout {
    type V = LayoutView;

    closed spec fn view(&self) -> LayoutView {
        LayoutView {
            count_r: self.count_r as int,
            cells: self.cubespecs@,
            blocks: self.cubespec_index@,
        }
    }
}

impl Layout {
    /// Cells and blocks agree, and positions fit the machine's integers.
    pub open spec fn wf(&self) -> bool {
        self@.wf()
    }

    /// Whether a city whose cell coordinates run from `-count_r` to
    /// `count_r` can be laid out: `count_r` is not negative, and the positions
    /// of its cells fit the machine's integers.
    pub fn fits(count_r: isize) -> (fits: bool)
        ensures
            fits == (count_r >= 0 && n_cells(count_r as int) <= isize::MAX),
    {
        if count_r < 0 {
            return false;
        }
        proof {
            lemma_grid_size(count_r as int);
        }
        if count_r > (isize::MAX - 1) / 2 {
            return false;
        }
        let row = count_r * 2 + 1;
        let most = isize::MAX / row;
        proof {
            let max = isize::MAX as int;
            lemma_fundamental_div_mod(max, row as int);
            lemma_mod_bound(max, row as int);
            if row <= most {
                assert(row * row <= row * most) by (nonlinear_arith)
                    requires
                        0 < row <= most,
                ;
            } else {
                assert(row * row >= row * (most + 1)) by (nonlinear_arith)
                    requires
                        row >= most + 1,
                        row > 0,
                ;
                assert(row * (most + 1) == row * most + row) by (nonlinear_arith);
            }
        }
        row <= most
    }

    /// The first layout of a city whose cell coordinates run from `-count_r`
    /// to `count_r`.
    pub fn new(count_r: isize) -> (layout: Layout)
        requires
            count_r >= 0,
            n_cells(count_r as int) <= isize::MAX,
        ensures
            layout.wf(),
            layout@ == initial(count_r as int),
    {
        proof {
            lemma_grid_size(count_r as int);
        }
        let row = count_r * 2 + 1;
        let total = (row * row) as usize;
        let rim = count_r * count_r + count_r;
        let mut cubespecs: Vec<Option<usize>> = Vec::with_capacity(total);
        let mut cubespec_index: Vec<Option<CubeSpec>> = Vec::new();
        let mut iy = -count_r;
        assert((iy + count_r) * row == 0) by (nonlinear_arith)
            requires
                iy + count_r == 0,
        ;
        while iy <= count_r
            invariant
                count_r >= 0,
                total == n_cells(count_r as int) <= isize::MAX,
                row == row_length(count_r as int),
                rim == count_r * count_r + count_r,
                -count_r <= iy <= count_r + 1,
                cubespecs@.len() == (iy + count_r) * row,
                cubespecs@ =~= Seq::new(cubespecs@.len(), |p: int| initial_cell(count_r as int, p)),
                cubespec_index@ =~= included_below(
                    count_r as int,
                    cubespecs@.len() as int,
                ).map_values(|p: int| initial_block(count_r as int, p)),
            decreases count_r + 1 - iy,
        {
            let mut ix = -count_r;
            while ix <= count_r
                invariant
                    count_r >= 0,
                    total == n_cells(count_r as int) <= isize::MAX,
                    row == row_length(count_r as int),
                    rim == count_r * count_r + count_r,
                    -count_r <= iy <= count_r,
                    -count_r <= ix <= count_r + 1,
                    cubespecs@.len() == (iy + count_r) * row + (ix + count_r),
                    cubespecs@ =~= Seq::new(
                        cubespecs@.len(),
                        |p: int| initial_cell(count_r as int, p),
                    ),
                    cubespec_index@ =~= included_below(
                        count_r as int,
                        cubespecs@.len() as int,
                    ).map_values(|p: int| initial_block(count_r as int, p)),
                decreases count_r + 1 - ix,
            {
                proof {
                    lemma_grid_size(count_r as int);
                    lemma_position_in_range(count_r as int, ix as int, iy as int);
                    lemma_square_in_range(count_r as int, ix as int);
                    lemma_square_in_range(count_r as int, iy as int);
                    lemma_included_below(count_r as int, cubespecs@.len() as int);
                }
                if ix * ix + iy * iy <= rim {
                    let address = cubespec_index.len();
                    cubespec_index.push(
                        Some(CubeSpec { lowx: ix, lowy: iy, highx: ix, highy: iy }),
                    );
                    cubespecs.push(Some(address));
                } else {
                    cubespecs.push(None);
                }
                ix += 1;
            }
            proof {
                assert((iy + count_r) * row + (ix + count_r) == (iy + 1 + count_r)
                    * row) by (nonlinear_arith)
                    requires
                        ix == count_r + 1,
                        row == 2 * count_r + 1,
                ;
            }
            iy += 1;
        }
        proof {
            assert((iy + count_r) * row == total) by (nonlinear_arith)
                requires
                    iy == count_r + 1,
                    row == 2 * count_r + 1,
                    total == row * row,
            ;
            lemma_initial_wf(count_r as int);
        }
        Layout { count_r, cubespecs, cubespec_index }
    }

    /// Takes away the block at `position` if it is a single cell, and says
    /// whether it did. Nothing changes otherwise, nor where `position` is no
    /// cell of the grid.
    pub fn delete_at(&mut self, position: usize) -> (deleted: bool)
        requires
            old(self).wf(),
        ensures
            final(self).wf(),
            deleted == old(self)@.small_at(position as int),
            final(self)@ == if deleted {
                old(self)@.deleted(position as int)
            } else {
                old(self)@
            },
    {
        if position >= self.cubespecs.len() {
            return false;
        }
        let incumbent_index = match self.cubespecs[position] {
            Some(address) => address,
            None => { return false; },
        };
        proof {
            assert(self@.cell_ok(position as int));
        }
        let small = match self.cubespec_index[incumbent_index] {
            Some(cs) => cs.is_small(),
            None => false,
        };
        if !small {
            return false;
        }
        self.cubespec_index.set(incumbent_index, None);
        self.cubespecs.set(position, None);
        proof {
            let target = old(self)@.deleted(position as int);
            assert(self@.cells =~= target.cells);
            assert(self@.blocks =~= target.blocks);
            lemma_deleted_wf(old(self)@, position as int);
        }
        true
    }

    /// Lets the block at `position` grow by one cell, towards higher x or
    /// higher y, over the block next to it, and says whether it did. It does
    /// where both blocks are single cells; the neighbour's block is then gone
    /// and its cell belongs to the grown block. Nothing changes otherwise.
    pub fn extend_at(&mut self, position: usize, along_x: bool) -> (extended: bool)
        requires
            old(self).wf(),
        ensures
            final(self).wf(),
            extended == old(self)@.can_extend(position as int, along_x),
            final(self)@ == if extended {
                old(self)@.extended(position as int, along_x)
            } else {
                old(self)@
            },
    {
        if position >= self.cubespecs.len() {
            return false;
        }
        let incumbent_index = match self.cubespecs[position] {
            Some(address) => address,
            None => { return false; },
        };
        proof {
            assert(self@.cell_ok(position as int));
            assert(self@.block_ok(incumbent_index as int));
        }
        let cs = match self.cubespec_index[incumbent_index] {
            Some(cs) => cs,
            None => { return false; },
        };
        if !cs.is_small() {
            return false;
        }
        proof {
            lemma_grid_size(self@.count_r);
        }
        let row_length = self.count_r * 2 + 1;
        let nx = if along_x { cs.highx + 1 } else { cs.lowx };
        let ny = if along_x { cs.lowy } else { cs.highy + 1 };
        let grown = CubeSpec { lowx: cs.lowx, lowy: cs.lowy, highx: nx, highy: ny };
        assert(grown == self@.grown(position as int, along_x));
        if nx > self.count_r || ny > self.count_r {
            return false;
        }
        proof {
            lemma_position_in_range(self@.count_r, nx as int, ny as int);
        }
        let other_position = ((ny + self.count_r) * row_length + nx + self.count_r) as usize;
        assert(other_position == self@.high_position(grown));
        let other_index = match self.cubespecs[other_position] {
            Some(address) => address,
            None => { return false; },
        };
        proof {
            assert(self@.cell_ok(other_position as int));
            assert(self@.block_ok(other_index as int));
        }
        let other_small = match self.cubespec_index[other_index] {
            Some(other) => other.is_small(),
            None => false,
        };
        if !other_small {
            return false;
        }
        self.cubespec_index.set(other_index, None);
        self.cubespecs.set(other_position, Some(incumbent_index));
        self.cubespec_index.set(incumbent_index, Some(grown));
        proof {
            let target = old(self)@.extended(position as int, along_x);
            assert(self@.cells =~= target.cells);
            assert(self@.blocks =~= target.blocks);
            lemma_extended_wf(old(self)@, position as int, along_x);
        }
        true
    }

    /// The largest cell coordinate.
    pub fn count_r(&self) -> (count_r: isize)
        ensures
            count_r == self@.count_r,
    {
        self.count_r
    }

    /// The number of cells in a row.
    pub fn row_length(&self) -> (length: usize)
        requires
            self.wf(),
        ensures
            length == row_length(self@.count_r),
    {
        proof {
            lemma_grid_size(self@.count_r);
        }
        (self.count_r * 2 + 1) as usize
    }

    /// The number of cells.
    pub fn n_cells(&self) -> (n: usize)
        requires
            self.wf(),
        ensures
            n == n_cells(self@.count_r),
            n == self@.cells.len(),
    {
        self.cubespecs.len()
    }

    /// The number of addresses, those of blocks that are gone included.
    pub fn n_addresses(&self) -> (n: usize)
        ensures
            n == self@.blocks.len(),
    {
        self.cubespec_index.len()
    }

    /// How many probes the city is spread with: one for every ten cells.
    pub fn to_probe(&self) -> (probes: usize)
        requires
            self.wf(),
        ensures
            probes == n_cells(self@.count_r) / 10,
    {
        self.cubespecs.len() / 10
    }

    /// The address that the cell at `position` names, if it names one and
    /// `position` is a cell of the grid.
    pub fn cell(&self, position: usize) -> (address: Option<usize>)
        ensures
            address == if position < self@.cells.len() {
                self@.cells[position as int]
            } else {
                None
            },
    {
        if position < self.cubespecs.len() {
            self.cubespecs[position]
        } else {
            None
        }
    }

    /// The block at `address`, if it stands.
    pub fn block(&self, address: usize) -> (cube: Option<CubeSpec>)
        ensures
            cube == if address < self@.blocks.len() {
                self@.blocks[address as int]
            } else {
                None
            },
    {
        if address < self.cubespec_index.len() {
            self.cubespec_index[address]
        } else {
            None
        }
    }

    /// The position of the cell `(x, y)`, if the grid has that cell.
    pub fn position_of(&self, x: isize, y: isize) -> (found: Option<usize>)
        requires
            self.wf(),
        ensures
            found == if -self@.count_r <= x <= self@.count_r && -self@.count_r <= y
                <= self@.count_r {
                Some(position(self@.count_r, x as int, y as int) as usize)
            } else {
                None
            },
    {
        if x < -self.count_r || x > self.count_r || y < -self.count_r || y > self.count_r {
            return None;
        }
        proof {
            lemma_grid_size(self@.count_r);
            lemma_position_in_range(self@.count_r, x as int, y as int);
        }
        let row_length = self.count_r * 2 + 1;
        Some(((y + self.count_r) * row_length + x + self.count_r) as usize)
    }

    /// Whether the cell at `position` carries a single-cell block.
    pub fn is_small_at(&self, position: usize) -> (small: bool)
        requires
            self.wf(),
        ensures
            small == self@.small_at(position as int),
    {
        if position >= self.cubespecs.len() {
            return false;
        }
        match self.cubespecs[position] {
            Some(address) => {
                proof {
                    assert(self@.cell_ok(position as int));
                }
                match self.cubespec_index[address] {
                    Some(cs) => cs.is_small(),
                    None => false,
                }
            },
            None => false,
        }
    }

    /// Pokes at the layout: draws a position and changes the block there,
    /// trying again with a new position, up to `PROBE_TRIES` times in all,
    /// where it cannot. To delete is to take a single-cell block away. Not to
    /// delete is to let a single-cell block grow over a single-cell
    /// neighbour, towards higher x or higher y as a second draw decides.
    /// Reports the one change that was made, or that none was. It gives up
    /// only after a try has failed, so it makes a change wherever no cell of
    /// the grid resists: a probe that is to delete deletes where every cell
    /// carries a single-cell block.
    pub fn probe(&mut self, rng: &fastrand::Rng, want_to_delete: bool) -> (done: Probe)
        requires
            old(self).wf(),
        ensures
            final(self).wf(),
            old(self)@.admits(done),
            final(self)@ == old(self)@.probed(done),
            want_to_delete ==> !(done is Extended),
            !want_to_delete ==> !(done is Deleted),
            done is Unchanged ==> exists|p: int|
                0 <= p < old(self)@.cells.len() && #[trigger] old(self)@.resists(
                    p,
                    want_to_delete,
                ),
    {
        proof {
            lemma_grid_size(self@.count_r);
        }
        let n_cells = self.cubespecs.len();
        let mut tries: usize = 0;
        while tries < PROBE_TRIES
            invariant
                self.wf(),
                self@ == old(self)@,
                n_cells == self@.cells.len() > 0,
                tries <= PROBE_TRIES,
                tries > 0 ==> exists|p: int|
                    0 <= p < old(self)@.cells.len() && #[trigger] old(self)@.resists(
                        p,
                        want_to_delete,
                    ),
            decreases PROBE_TRIES - tries,
        {
            tries += 1;
            let position = draw_below(rng, n_cells);
            if want_to_delete {
                match self.cell(position) {
                    Some(address) => {
                        if self.delete_at(position) {
                            return Probe::Deleted(position, address);
                        }
                    },
                    None => {},
                }
            } else if self.is_small_at(position) {
                let along_x = draw_bool(rng);
                if self.extend_at(position, along_x) {
                    return Probe::Extended(position, along_x);
                }
            }
            proof {
                assert(old(self)@.resists(position as int, want_to_delete));
            }
        }
        Probe::Unchanged
    }

    /// Spreads the city: probes it once for every ten cells. Before each
    /// probe `want_to_delete` is asked whether the probe is to take a block
    /// away or to let one grow. Returns what the probes did, in order.
    pub fn spread<F: Fn() -> bool>(&mut self, rng: &fastrand::Rng, want_to_delete: F) -> (done:
        Vec<Probe>)
        requires
            old(self).wf(),
            call_requires(want_to_delete, ()),
        ensures
            final(self).wf(),
            done@.len() == n_cells(old(self)@.count_r) / 10,
            old(self)@.admits_all(done@),
            final(self)@ == old(self)@.probed_all(done@),
            forall|i: int| 0 <= i < done@.len() ==> obeys(want_to_delete, #[trigger] done@[i]),
    {
        let to_probe = self.to_probe();
        let mut done: Vec<Probe> = Vec::new();
        while done.len() < to_probe
            invariant
                self.wf(),
                call_requires(want_to_delete, ()),
                to_probe == n_cells(old(self)@.count_r) / 10,
                done@.len() <= to_probe,
                old(self)@.admits_all(done@),
                self@ == old(self)@.probed_all(done@),
                forall|i: int| 0 <= i < done@.len() ==> obeys(want_to_delete, #[trigger] done@[i]),
            decreases to_probe - done.len(),
        {
            let delete = want_to_delete();
            let probe = self.probe(rng, delete);
            proof {
                assert(done@.push(probe).drop_last() =~= done@);
                assert(call_ensures(want_to_delete, (), delete));
                assert(obeys(want_to_delete, probe));
            }
            done.push(probe);
        }
        done
    }
}

} // verus!

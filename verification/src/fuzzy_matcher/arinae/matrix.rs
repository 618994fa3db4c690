//! Base structs for the matching algorithm: Cell & `SWMatrix`
use vstd::prelude::*;

verus! {

/// Direction the optimal path took to reach a cell.
#[derive(Clone, Copy, Debug, PartialEq, Eq, Structural)]
pub enum Dir {
    /// No valid path (score <= 0); tag 0.
    NoPath,
    /// Diagonal: match or mismatch (came from [i-1][j-1]); tag 1.
    Diag,
    /// Up: gap in choice (came from [i-1][j], skip pattern char); tag 2.
    Up,
    /// Left: gap in pattern (came from [i][j-1], skip choice char); tag 3.
    Left,
}

/// The direction a tag stands for.
pub open spec fn tag_dir(t: u32) -> Dir {
    if t == 0 {
        Dir::NoPath
    } else if t == 1 {
        Dir::Diag
    } else if t == 2 {
        Dir::Up
    } else {
        Dir::Left
    }
}

/// Packed cell stored as a `u32`: bits [15:0] = score (as u16 bitcast from
/// i16), bits [17:16] = direction tag.
#[derive(Copy, Clone, Debug)]
pub struct Cell(pub u32);

pub open spec fn cell_score_bits(bits: u32) -> i16 {
    (bits as u16) as i16
}

pub open spec fn cell_dir_bits(bits: u32) -> Dir {
    tag_dir((bits >> 16u32) & 3u32)
}

impl View for Cell {
    type V = (i16, Dir);

    open spec fn view(&self) -> (i16, Dir) {
        (cell_score_bits(self.0), cell_dir_bits(self.0))
    }
}

proof fn lemma_pack(score: i16, tag: u32)
    requires
        tag <= 3,
    ensures
        cell_score_bits(((score as u16) as u32) | (tag << 16u32)) == score,
        ((((score as u16) as u32) | (tag << 16u32)) >> 16u32) & 3u32 == tag,
{
    let b = ((score as u16) as u32) | (tag << 16u32);
    assert((b as u16) == (score as u16)) by (bit_vector)
        requires
            b == ((score as u16) as u32) | (tag << 16u32),
            tag <= 3,
    ;
    assert(((score as u16) as i16) == score) by (bit_vector);
    assert((b >> 16u32) & 3u32 == tag) by (bit_vector)
        requires
            b == ((score as u16) as u32) | (tag << 16u32),
            tag <= 3,
    ;
}

/// The all-zero cell: score 0, no direction.
pub open spec fn spec_cell_zero() -> Cell {
    Cell(0)
}

pub proof fn lemma_cell_zero()
    ensures
        spec_cell_zero()@ == (0i16, Dir::NoPath),
{
    assert(((0u32 as u16) as i16) == 0i16) by (bit_vector);
    assert((0u32 >> 16u32) & 3u32 == 0u32) by (bit_vector);
}

pub fn cell_zero() -> (c: Cell)
    ensures
        c@ == (0i16, Dir::NoPath),
        c == spec_cell_zero(),
{
    proof {
        lemma_cell_zero();
    }
    Cell(0)
}

impl Cell {
    pub fn new(score: i16, dir: Dir) -> (c: Cell)
        ensures
            c@ == (score, dir),
    {
        let tag: u32 = match dir {
            Dir::NoPath => 0,
            Dir::Diag => 1,
            Dir::Up => 2,
            Dir::Left => 3,
        };
        proof {
            lemma_pack(score, tag);
        }
        Cell(((score as u16) as u32) | (tag << 16u32))
    }

    pub fn score(self) -> (s: i16)
        ensures
            s == self@.0,
    {
        (self.0 as u16) as i16
    }

    pub fn dir(self) -> (d: Dir)
        ensures
            d == self@.1,
    {
        let tag = (self.0 >> 16u32) & 3u32;
        if tag == 0 {
            Dir::NoPath
        } else if tag == 1 {
            Dir::Diag
        } else if tag == 2 {
            Dir::Up
        } else {
            Dir::Left
        }
    }

    /// True when the cell has a direction, that is, lies on an alignment.
    pub fn has_path(self) -> (b: bool)
        ensures
            b == (self@.1 != Dir::NoPath),
    {
        match self.dir() {
            Dir::NoPath => false,
            _ => true,
        }
    }

    /// True when dir == Diag (tag 1).
    pub fn is_diag(self) -> (b: bool)
        ensures
            b == (self@.1 == Dir::Diag),
    {
        (self.0 >> 16u32) & 3u32 == 1
    }
}

/// A `rows × cols` matrix of cells stored row-major; the backing storage
/// only grows.
#[derive(Debug)]
pub struct SWMatrix {
    pub data: Vec<Cell>,
    pub cols: usize,
    pub rows: usize,
}

impl SWMatrix {
    pub fn zero(rows: usize, cols: usize) -> (r: Self)
        requires
            rows * cols <= usize::MAX,
        ensures
            r.rows == rows,
            r.cols == cols,
            r.data@.len() == rows * cols,
            forall|k: int| 0 <= k < r.data@.len() ==> #[trigger] r.data@[k] == spec_cell_zero(),
    {
        let mut res = SWMatrix { data: Vec::new(), cols: 0, rows: 0 };
        res.resize(rows, cols);
        res
    }

    pub fn resize(&mut self, rows: usize, cols: usize)
        requires
            rows * cols <= usize::MAX,
        ensures
            final(self).rows == rows,
            final(self).cols == cols,
            final(self).data@.len() == if rows * cols > old(self).data@.len() {
                rows * cols
            } else {
                old(self).data@.len() as int
            },
            forall|k: int| 0 <= k < old(self).data@.len() ==> #[trigger] final(self).data@[k] == old(self).data@[k],
            forall|k: int|
                old(self).data@.len() <= k < final(self).data@.len() ==> #[trigger] final(self).data@[k]
                    == spec_cell_zero(),
    {
        let needed = rows * cols;
        let ghost old_data = self.data@;
        while self.data.len() < needed
            invariant
                old_data.len() <= self.data@.len(),
                self.data@.len() <= if needed > old_data.len() { needed as int } else { old_data.len() as int },
                forall|k: int| 0 <= k < old_data.len() ==> #[trigger] self.data@[k] == old_data[k],
                forall|k: int| old_data.len() <= k < self.data@.len() ==> #[trigger] self.data@[k] == spec_cell_zero(),
            decreases needed - self.data@.len(),
        {
            self.data.push(cell_zero());
        }
        self.rows = rows;
        self.cols = cols;
    }
}

} // verus!

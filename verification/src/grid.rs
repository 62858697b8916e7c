//! The tile-grid world: a fixed width-by-height array of cells parsed from a
//! comma-separated textual layout, with bounds-checked lookup. That lookup is
//! the single guard against out-of-grid access for traversal, movement and
//! drawing alike.

use vstd::prelude::*;
use crate::fixed::{Fx, FX_SCALE};
use crate::util::Orientation;
use crate::vec2::Vec2;

verus! {

/// One tile of the world. Texture fields are indices into the asset table.
#[derive(Clone, Copy, PartialEq, Eq, Structural, Debug)]
pub enum MapCell {
    /// Traversable space, with the ceiling and floor drawn over it and the
    /// ambient fog the camera inherits while standing here.
    Empty { ceiling_texture: usize, floor_texture: usize, fog: Fx, fog_color: u32 },
    /// A full-cell obstruction, one texture on all four faces.
    Wall { texture: usize },
    /// A wall plane at a fractional offset within the cell along one axis;
    /// the ceiling/floor textures apply on either side of it.
    ThinWall {
        texture: usize,
        orientation: Orientation,
        offset_into_cell: Fx,
        ceiling_texture: usize,
        floor_texture: usize,
    },
}

/// Numeric fields of a cell stay in the fixed-point working range: fog
/// density is a non-negative small coefficient, a thin wall's offset lies
/// within its cell.
pub open spec fn cell_wf(c: MapCell) -> bool {
    match c {
        MapCell::Empty { fog, .. } => 0 <= fog.raw <= 0x8000_0000,
        MapCell::Wall { .. } => true,
        MapCell::ThinWall { offset_into_cell, .. } => 0 <= offset_into_cell.raw <= FX_SCALE,
    }
}

/// Row-major indexing stays inside the cell array.
pub proof fn lemma_row_major_bound(x: int, y: int, h: int, w: int)
    by (nonlinear_arith)
    requires
        0 <= x < h,
        0 <= y < w,
    ensures
        0 <= x * w + y < h * w,
{
}

/// The cell a layout token stands for: `0` is the open template, any other
/// value `v` a wall faced with texture `v - 1`, rejected when out of range.
pub open spec fn token_cell(v: int, texture_count: int, empty_cell: MapCell) -> Option<MapCell> {
    if v == 0 {
        Some(empty_cell)
    } else if v - 1 < texture_count {
        Some(MapCell::Wall { texture: (v - 1) as usize })
    } else {
        None
    }
}

/// One character of layout input applied to the parse state: accumulated
/// cells plus the digits of the open token. Newlines are skipped, a comma
/// closes a token, a digit extends one; anything else is a parse error.
pub open spec fn layout_step(
    st: Option<(Seq<MapCell>, Option<int>)>,
    ch: u8,
    texture_count: int,
    empty_cell: MapCell,
) -> Option<(Seq<MapCell>, Option<int>)> {
    match st {
        None => None,
        Some((cells, cur)) => {
            if ch == 10 {
                Some((cells, cur))
            } else if ch == 44 {
                match cur {
                    None => None,
                    Some(v) => match token_cell(v, texture_count, empty_cell) {
                        None => None,
                        Some(c) => Some((cells.push(c), None)),
                    },
                }
            } else if 48 <= ch <= 57 {
                let d = (ch - 48) as int;
                match cur {
                    None => Some((cells, Some(d))),
                    Some(v) => if v * 10 + d <= 0xffff_ffff {
                        Some((cells, Some(v * 10 + d)))
                    } else {
                        None
                    },
                }
            } else {
                None
            }
        },
    }
}

/// The parse state after the first `i` characters of the layout.
pub open spec fn layout_fold(
    b: Seq<u8>,
    i: int,
    texture_count: int,
    empty_cell: MapCell,
) -> Option<(Seq<MapCell>, Option<int>)>
    decreases i,
{
    if i <= 0 {
        Some((Seq::empty(), None))
    } else {
        layout_step(layout_fold(b, i - 1, texture_count, empty_cell), b[i - 1], texture_count,
            empty_cell)
    }
}

/// A parse error never recovers: once the fold is stuck, it stays stuck.
proof fn lemma_fold_none_sticks(
    b: Seq<u8>,
    i: int,
    j: int,
    texture_count: int,
    empty_cell: MapCell,
)
    requires
        0 <= i <= j,
        layout_fold(b, i, texture_count, empty_cell) is None,
    ensures
        layout_fold(b, j, texture_count, empty_cell) is None,
    decreases j - i,
{
    if j > i {
        lemma_fold_none_sticks(b, i, j - 1, texture_count, empty_cell);
    }
}

/// The cells of a whole layout: every token closed, the last by the end of
/// the input, and every one in range.
pub open spec fn parse_layout(b: Seq<u8>, texture_count: int, empty_cell: MapCell) -> Option<
    Seq<MapCell>,
> {
    match layout_fold(b, b.len() as int, texture_count, empty_cell) {
        None => None,
        Some((cells, cur)) => match cur {
            None => None,
            Some(v) => match token_cell(v, texture_count, empty_cell) {
                None => None,
                Some(c) => Some(cells.push(c)),
            },
        },
    }
}

/// The fixed world grid: `height` rows of `width` cells, row-major, indexed
/// as `x * width + y`. Never resized after construction.
pub struct Grid {
    pub width: usize,
    pub height: usize,
    pub cells: Vec<MapCell>,
}

impl Grid {
    /// Dimensions in the fixed-point working range and exactly one
    /// well-formed cell per coordinate.
    pub open spec fn wf(&self) -> bool {
        &&& 1 <= self.width <= 32768
        &&& 1 <= self.height <= 32768
        &&& self.cells@.len() == self.height * self.width
        &&& forall|i: int| 0 <= i < self.cells@.len() ==> cell_wf(#[trigger] self.cells@[i])
    }

    /// Whether integer coordinates lie inside the declared bounds.
    pub open spec fn in_bounds(&self, x: int, y: int) -> bool {
        0 <= x < self.height && 0 <= y < self.width
    }

    /// The cell at in-bounds coordinates.
    pub open spec fn cell(&self, x: int, y: int) -> MapCell {
        self.cells@[x * self.width + y]
    }

    /// Parses a comma-separated layout into a grid. `empty_cell` is the
    /// template an open token produces. Construction fails on a malformed
    /// token, an out-of-range wall texture, a token count that does not
    /// match the declared dimensions, or dimensions outside the working
    /// range: all startup configuration errors.
    pub fn new(
        width: usize,
        height: usize,
        layout: &Vec<u8>,
        texture_count: usize,
        empty_cell: MapCell,
    ) -> (r: Option<Grid>)
        ensures
            match r {
                Some(g) => {
                    &&& g.wf()
                    &&& g.width == width
                    &&& g.height == height
                    &&& 1 <= width <= 32768
                    &&& 1 <= height <= 32768
                    &&& cell_wf(empty_cell)
                    &&& (empty_cell matches MapCell::Empty { .. })
                    &&& parse_layout(layout@, texture_count as int, empty_cell) matches Some(cs)
                        && g.cells@ == cs
                },
                None => {
                    ||| !(1 <= width <= 32768)
                    ||| !(1 <= height <= 32768)
                    ||| !cell_wf(empty_cell)
                    ||| !(empty_cell matches MapCell::Empty { .. })
                    ||| parse_layout(layout@, texture_count as int, empty_cell) is None
                    ||| (parse_layout(layout@, texture_count as int, empty_cell) matches Some(cs)
                        && cs.len() != height * width)
                },
            },
    {
        if width < 1 || width > 32768 || height < 1 || height > 32768 {
            return None;
        }
        let empty_ok: bool = match empty_cell {
            MapCell::Empty { fog, .. } => 0 <= fog.raw && fog.raw <= 0x8000_0000,
            _ => false,
        };
        if !empty_ok {
            return None;
        }
        let len: usize = layout.len();
        let mut cells: Vec<MapCell> = Vec::new();
        let mut cur: Option<u64> = None;
        let mut i: usize = 0;
        while i < len
            invariant
                0 <= i <= len,
                len == layout@.len(),
                layout_fold(layout@, i as int, texture_count as int, empty_cell) matches Some(st)
                    && st.0 == cells@ && st.1 == match cur {
                    Some(v) => Some(v as int),
                    None => None,
                },
                forall|k: int| 0 <= k < cells@.len() ==> cell_wf(#[trigger] cells@[k]),
                cell_wf(empty_cell),
                cur matches Some(v) ==> v <= 0xffff_ffff,
            decreases len - i,
        {
            let ch: u8 = layout[i];
            if ch == 10 {
                // newline: skipped
            } else if ch == 44 {
                match cur {
                    None => {
                        proof {
                            lemma_fold_none_sticks(
                                layout@,
                                i as int + 1,
                                len as int,
                                texture_count as int,
                                empty_cell,
                            );
                        }
                        return None;
                    },
                    Some(v) => {
                        if v == 0 {
                            cells.push(empty_cell);
                        } else if v - 1 < texture_count as u64 {
                            cells.push(MapCell::Wall { texture: (v - 1) as usize });
                        } else {
                            proof {
                                lemma_fold_none_sticks(
                                    layout@,
                                    i as int + 1,
                                    len as int,
                                    texture_count as int,
                                    empty_cell,
                                );
                            }
                            return None;
                        }
                        cur = None;
                    },
                }
            } else if 48 <= ch && ch <= 57 {
                let d: u64 = (ch - 48) as u64;
                match cur {
                    None => {
                        cur = Some(d);
                    },
                    Some(v) => {
                        if v * 10 + d <= 0xffff_ffff {
                            cur = Some(v * 10 + d);
                        } else {
                            proof {
                                lemma_fold_none_sticks(
                                    layout@,
                                    i as int + 1,
                                    len as int,
                                    texture_count as int,
                                    empty_cell,
                                );
                            }
                            return None;
                        }
                    },
                }
            } else {
                proof {
                    lemma_fold_none_sticks(
                        layout@,
                        i as int + 1,
                        len as int,
                        texture_count as int,
                        empty_cell,
                    );
                }
                return None;
            }
            i = i + 1;
        }
        match cur {
            None => None,
            Some(v) => {
                if v == 0 {
                    cells.push(empty_cell);
                } else if v - 1 < texture_count as u64 {
                    cells.push(MapCell::Wall { texture: (v - 1) as usize });
                } else {
                    return None;
                }
                proof {
                    crate::fixed::lemma_abs_mul(height as int, width as int, 32768, 32768);
                }
                if cells.len() != height * width {
                    return None;
                }
                Some(Grid { width, height, cells })
            },
        }
    }

    /// Bounds-checked lookup: the cell placed at construction for in-bounds
    /// coordinates, absent for anything outside.
    pub fn at(&self, position: &Vec2<usize>) -> (r: Option<&MapCell>)
        requires
            self.wf(),
        ensures
            match r {
                Some(c) => self.in_bounds(position.x as int, position.y as int) && *c == self.cell(
                    position.x as int,
                    position.y as int,
                ),
                None => !self.in_bounds(position.x as int, position.y as int),
            },
    {
        if position.x < self.height && position.y < self.width {
            proof {
                crate::fixed::lemma_abs_mul(self.height as int, self.width as int, 32768, 32768);
                lemma_row_major_bound(
                    position.x as int,
                    position.y as int,
                    self.height as int,
                    self.width as int,
                );
            }
            Some(&self.cells[position.x * self.width + position.y])
        } else {
            None
        }
    }

    /// Replaces one cell, used for the hand-placed thin-wall overrides that
    /// follow layout parsing. Rejects out-of-bounds coordinates and cells
    /// whose numeric fields are out of range; the grid is unchanged then.
    pub fn set_cell(&mut self, x: usize, y: usize, cell: MapCell) -> (r: bool)
        requires
            old(self).wf(),
        ensures
            final(self).wf(),
            final(self).width == old(self).width,
            final(self).height == old(self).height,
            r == (old(self).in_bounds(x as int, y as int) && cell_wf(cell)),
            r ==> final(self).cells@ == old(self).cells@.update(
                x as int * old(self).width + y,
                cell,
            ),
            !r ==> final(self).cells@ == old(self).cells@,
    {
        let ok: bool = match cell {
            MapCell::Empty { fog, .. } => 0 <= fog.raw && fog.raw <= 0x8000_0000,
            MapCell::Wall { .. } => true,
            MapCell::ThinWall { offset_into_cell, .. } => 0 <= offset_into_cell.raw
                && offset_into_cell.raw <= FX_SCALE,
        };
        if x < self.height && y < self.width && ok {
            proof {
                crate::fixed::lemma_abs_mul(self.height as int, self.width as int, 32768, 32768);
                lemma_row_major_bound(x as int, y as int, self.height as int, self.width as int);
            }
            let idx: usize = x * self.width + y;
            self.cells[idx] = cell;
            true
        } else {
            false
        }
    }
}

} // verus!

//! The voxel world: a dense three-dimensional grid of optional blocks,
//! flattened into one vector, with a one-shot face-adjacency visibility pass.

use vstd::prelude::*;

verus! {

use crate::renderer::{
    Renderer,
    find_geometry,
    geometry_matches,
    keys_unique,
    lemma_find_geometry_congruence,
    lemma_find_none_converse,
    lemma_find_some,
    spec_instance_record,
    RenderInstance,
};
use crate::texture::{Rect, TextureHandle, spec_lookup};

/// Flat index of the cell `(x, y, z)` in a `width * height * depth` grid,
/// with `x` varying fastest, then `y`, then `z`.
pub open spec fn flat_index(x: int, y: int, z: int, width: int, height: int) -> int {
    x + width * (y + z * height)
}

/// The flat index of an in-bounds cell lies in `[0, width * height * depth)`.
pub proof fn lemma_flat_index_bounds(x: int, y: int, z: int, width: int, height: int, depth: int)
    requires
        0 <= x < width,
        0 <= y < height,
        0 <= z < depth,
    ensures
        0 <= flat_index(x, y, z, width, height) < width * height * depth,
{
    assert(0 <= x + width * (y + z * height) < width * height * depth) by (nonlinear_arith)
        requires
            0 <= x < width,
            0 <= y < height,
            0 <= z < depth,
    ;
}

/// Distinct in-bounds cells never share a flat index.
pub proof fn lemma_flat_index_injective(
    x1: int,
    y1: int,
    z1: int,
    x2: int,
    y2: int,
    z2: int,
    width: int,
    height: int,
)
    requires
        0 <= x1 < width,
        0 <= y1 < height,
        0 <= x2 < width,
        0 <= y2 < height,
        0 <= z1,
        0 <= z2,
        flat_index(x1, y1, z1, width, height) == flat_index(x2, y2, z2, width, height),
    ensures
        x1 == x2 && y1 == y2 && z1 == z2,
{
    assert(x1 == x2 && y1 == y2 && z1 == z2) by (nonlinear_arith)
        requires
            0 <= x1 < width,
            0 <= y1 < height,
            0 <= x2 < width,
            0 <= y2 < height,
            0 <= z1,
            0 <= z2,
            x1 + width * (y1 + z1 * height) == x2 + width * (y2 + z2 * height),
    ;
}

/// The coordinates a flat index decodes back to.
pub open spec fn unflatten(i: int, width: int, height: int) -> (int, int, int) {
    (i % width, (i / width) % height, i / (width * height))
}

/// Every index in `[0, width * height * depth)` is the flat index of exactly
/// one in-bounds cell: together with injectivity, the flat encoding is a
/// bijection onto that range.
pub proof fn lemma_flat_index_surjective(i: int, width: int, height: int, depth: int)
    requires
        1 <= width,
        1 <= height,
        1 <= depth,
        0 <= i < width * height * depth,
    ensures
        ({
            let (x, y, z) = unflatten(i, width, height);
            &&& 0 <= x < width
            &&& 0 <= y < height
            &&& 0 <= z < depth
            &&& flat_index(x, y, z, width, height) == i
        }),
{
    let x = i % width;
    let y = (i / width) % height;
    let z = i / (width * height);
    vstd::arithmetic::div_mod::lemma_fundamental_div_mod(i, width);
    vstd::arithmetic::div_mod::lemma_mod_bound(i, width);
    vstd::arithmetic::div_mod::lemma_fundamental_div_mod(i / width, height);
    vstd::arithmetic::div_mod::lemma_mod_bound(i / width, height);
    assert(i / width >= 0) by (nonlinear_arith)
        requires
            i >= 0,
            width >= 1,
    ;
    vstd::arithmetic::div_mod::lemma_div_denominator(i, width, height);
    assert(width * height >= 1) by (nonlinear_arith)
        requires
            width >= 1,
            height >= 1,
    ;
    vstd::arithmetic::div_mod::lemma_fundamental_div_mod(i, width * height);
    vstd::arithmetic::div_mod::lemma_mod_bound(i, width * height);
    assert(z < depth) by (nonlinear_arith)
        requires
            0 <= i < width * height * depth,
            width >= 1,
            height >= 1,
            z == i / (width * height),
            i == (width * height) * z + i % (width * height),
            0 <= i % (width * height) < width * height,
    {
    }
    assert(flat_index(x, y, z, width, height) == i) by (nonlinear_arith)
        requires
            i == width * (i / width) + x,
            i / width == height * z + y,
            z == i / (width * height),
    ;
}

/// The kind of block occupying a cell.
#[derive(Clone, Copy, PartialEq, Eq, Structural, Debug)]
pub enum BlockType {
    Dirt,
    Cobble,
    Stone,
    Water,
    Sand,
}

/// One occupied cell: its grid coordinates, its kind, and whether the
/// visibility pass left it visible. The renderer derives the block's world
/// position from the grid coordinates.
#[derive(Clone, Copy, PartialEq, Eq, Structural, Debug)]
pub struct Block {
    pub x: u32,
    pub y: u32,
    pub z: u32,
    pub block_type: BlockType,
    pub visible: bool,
}

/// A failed block lookup: the coordinates fall outside the grid or the cell
/// holds no block.
#[derive(Clone, Copy, PartialEq, Eq, Structural, Debug)]
pub enum WorldError {
    NotFound,
}

/// A dense grid of `width * height * depth` cells, each optionally holding a
/// block, plus the texture handle registered for each block kind.
pub struct World {
    pub blocks: Vec<Option<Block>>,
    pub textures: Vec<(BlockType, TextureHandle)>,
    pub width: u32,
    pub height: u32,
    pub depth: u32,
}

impl World {
    /// The grid dimensions are positive and the cell vector covers them.
    pub open spec fn dims_wf(self) -> bool {
        &&& 1 <= self.width
        &&& 1 <= self.height
        &&& 1 <= self.depth
        &&& self.blocks@.len() == (self.width as int) * (self.height as int) * (
        self.depth as int)
    }

    /// `(x, y, z)` lies inside the grid.
    pub open spec fn valid_coords(self, x: int, y: int, z: int) -> bool {
        &&& 0 <= x < self.width
        &&& 0 <= y < self.height
        &&& 0 <= z < self.depth
    }

    /// The cell at `(x, y, z)`.
    pub open spec fn spec_block(self, x: int, y: int, z: int) -> Option<Block> {
        self.blocks@[flat_index(x, y, z, self.width as int, self.height as int)]
    }

    /// The cell at `(x, y, z)` is inside the grid and holds a block.
    pub open spec fn occupied(self, x: int, y: int, z: int) -> bool {
        self.valid_coords(x, y, z) && self.spec_block(x, y, z) is Some
    }

    /// All six face-adjacent neighbour coordinates are still inside the
    /// grid.
    pub open spec fn interior(self, x: int, y: int, z: int) -> bool {
        &&& 1 <= x < self.width - 1
        &&& 1 <= y < self.height - 1
        &&& 1 <= z < self.depth - 1
    }

    /// All six face-adjacent neighbours hold blocks.
    pub open spec fn enclosed(self, x: int, y: int, z: int) -> bool {
        &&& self.occupied(x - 1, y, z)
        &&& self.occupied(x + 1, y, z)
        &&& self.occupied(x, y - 1, z)
        &&& self.occupied(x, y + 1, z)
        &&& self.occupied(x, y, z - 1)
        &&& self.occupied(x, y, z + 1)
    }

    /// The visibility the one-shot culling pass leaves on an occupied cell:
    /// hidden exactly for interior cells whose six neighbours are all
    /// occupied. Cells on the boundary layer are never re-examined and stay
    /// visible.
    pub open spec fn spec_visible(self, x: int, y: int, z: int) -> bool {
        !(self.interior(x, y, z) && self.enclosed(x, y, z))
    }

    /// Flat index of `(x, y, z)`, with `x` varying fastest.
    pub fn flatten_coords(&self, x: usize, y: usize, z: usize) -> (r: usize)
        requires
            self.dims_wf(),
            x < self.width,
            y < self.height,
            z < self.depth,
        ensures
            r == flat_index(x as int, y as int, z as int, self.width as int, self.height as int),
            r < self.blocks@.len(),
    {
        let n = self.blocks.len();
        proof {
            let wi = self.width as int;
            let hi = self.height as int;
            let di = self.depth as int;
            assert((z as int) * hi <= hi * di - hi && 0 <= (z as int) * hi && (y as int) + (
            z as int) * hi < hi * di && hi * di <= wi * hi * di && wi * ((y as int) + (z as int)
                * hi) + (x as int) < wi * hi * di) by (nonlinear_arith)
                requires
                    0 <= (x as int) < wi,
                    0 <= (y as int) < hi,
                    0 <= (z as int) < di,
                    1 <= wi,
                    1 <= hi,
                    1 <= di,
            ;
        }
        x + (self.width as usize) * (y + z * (self.height as usize))
    }

    /// The visibility pass walking interior cells in `x`-major order has
    /// already examined `(px, py, pz)` when it is about to examine
    /// `(x, y, z)`.
    pub open spec fn pass_done(px: int, py: int, pz: int, x: int, y: int, z: int) -> bool {
        ||| px < x
        ||| (px == x && py < y)
        ||| (px == x && py == y && pz < z)
    }

    /// A cell of `orig` after the visibility pass has (`done`) or has not
    /// yet examined it: occupancy, kind and coordinates never change, and
    /// visibility is cleared exactly on examined enclosed interior cells.
    pub open spec fn vis_expected(orig: World, px: int, py: int, pz: int, done: bool) -> Option<
        Block,
    > {
        match orig.spec_block(px, py, pz) {
            None => None,
            Some(b) => Some(
                Block {
                    x: b.x,
                    y: b.y,
                    z: b.z,
                    block_type: b.block_type,
                    visible: b.visible && !(done && orig.interior(px, py, pz) && orig.enclosed(
                        px,
                        py,
                        pz,
                    )),
                },
            ),
        }
    }

    /// The one-shot culling pass: every interior cell whose six
    /// face-adjacent neighbours all hold blocks has its block marked
    /// invisible. Boundary-layer cells are never examined.
    fn block_visibility(&mut self)
        requires
            old(self).dims_wf(),
        ensures
            final(self).width == old(self).width,
            final(self).height == old(self).height,
            final(self).depth == old(self).depth,
            final(self).textures@ == old(self).textures@,
            final(self).blocks@.len() == old(self).blocks@.len(),
            forall|px: int, py: int, pz: int|
                old(self).valid_coords(px, py, pz) ==> final(self).spec_block(px, py, pz)
                    == Self::vis_expected(*old(self), px, py, pz, true),
    {
        let mut x: u32 = 1;
        while x < self.width - 1
            invariant
                self.dims_wf(),
                self.width == old(self).width,
                self.height == old(self).height,
                self.depth == old(self).depth,
                self.textures@ == old(self).textures@,
                self.blocks@.len() == old(self).blocks@.len(),
                1 <= x,
                x <= self.width,
                forall|px: int, py: int, pz: int|
                    old(self).valid_coords(px, py, pz) ==> self.spec_block(px, py, pz)
                        == Self::vis_expected(
                        *old(self),
                        px,
                        py,
                        pz,
                        Self::pass_done(px, py, pz, x as int, 1, 1),
                    ),
            decreases self.width - x,
        {
            let mut y: u32 = 1;
            while y < self.height - 1
                invariant
                    self.dims_wf(),
                    self.width == old(self).width,
                    self.height == old(self).height,
                    self.depth == old(self).depth,
                    self.textures@ == old(self).textures@,
                    self.blocks@.len() == old(self).blocks@.len(),
                    1 <= x < self.width - 1,
                    1 <= y,
                    y <= self.height,
                    forall|px: int, py: int, pz: int|
                        old(self).valid_coords(px, py, pz) ==> self.spec_block(px, py, pz)
                            == Self::vis_expected(
                            *old(self),
                            px,
                            py,
                            pz,
                            Self::pass_done(px, py, pz, x as int, y as int, 1),
                        ),
                decreases self.height - y,
            {
                let mut z: u32 = 1;
                while z < self.depth - 1
                    invariant
                        self.dims_wf(),
                        self.width == old(self).width,
                        self.height == old(self).height,
                        self.depth == old(self).depth,
                        self.textures@ == old(self).textures@,
                        self.blocks@.len() == old(self).blocks@.len(),
                        1 <= x < self.width - 1,
                        1 <= y < self.height - 1,
                        1 <= z,
                        z <= self.depth,
                        forall|px: int, py: int, pz: int|
                            old(self).valid_coords(px, py, pz) ==> self.spec_block(px, py, pz)
                                == Self::vis_expected(
                                *old(self),
                                px,
                                py,
                                pz,
                                Self::pass_done(px, py, pz, x as int, y as int, z as int),
                            ),
                    decreases self.depth - z,
                {
                    let ghost ox = x as int;
                    let ghost oy = y as int;
                    let ghost oz = z as int;
                    let ghost wi = self.width as int;
                    let ghost hi = self.height as int;
                    let ghost di = self.depth as int;
                    proof {
                        assert(self.spec_block(ox, oy, oz) == Self::vis_expected(
                            *old(self),
                            ox,
                            oy,
                            oz,
                            Self::pass_done(ox, oy, oz, ox, oy, oz),
                        ));
                        assert(self.spec_block(ox - 1, oy, oz) == Self::vis_expected(
                            *old(self),
                            ox - 1,
                            oy,
                            oz,
                            Self::pass_done(ox - 1, oy, oz, ox, oy, oz),
                        ));
                        assert(self.spec_block(ox + 1, oy, oz) == Self::vis_expected(
                            *old(self),
                            ox + 1,
                            oy,
                            oz,
                            Self::pass_done(ox + 1, oy, oz, ox, oy, oz),
                        ));
                        assert(self.spec_block(ox, oy - 1, oz) == Self::vis_expected(
                            *old(self),
                            ox,
                            oy - 1,
                            oz,
                            Self::pass_done(ox, oy - 1, oz, ox, oy, oz),
                        ));
                        assert(self.spec_block(ox, oy + 1, oz) == Self::vis_expected(
                            *old(self),
                            ox,
                            oy + 1,
                            oz,
                            Self::pass_done(ox, oy + 1, oz, ox, oy, oz),
                        ));
                        assert(self.spec_block(ox, oy, oz - 1) == Self::vis_expected(
                            *old(self),
                            ox,
                            oy,
                            oz - 1,
                            Self::pass_done(ox, oy, oz - 1, ox, oy, oz),
                        ));
                        assert(self.spec_block(ox, oy, oz + 1) == Self::vis_expected(
                            *old(self),
                            ox,
                            oy,
                            oz + 1,
                            Self::pass_done(ox, oy, oz + 1, ox, oy, oz),
                        ));
                    }
                    if self.get_block(x, y, z).is_ok() {
                        let left = self.get_block(x - 1, y, z);
                        let right = self.get_block(x + 1, y, z);
                        let front = self.get_block(x, y, z + 1);
                        let back = self.get_block(x, y, z - 1);
                        let top = self.get_block(x, y + 1, z);
                        let bottom = self.get_block(x, y - 1, z);
                        let all_ok = left.is_ok() && right.is_ok() && front.is_ok()
                            && back.is_ok() && top.is_ok() && bottom.is_ok();
                        proof {
                            assert(all_ok == old(self).enclosed(ox, oy, oz));
                        }
                        let idx = self.flatten_coords(x as usize, y as usize, z as usize);
                        match self.blocks[idx] {
                            Some(b) => {
                                self.blocks.set(
                                    idx,
                                    Some(
                                        Block {
                                            x: b.x,
                                            y: b.y,
                                            z: b.z,
                                            block_type: b.block_type,
                                            visible: b.visible && !all_ok,
                                        },
                                    ),
                                );
                                proof {
                                    assert forall|px: int, py: int, pz: int|
                                        old(self).valid_coords(px, py, pz) implies self.spec_block(
                                        px,
                                        py,
                                        pz,
                                    ) == Self::vis_expected(
                                        *old(self),
                                        px,
                                        py,
                                        pz,
                                        Self::pass_done(px, py, pz, ox, oy, oz + 1),
                                    ) by {
                                        lemma_flat_index_bounds(px, py, pz, wi, hi, di);
                                        if px == ox && py == oy && pz == oz {
                                        } else if flat_index(px, py, pz, wi, hi) == flat_index(
                                            ox,
                                            oy,
                                            oz,
                                            wi,
                                            hi,
                                        ) {
                                            lemma_flat_index_injective(
                                                px,
                                                py,
                                                pz,
                                                ox,
                                                oy,
                                                oz,
                                                wi,
                                                hi,
                                            );
                                        }
                                    }
                                }
                            },
                            None => {
                                proof {
                                    assert(false);
                                }
                            },
                        }
                    } else {
                        proof {
                            assert forall|px: int, py: int, pz: int|
                                old(self).valid_coords(px, py, pz) implies self.spec_block(
                                px,
                                py,
                                pz,
                            ) == Self::vis_expected(
                                *old(self),
                                px,
                                py,
                                pz,
                                Self::pass_done(px, py, pz, ox, oy, oz + 1),
                            ) by {
                                lemma_flat_index_bounds(px, py, pz, wi, hi, di);
                            }
                        }
                    }
                    z = z + 1;
                }
                proof {
                    assert forall|px: int, py: int, pz: int|
                        old(self).valid_coords(px, py, pz) implies Self::vis_expected(
                        *old(self),
                        px,
                        py,
                        pz,
                        Self::pass_done(px, py, pz, x as int, y as int, z as int),
                    ) == Self::vis_expected(
                        *old(self),
                        px,
                        py,
                        pz,
                        Self::pass_done(px, py, pz, x as int, y as int + 1, 1),
                    ) by {
                        assert(!old(self).interior(px, py, pz) ==> Self::vis_expected(
                            *old(self),
                            px,
                            py,
                            pz,
                            true,
                        ) == Self::vis_expected(*old(self), px, py, pz, false));
                    }
                }
                y = y + 1;
            }
            proof {
                assert forall|px: int, py: int, pz: int|
                    old(self).valid_coords(px, py, pz) implies Self::vis_expected(
                    *old(self),
                    px,
                    py,
                    pz,
                    Self::pass_done(px, py, pz, x as int, y as int, 1),
                ) == Self::vis_expected(
                    *old(self),
                    px,
                    py,
                    pz,
                    Self::pass_done(px, py, pz, x as int + 1, 1, 1),
                ) by {
                    assert(!old(self).interior(px, py, pz) ==> Self::vis_expected(
                        *old(self),
                        px,
                        py,
                        pz,
                        true,
                    ) == Self::vis_expected(*old(self), px, py, pz, false));
                }
            }
            x = x + 1;
        }
        proof {
            assert forall|px: int, py: int, pz: int|
                old(self).valid_coords(px, py, pz) implies self.spec_block(px, py, pz)
                == Self::vis_expected(*old(self), px, py, pz, true) by {
                assert(!old(self).interior(px, py, pz) ==> Self::vis_expected(
                    *old(self),
                    px,
                    py,
                    pz,
                    true,
                ) == Self::vis_expected(*old(self), px, py, pz, false));
            }
        }
    }

    /// The cell built for `(px, py, pz)` before the visibility pass: empty,
    /// or a visible block of the requested kind carrying its coordinates.
    pub open spec fn initial_cell(
        cells: Seq<Option<BlockType>>,
        px: int,
        py: int,
        pz: int,
        width: int,
        height: int,
    ) -> Option<Block> {
        match cells[flat_index(px, py, pz, width, height)] {
            None => None,
            Some(t) => Some(
                Block {
                    x: px as u32,
                    y: py as u32,
                    z: pz as u32,
                    block_type: t,
                    visible: true,
                },
            ),
        }
    }

    /// Builds a `width * height * depth` world whose cell `(x, y, z)` holds
    /// a block of kind `cells[flat_index(x, y, z)]` (or none), then runs the
    /// visibility pass once: afterwards a block is invisible exactly when it
    /// sits on an interior cell with all six face-adjacent neighbours
    /// occupied.
    pub fn new(width: u32, height: u32, depth: u32, cells: Vec<Option<BlockType>>) -> (r: World)
        requires
            1 <= width,
            1 <= height,
            1 <= depth,
            cells@.len() == (width as int) * (height as int) * (depth as int),
        ensures
            r.dims_wf(),
            r.width == width,
            r.height == height,
            r.depth == depth,
            r.textures@.len() == 0,
            forall|px: int, py: int, pz: int|
                r.valid_coords(px, py, pz) ==> (#[trigger] r.spec_block(px, py, pz)) == (
                match cells@[flat_index(px, py, pz, width as int, height as int)] {
                    None => None::<Block>,
                    Some(t) => Some(
                        Block {
                            x: px as u32,
                            y: py as u32,
                            z: pz as u32,
                            block_type: t,
                            visible: r.spec_visible(px, py, pz),
                        },
                    ),
                }),
    {
        let ghost wi = width as int;
        let ghost hi = height as int;
        let ghost di = depth as int;
        let mut blocks: Vec<Option<Block>> = Vec::new();
        let mut z: u32 = 0;
        while z < depth
            invariant
                1 <= width,
                1 <= height,
                1 <= depth,
                wi == width as int,
                hi == height as int,
                di == depth as int,
                cells@.len() == wi * hi * di,
                z <= depth,
                blocks@.len() == wi * hi * (z as int),
                forall|px: int, py: int, pz: int|
                    0 <= px < wi && 0 <= py < hi && 0 <= pz < di && #[trigger] flat_index(
                        px,
                        py,
                        pz,
                        wi,
                        hi,
                    ) < blocks@.len() ==> blocks@[flat_index(px, py, pz, wi, hi)]
                        == Self::initial_cell(cells@, px, py, pz, wi, hi),
            decreases depth - z,
        {
            let mut y: u32 = 0;
            while y < height
                invariant
                    1 <= width,
                    1 <= height,
                    1 <= depth,
                    wi == width as int,
                    hi == height as int,
                    di == depth as int,
                    cells@.len() == wi * hi * di,
                    z < depth,
                    y <= height,
                    blocks@.len() == wi * hi * (z as int) + wi * (y as int),
                    forall|px: int, py: int, pz: int|
                        0 <= px < wi && 0 <= py < hi && 0 <= pz < di && #[trigger] flat_index(
                            px,
                            py,
                            pz,
                            wi,
                            hi,
                        ) < blocks@.len() ==> blocks@[flat_index(px, py, pz, wi, hi)]
                            == Self::initial_cell(cells@, px, py, pz, wi, hi),
                decreases height - y,
            {
                let mut x: u32 = 0;
                while x < width
                    invariant
                        1 <= width,
                        1 <= height,
                        1 <= depth,
                        wi == width as int,
                        hi == height as int,
                        di == depth as int,
                        cells@.len() == wi * hi * di,
                        z < depth,
                        y < height,
                        x <= width,
                        blocks@.len() == wi * hi * (z as int) + wi * (y as int) + x as int,
                        forall|px: int, py: int, pz: int|
                            0 <= px < wi && 0 <= py < hi && 0 <= pz < di && #[trigger] flat_index(
                                px,
                                py,
                                pz,
                                wi,
                                hi,
                            ) < blocks@.len() ==> blocks@[flat_index(px, py, pz, wi, hi)]
                                == Self::initial_cell(cells@, px, py, pz, wi, hi),
                    decreases width - x,
                {
                    proof {
                        assert(wi * hi * (z as int) + wi * (y as int) + (x as int) == flat_index(
                            x as int,
                            y as int,
                            z as int,
                            wi,
                            hi,
                        )) by (nonlinear_arith)
                            requires
                                wi == width as int,
                                hi == height as int,
                        ;
                        lemma_flat_index_bounds(x as int, y as int, z as int, wi, hi, di);
                    }
                    let idx = blocks.len();
                    match cells[idx] {
                        Some(t) => {
                            blocks.push(
                                Some(Block { x, y, z, block_type: t, visible: true }),
                            );
                        },
                        None => {
                            blocks.push(None);
                        },
                    }
                    proof {
                        assert forall|px: int, py: int, pz: int|
                            0 <= px < wi && 0 <= py < hi && 0 <= pz < di && #[trigger] flat_index(
                                px,
                                py,
                                pz,
                                wi,
                                hi,
                            ) < blocks@.len() implies blocks@[flat_index(px, py, pz, wi, hi)]
                            == Self::initial_cell(cells@, px, py, pz, wi, hi) by {
                            if flat_index(px, py, pz, wi, hi) == idx as int {
                                lemma_flat_index_injective(
                                    px,
                                    py,
                                    pz,
                                    x as int,
                                    y as int,
                                    z as int,
                                    wi,
                                    hi,
                                );
                            }
                        }
                    }
                    x = x + 1;
                }
                proof {
                    assert(wi * ((y as int) + 1) == wi * (y as int) + wi) by (nonlinear_arith);
                }
                y = y + 1;
            }
            proof {
                assert(wi * hi * ((z as int) + 1) == wi * hi * (z as int) + wi * hi)
                    by (nonlinear_arith);
                assert(wi * (height as int) == wi * hi);
            }
            z = z + 1;
        }
        let mut this = World { blocks, textures: Vec::new(), width, height, depth };
        proof {
            assert(this.dims_wf());
            assert forall|px: int, py: int, pz: int|
                this.valid_coords(px, py, pz) implies #[trigger] this.spec_block(px, py, pz)
                == Self::initial_cell(cells@, px, py, pz, wi, hi) by {
                lemma_flat_index_bounds(px, py, pz, wi, hi, di);
            }
        }
        let ghost w1 = this;
        this.block_visibility();
        proof {
            assert forall|px: int, py: int, pz: int|
                this.valid_coords(px, py, pz) implies (#[trigger] this.spec_block(px, py, pz))
                == (match cells@[flat_index(px, py, pz, wi, hi)] {
                None => None::<Block>,
                Some(t) => Some(
                    Block {
                        x: px as u32,
                        y: py as u32,
                        z: pz as u32,
                        block_type: t,
                        visible: this.spec_visible(px, py, pz),
                    },
                ),
            }) by {
                lemma_flat_index_bounds(px, py, pz, wi, hi, di);
                assert(this.spec_block(px, py, pz) == Self::vis_expected(w1, px, py, pz, true));
                if this.interior(px, py, pz) {
                    assert(this.spec_block(px - 1, py, pz) == Self::vis_expected(
                        w1,
                        px - 1,
                        py,
                        pz,
                        true,
                    ));
                    assert(this.spec_block(px + 1, py, pz) == Self::vis_expected(
                        w1,
                        px + 1,
                        py,
                        pz,
                        true,
                    ));
                    assert(this.spec_block(px, py - 1, pz) == Self::vis_expected(
                        w1,
                        px,
                        py - 1,
                        pz,
                        true,
                    ));
                    assert(this.spec_block(px, py + 1, pz) == Self::vis_expected(
                        w1,
                        px,
                        py + 1,
                        pz,
                        true,
                    ));
                    assert(this.spec_block(px, py, pz - 1) == Self::vis_expected(
                        w1,
                        px,
                        py,
                        pz - 1,
                        true,
                    ));
                    assert(this.spec_block(px, py, pz + 1) == Self::vis_expected(
                        w1,
                        px,
                        py,
                        pz + 1,
                        true,
                    ));
                    assert(this.enclosed(px, py, pz) == w1.enclosed(px, py, pz));
                }
            }
        }
        this
    }

    /// Looks up the block at `(x, y, z)`. Fails with `NotFound` when the
    /// coordinates fall outside the grid or the cell holds no block.
    pub fn get_block(&self, x: u32, y: u32, z: u32) -> (r: Result<Block, WorldError>)
        requires
            self.dims_wf(),
        ensures
            match r {
                Ok(b) => self.occupied(x as int, y as int, z as int) && self.spec_block(
                    x as int,
                    y as int,
                    z as int,
                ) == Some(b),
                Err(e) => e == WorldError::NotFound && !self.occupied(
                    x as int,
                    y as int,
                    z as int,
                ),
            },
    {
        if x < self.width && y < self.height && z < self.depth {
            let idx = self.flatten_coords(x as usize, y as usize, z as usize);
            match self.blocks[idx] {
                Some(b) => Ok(b),
                None => Err(WorldError::NotFound),
            }
        } else {
            Err(WorldError::NotFound)
        }
    }

    /// Stores the texture handle registered for each block kind. The
    /// application registers every image with the renderer during setup and
    /// hands the resulting handles over.
    pub fn setup_textures(&mut self, handles: Vec<(BlockType, TextureHandle)>)
        ensures
            final(self).textures@ == handles@,
            final(self).blocks@ == old(self).blocks@,
            final(self).width == old(self).width,
            final(self).height == old(self).height,
            final(self).depth == old(self).depth,
    {
        self.textures = handles;
    }

    /// Returns the texture handle registered for kind `t`. Asking for a
    /// kind that was never registered is a fatal precondition violation.
    pub fn get_texture(&self, t: BlockType) -> (r: TextureHandle)
        requires
            texture_lookup(self.textures@, t) is Some,
        ensures
            Some(r) == texture_lookup(self.textures@, t),
    {
        let mut i: usize = 0;
        while i < self.textures.len()
            invariant
                0 <= i <= self.textures@.len(),
                forall|m: int| 0 <= m < i ==> (#[trigger] self.textures@[m]).0 != t,
            decreases self.textures@.len() - i,
        {
            if self.textures[i].0 == t {
                proof {
                    lemma_texture_lookup_found(self.textures@, t, i as int);
                }
                return self.textures[i].1;
            }
            i = i + 1;
        }
        proof {
            lemma_texture_lookup_none(self.textures@, t);
            assert(false);
        }
        0
    }

    /// The blocks drawn this frame, in flat-index order, over the first `k`
    /// cells: each cell that holds a block the visibility pass left
    /// visible.
    pub open spec fn visible_prefix(w: World, k: int) -> Seq<Block>
        decreases k,
    {
        if k <= 0 {
            Seq::empty()
        } else {
            let rest = Self::visible_prefix(w, k - 1);
            match w.blocks@[k - 1] {
                Some(b) => if b.visible {
                    rest.push(b)
                } else {
                    rest
                },
                None => rest,
            }
        }
    }

    /// Every visible block of the world, in flat-index order.
    pub open spec fn spec_visible_blocks(w: World) -> Seq<Block> {
        Self::visible_prefix(w, w.blocks@.len() as int)
    }

    /// Collects the occupied, visible cells in flat-index order: the
    /// restartable sequence the draw pass consumes each frame.
    pub fn visible_blocks(&self) -> (r: Vec<Block>)
        ensures
            r@ == Self::spec_visible_blocks(*self),
    {
        let mut r: Vec<Block> = Vec::new();
        let mut i: usize = 0;
        while i < self.blocks.len()
            invariant
                0 <= i <= self.blocks@.len(),
                r@ == Self::visible_prefix(*self, i as int),
            decreases self.blocks@.len() - i,
        {
            match self.blocks[i] {
                Some(b) => {
                    if b.visible {
                        r.push(b);
                    }
                },
                None => {},
            }
            i = i + 1;
        }
        r
    }

    /// The instance record a block contributes: its world position (grid
    /// `x` and `y` map to world `x` and `z`; the column drops below the
    /// origin with grid `z`) and the atlas placement of its kind's texture.
    pub open spec fn instance_for(
        w: World,
        entries: Seq<(Rect, TextureHandle)>,
        b: Block,
    ) -> RenderInstance {
        spec_instance_record(
            b.x as i64,
            (-5 - (b.z as int)) as i64,
            b.y as i64,
            spec_lookup(entries, texture_lookup(w.textures@, b.block_type)->Some_0)->Some_0.0,
        )
    }

    /// Every visible block's kind has a registered texture whose handle is
    /// in the atlas: what the draw pass demands before it queues anything.
    pub open spec fn draw_requires(w: World, entries: Seq<(Rect, TextureHandle)>) -> bool {
        forall|i: int|
            0 <= i < Self::spec_visible_blocks(w).len() ==> {
                let b = #[trigger] Self::spec_visible_blocks(w)[i];
                &&& texture_lookup(w.textures@, b.block_type) is Some
                &&& spec_lookup(
                    entries,
                    texture_lookup(w.textures@, b.block_type)->Some_0,
                ) is Some
            }
    }

    /// The instance records the draw pass queues, in flat-index order.
    pub open spec fn draw_instances(w: World, entries: Seq<(Rect, TextureHandle)>) -> Seq<
        RenderInstance,
    > {
        Self::spec_visible_blocks(w).map_values(|b: Block| Self::instance_for(w, entries, b))
    }

    /// Queues every visible block against the given cube geometry: one
    /// instance record per block, all batched under a single object. The
    /// texture of every visible block's kind must have been registered.
    pub fn draw(
        &self,
        renderer: &mut Renderer,
        vertex_data: &Vec<u8>,
        index_data: &Vec<u8>,
        indices_length: usize,
    )
        requires
            Self::draw_requires(*self, old(renderer).texture_atlas.entries()),
            keys_unique(old(renderer).objects@),
        ensures
            final(renderer).texture_atlas == old(renderer).texture_atlas,
            keys_unique(final(renderer).objects@),
            ({
                let queued = Self::draw_instances(*self, old(renderer).texture_atlas.entries());
                match find_geometry(old(renderer).objects@, vertex_data@, index_data@) {
                    Some(j) => {
                        &&& final(renderer).objects@.len() == old(renderer).objects@.len()
                        &&& forall|i: int|
                            0 <= i < old(renderer).objects@.len() && i != j ==> final(renderer).objects@[i] == old(renderer).objects@[i]
                        &&& final(renderer).objects@[j].vertex_data@ == old(renderer).objects@[j].vertex_data@
                        &&& final(renderer).objects@[j].index_data@ == old(renderer).objects@[j].index_data@
                        &&& final(renderer).objects@[j].indices_length == old(renderer).objects@[j].indices_length
                        &&& final(renderer).objects@[j].instances@ == old(renderer).objects@[j].instances@ + queued
                    },
                    None => if queued.len() == 0 {
                        final(renderer).objects@ == old(renderer).objects@
                    } else {
                        &&& final(renderer).objects@.len() == old(renderer).objects@.len() + 1
                        &&& forall|i: int|
                            0 <= i < old(renderer).objects@.len() ==> final(renderer).objects@[i] == old(renderer).objects@[i]
                        &&& final(renderer).objects@.last().vertex_data@ == vertex_data@
                        &&& final(renderer).objects@.last().index_data@ == index_data@
                        &&& final(renderer).objects@.last().indices_length == indices_length
                        &&& final(renderer).objects@.last().instances@ == queued
                    },
                }
            }),
    {
        let vis = self.visible_blocks();
        let ghost entries = renderer.texture_atlas.entries();
        let mut k: usize = 0;
        while k < vis.len()
            invariant
                vis@ == Self::spec_visible_blocks(*self),
                0 <= k <= vis@.len(),
                Self::draw_requires(*self, entries),
                keys_unique(old(renderer).objects@),
                entries == old(renderer).texture_atlas.entries(),
                renderer.texture_atlas == old(renderer).texture_atlas,
                keys_unique(renderer.objects@),
                ({
                    let queued = Self::spec_visible_blocks(*self).take(k as int).map_values(
                        |b: Block| Self::instance_for(*self, entries, b),
                    );
                    match find_geometry(old(renderer).objects@, vertex_data@, index_data@) {
                        Some(j) => {
                            &&& renderer.objects@.len() == old(renderer).objects@.len()
                            &&& forall|i: int|
                                0 <= i < old(renderer).objects@.len() && i != j ==> renderer
                                    .objects@[i] == old(renderer).objects@[i]
                            &&& renderer.objects@[j].vertex_data@ == old(renderer).objects@[j].vertex_data@
                            &&& renderer.objects@[j].index_data@ == old(renderer).objects@[j].index_data@
                            &&& renderer.objects@[j].indices_length == old(renderer).objects@[j].indices_length
                            &&& renderer.objects@[j].instances@ == old(renderer).objects@[j].instances@ + queued
                        },
                        None => if queued.len() == 0 {
                            renderer.objects@ == old(renderer).objects@
                        } else {
                            &&& renderer.objects@.len() == old(renderer).objects@.len() + 1
                            &&& forall|i: int|
                                0 <= i < old(renderer).objects@.len() ==> renderer.objects@[i]
                                    == old(renderer).objects@[i]
                            &&& renderer.objects@.last().vertex_data@ == vertex_data@
                            &&& renderer.objects@.last().index_data@ == index_data@
                            &&& renderer.objects@.last().indices_length == indices_length
                            &&& renderer.objects@.last().instances@ == queued
                        },
                    }
                }),
            decreases vis@.len() - k,
        {
            let b = vis[k];
            proof {
                assert(vis@[k as int] == Self::spec_visible_blocks(*self)[k as int]);
            }
            let tex = self.get_texture(b.block_type);
            let pos_x = b.x as i64;
            let pos_y = -5i64 - (b.z as i64);
            let pos_z = b.y as i64;
            let ghost pre = *renderer;
            proof {
                match find_geometry(old(renderer).objects@, vertex_data@, index_data@) {
                    Some(j) => {
                        lemma_find_geometry_congruence(
                            renderer.objects@,
                            old(renderer).objects@,
                            vertex_data@,
                            index_data@,
                        );
                    },
                    None => {
                        lemma_find_none_converse(
                            old(renderer).objects@,
                            vertex_data@,
                            index_data@,
                        );
                        let queued = Self::spec_visible_blocks(*self).take(k as int).map_values(
                            |bb: Block| Self::instance_for(*self, entries, bb),
                        );
                        if queued.len() == 0 {
                            lemma_find_none_converse(
                                renderer.objects@,
                                vertex_data@,
                                index_data@,
                            );
                        } else {
                            lemma_find_some(
                                renderer.objects@,
                                vertex_data@,
                                index_data@,
                                old(renderer).objects@.len() as int,
                            );
                        }
                    },
                }
            }
            renderer.queue_draw(
                vertex_data,
                index_data,
                indices_length,
                pos_x,
                pos_y,
                pos_z,
                tex,
            );
            proof {
                let f = |bb: Block| Self::instance_for(*self, entries, bb);
                let vb = Self::spec_visible_blocks(*self);
                assert(vb.take(k as int + 1).map_values(f) =~= vb.take(k as int).map_values(
                    f,
                ).push(f(vb[k as int])));
            }
            k = k + 1;
        }
        proof {
            let f = |bb: Block| Self::instance_for(*self, entries, bb);
            let vb = Self::spec_visible_blocks(*self);
            assert(vb.take(vb.len() as int) =~= vb);
            assert(vb.take(vb.len() as int).map_values(f) =~= vb.map_values(f));
        }
    }
}

/// The handle registered for block kind `t`, if any: the first entry of the
/// registry that names `t`.
pub open spec fn texture_lookup(s: Seq<(BlockType, TextureHandle)>, t: BlockType) -> Option<
    TextureHandle,
>
    decreases s.len(),
{
    if s.len() == 0 {
        None
    } else if s[0].0 == t {
        Some(s[0].1)
    } else {
        texture_lookup(s.drop_first(), t)
    }
}

proof fn lemma_texture_lookup_found(s: Seq<(BlockType, TextureHandle)>, t: BlockType, i: int)
    requires
        0 <= i < s.len(),
        s[i].0 == t,
        forall|m: int| 0 <= m < i ==> (#[trigger] s[m]).0 != t,
    ensures
        texture_lookup(s, t) == Some(s[i].1),
    decreases i,
{
    if i > 0 {
        lemma_texture_lookup_found(s.drop_first(), t, i - 1);
    }
}

proof fn lemma_texture_lookup_none(s: Seq<(BlockType, TextureHandle)>, t: BlockType)
    requires
        forall|m: int| 0 <= m < s.len() ==> (#[trigger] s[m]).0 != t,
    ensures
        texture_lookup(s, t) is None,
    decreases s.len(),
{
    if s.len() > 0 {
        lemma_texture_lookup_none(s.drop_first(), t);
    }
}

/// The index list of the textured unit cube: six faces of two triangles
/// each over the uv-unwrapped vertex strip.
pub open spec fn cube_indices_spec() -> Seq<u16> {
    seq![
        0u16, 3, 1, 0, 2, 3, 2, 5, 3, 2, 4, 5, 4, 7, 5, 4, 6, 7, 6, 9, 7, 6, 8, 9, 10, 4, 2, 10,
        11, 4, 3, 13, 12, 3, 5, 13,
    ]
}

/// Builds the cube's index buffer.
pub fn cube_indices() -> (r: Vec<u16>)
    ensures
        r@ == cube_indices_spec(),
{
    let v: Vec<u16> = vec![
        0, 3, 1, 0, 2, 3, 2, 5, 3, 2, 4, 5, 4, 7, 5, 4, 6, 7, 6, 9, 7, 6, 8, 9, 10, 4, 2, 10, 11,
        4, 3, 13, 12, 3, 5, 13,
    ];
    proof {
        assert(v@ =~= cube_indices_spec());
    }
    v
}

} // verus!

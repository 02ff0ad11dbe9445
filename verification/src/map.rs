use vstd::prelude::*;

use crate::entity::Entity;

verus! {

/// Width (`x`) and height (`y`) of the tile map, in tiles.
#[derive(Clone, Copy, Debug, PartialEq, Eq, Hash, Structural)]
pub struct TilemapSize {
    pub x: u32,
    pub y: u32,
}

/// A tile of the map: column `x`, row `y`.
#[derive(Clone, Copy, Debug, PartialEq, Eq, Hash, Structural)]
pub struct TilePos {
    pub x: u32,
    pub y: u32,
}

impl TilePos {
    pub fn new(x: u32, y: u32) -> (p: TilePos)
        ensures
            p.x == x,
            p.y == y,
    {
        TilePos { x, y }
    }
}

/// Extent of a footprint: `x` columns by `y` rows of tiles.
#[derive(Clone, Copy, Debug, PartialEq, Eq, Hash, Structural)]
pub struct UVec2 {
    pub x: u32,
    pub y: u32,
}

impl UVec2 {
    pub fn new(x: u32, y: u32) -> (v: UVec2)
        ensures
            v.x == x,
            v.y == y,
    {
        UVec2 { x, y }
    }
}

/// Row-major position of tile `(x, y)` in the cell storage of a map of `size`.
pub open spec fn tile_index(size: TilemapSize, x: int, y: int) -> int {
    y * size.x + x
}

/// Storage position of the tile at offset `(dx, dy)` from `pos`.
pub open spec fn footprint_index(size: TilemapSize, pos: TilePos, dx: int, dy: int) -> int {
    tile_index(size, pos.x + dx, pos.y + dy)
}

/// Storage position `i` is one of the `cols` by `rows` tiles whose lower-left corner is `pos`.
pub open spec fn in_footprint(size: TilemapSize, pos: TilePos, cols: int, rows: int, i: int) -> bool {
    exists|dx: int, dy: int|
        0 <= dx < cols && 0 <= dy < rows && i == #[trigger] footprint_index(size, pos, dx, dy)
}

/// Every tile of the footprint has its storage position inside a map of `size`.
pub open spec fn footprint_in_grid(size: TilemapSize, pos: TilePos, extent: UVec2) -> bool {
    forall|dx: int, dy: int|
        0 <= dx < extent.x && 0 <= dy < extent.y ==> #[trigger] footprint_index(size, pos, dx, dy)
            < size.x * size.y
}

/// The cells after the footprint has been given to `e`.
pub open spec fn occupied_cells(
    cells: Seq<Option<Entity>>,
    size: TilemapSize,
    pos: TilePos,
    extent: UVec2,
    e: Entity,
) -> Seq<Option<Entity>> {
    Seq::new(
        cells.len(),
        |i: int|
            if in_footprint(size, pos, extent.x as int, extent.y as int, i) {
                Some(e)
            } else {
                cells[i]
            },
    )
}

/// The cells after every cell held by `e` has been emptied.
pub open spec fn freed_cells(cells: Seq<Option<Entity>>, e: Entity) -> Seq<Option<Entity>> {
    cells.map_values(|c: Option<Entity>| if c == Some(e) { None } else { c })
}

proof fn lemma_index_in_grid(cols: int, rows: int, x: int, y: int)
    by (nonlinear_arith)
    requires
        0 <= x < cols,
        0 <= y < rows,
    ensures
        0 <= y * cols + x < cols * rows,
{
}

proof fn lemma_index_bounds(y: int, cols: int, x: int, rows: int)
    by (nonlinear_arith)
    requires
        0 <= y,
        0 <= cols,
        0 <= x,
        y * cols + x < cols * rows,
    ensures
        0 <= y * cols,
        x < cols * rows,
        y < rows,
{
}

proof fn lemma_index_monotone(a: int, b: int, c: int, d: int, cols: int)
    by (nonlinear_arith)
    requires
        0 <= a <= b,
        0 <= c <= d,
        0 <= cols,
    ensures
        a * cols + c <= b * cols + d,
{
}

proof fn lemma_product_bound(a: int, b: int)
    by (nonlinear_arith)
    requires
        0 <= a <= 0x2_0000_0000,
        0 <= b <= 0xffff_ffff,
    ensures
        0 <= a * b <= 0x2_0000_0000 * 0xffff_ffff,
{
}

proof fn lemma_index_unique(a: int, b: int, c: int, d: int, cols: int)
    by (nonlinear_arith)
    requires
        0 <= b < cols,
        0 <= d < cols,
        a * cols + b == c * cols + d,
    ensures
        a == c,
        b == d,
{
}

/// Which entity, if any, stands on each tile of the map.
pub struct Occupancy {
    size: TilemapSize,
    cells: Vec<Option<Entity>>,
}

impl Occupancy {
    /// Size of the map.
    pub closed spec fn map_size(&self) -> TilemapSize {
        self.size
    }

    /// Occupant of each tile, row after row.
    pub closed spec fn cells(&self) -> Seq<Option<Entity>> {
        self.cells@
    }

    /// One cell per tile, and every storage position fits in a `u32`.
    pub closed spec fn wf(&self) -> bool {
        &&& self.cells@.len() == self.size.x * self.size.y
        &&& self.size.x * self.size.y <= u32::MAX
    }

    /// Tile `(x, y)` lies on the map and nobody stands on it.
    pub open spec fn tile_free(&self, x: int, y: int) -> bool {
        &&& 0 <= x < self.map_size().x
        &&& 0 <= y < self.map_size().y
        &&& self.cells()[tile_index(self.map_size(), x, y)] is None
    }

    /// The tile at offset `(dx, dy)` from `pos` is free.
    pub open spec fn offset_free(&self, pos: TilePos, dx: int, dy: int) -> bool {
        self.tile_free(pos.x + dx, pos.y + dy)
    }

    /// Every tile of the `extent` footprint whose lower-left corner is `pos` is free.
    pub open spec fn region_free(&self, pos: TilePos, extent: UVec2) -> bool {
        forall|dx: int, dy: int|
            0 <= dx < extent.x && 0 <= dy < extent.y ==> #[trigger] self.offset_free(pos, dx, dy)
    }

    /// An empty map of `size` tiles.
    pub fn new(size: TilemapSize) -> (occ: Occupancy)
        requires
            size.x * size.y <= u32::MAX,
        ensures
            occ.wf(),
            occ.map_size() == size,
            occ.cells() == Seq::new((size.x * size.y) as nat, |i: int| None::<Entity>),
            forall|x: int, y: int| 0 <= x < size.x && 0 <= y < size.y ==> #[trigger] occ.tile_free(x, y),
    {
        let n = size.x * size.y;
        let mut cells: Vec<Option<Entity>> = Vec::new();
        let mut k: u32 = 0;
        while k < n
            invariant
                k <= n,
                n == size.x * size.y,
                cells@ == Seq::new(k as nat, |i: int| None::<Entity>),
            decreases n - k,
        {
            cells.push(None);
            k = k + 1;
        }
        let occ = Occupancy { size, cells };
        assert forall|x: int, y: int| 0 <= x < size.x && 0 <= y < size.y implies #[trigger] occ.tile_free(x, y) by {
            lemma_index_in_grid(size.x as int, size.y as int, x, y);
        }
        occ
    }

    fn index(&self, p: &TilePos) -> (i: usize)
        requires
            p.y * self.size.x + p.x <= u32::MAX,
        ensures
            i == tile_index(self.size, p.x as int, p.y as int),
    {
        (p.y * self.size.x + p.x) as usize
    }

    fn is_free(&self, p: &TilePos) -> (free: bool)
        requires
            self.wf(),
        ensures
            free == self.tile_free(p.x as int, p.y as int),
    {
        if p.x < self.size.x && p.y < self.size.y {
            proof {
                lemma_index_in_grid(self.size.x as int, self.size.y as int, p.x as int, p.y as int);
            }
            self.cells[self.index(p)].is_none()
        } else {
            false
        }
    }

    /// Whether every tile of the `size` footprint whose lower-left corner is
    /// `pos` lies on the map and is free.
    pub fn is_free_at(&self, pos: TilePos, size: UVec2) -> (free: bool)
        requires
            self.wf(),
        ensures
            free == self.region_free(pos, size),
            free == (forall|dx: int, dy: int|
                0 <= dx < size.x && 0 <= dy < size.y ==> {
                    &&& pos.x + dx < self.map_size().x
                    &&& pos.y + dy < self.map_size().y
                    &&& #[trigger] self.cells()[(pos.y + dy) * self.map_size().x + pos.x + dx] is None
                }),
    {
        proof {
            lemma_region_free_cells(*self, pos, size);
        }
        let mut dx: u32 = 0;
        while dx < size.x
            invariant
                self.wf(),
                dx <= size.x,
                forall|i: int, j: int| 0 <= i < dx && 0 <= j < size.y ==> #[trigger] self.offset_free(pos, i, j),
            decreases size.x - dx,
        {
            let mut dy: u32 = 0;
            while dy < size.y
                invariant
                    self.wf(),
                    dx < size.x,
                    dy <= size.y,
                    forall|i: int, j: int| 0 <= i < dx && 0 <= j < size.y ==> #[trigger] self.offset_free(pos, i, j),
                    forall|j: int| 0 <= j < dy ==> #[trigger] self.offset_free(pos, dx as int, j),
                decreases size.y - dy,
            {
                proof {
                    lemma_region_free_cells(*self, pos, size);
                }
                let x = match pos.x.checked_add(dx) {
                    Some(x) => x,
                    None => {
                        assert(!self.offset_free(pos, dx as int, dy as int));
                        return false;
                    },
                };
                let y = match pos.y.checked_add(dy) {
                    Some(y) => y,
                    None => {
                        assert(!self.offset_free(pos, dx as int, dy as int));
                        return false;
                    },
                };
                if !self.is_free(&TilePos::new(x, y)) {
                    assert(!self.offset_free(pos, dx as int, dy as int));
                    return false;
                }
                dy = dy + 1;
            }
            dx = dx + 1;
        }
        true
    }

    /// Whether every tile of the `size` footprint whose lower-left corner is
    /// `pos` has its place in the cell storage, which `occupy` needs.
    pub fn fits(&self, pos: TilePos, size: UVec2) -> (ok: bool)
        requires
            self.wf(),
        ensures
            ok == footprint_in_grid(self.map_size(), pos, size),
            ok == (size.x == 0 || size.y == 0 || (pos.y + size.y - 1) * self.map_size().x + pos.x + size.x
                - 1 < self.map_size().x * self.map_size().y),
    {
        if size.x == 0 || size.y == 0 {
            return true;
        }
        let ghost map = self.size;
        let rows: u128 = pos.y as u128 + size.y as u128 - 1;
        proof {
            lemma_product_bound(rows as int, map.x as int);
        }
        let last: u128 = rows * (self.size.x as u128) + pos.x as u128 + size.x as u128 - 1;
        assert(last == footprint_index(map, pos, size.x - 1, size.y - 1));
        let ok = last < self.cells.len() as u128;
        if ok {
            assert forall|dx: int, dy: int| 0 <= dx < size.x && 0 <= dy < size.y implies #[trigger] footprint_index(map, pos, dx, dy)
                < map.x * map.y by {
                lemma_index_monotone(pos.y + dy, pos.y + size.y - 1, pos.x + dx, pos.x + size.x - 1, map.x as int);
            }
        } else {
            assert(!(footprint_index(map, pos, size.x - 1, size.y - 1) < map.x * map.y));
        }
        ok
    }

    /// Empties every tile on which `entity` stands.
    pub fn free(&mut self, entity: Entity)
        requires
            old(self).wf(),
        ensures
            final(self).wf(),
            final(self).map_size() == old(self).map_size(),
            final(self).cells() == freed_cells(old(self).cells(), entity),
            !final(self).cells().contains(Some(entity)),
            final(self).cells().len() == old(self).cells().len(),
            forall|i: int|
                0 <= i < old(self).cells().len() ==> #[trigger] final(self).cells()[i] == if old(
                    self,
                ).cells()[i] == Some(entity) {
                    None
                } else {
                    old(self).cells()[i]
                },
    {
        let n = self.cells.len();
        let mut i: usize = 0;
        while i < n
            invariant
                n == old(self).cells@.len(),
                self.size == old(self).size,
                self.cells@.len() == n,
                i <= n,
                forall|j: int| 0 <= j < i ==> #[trigger] self.cells@[j] == freed_cells(old(self).cells@, entity)[j],
                forall|j: int| i <= j < n ==> #[trigger] self.cells@[j] == old(self).cells@[j],
            decreases n - i,
        {
            let holds = match self.cells[i] {
                Some(to_free) => to_free == entity,
                None => false,
            };
            if holds {
                self.cells.set(i, None);
            }
            i = i + 1;
        }
        assert(self.cells@ == freed_cells(old(self).cells@, entity));
    }

    /// Gives every tile of the `size` footprint whose lower-left corner is
    /// `pos` to `entity`, whoever stood there before.
    pub fn occupy(&mut self, pos: TilePos, size: UVec2, entity: Entity)
        requires
            old(self).wf(),
            footprint_in_grid(old(self).map_size(), pos, size),
        ensures
            final(self).wf(),
            final(self).map_size() == old(self).map_size(),
            final(self).cells() == occupied_cells(old(self).cells(), old(self).map_size(), pos, size, entity),
    {
        let ghost map = self.size;
        let ghost before = self.cells@;
        let ghost n = before.len();
        let mut dx: u32 = 0;
        while dx < size.x
            invariant
                self.size == map,
                old(self).wf(),
                map == old(self).size,
                before == old(self).cells@,
                n == before.len(),
                self.cells@.len() == n,
                footprint_in_grid(map, pos, size),
                dx <= size.x,
                forall|i: int| 0 <= i < n ==> #[trigger] self.cells@[i] == if in_footprint(map, pos, dx as int, size.y as int, i) {
                    Some(entity)
                } else {
                    before[i]
                },
            decreases size.x - dx,
        {
            let mut dy: u32 = 0;
            while dy < size.y
                invariant
                    self.size == map,
                    old(self).wf(),
                    map == old(self).size,
                    before == old(self).cells@,
                    n == before.len(),
                    self.cells@.len() == n,
                    footprint_in_grid(map, pos, size),
                    dx < size.x,
                    dy <= size.y,
                    forall|i: int| 0 <= i < n ==> #[trigger] self.cells@[i] == if in_footprint(map, pos, dx as int, size.y as int, i)
                        || in_footprint(map, pos, dx + 1, dy as int, i) {
                        Some(entity)
                    } else {
                        before[i]
                    },
                decreases size.y - dy,
            {
                let ghost k = footprint_index(map, pos, dx as int, dy as int);
                assert(k < map.x * map.y);
                proof {
                    lemma_index_bounds((pos.y + dy) as int, map.x as int, (pos.x + dx) as int, map.y as int);
                }
                let tile = TilePos { x: pos.x + dx, y: pos.y + dy };
                let insertion_index = self.index(&tile);
                self.cells.set(insertion_index, Some(entity));
                assert forall|i: int| 0 <= i < n implies #[trigger] self.cells@[i] == if in_footprint(map, pos, dx as int, size.y as int, i)
                    || in_footprint(map, pos, dx + 1, dy + 1, i) {
                    Some(entity)
                } else {
                    before[i]
                } by {
                    if i == k {
                        assert(in_footprint(map, pos, dx + 1, dy + 1, i));
                    } else if in_footprint(map, pos, dx + 1, dy + 1, i) {
                        let (a, b) = choose|a: int, b: int|
                            0 <= a < dx + 1 && 0 <= b < dy + 1 && i == #[trigger] footprint_index(map, pos, a, b);
                        if a < dx {
                            assert(in_footprint(map, pos, dx as int, size.y as int, i));
                        } else if b < dy {
                            assert(in_footprint(map, pos, dx + 1, dy as int, i));
                        } else {
                            assert(i == k);
                        }
                    }
                }
                dy = dy + 1;
            }
            assert forall|i: int| 0 <= i < n implies #[trigger] self.cells@[i] == if in_footprint(map, pos, dx + 1, size.y as int, i) {
                Some(entity)
            } else {
                before[i]
            } by {
                if in_footprint(map, pos, dx + 1, size.y as int, i) {
                    let (a, b) = choose|a: int, b: int|
                        0 <= a < dx + 1 && 0 <= b < size.y && i == #[trigger] footprint_index(map, pos, a, b);
                    if a < dx {
                        assert(in_footprint(map, pos, dx as int, size.y as int, i));
                    } else {
                        assert(in_footprint(map, pos, dx + 1, size.y as int, i));
                    }
                }
            }
            dx = dx + 1;
        }
        assert(self.cells@ == occupied_cells(before, map, pos, size, entity));
    }
}


/// A footprint whose tiles are all free lies inside the map, so it can be
/// occupied without leaving the cell storage.
pub proof fn lemma_free_region_fits(occ: Occupancy, pos: TilePos, extent: UVec2)
    requires
        occ.wf(),
        occ.region_free(pos, extent),
    ensures
        footprint_in_grid(occ.map_size(), pos, extent),
{
    let size = occ.map_size();
    assert forall|dx: int, dy: int| 0 <= dx < extent.x && 0 <= dy < extent.y implies #[trigger] footprint_index(size, pos, dx, dy)
        < size.x * size.y by {
        assert(occ.offset_free(pos, dx, dy));
        lemma_index_in_grid(size.x as int, size.y as int, pos.x + dx, pos.y + dy);
    }
}

/// Once a footprint has been given to an entity, none of its tiles is free.
pub proof fn lemma_occupied_region_taken(
    before: Occupancy,
    after: Occupancy,
    pos: TilePos,
    extent: UVec2,
    e: Entity,
)
    requires
        before.wf(),
        footprint_in_grid(before.map_size(), pos, extent),
        after.map_size() == before.map_size(),
        after.cells() == occupied_cells(before.cells(), before.map_size(), pos, extent, e),
    ensures
        forall|dx: int, dy: int| 0 <= dx < extent.x && 0 <= dy < extent.y ==> !#[trigger] after.offset_free(pos, dx, dy),
        extent.x > 0 && extent.y > 0 ==> !after.region_free(pos, extent),
{
    let size = before.map_size();
    assert forall|dx: int, dy: int| 0 <= dx < extent.x && 0 <= dy < extent.y implies !#[trigger] after.offset_free(pos, dx, dy) by {
        let k = footprint_index(size, pos, dx, dy);
        assert(k < size.x * size.y);
        lemma_index_bounds(pos.y + dy, size.x as int, pos.x + dx, size.y as int);
        assert(in_footprint(size, pos, extent.x as int, extent.y as int, k));
        assert(after.cells()[k] == Some(e));
    }
    if extent.x > 0 && extent.y > 0 {
        assert(!after.offset_free(pos, 0, 0));
    }
}

/// Placing an entity on free tiles and then freeing that entity gives back
/// the map as it was, provided the entity stood nowhere before.
pub proof fn lemma_free_undoes_occupy(occ: Occupancy, pos: TilePos, extent: UVec2, e: Entity)
    requires
        occ.wf(),
        occ.region_free(pos, extent),
        !occ.cells().contains(Some(e)),
    ensures
        freed_cells(occupied_cells(occ.cells(), occ.map_size(), pos, extent, e), e) == occ.cells(),
{
    let size = occ.map_size();
    let cells = occ.cells();
    let mid = occupied_cells(cells, size, pos, extent, e);
    let back = freed_cells(mid, e);
    assert forall|i: int| 0 <= i < cells.len() implies back[i] == cells[i] by {
        if in_footprint(size, pos, extent.x as int, extent.y as int, i) {
            let (dx, dy) = choose|dx: int, dy: int|
                0 <= dx < extent.x && 0 <= dy < extent.y && i == #[trigger] footprint_index(size, pos, dx, dy);
            assert(occ.offset_free(pos, dx, dy));
        } else {
            if cells[i] == Some(e) {
                assert(cells.contains(Some(e)));
            }
        }
    }
    assert(back =~= cells);
}

/// A valid map holds exactly one cell per tile, and every storage position
/// fits in a `u32`.
pub proof fn lemma_cell_per_tile(occ: Occupancy)
    requires
        occ.wf(),
    ensures
        occ.cells().len() == occ.map_size().x * occ.map_size().y,
        occ.map_size().x * occ.map_size().y <= u32::MAX,
        forall|x: int, y: int|
            0 <= x < occ.map_size().x && 0 <= y < occ.map_size().y ==> 0 <= #[trigger] tile_index(
                occ.map_size(),
                x,
                y,
            ) < occ.cells().len(),
{
    let size = occ.map_size();
    assert forall|x: int, y: int| 0 <= x < size.x && 0 <= y < size.y implies 0 <= #[trigger] tile_index(size, x, y)
        < occ.cells().len() by {
        lemma_index_in_grid(size.x as int, size.y as int, x, y);
    }
}

/// For a footprint inside the map, occupying it gives each tile of the map
/// to the entity when the tile lies in the footprint, and leaves every other
/// tile as it was.
pub proof fn lemma_occupy_tiles(before: Occupancy, after: Occupancy, pos: TilePos, extent: UVec2, e: Entity)
    requires
        before.wf(),
        pos.x + extent.x <= before.map_size().x,
        pos.y + extent.y <= before.map_size().y,
        after.map_size() == before.map_size(),
        after.cells() == occupied_cells(before.cells(), before.map_size(), pos, extent, e),
    ensures
        footprint_in_grid(before.map_size(), pos, extent),
        forall|x: int, y: int|
            0 <= x < before.map_size().x && 0 <= y < before.map_size().y ==> #[trigger] after.cells()[y * before.map_size().x + x] == if pos.x <= x < pos.x + extent.x && pos.y <= y < pos.y + extent.y {
                Some(e)
            } else {
                before.cells()[tile_index(before.map_size(), x, y)]
            },
{
    let size = before.map_size();
    lemma_cell_per_tile(before);
    assert forall|dx: int, dy: int| 0 <= dx < extent.x && 0 <= dy < extent.y implies #[trigger] footprint_index(size, pos, dx, dy)
        < size.x * size.y by {
        lemma_index_in_grid(size.x as int, size.y as int, pos.x + dx, pos.y + dy);
    }
    assert forall|x: int, y: int| 0 <= x < size.x && 0 <= y < size.y implies #[trigger] after.cells()[y * size.x + x]
        == if pos.x <= x < pos.x + extent.x && pos.y <= y < pos.y + extent.y {
        Some(e)
    } else {
        before.cells()[y * size.x + x]
    } by {
        let i = tile_index(size, x, y);
        lemma_index_in_grid(size.x as int, size.y as int, x, y);
        if pos.x <= x < pos.x + extent.x && pos.y <= y < pos.y + extent.y {
            assert(i == footprint_index(size, pos, x - pos.x, y - pos.y));
            assert(in_footprint(size, pos, extent.x as int, extent.y as int, i));
        } else if in_footprint(size, pos, extent.x as int, extent.y as int, i) {
            let (dx, dy) = choose|dx: int, dy: int|
                0 <= dx < extent.x && 0 <= dy < extent.y && i == #[trigger] footprint_index(size, pos, dx, dy);
            lemma_index_unique(y, x, pos.y + dy, pos.x + dx, size.x as int);
        }
    }
}

/// A tile is free exactly when it lies on the map and its own cell is empty,
/// whatever the other cells hold.
pub proof fn lemma_tile_free_cells(occ: Occupancy, x: int, y: int)
    ensures
        occ.tile_free(x, y) <==> {
            &&& 0 <= x < occ.map_size().x
            &&& 0 <= y < occ.map_size().y
            &&& occ.cells()[y * occ.map_size().x + x] is None
        },
{
}

/// A footprint is free exactly when each of its own tiles lies on the map and
/// has an empty cell, whatever the cells outside the footprint hold.
pub proof fn lemma_region_free_cells(occ: Occupancy, pos: TilePos, extent: UVec2)
    ensures
        occ.region_free(pos, extent) <==> (forall|dx: int, dy: int|
            0 <= dx < extent.x && 0 <= dy < extent.y ==> {
                &&& pos.x + dx < occ.map_size().x
                &&& pos.y + dy < occ.map_size().y
                &&& #[trigger] occ.cells()[(pos.y + dy) * occ.map_size().x + pos.x + dx] is None
            }),
{
    let size = occ.map_size();
    let direct = forall|dx: int, dy: int|
        0 <= dx < extent.x && 0 <= dy < extent.y ==> {
            &&& pos.x + dx < size.x
            &&& pos.y + dy < size.y
            &&& #[trigger] occ.cells()[(pos.y + dy) * size.x + pos.x + dx] is None
        };
    if occ.region_free(pos, extent) {
        assert forall|dx: int, dy: int| 0 <= dx < extent.x && 0 <= dy < extent.y implies {
            &&& pos.x + dx < size.x
            &&& pos.y + dy < size.y
            &&& #[trigger] occ.cells()[(pos.y + dy) * size.x + pos.x + dx] is None
        } by {
            assert(occ.offset_free(pos, dx, dy));
            lemma_tile_free_cells(occ, pos.x + dx, pos.y + dy);
        }
    }
    if direct {
        assert forall|dx: int, dy: int| 0 <= dx < extent.x && 0 <= dy < extent.y implies #[trigger] occ.offset_free(
            pos,
            dx,
            dy,
        ) by {
            assert(occ.cells()[(pos.y + dy) * size.x + pos.x + dx] is None);
            lemma_tile_free_cells(occ, pos.x + dx, pos.y + dy);
        }
    }
}

/// Freeing an entity twice frees no more than freeing it once.
pub proof fn lemma_free_idempotent(cells: Seq<Option<Entity>>, e: Entity)
    ensures
        freed_cells(freed_cells(cells, e), e) == freed_cells(cells, e),
{
    assert(freed_cells(freed_cells(cells, e), e) =~= freed_cells(cells, e));
}

} // verus!

//! The dungeon: a grid of tiles with its field-of-view state, and the
//! generator that carves rooms and corridors into it.

use vstd::prelude::*;
use crate::components::Color;
use crate::fov::FovMap;
use crate::grid::cell;
use crate::grid::cell_index;
use crate::grid::filled;
use crate::grid::in_grid;
use crate::grid::lemma_cell_in_range;
use crate::grid::lemma_cell_unique;
use crate::random::Rng;
use crate::rect::Rect;

verus! {

/// The largest extent that is drawn for a room is one more than this.
pub const ROOM_MAX_SIZE: i32 = 10;

/// The smallest extent of a room.
pub const ROOM_MIN_SIZE: i32 = 6;

/// The number of rooms that generation tries to place.
pub const MAX_ROOMS: i32 = 30;

/// How far the player sees.
pub const TORCH_RADIUS: i32 = 10;

/// One cell of the dungeon.
#[derive(Clone, Copy, Debug, PartialEq, Eq, Structural)]
pub struct Tile {
    pub blocked: bool,
    pub block_sight: bool,
}

impl Tile {
    /// A floor tile: it can be walked on and seen through.
    #[verifier::allow_in_spec]
    pub fn empty() -> Tile
        returns
            (Tile { blocked: false, block_sight: false }),
    {
        Tile { blocked: false, block_sight: false }
    }

    /// A wall tile: it stops movement and sight.
    #[verifier::allow_in_spec]
    pub fn wall() -> Tile
        returns
            (Tile { blocked: true, block_sight: true }),
    {
        Tile { blocked: true, block_sight: true }
    }
}

/// How a tile is painted.
#[derive(Clone, Copy, Debug, PartialEq, Eq, Structural)]
pub enum Shade {
    /// Never in view.
    Unseen,
    /// In view once, but not now.
    Remembered,
    /// A wall in view.
    LitWall,
    /// Floor in view.
    LitGround,
}

impl Shade {
    /// The shade of a tile from what is known of it.
    pub open spec fn of(visible: bool, seen: bool, wall: bool) -> Shade {
        if visible {
            if wall {
                Shade::LitWall
            } else {
                Shade::LitGround
            }
        } else if seen {
            Shade::Remembered
        } else {
            Shade::Unseen
        }
    }

    /// The colour of this shade.
    pub open spec fn color_spec(self) -> Color {
        match self {
            Shade::Unseen => Color { r: 0, g: 0, b: 100 },
            Shade::Remembered => Color { r: 50, g: 50, b: 150 },
            Shade::LitWall => Color { r: 130, g: 110, b: 50 },
            Shade::LitGround => Color { r: 200, g: 180, b: 50 },
        }
    }

    /// The shade of a tile from what is known of it.
    pub fn classify(visible: bool, seen: bool, wall: bool) -> (s: Shade)
        ensures
            s == Shade::of(visible, seen, wall),
    {
        if visible {
            if wall {
                Shade::LitWall
            } else {
                Shade::LitGround
            }
        } else if seen {
            Shade::Remembered
        } else {
            Shade::Unseen
        }
    }

    /// The colour of this shade.
    pub fn color(self) -> (c: Color)
        ensures
            c == self.color_spec(),
    {
        match self {
            Shade::Unseen => Color { r: 0, g: 0, b: 100 },
            Shade::Remembered => Color { r: 50, g: 50, b: 150 },
            Shade::LitWall => Color { r: 130, g: 110, b: 50 },
            Shade::LitGround => Color { r: 200, g: 180, b: 50 },
        }
    }
}

/// The dungeon map.
pub struct GameMap {
    map: Vec<Tile>,
    width: i32,
    height: i32,
    fov: FovMap,
    rooms: Vec<Rect>,
}

impl GameMap {
    /// The representation invariant: one tile and one field-of-view entry
    /// per cell.
    pub closed spec fn wf(&self) -> bool {
        &&& 0 <= self.width
        &&& 0 <= self.height
        &&& self.width * self.height <= i32::MAX
        &&& self.map@.len() == self.width * self.height
        &&& self.fov.wf()
        &&& self.fov.width_spec() == self.width
        &&& self.fov.height_spec() == self.height
    }

    /// The number of columns.
    pub closed spec fn width_spec(&self) -> int {
        self.width as int
    }

    /// The number of rows.
    pub closed spec fn height_spec(&self) -> int {
        self.height as int
    }

    /// Whether `(x, y)` is a cell of the map.
    pub open spec fn in_bounds(&self, x: int, y: int) -> bool {
        in_grid(self.width_spec(), self.height_spec(), x, y)
    }

    /// The tile at `(x, y)`; outside the map, a wall.
    pub closed spec fn tile_at(&self, x: int, y: int) -> Tile {
        if self.in_bounds(x, y) {
            self.map@[cell(self.width as int, x, y)]
        } else {
            Tile::wall()
        }
    }

    /// Whether `(x, y)` is a cell that can be walked on.
    pub open spec fn floor_at(&self, x: int, y: int) -> bool {
        self.in_bounds(x, y) && !self.tile_at(x, y).blocked
    }

    /// The field-of-view state.
    pub closed spec fn fov_spec(&self) -> FovMap {
        self.fov
    }

    /// The rooms that the last generation placed, in the order of placing.
    pub closed spec fn rooms_spec(&self) -> Seq<Rect> {
        self.rooms@
    }

    /// Whether the two maps have the same size and the same tiles.
    pub open spec fn same_tiles(&self, other: &GameMap) -> bool {
        &&& self.width_spec() == other.width_spec()
        &&& self.height_spec() == other.height_spec()
        &&& forall|x: int, y: int|
            #![trigger self.tile_at(x, y)]
            #![trigger other.tile_at(x, y)]
            self.tile_at(x, y) == other.tile_at(x, y)
    }

    /// The field-of-view state of a well-formed map is well formed and as
    /// large as the map, and the map is no larger than an `i32` holds.
    pub proof fn lemma_fov_fits(&self)
        requires
            self.wf(),
        ensures
            self.fov_spec().wf(),
            self.fov_spec().width_spec() == self.width_spec(),
            self.fov_spec().height_spec() == self.height_spec(),
            0 <= self.width_spec() <= i32::MAX,
            0 <= self.height_spec() <= i32::MAX,
    {
    }

    /// A map `width` by `height`, all wall, nothing seen, no rooms.
    pub fn new(width: i32, height: i32) -> (m: GameMap)
        requires
            0 <= width,
            0 <= height,
            width * height <= i32::MAX,
        ensures
            m.wf(),
            m.width_spec() == width,
            m.height_spec() == height,
            m.fov_spec().width_spec() == width,
            m.fov_spec().height_spec() == height,
            forall|x: int, y: int| #[trigger] m.tile_at(x, y) == Tile::wall(),
            m.rooms_spec().len() == 0,
            forall|x: int, y: int| !#[trigger] m.fov_spec().visible_at(x, y),
            forall|x: int, y: int| !#[trigger] m.fov_spec().seen_at(x, y),
            forall|x: int, y: int| !#[trigger] m.fov_spec().transparent_at(x, y),
    {
        assert(0 <= width * height) by (nonlinear_arith)
            requires
                0 <= width,
                0 <= height,
        ;
        let n = (width * height) as usize;
        let m = GameMap {
            map: filled(Tile::wall(), n),
            width,
            height,
            fov: FovMap::new(width, height),
            rooms: Vec::new(),
        };
        proof {
            assert forall|x: int, y: int| #[trigger] m.tile_at(x, y) == Tile::wall() by {
                if m.in_bounds(x, y) {
                    lemma_cell_in_range(width as int, height as int, x, y);
                }
            }
        }
        m
    }

    /// The number of columns.
    pub fn width(&self) -> (w: i32)
        ensures
            w == self.width_spec(),
    {
        self.width
    }

    /// The number of rows.
    pub fn height(&self) -> (h: i32)
        ensures
            h == self.height_spec(),
    {
        self.height
    }

    /// The rooms that the last generation placed.
    pub fn rooms(&self) -> (r: &Vec<Rect>)
        ensures
            r@ == self.rooms_spec(),
    {
        &self.rooms
    }

    /// The tile at `(x, y)`; outside the map, a wall.
    pub fn get(&self, x: i32, y: i32) -> (t: Tile)
        requires
            self.wf(),
        ensures
            t == self.tile_at(x as int, y as int),
    {
        if x < 0 || x >= self.width || y < 0 || y >= self.height {
            Tile::wall()
        } else {
            self.map[cell_index(self.width, self.height, x, y)]
        }
    }

    /// Replaces the tile at `(x, y)`. Outside the map this does nothing.
    /// The field-of-view state is left as it is.
    pub fn set_tile(&mut self, x: i32, y: i32, tile: Tile)
        requires
            old(self).wf(),
        ensures
            final(self).wf(),
            final(self).width_spec() == old(self).width_spec(),
            final(self).height_spec() == old(self).height_spec(),
            final(self).fov_spec() == old(self).fov_spec(),
            final(self).rooms_spec() == old(self).rooms_spec(),
            forall|a: int, b: int| #[trigger]
                final(self).tile_at(a, b) == if a == x && b == y && old(self).in_bounds(a, b) {
                    tile
                } else {
                    old(self).tile_at(a, b)
                },
    {
        if x < 0 || x >= self.width || y < 0 || y >= self.height {
            return ;
        }
        let i = cell_index(self.width, self.height, x, y);
        self.map.set(i, tile);
        proof {
            let w = self.width as int;
            let h = self.height as int;
            assert forall|a: int, b: int|
                final(self).tile_at(a, b) == if a == x && b == y && old(self).in_bounds(a, b) {
                    tile
                } else {
                    old(self).tile_at(a, b)
                } by {
                if in_grid(w, h, a, b) && cell(w, a, b) == i {
                    lemma_cell_unique(w, h, a, b, x as int, y as int);
                }
                if in_grid(w, h, a, b) {
                    lemma_cell_in_range(w, h, a, b);
                }
            }
        }
    }

    /// Whether `(x, y)` can be walked on: it is a cell of the map and its
    /// tile does not block.
    pub fn can_walk(&self, x: i32, y: i32) -> (b: bool)
        requires
            self.wf(),
        ensures
            b == self.floor_at(x as int, y as int),
    {
        if x < 0 || x >= self.width || y < 0 || y >= self.height {
            false
        } else {
            !self.map[cell_index(self.width, self.height, x, y)].blocked
        }
    }

    /// Whether `(x, y)` is in view.
    pub fn is_in_fov(&self, x: i32, y: i32) -> (b: bool)
        requires
            self.wf(),
        ensures
            b == self.fov_spec().visible_at(x as int, y as int),
    {
        self.fov.is_in_fov(x, y)
    }

    /// Whether `(x, y)` was ever in view.
    pub fn is_explored(&self, x: i32, y: i32) -> (b: bool)
        requires
            self.wf(),
        ensures
            b == self.fov_spec().seen_at(x as int, y as int),
    {
        self.fov.is_explored(x, y)
    }

    /// Recomputes what is in view from `(x, y)` at the torch radius.
    pub fn recompute_fov(&mut self, x: i32, y: i32)
        requires
            old(self).wf(),
        ensures
            final(self).wf(),
            final(self).same_tiles(old(self)),
            final(self).rooms_spec() == old(self).rooms_spec(),
            final(self).fov_spec().same_terrain(&old(self).fov_spec()),
            forall|a: int, b: int| #[trigger]
                final(self).fov_spec().visible_at(a, b) == old(self).fov_spec().lit(
                    x as int,
                    y as int,
                    TORCH_RADIUS as int,
                    a,
                    b,
                ),
            forall|a: int, b: int| #[trigger]
                final(self).fov_spec().seen_at(a, b) == (old(self).fov_spec().seen_at(a, b) || old(
                    self,
                ).fov_spec().lit(x as int, y as int, TORCH_RADIUS as int, a, b)),
    {
        self.fov.compute_fov(x, y, TORCH_RADIUS);
    }

    /// The shade of the tile at `(x, y)`.
    pub open spec fn shade_at(&self, x: int, y: int) -> Shade {
        Shade::of(
            self.fov_spec().visible_at(x, y),
            self.fov_spec().seen_at(x, y),
            self.tile_at(x, y).block_sight,
        )
    }

    /// The background colour of every tile, row by row.
    pub fn render(&self) -> (colors: Vec<Color>)
        requires
            self.wf(),
        ensures
            colors@.len() == self.width_spec() * self.height_spec(),
            forall|x: int, y: int|
                self.in_bounds(x, y) ==> colors@[#[trigger] cell(self.width_spec(), x, y)]
                    == self.shade_at(x, y).color_spec(),
    {
        let mut colors: Vec<Color> = Vec::new();
        let mut y: i32 = 0;
        while y < self.height
            invariant
                self.wf(),
                0 <= y <= self.height,
                colors@.len() == self.width * y,
                forall|a: int, b: int|
                    0 <= a < self.width && 0 <= b < y ==> colors@[#[trigger] cell(
                        self.width as int,
                        a,
                        b,
                    )] == self.shade_at(a, b).color_spec(),
            decreases self.height - y,
        {
            let mut x: i32 = 0;
            while x < self.width
                invariant
                    self.wf(),
                    0 <= y < self.height,
                    0 <= x <= self.width,
                    colors@.len() == self.width * y + x,
                    forall|a: int, b: int|
                        0 <= a < self.width && (0 <= b < y || (b == y && a < x))
                            ==> colors@[#[trigger] cell(self.width as int, a, b)] == self.shade_at(
                            a,
                            b,
                        ).color_spec(),
                decreases self.width - x,
            {
                let shade = Shade::classify(
                    self.fov.is_in_fov(x, y),
                    self.fov.is_explored(x, y),
                    self.get(x, y).block_sight,
                );
                proof {
                    assert(self.width * y + x == cell(self.width as int, x as int, y as int))
                        by (nonlinear_arith);
                    assert forall|a: int, b: int|
                        0 <= a < self.width && (0 <= b < y || (b == y && a < x)) implies cell(
                            self.width as int,
                            a,
                            b,
                        ) < self.width * y + x by {
                        if b < y {
                            assert(a + b * self.width < self.width * y + x) by (nonlinear_arith)
                                requires
                                    0 <= a < self.width,
                                    0 <= b < y,
                                    0 <= x,
                            ;
                        } else {
                            assert(b * self.width == self.width * y) by (nonlinear_arith)
                                requires
                                    b == y,
                            ;
                        }
                    }
                }
                colors.push(shade.color());
                x = x + 1;
            }
            proof {
                assert(self.width * y + self.width == self.width * (y + 1)) by (nonlinear_arith);
            }
            y = y + 1;
        }
        colors
    }
}

/// Whether two cells are the same or side by side.
pub open spec fn near(a: (int, int), b: (int, int)) -> bool {
    (a.0 == b.0 && (a.1 - b.1 == 1 || b.1 - a.1 == 1 || a.1 == b.1)) || (a.1 == b.1 && (a.0 - b.0
        == 1 || b.0 - a.0 == 1))
}

/// Whether `a` lies between `p` and `q`, whichever of the two is the smaller.
pub open spec fn between(a: int, p: int, q: int) -> bool {
    (p <= a <= q) || (q <= a <= p)
}

/// Whether `(x, y)` lies on the L-shaped corridor that joins the centres of
/// `from` and `to`: along the row of `from` and then the column of `to` if
/// `horizontal_first`, else along the column of `from` and then the row of
/// `to`.
pub open spec fn on_bend(from: Rect, to: Rect, horizontal_first: bool, x: int, y: int) -> bool {
    let p = from.center_spec();
    let n = to.center_spec();
    if horizontal_first {
        (y == p.1 && between(x, p.0, n.0)) || (x == n.0 && between(y, p.1, n.1))
    } else {
        (x == p.0 && between(y, p.1, n.1)) || (y == n.1 && between(x, p.0, n.0))
    }
}

/// The bends of the corridors once a room is placed after `rooms` with the
/// bend `horizontal_first`: one more than `bends`, unless the room is the
/// first and has no corridor.
pub open spec fn with_bend(rooms: Seq<Rect>, bends: Seq<bool>, horizontal_first: bool) -> Seq<
    bool,
> {
    if rooms.len() > 0 {
        bends.push(horizontal_first)
    } else {
        bends
    }
}

/// Whether `(x, y)` is dug out: it is inside one of the rooms, or on the
/// corridor between two rooms that were placed one after the other, where
/// `bends[i]` tells whether the corridor from room `i` to the next runs
/// along the row first.
pub open spec fn dug(rooms: Seq<Rect>, bends: Seq<bool>, x: int, y: int) -> bool {
    ||| exists|i: int| 0 <= i < rooms.len() && (#[trigger] rooms[i]).holds(x, y)
    ||| exists|i: int|
        0 <= i < bends.len() && i < rooms.len() - 1 && on_bend(
            #[trigger] rooms[i],
            rooms[i + 1],
            bends[i],
            x,
            y,
        )
}

/// What is dug out once a room is placed is what was dug out before, the
/// inside of the room, and its corridor to the room before.
pub proof fn lemma_dug_push(
    rooms: Seq<Rect>,
    bends: Seq<bool>,
    r: Rect,
    horizontal_first: bool,
    x: int,
    y: int,
)
    requires
        bends.len() == if rooms.len() > 0 {
            rooms.len() - 1
        } else {
            0
        },
    ensures
        dug(rooms.push(r), with_bend(rooms, bends, horizontal_first), x, y) <==> (dug(
            rooms,
            bends,
            x,
            y,
        ) || r.holds(x, y) || (rooms.len() > 0 && on_bend(
            rooms.last(),
            r,
            horizontal_first,
            x,
            y,
        ))),
{
    let more = rooms.push(r);
    let turns = with_bend(rooms, bends, horizontal_first);
    if dug(rooms, bends, x, y) {
        if exists|i: int| 0 <= i < rooms.len() && (#[trigger] rooms[i]).holds(x, y) {
            let i = choose|i: int| 0 <= i < rooms.len() && (#[trigger] rooms[i]).holds(x, y);
            assert(more[i].holds(x, y));
        } else {
            let i = choose|i: int|
                0 <= i < bends.len() && i < rooms.len() - 1 && on_bend(
                    #[trigger] rooms[i],
                    rooms[i + 1],
                    bends[i],
                    x,
                    y,
                );
            assert(more[i] == rooms[i] && more[i + 1] == rooms[i + 1] && turns[i] == bends[i]);
            assert(on_bend(more[i], more[i + 1], turns[i], x, y));
        }
    }
    if r.holds(x, y) {
        assert(more[rooms.len() as int].holds(x, y));
    }
    if rooms.len() > 0 && on_bend(rooms.last(), r, horizontal_first, x, y) {
        let i = rooms.len() - 1;
        assert(more[i] == rooms.last() && more[i + 1] == r && turns[i] == horizontal_first);
        assert(on_bend(more[i], more[i + 1], turns[i], x, y));
    }
    if dug(more, turns, x, y) {
        if exists|i: int| 0 <= i < more.len() && (#[trigger] more[i]).holds(x, y) {
            let i = choose|i: int| 0 <= i < more.len() && (#[trigger] more[i]).holds(x, y);
            if i < rooms.len() {
                assert(rooms[i].holds(x, y));
            }
        } else {
            let i = choose|i: int|
                0 <= i < turns.len() && i < more.len() - 1 && on_bend(
                    #[trigger] more[i],
                    more[i + 1],
                    turns[i],
                    x,
                    y,
                );
            if i < rooms.len() - 1 {
                assert(more[i] == rooms[i] && more[i + 1] == rooms[i + 1] && turns[i] == bends[i]);
                assert(on_bend(rooms[i], rooms[i + 1], bends[i], x, y));
            } else {
                assert(more[i] == rooms.last() && more[i + 1] == r);
            }
        }
    }
}

impl GameMap {
    /// Whether `path` is a walk over floor: each cell is floor and each step
    /// goes to a cell side by side with the last.
    pub open spec fn walk(&self, path: Seq<(int, int)>) -> bool {
        &&& path.len() > 0
        &&& forall|i: int| 0 <= i < path.len() ==> self.floor_at((#[trigger] path[i]).0, path[i].1)
        &&& forall|i: int| 0 <= i < path.len() - 1 ==> near(#[trigger] path[i], path[i + 1])
    }

    /// Whether a walk over floor leads from `a` to `b`.
    pub open spec fn connected(&self, a: (int, int), b: (int, int)) -> bool {
        exists|path: Seq<(int, int)>| #[trigger] self.walk(path) && path[0] == a && path.last() == b
    }

    /// Whether every floor cell of `self` is a floor cell of `other`.
    pub open spec fn floor_within(&self, other: &GameMap) -> bool {
        forall|x: int, y: int| #[trigger] self.floor_at(x, y) ==> other.floor_at(x, y)
    }

    /// Whether `r` can be a room of this map: it lies inside the map and
    /// has an interior.
    pub open spec fn fits(&self, r: Rect) -> bool {
        &&& 0 <= r.x1
        &&& r.x2 <= self.width_spec()
        &&& 0 <= r.y1
        &&& r.y2 <= self.height_spec()
        &&& r.x2 - r.x1 >= 2
        &&& r.y2 - r.y1 >= 2
    }

    /// Whether `r` can be placed as the next room: it can be a room of
    /// this map and shares no cell, outlines included, with a room placed
    /// before.
    pub open spec fn accepts(&self, r: Rect) -> bool {
        &&& self.fits(r)
        &&& forall|i: int|
            0 <= i < self.rooms_spec().len() ==> !(#[trigger] self.rooms_spec()[i]).overlaps(r)
    }

    /// What placing rooms establishes of rooms and tiles: every room lies
    /// inside the map, no two rooms share a cell, outlines included, the
    /// interior of every room is floor, a walk over floor leads from the
    /// centre of the first room to the centre of every room, and an
    /// L-shaped corridor of floor joins the centres of every two rooms that
    /// were placed one after the other.
    pub open spec fn laid_out(&self) -> bool {
        let rooms = self.rooms_spec();
        &&& forall|i: int| 0 <= i < rooms.len() ==> self.fits(#[trigger] rooms[i])
        &&& forall|i: int, j: int|
            0 <= i < j < rooms.len() ==> !(#[trigger] rooms[i]).overlaps(#[trigger] rooms[j])
        &&& forall|i: int, x: int, y: int|
            0 <= i < rooms.len() && (#[trigger] rooms[i]).holds(x, y) ==> #[trigger] self.floor_at(
                x,
                y,
            )
        &&& forall|i: int|
            0 <= i < rooms.len() ==> self.connected(
                rooms[0].center_spec(),
                (#[trigger] rooms[i]).center_spec(),
            )
        &&& forall|i: int| 0 <= i < rooms.len() - 1 ==> self.joined(#[trigger] rooms[i], rooms[i + 1])
    }

    /// Whether every cell of the bend from `from` to `to` is floor.
    pub open spec fn bend_is_floor(&self, from: Rect, to: Rect, horizontal_first: bool) -> bool {
        forall|x: int, y: int|
            on_bend(from, to, horizontal_first, x, y) ==> #[trigger] self.floor_at(x, y)
    }

    /// Whether an L-shaped corridor of floor joins the centres of `from` and
    /// `to`: every cell of one of the two bends is floor.
    pub open spec fn joined(&self, from: Rect, to: Rect) -> bool {
        self.bend_is_floor(from, to, true) || self.bend_is_floor(from, to, false)
    }
}

/// A walk from `a` to `b` and one from `b` to `c` make one from `a` to `c`.
pub proof fn lemma_connected_trans(m: &GameMap, a: (int, int), b: (int, int), c: (int, int))
    requires
        m.connected(a, b),
        m.connected(b, c),
    ensures
        m.connected(a, c),
{
    let p = choose|p: Seq<(int, int)>| #[trigger] m.walk(p) && p[0] == a && p.last() == b;
    let q = choose|q: Seq<(int, int)>| #[trigger] m.walk(q) && q[0] == b && q.last() == c;
    let r = p + q;
    assert forall|i: int| 0 <= i < r.len() implies m.floor_at((#[trigger] r[i]).0, r[i].1) by {
        if i < p.len() {
            assert(r[i] == p[i]);
        } else {
            assert(r[i] == q[i - p.len()]);
        }
    }
    assert forall|i: int| 0 <= i < r.len() - 1 implies near(#[trigger] r[i], r[i + 1]) by {
        if i < p.len() - 1 {
            assert(r[i] == p[i] && r[i + 1] == p[i + 1]);
        } else if i == p.len() - 1 {
            assert(r[i] == p[i] && r[i + 1] == q[0]);
        } else {
            assert(r[i] == q[i - p.len()] && r[i + 1] == q[i - p.len() + 1]);
        }
    }
    assert(m.walk(r) && r[0] == a && r.last() == c);
}

/// A walk lasts when floor is added.
pub proof fn lemma_connected_grows(m: &GameMap, n: &GameMap, a: (int, int), b: (int, int))
    requires
        m.connected(a, b),
        m.floor_within(n),
    ensures
        n.connected(a, b),
{
    let p = choose|p: Seq<(int, int)>| #[trigger] m.walk(p) && p[0] == a && p.last() == b;
    assert forall|i: int| 0 <= i < p.len() implies n.floor_at((#[trigger] p[i]).0, p[i].1) by {
        assert(m.floor_at(p[i].0, p[i].1));
    }
    assert(n.walk(p) && p[0] == a && p.last() == b);
}

/// A floor cell is connected to itself.
pub proof fn lemma_connected_refl(m: &GameMap, a: (int, int))
    requires
        m.floor_at(a.0, a.1),
    ensures
        m.connected(a, a),
{
    let p = seq![a];
    assert(m.walk(p) && p[0] == a && p.last() == a);
}

/// A stretch of floor along a row connects its two ends.
pub proof fn lemma_row_connected(m: &GameMap, y: int, xa: int, xb: int)
    requires
        forall|x: int| between(x, xa, xb) ==> #[trigger] m.floor_at(x, y),
    ensures
        m.connected((xa, y), (xb, y)),
{
    let p = if xa <= xb {
        Seq::new((xb - xa + 1) as nat, |i: int| (xa + i, y))
    } else {
        Seq::new((xa - xb + 1) as nat, |i: int| (xa - i, y))
    };
    assert forall|i: int| 0 <= i < p.len() implies m.floor_at((#[trigger] p[i]).0, p[i].1) by {
        assert(between(p[i].0, xa, xb));
    }
    assert(m.walk(p) && p[0] == (xa, y) && p.last() == (xb, y));
}

/// A stretch of floor along a column connects its two ends.
pub proof fn lemma_column_connected(m: &GameMap, x: int, ya: int, yb: int)
    requires
        forall|y: int| between(y, ya, yb) ==> #[trigger] m.floor_at(x, y),
    ensures
        m.connected((x, ya), (x, yb)),
{
    let p = if ya <= yb {
        Seq::new((yb - ya + 1) as nat, |i: int| (x, ya + i))
    } else {
        Seq::new((ya - yb + 1) as nat, |i: int| (x, ya - i))
    };
    assert forall|i: int| 0 <= i < p.len() implies m.floor_at((#[trigger] p[i]).0, p[i].1) by {
        assert(between(p[i].1, ya, yb));
    }
    assert(m.walk(p) && p[0] == (x, ya) && p.last() == (x, yb));
}

impl GameMap {
    /// Turns every cell of the map with `xa <= x <= xb` and `ya <= y <= yb`
    /// into floor.
    fn carve(&mut self, xa: i64, xb: i64, ya: i64, yb: i64)
        requires
            old(self).wf(),
        ensures
            final(self).wf(),
            final(self).width_spec() == old(self).width_spec(),
            final(self).height_spec() == old(self).height_spec(),
            final(self).fov_spec() == old(self).fov_spec(),
            final(self).rooms_spec() == old(self).rooms_spec(),
            forall|a: int, b: int| #[trigger]
                final(self).tile_at(a, b) == if xa <= a <= xb && ya <= b <= yb && old(
                    self,
                ).in_bounds(a, b) {
                    Tile::empty()
                } else {
                    old(self).tile_at(a, b)
                },
    {
        let x0: i64 = if xa < 0 {
            0
        } else {
            xa
        };
        let y0: i64 = if ya < 0 {
            0
        } else {
            ya
        };
        let x1: i64 = if xb >= self.width as i64 {
            self.width as i64 - 1
        } else {
            xb
        };
        let y1: i64 = if yb >= self.height as i64 {
            self.height as i64 - 1
        } else {
            yb
        };
        if x0 > x1 || y0 > y1 {
            return ;
        }
        let ghost before = *self;
        let mut y: i64 = y0;
        while y <= y1
            invariant
                self.wf(),
                before.wf(),
                0 <= x0 <= x1 < self.width,
                0 <= y0 <= y <= y1 + 1 <= self.height,
                x0 == if xa < 0 { 0 } else { xa },
                y0 == if ya < 0 { 0 } else { ya },
                x1 == if xb >= self.width { self.width - 1 } else { xb as int },
                y1 == if yb >= self.height { self.height - 1 } else { yb as int },
                self.width_spec() == before.width_spec(),
                self.height_spec() == before.height_spec(),
                self.fov_spec() == before.fov_spec(),
                self.rooms_spec() == before.rooms_spec(),
                forall|a: int, b: int| #[trigger]
                    self.tile_at(a, b) == if x0 <= a <= x1 && y0 <= b < y {
                        Tile::empty()
                    } else {
                        before.tile_at(a, b)
                    },
            decreases y1 + 1 - y,
        {
            let mut x: i64 = x0;
            while x <= x1
                invariant
                    self.wf(),
                    before.wf(),
                    0 <= x0 <= x <= x1 + 1 <= self.width,
                    0 <= y0 <= y <= y1 < self.height,
                    self.width_spec() == before.width_spec(),
                    self.height_spec() == before.height_spec(),
                    self.fov_spec() == before.fov_spec(),
                    self.rooms_spec() == before.rooms_spec(),
                    forall|a: int, b: int| #[trigger]
                        self.tile_at(a, b) == if (x0 <= a <= x1 && y0 <= b < y) || (x0 <= a < x
                            && b == y) {
                            Tile::empty()
                        } else {
                            before.tile_at(a, b)
                        },
                decreases x1 + 1 - x,
            {
                self.set_tile(x as i32, y as i32, Tile::empty());
                x = x + 1;
            }
            y = y + 1;
        }
    }

    /// Carves the interior of `room` into floor, as far as it lies on the
    /// map.
    pub fn create_room(&mut self, room: Rect)
        requires
            old(self).wf(),
        ensures
            final(self).wf(),
            final(self).width_spec() == old(self).width_spec(),
            final(self).height_spec() == old(self).height_spec(),
            final(self).fov_spec() == old(self).fov_spec(),
            final(self).rooms_spec() == old(self).rooms_spec(),
            forall|a: int, b: int| #[trigger]
                final(self).tile_at(a, b) == if room.holds(a, b) && old(self).in_bounds(a, b) {
                    Tile::empty()
                } else {
                    old(self).tile_at(a, b)
                },
    {
        self.carve(
            room.x1 as i64 + 1,
            room.x2 as i64 - 1,
            room.y1 as i64 + 1,
            room.y2 as i64 - 1,
        );
    }

    /// Carves the cells of row `y` from `x1` to `x2`, in either order, into
    /// floor, as far as they lie on the map.
    pub fn create_h_tunnel(&mut self, x1: i32, x2: i32, y: i32)
        requires
            old(self).wf(),
        ensures
            final(self).wf(),
            final(self).width_spec() == old(self).width_spec(),
            final(self).height_spec() == old(self).height_spec(),
            final(self).fov_spec() == old(self).fov_spec(),
            final(self).rooms_spec() == old(self).rooms_spec(),
            forall|a: int, b: int| #[trigger]
                final(self).tile_at(a, b) == if b == y && between(a, x1 as int, x2 as int) && old(
                    self,
                ).in_bounds(a, b) {
                    Tile::empty()
                } else {
                    old(self).tile_at(a, b)
                },
    {
        if x1 <= x2 {
            self.carve(x1 as i64, x2 as i64, y as i64, y as i64);
        } else {
            self.carve(x2 as i64, x1 as i64, y as i64, y as i64);
        }
    }

    /// Carves the cells of column `x` from `y1` to `y2`, in either order,
    /// into floor, as far as they lie on the map.
    pub fn create_v_tunnel(&mut self, y1: i32, y2: i32, x: i32)
        requires
            old(self).wf(),
        ensures
            final(self).wf(),
            final(self).width_spec() == old(self).width_spec(),
            final(self).height_spec() == old(self).height_spec(),
            final(self).fov_spec() == old(self).fov_spec(),
            final(self).rooms_spec() == old(self).rooms_spec(),
            forall|a: int, b: int| #[trigger]
                final(self).tile_at(a, b) == if a == x && between(b, y1 as int, y2 as int) && old(
                    self,
                ).in_bounds(a, b) {
                    Tile::empty()
                } else {
                    old(self).tile_at(a, b)
                },
    {
        if y1 <= y2 {
            self.carve(x as i64, x as i64, y1 as i64, y2 as i64);
        } else {
            self.carve(x as i64, x as i64, y2 as i64, y1 as i64);
        }
    }
}

/// The centre of a room that is at least two cells wide and high, and not
/// left of or above the origin, lies inside the room.
pub proof fn lemma_center_inside(r: Rect)
    requires
        0 <= r.x1,
        0 <= r.y1,
        r.x2 - r.x1 >= 2,
        r.y2 - r.y1 >= 2,
    ensures
        r.holds(r.center_spec().0, r.center_spec().1),
{
}

/// Whether `r` shares a cell with one of `rooms`.
fn overlaps_any(rooms: &Vec<Rect>, r: &Rect) -> (b: bool)
    ensures
        b == exists|j: int| 0 <= j < rooms@.len() && (#[trigger] rooms@[j]).overlaps(*r),
{
    let mut j: usize = 0;
    while j < rooms.len()
        invariant
            j <= rooms@.len(),
            forall|k: int| 0 <= k < j ==> !(#[trigger] rooms@[k]).overlaps(*r),
        decreases rooms@.len() - j,
    {
        if rooms[j].intersects_with(r) {
            return true;
        }
        j = j + 1;
    }
    false
}

impl GameMap {
    /// Where the player starts: the centre of the first room, or the corner
    /// of the map if there is no room.
    pub open spec fn spawn_point(&self) -> (int, int) {
        if self.rooms_spec().len() > 0 {
            self.rooms_spec()[0].center_spec()
        } else {
            (0, 0)
        }
    }

    /// Whether the field-of-view state has the terrain of the tiles: a cell
    /// lets light through unless its tile blocks sight, and can be walked
    /// on unless its tile blocks.
    pub open spec fn fov_synced(&self) -> bool {
        &&& forall|x: int, y: int|
            self.in_bounds(x, y) ==> #[trigger] self.fov_spec().transparent_at(x, y)
                == !self.tile_at(x, y).block_sight
        &&& forall|x: int, y: int|
            self.in_bounds(x, y) ==> #[trigger] self.fov_spec().walkable_at(x, y) == !self.tile_at(
                x,
                y,
            ).blocked
    }

    /// Joins the centres of two rooms by an L-shaped corridor: along the row
    /// first if `horizontal_first`, else along the column first.
    fn connect_rooms(&mut self, prev: Rect, next: Rect, horizontal_first: bool)
        requires
            old(self).wf(),
            old(self).fits(prev),
            old(self).fits(next),
        ensures
            final(self).wf(),
            final(self).width_spec() == old(self).width_spec(),
            final(self).height_spec() == old(self).height_spec(),
            final(self).fov_spec() == old(self).fov_spec(),
            final(self).rooms_spec() == old(self).rooms_spec(),
            old(self).floor_within(final(self)),
            forall|a: int, b: int| #[trigger]
                final(self).tile_at(a, b) == if on_bend(prev, next, horizontal_first, a, b) {
                    Tile::empty()
                } else {
                    old(self).tile_at(a, b)
                },
            final(self).connected(prev.center_spec(), next.center_spec()),
    {
        let (prev_x, prev_y) = prev.center();
        let (new_x, new_y) = next.center();
        proof {
            lemma_center_inside(prev);
            lemma_center_inside(next);
        }
        if horizontal_first {
            self.create_h_tunnel(prev_x, new_x, prev_y);
            let ghost mid = *self;
            self.create_v_tunnel(prev_y, new_y, new_x);
            proof {
                assert forall|x: int| between(x, prev_x as int, new_x as int) implies #[trigger]
                    mid.floor_at(x, prev_y as int) by {
                    assert(mid.tile_at(x, prev_y as int) == Tile::empty());
                }
                lemma_row_connected(&mid, prev_y as int, prev_x as int, new_x as int);
                assert(mid.floor_within(self));
                lemma_connected_grows(
                    &mid,
                    self,
                    (prev_x as int, prev_y as int),
                    (new_x as int, prev_y as int),
                );
                assert forall|y: int| between(y, prev_y as int, new_y as int) implies #[trigger]
                    self.floor_at(new_x as int, y) by {
                    assert(self.tile_at(new_x as int, y) == Tile::empty());
                }
                lemma_column_connected(self, new_x as int, prev_y as int, new_y as int);
                lemma_connected_trans(
                    self,
                    (prev_x as int, prev_y as int),
                    (new_x as int, prev_y as int),
                    (new_x as int, new_y as int),
                );
            }
        } else {
            self.create_v_tunnel(prev_y, new_y, prev_x);
            let ghost mid = *self;
            self.create_h_tunnel(prev_x, new_x, new_y);
            proof {
                assert forall|y: int| between(y, prev_y as int, new_y as int) implies #[trigger]
                    mid.floor_at(prev_x as int, y) by {
                    assert(mid.tile_at(prev_x as int, y) == Tile::empty());
                }
                lemma_column_connected(&mid, prev_x as int, prev_y as int, new_y as int);
                assert(mid.floor_within(self));
                lemma_connected_grows(
                    &mid,
                    self,
                    (prev_x as int, prev_y as int),
                    (prev_x as int, new_y as int),
                );
                assert forall|x: int| between(x, prev_x as int, new_x as int) implies #[trigger]
                    self.floor_at(x, new_y as int) by {
                    assert(self.tile_at(x, new_y as int) == Tile::empty());
                }
                lemma_row_connected(self, new_y as int, prev_x as int, new_x as int);
                lemma_connected_trans(
                    self,
                    (prev_x as int, prev_y as int),
                    (prev_x as int, new_y as int),
                    (new_x as int, new_y as int),
                );
            }
        }
    }

    /// Copies the terrain of the tiles into the field-of-view state. What
    /// is and what was in view stays as it is until the next computation.
    pub fn sync_fov(&mut self)
        requires
            old(self).wf(),
        ensures
            final(self).wf(),
            final(self).same_tiles(old(self)),
            final(self).rooms_spec() == old(self).rooms_spec(),
            final(self).fov_synced(),
            final(self).fov_spec().same_view(&old(self).fov_spec()),
    {
        let ghost before = *self;
        let mut y: i32 = 0;
        while y < self.height
            invariant
                self.wf(),
                0 <= y <= self.height,
                self.same_tiles(&before),
                self.rooms_spec() == before.rooms_spec(),
                self.fov_spec().same_view(&before.fov_spec()),
                forall|a: int, b: int|
                    self.in_bounds(a, b) && b < y ==> #[trigger] self.fov_spec().transparent_at(a, b)
                        == !self.tile_at(a, b).block_sight,
                forall|a: int, b: int|
                    self.in_bounds(a, b) && b < y ==> #[trigger] self.fov_spec().walkable_at(a, b)
                        == !self.tile_at(a, b).blocked,
            decreases self.height - y,
        {
            let mut x: i32 = 0;
            while x < self.width
                invariant
                    self.wf(),
                    0 <= y < self.height,
                    0 <= x <= self.width,
                    self.same_tiles(&before),
                    self.rooms_spec() == before.rooms_spec(),
                    self.fov_spec().same_view(&before.fov_spec()),
                    forall|a: int, b: int|
                        self.in_bounds(a, b) && (b < y || (b == y && a < x))
                            ==> #[trigger] self.fov_spec().transparent_at(a, b) == !self.tile_at(
                            a,
                            b,
                        ).block_sight,
                    forall|a: int, b: int|
                        self.in_bounds(a, b) && (b < y || (b == y && a < x))
                            ==> #[trigger] self.fov_spec().walkable_at(a, b) == !self.tile_at(
                            a,
                            b,
                        ).blocked,
                decreases self.width - x,
            {
                let t = self.get(x, y);
                self.fov.set(x, y, !t.block_sight, !t.blocked);
                x = x + 1;
            }
            y = y + 1;
        }
    }

    /// Whether `room` can be placed as the next room.
    pub fn can_place(&self, room: &Rect) -> (b: bool)
        requires
            self.wf(),
        ensures
            b == self.accepts(*room),
    {
        if room.x1 < 0 || room.y1 < 0 || room.x2 > self.width || room.y2 > self.height {
            return false;
        }
        if room.x2 as i64 - (room.x1 as i64) < 2 || room.y2 as i64 - (room.y1 as i64) < 2 {
            return false;
        }
        let taken = overlaps_any(&self.rooms, room);
        proof {
            if taken {
                let j = choose|j: int|
                    0 <= j < self.rooms@.len() && (#[trigger] self.rooms@[j]).overlaps(*room);
                assert(self.rooms_spec()[j].overlaps(*room));
            } else {
                assert forall|i: int| 0 <= i < self.rooms_spec().len() implies !(
                #[trigger] self.rooms_spec()[i]).overlaps(*room) by {
                    assert(!self.rooms@[i].overlaps(*room));
                }
            }
        }
        !taken
    }

    /// Places `room` as the next room: its interior is carved into floor,
    /// and if a room was placed before, the centres of that room and of
    /// this one are joined by an L-shaped corridor, along the row first if
    /// `horizontal_first`, else along the column first.
    pub fn place_room(&mut self, room: Rect, horizontal_first: bool)
        requires
            old(self).wf(),
            old(self).laid_out(),
            old(self).accepts(room),
        ensures
            final(self).wf(),
            final(self).laid_out(),
            final(self).width_spec() == old(self).width_spec(),
            final(self).height_spec() == old(self).height_spec(),
            final(self).fov_spec() == old(self).fov_spec(),
            final(self).rooms_spec() == old(self).rooms_spec().push(room),
            forall|a: int, b: int| #[trigger]
                final(self).tile_at(a, b) == if room.holds(a, b) || (old(self).rooms_spec().len()
                    > 0 && on_bend(old(self).rooms_spec().last(), room, horizontal_first, a, b)) {
                    Tile::empty()
                } else {
                    old(self).tile_at(a, b)
                },
    {
        let ghost m0 = *self;
        let ghost rooms = self.rooms_spec();
        self.create_room(room);
        let ghost m1 = *self;
        proof {
            lemma_center_inside(room);
            assert(m0.floor_within(&m1));
        }
        if self.rooms.len() == 0 {
            proof {
                lemma_connected_refl(self, room.center_spec());
            }
        } else {
            let prev = self.rooms[self.rooms.len() - 1];
            proof {
                assert(prev == rooms[rooms.len() - 1]);
                assert(m0.fits(prev));
            }
            self.connect_rooms(prev, room, horizontal_first);
            proof {
                let c0 = rooms[0].center_spec();
                lemma_connected_grows(&m0, &m1, c0, prev.center_spec());
                lemma_connected_grows(&m1, self, c0, prev.center_spec());
                lemma_connected_trans(self, c0, prev.center_spec(), room.center_spec());
            }
        }
        let ghost m2 = *self;
        self.rooms.push(room);
        proof {
            let more = rooms.push(room);
            let c0 = more[0].center_spec();
            assert(self.rooms_spec() == more);
            assert(self.same_tiles(&m2));
            assert(m1.floor_within(&m2));
            assert forall|i: int| 0 <= i < more.len() implies self.connected(
                c0,
                (#[trigger] more[i]).center_spec(),
            ) by {
                if i < rooms.len() {
                    assert(more[i] == rooms[i]);
                    lemma_connected_grows(&m0, &m1, c0, rooms[i].center_spec());
                    lemma_connected_grows(&m1, &m2, c0, rooms[i].center_spec());
                }
                lemma_same_tiles_same_walks(&m2, self, c0, more[i].center_spec());
            }
            assert forall|i: int, x: int, y: int|
                0 <= i < more.len() && (#[trigger] more[i]).holds(x, y)
                implies #[trigger] self.floor_at(x, y) by {
                if i < rooms.len() {
                    assert(more[i] == rooms[i]);
                    assert(m0.floor_at(x, y));
                    assert(m1.floor_at(x, y));
                } else {
                    assert(m1.tile_at(x, y) == Tile::empty());
                    assert(m1.floor_at(x, y));
                }
                assert(m2.floor_at(x, y));
                assert(self.tile_at(x, y) == m2.tile_at(x, y));
            }
            assert forall|i: int, j: int| 0 <= i < j < more.len() implies !(
            #[trigger] more[i]).overlaps(#[trigger] more[j]) by {
                if j < rooms.len() {
                    assert(more[i] == rooms[i] && more[j] == rooms[j]);
                } else {
                    assert(more[i] == rooms[i]);
                }
            }
            assert forall|i: int| 0 <= i < more.len() - 1 implies self.joined(
                #[trigger] more[i],
                more[i + 1],
            ) by {
                if i < rooms.len() - 1 {
                    assert(more[i] == rooms[i] && more[i + 1] == rooms[i + 1]);
                    assert(m0.joined(rooms[i], rooms[i + 1]));
                    lemma_joined_grows(&m0, self, rooms[i], rooms[i + 1]);
                } else {
                    assert(more[i] == rooms.last() && more[i + 1] == room);
                    assert forall|x: int, y: int|
                        on_bend(more[i], room, horizontal_first, x, y)
                        implies #[trigger] self.floor_at(x, y) by {
                        lemma_center_inside(more[i]);
                        lemma_center_inside(room);
                        assert(m0.fits(more[i]));
                        assert(self.tile_at(x, y) == m2.tile_at(x, y));
                        assert(m2.tile_at(x, y) == Tile::empty());
                    }
                    assert(self.bend_is_floor(more[i], room, horizontal_first));
                }
            }
            assert forall|i: int| 0 <= i < more.len() implies self.fits(#[trigger] more[i]) by {
                if i < rooms.len() {
                    assert(more[i] == rooms[i]);
                    assert(m0.fits(rooms[i]));
                }
            }
            assert forall|a: int, b: int| #[trigger]
                self.tile_at(a, b) == if room.holds(a, b) || (rooms.len() > 0 && on_bend(
                    rooms.last(),
                    room,
                    horizontal_first,
                    a,
                    b,
                )) {
                    Tile::empty()
                } else {
                    m0.tile_at(a, b)
                } by {
                assert(self.tile_at(a, b) == m2.tile_at(a, b));
                if room.holds(a, b) {
                    assert(m0.in_bounds(a, b));
                }
            }
        }
    }

    /// Forgets the rooms that were placed. The tiles stay as they are.
    pub fn forget_rooms(&mut self)
        requires
            old(self).wf(),
        ensures
            final(self).wf(),
            final(self).laid_out(),
            final(self).same_tiles(old(self)),
            final(self).fov_spec() == old(self).fov_spec(),
            final(self).rooms_spec().len() == 0,
    {
        self.rooms = Vec::new();
    }

    /// Whether the map is so large that every room that generation draws
    /// lies inside it, wherever it is drawn.
    pub open spec fn holds_any_room(&self) -> bool {
        self.width_spec() > ROOM_MAX_SIZE && self.height_spec() > ROOM_MAX_SIZE
    }

    /// Whether the tiles of this map are those of `before` with the rooms of
    /// this map and their corridors dug out, where `bends` tells for each
    /// corridor whether it runs along the row first.
    pub open spec fn dug_from(&self, before: &GameMap, bends: Seq<bool>) -> bool {
        &&& bends.len() == if self.rooms_spec().len() > 0 {
            self.rooms_spec().len() - 1
        } else {
            0
        }
        &&& forall|x: int, y: int| #[trigger]
            self.tile_at(x, y) == if dug(self.rooms_spec(), bends, x, y) {
                Tile::empty()
            } else {
                before.tile_at(x, y)
            }
    }

    /// Whether every room has extents as generation draws them.
    pub open spec fn rooms_drawn(&self) -> bool {
        forall|i: int|
            0 <= i < self.rooms_spec().len() ==> {
                let r = #[trigger] self.rooms_spec()[i];
                &&& ROOM_MIN_SIZE <= r.x2 - r.x1 <= ROOM_MAX_SIZE + 1
                &&& ROOM_MIN_SIZE <= r.y2 - r.y1 <= ROOM_MAX_SIZE + 1
            }
    }

    /// Generates the dungeon. The rooms of an earlier generation are
    /// forgotten. Then, up to `MAX_ROOMS` times, a room of random size is
    /// drawn at a random place inside the map and placed if it can be; one
    /// that is larger than the map, or cannot be placed, is dropped. The
    /// bend of the corridor to each room but the first is chosen by a fair
    /// coin. Tiles change nowhere but inside the rooms and on those
    /// corridors, where they become floor. The field-of-view state then takes the terrain of the tiles and
    /// is computed from the start, which is returned: the centre of the
    /// first room, or `(0, 0)` if no room was placed. On a map that holds
    /// any room the first room drawn is placed, so the start is floor.
    pub fn generate_map(&mut self, rng: &mut Rng) -> (start: (i32, i32))
        requires
            old(self).wf(),
        ensures
            final(self).wf(),
            final(self).width_spec() == old(self).width_spec(),
            final(self).height_spec() == old(self).height_spec(),
            final(self).laid_out(),
            final(self).rooms_drawn(),
            final(self).rooms_spec().len() <= MAX_ROOMS,
            old(self).holds_any_room() ==> final(self).rooms_spec().len() >= 1,
            old(self).holds_any_room() ==> final(self).floor_at(start.0 as int, start.1 as int),
            final(self).fov_spec().width_spec() == final(self).width_spec(),
            final(self).fov_spec().height_spec() == final(self).height_spec(),
            (start.0 as int, start.1 as int) == final(self).spawn_point(),
            exists|bends: Seq<bool>| #[trigger] final(self).dug_from(old(self), bends),
            final(self).fov_synced(),
            forall|x: int, y: int| #[trigger]
                final(self).fov_spec().visible_at(x, y) == final(self).fov_spec().lit(
                    start.0 as int,
                    start.1 as int,
                    TORCH_RADIUS as int,
                    x,
                    y,
                ),
            forall|x: int, y: int| #[trigger]
                final(self).fov_spec().seen_at(x, y) == (old(self).fov_spec().seen_at(x, y)
                    || final(self).fov_spec().visible_at(x, y)),
    {
        let ghost before = *self;
        self.forget_rooms();
        let ghost mut bends: Seq<bool> = Seq::empty();
        let mut start: (i32, i32) = (0, 0);
        let mut attempt: i32 = 0;
        while attempt < MAX_ROOMS
            invariant
                self.wf(),
                self.width_spec() == before.width_spec(),
                self.height_spec() == before.height_spec(),
                self.fov_spec() == before.fov_spec(),
                0 <= attempt <= MAX_ROOMS,
                self.rooms_spec().len() <= attempt,
                before.holds_any_room() && attempt >= 1 ==> self.rooms_spec().len() >= 1,
                self.laid_out(),
                self.rooms_drawn(),
                (start.0 as int, start.1 as int) == self.spawn_point(),
                self.dug_from(&before, bends),
            decreases MAX_ROOMS - attempt,
        {
            attempt = attempt + 1;
            let w = rng.get_int(ROOM_MIN_SIZE, ROOM_MAX_SIZE + 1);
            let h = rng.get_int(ROOM_MIN_SIZE, ROOM_MAX_SIZE + 1);
            if w <= self.width && h <= self.height {
                let x = rng.get_int(0, self.width - w);
                let y = rng.get_int(0, self.height - h);
                let new_room = Rect::new(x, y, w, h);
                if self.can_place(&new_room) {
                    let ghost m0 = *self;
                    let ghost rooms = self.rooms_spec();
                    let first = self.rooms.len() == 0;
                    let horizontal_first = !first && rng.get_int(0, 1) == 1;
                    self.place_room(new_room, horizontal_first);
                    if first {
                        start = new_room.center();
                    }
                    proof {
                        let more = self.rooms_spec();
                        assert forall|i: int| 0 <= i < more.len() implies {
                            let r = #[trigger] more[i];
                            &&& ROOM_MIN_SIZE <= r.x2 - r.x1 <= ROOM_MAX_SIZE + 1
                            &&& ROOM_MIN_SIZE <= r.y2 - r.y1 <= ROOM_MAX_SIZE + 1
                        } by {
                            if i < rooms.len() {
                                assert(more[i] == rooms[i]);
                            }
                        }
                        let turns = with_bend(rooms, bends, horizontal_first);
                        assert forall|x: int, y: int| #[trigger]
                            self.tile_at(x, y) == if dug(more, turns, x, y) {
                                Tile::empty()
                            } else {
                                before.tile_at(x, y)
                            } by {
                            lemma_dug_push(rooms, bends, new_room, horizontal_first, x, y);
                            assert(m0.tile_at(x, y) == if dug(rooms, bends, x, y) {
                                Tile::empty()
                            } else {
                                before.tile_at(x, y)
                            });
                        }
                        bends = turns;
                    }
                }
            }
        }
        let ghost placed = *self;
        self.sync_fov();
        let ghost synced = *self;
        self.recompute_fov(start.0, start.1);
        proof {
            lemma_same_tiles_laid_out(&placed, &synced);
            lemma_same_tiles_laid_out(&synced, self);
            if self.rooms_spec().len() >= 1 {
                assert(self.fits(self.rooms_spec()[0]));
                lemma_center_inside(self.rooms_spec()[0]);
            }
            assert forall|x: int, y: int| #[trigger]
                self.tile_at(x, y) == if dug(self.rooms_spec(), bends, x, y) {
                    Tile::empty()
                } else {
                    before.tile_at(x, y)
                } by {
                assert(self.tile_at(x, y) == synced.tile_at(x, y));
                assert(synced.tile_at(x, y) == placed.tile_at(x, y));
            }
            assert(self.dug_from(&before, bends));
            assert forall|x: int, y: int| self.in_bounds(x, y) implies #[trigger]
                self.fov_spec().transparent_at(x, y) == !self.tile_at(x, y).block_sight by {
                assert(self.tile_at(x, y) == synced.tile_at(x, y));
                assert(synced.fov_spec().transparent_at(x, y) == !synced.tile_at(x, y).block_sight);
            }
            assert forall|x: int, y: int| self.in_bounds(x, y) implies #[trigger]
                self.fov_spec().walkable_at(x, y) == !self.tile_at(x, y).blocked by {
                assert(self.tile_at(x, y) == synced.tile_at(x, y));
                assert(synced.fov_spec().walkable_at(x, y) == !synced.tile_at(x, y).blocked);
            }
            assert forall|x: int, y: int| #[trigger]
                self.fov_spec().visible_at(x, y) == self.fov_spec().lit(
                    start.0 as int,
                    start.1 as int,
                    TORCH_RADIUS as int,
                    x,
                    y,
                ) by {
                crate::fov::lemma_same_terrain_same_light(
                    &self.fov_spec(),
                    &synced.fov_spec(),
                    start.0 as int,
                    start.1 as int,
                    TORCH_RADIUS as int,
                    x,
                    y,
                );
            }
            assert forall|x: int, y: int| #[trigger]
                self.fov_spec().seen_at(x, y) == (before.fov_spec().seen_at(x, y)
                    || self.fov_spec().visible_at(x, y)) by {
                assert(synced.fov_spec().seen_at(x, y) == placed.fov_spec().seen_at(x, y));
            }
        }
        start
    }
}

/// What generation establishes lasts while tiles and rooms stay the same.
pub proof fn lemma_same_tiles_laid_out(m: &GameMap, n: &GameMap)
    requires
        m.laid_out(),
        n.same_tiles(m),
        n.rooms_spec() == m.rooms_spec(),
    ensures
        n.laid_out(),
{
    let rooms = n.rooms_spec();
    assert forall|i: int| 0 <= i < rooms.len() implies n.connected(
        rooms[0].center_spec(),
        (#[trigger] rooms[i]).center_spec(),
    ) by {
        lemma_same_tiles_same_walks(m, n, rooms[0].center_spec(), rooms[i].center_spec());
    }
    assert forall|i: int, x: int, y: int|
        0 <= i < rooms.len() && (#[trigger] rooms[i]).holds(x, y) implies #[trigger] n.floor_at(
        x,
        y,
    ) by {
        assert(m.floor_at(x, y));
        assert(n.tile_at(x, y) == m.tile_at(x, y));
    }
    assert(m.floor_within(n)) by {
        assert forall|x: int, y: int| #[trigger] m.floor_at(x, y) implies n.floor_at(x, y) by {
            assert(n.tile_at(x, y) == m.tile_at(x, y));
        }
    }
    assert forall|i: int| 0 <= i < rooms.len() - 1 implies n.joined(
        #[trigger] rooms[i],
        rooms[i + 1],
    ) by {
        lemma_joined_grows(m, n, rooms[i], rooms[i + 1]);
    }
}

/// A corridor of floor lasts when floor is added.
pub proof fn lemma_joined_grows(m: &GameMap, n: &GameMap, from: Rect, to: Rect)
    requires
        m.joined(from, to),
        m.floor_within(n),
    ensures
        n.joined(from, to),
{
    if m.bend_is_floor(from, to, true) {
        assert forall|x: int, y: int| on_bend(from, to, true, x, y) implies #[trigger] n.floor_at(
            x,
            y,
        ) by {
            assert(m.floor_at(x, y));
        }
    } else {
        assert forall|x: int, y: int| on_bend(from, to, false, x, y) implies #[trigger] n.floor_at(
            x,
            y,
        ) by {
            assert(m.floor_at(x, y));
        }
    }
}

/// Maps with the same tiles have the same walks.
pub proof fn lemma_same_tiles_same_walks(m: &GameMap, n: &GameMap, a: (int, int), b: (int, int))
    requires
        n.same_tiles(m),
        m.connected(a, b),
    ensures
        n.connected(a, b),
{
    assert(m.floor_within(n)) by {
        assert forall|x: int, y: int| #[trigger] m.floor_at(x, y) implies n.floor_at(x, y) by {
            assert(n.tile_at(x, y) == m.tile_at(x, y));
        }
    }
    lemma_connected_grows(m, n, a, b);
}

/// No two rooms of a generated map share a cell, even where each room is
/// taken with its outline of wall: between the floors of two rooms there
/// are always at least two cells.
pub proof fn law_rooms_apart(m: &GameMap, i: int, j: int, x: int, y: int)
    requires
        m.laid_out(),
        0 <= i < m.rooms_spec().len(),
        0 <= j < m.rooms_spec().len(),
        i != j,
    ensures
        !(m.rooms_spec()[i].covers(x, y) && m.rooms_spec()[j].covers(x, y)),
{
    let rooms = m.rooms_spec();
    if i < j {
        assert(!rooms[i].overlaps(rooms[j]));
    } else {
        assert(!rooms[j].overlaps(rooms[i]));
    }
}

/// In a generated map a walk over floor leads from the centre of the first
/// room to every cell inside every room.
pub proof fn law_rooms_connected(m: &GameMap, i: int, x: int, y: int)
    requires
        m.laid_out(),
        0 <= i < m.rooms_spec().len(),
        m.rooms_spec()[i].holds(x, y),
    ensures
        m.connected(m.rooms_spec()[0].center_spec(), (x, y)),
{
    let rooms = m.rooms_spec();
    let r = rooms[i];
    let c = r.center_spec();
    assert(m.fits(r));
    lemma_center_inside(r);
    assert forall|b: int| between(b, c.1, y) implies #[trigger] m.floor_at(c.0, b) by {
        assert(r.holds(c.0, b));
    }
    lemma_column_connected(m, c.0, c.1, y);
    assert forall|a: int| between(a, c.0, x) implies #[trigger] m.floor_at(a, y) by {
        assert(r.holds(a, y));
    }
    lemma_row_connected(m, y, c.0, x);
    lemma_connected_trans(m, c, (c.0, y), (x, y));
    assert(m.connected(rooms[0].center_spec(), rooms[i].center_spec()));
    lemma_connected_trans(m, rooms[0].center_spec(), c, (x, y));
}

/// In a generated map a walk over floor leads from any cell inside a room
/// to any cell inside any room.
pub proof fn law_dungeon_connected(m: &GameMap, i: int, x: int, y: int, j: int, u: int, v: int)
    requires
        m.laid_out(),
        0 <= i < m.rooms_spec().len(),
        0 <= j < m.rooms_spec().len(),
        m.rooms_spec()[i].holds(x, y),
        m.rooms_spec()[j].holds(u, v),
    ensures
        m.connected((x, y), (u, v)),
{
    law_rooms_connected(m, i, x, y);
    law_rooms_connected(m, j, u, v);
    let c0 = m.rooms_spec()[0].center_spec();
    lemma_connected_sym(m, c0, (x, y));
    lemma_connected_trans(m, (x, y), c0, (u, v));
}

/// A walk can be gone backwards.
pub proof fn lemma_connected_sym(m: &GameMap, a: (int, int), b: (int, int))
    requires
        m.connected(a, b),
    ensures
        m.connected(b, a),
{
    let p = choose|p: Seq<(int, int)>| #[trigger] m.walk(p) && p[0] == a && p.last() == b;
    let q = Seq::new(p.len(), |i: int| p[p.len() - 1 - i]);
    assert forall|i: int| 0 <= i < q.len() - 1 implies near(#[trigger] q[i], q[i + 1]) by {
        let k = p.len() - 2 - i;
        assert(near(p[k], p[k + 1]));
    }
    assert(m.walk(q) && q[0] == b && q.last() == a);
}

} // verus!

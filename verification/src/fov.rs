//! Field of view: which cells of a grid are seen from an origin, given which
//! cells let light through. A cell is lit when it is within the radius and
//! every cell of the straight line from the origin to it, the two ends
//! excluded, is transparent.

use vstd::prelude::*;
use crate::grid::cell;
use crate::grid::cell_index;
use crate::grid::filled;
use crate::grid::in_grid;
use crate::grid::lemma_cell_in_range;
use crate::grid::lemma_cell_unique;

verus! {

/// The absolute value of `a`.
pub open spec fn abs(a: int) -> int {
    if a >= 0 {
        a
    } else {
        -a
    }
}

/// The number of steps of the line over `(dx, dy)`: the longer of the two
/// extents.
pub open spec fn span(dx: int, dy: int) -> int {
    if abs(dx) >= abs(dy) {
        abs(dx)
    } else {
        abs(dy)
    }
}

/// `k * a / n` rounded to the nearest integer, halves away from zero.
pub open spec fn toward(a: int, k: int, n: int) -> int {
    if a >= 0 {
        (2 * k * a + n) / (2 * n)
    } else {
        -((2 * k * (-a) + n) / (2 * n))
    }
}

/// The `k`-th cell of the line from `(ox, oy)` to `(tx, ty)`. Step 0 is the
/// origin and step `span` is the target.
pub open spec fn ray_cell(ox: int, oy: int, tx: int, ty: int, k: int) -> (int, int) {
    let n = span(tx - ox, ty - oy);
    (ox + toward(tx - ox, k, n), oy + toward(ty - oy, k, n))
}

/// A step of the line stays between the origin and the target.
pub proof fn lemma_toward_bounds(a: int, k: int, n: int)
    requires
        0 <= k <= n,
        0 < n,
        abs(a) <= n,
    ensures
        a >= 0 ==> 0 <= toward(a, k, n) <= a,
        a < 0 ==> a <= toward(a, k, n) <= 0,
{
    let m = abs(a);
    let q = (2 * k * m + n) / (2 * n);
    assert(2 * k * m + n >= 0) by (nonlinear_arith)
        requires
            k >= 0,
            m >= 0,
            n > 0,
    ;
    vstd::arithmetic::div_mod::lemma_fundamental_div_mod(2 * k * m + n, 2 * n);
    vstd::arithmetic::div_mod::lemma_mod_bound(2 * k * m + n, 2 * n);
    assert(0 <= q <= m) by (nonlinear_arith)
        requires
            2 * k * m + n == (2 * n) * q + (2 * k * m + n) % (2 * n),
            0 <= (2 * k * m + n) % (2 * n) < 2 * n,
            0 <= k <= n,
            0 < n,
            0 <= m,
    ;
}

/// The line starts at the origin and ends at the target.
pub proof fn law_ray_ends(ox: int, oy: int, tx: int, ty: int)
    requires
        span(tx - ox, ty - oy) > 0,
    ensures
        ray_cell(ox, oy, tx, ty, 0) == (ox, oy),
        ray_cell(ox, oy, tx, ty, span(tx - ox, ty - oy)) == (tx, ty),
{
    let n = span(tx - ox, ty - oy);
    lemma_toward_ends(tx - ox, n);
    lemma_toward_ends(ty - oy, n);
}

/// Rounded scaling by `0 / n` gives 0 and by `n / n` gives the whole.
pub proof fn lemma_toward_ends(a: int, n: int)
    requires
        0 < n,
        abs(a) <= n,
    ensures
        toward(a, 0, n) == 0,
        toward(a, n, n) == a,
{
    let m = abs(a);
    assert(2 * 0 * m + n == n) by (nonlinear_arith);
    vstd::arithmetic::div_mod::lemma_fundamental_div_mod(n, 2 * n);
    vstd::arithmetic::div_mod::lemma_mod_bound(n, 2 * n);
    assert(n / (2 * n) == 0) by (nonlinear_arith)
        requires
            n == (2 * n) * (n / (2 * n)) + n % (2 * n),
            0 <= n % (2 * n) < 2 * n,
            0 < n,
    ;
    let x = 2 * n * m + n;
    vstd::arithmetic::div_mod::lemma_fundamental_div_mod(x, 2 * n);
    vstd::arithmetic::div_mod::lemma_mod_bound(x, 2 * n);
    assert(x / (2 * n) == m) by (nonlinear_arith)
        requires
            x == 2 * n * m + n,
            x == (2 * n) * (x / (2 * n)) + x % (2 * n),
            0 <= x % (2 * n) < 2 * n,
            0 < n,
            0 <= m,
    ;
}

/// From one step of the line to the next, each coordinate changes by one
/// at most: the line has no gaps.
pub proof fn law_ray_steps(ox: int, oy: int, tx: int, ty: int, k: int)
    requires
        0 <= k < span(tx - ox, ty - oy),
    ensures
        abs(ray_cell(ox, oy, tx, ty, k + 1).0 - ray_cell(ox, oy, tx, ty, k).0) <= 1,
        abs(ray_cell(ox, oy, tx, ty, k + 1).1 - ray_cell(ox, oy, tx, ty, k).1) <= 1,
{
    let n = span(tx - ox, ty - oy);
    lemma_toward_step(tx - ox, k, n);
    lemma_toward_step(ty - oy, k, n);
}

/// Rounded scaling moves by one at most when the numerator goes up by one.
pub proof fn lemma_toward_step(a: int, k: int, n: int)
    requires
        0 <= k < n,
        abs(a) <= n,
    ensures
        abs(toward(a, k + 1, n) - toward(a, k, n)) <= 1,
{
    let m = abs(a);
    let x = 2 * k * m + n;
    let y = 2 * (k + 1) * m + n;
    assert(y == x + 2 * m) by (nonlinear_arith)
        requires
            x == 2 * k * m + n,
            y == 2 * (k + 1) * m + n,
    ;
    vstd::arithmetic::div_mod::lemma_fundamental_div_mod(x, 2 * n);
    vstd::arithmetic::div_mod::lemma_mod_bound(x, 2 * n);
    vstd::arithmetic::div_mod::lemma_fundamental_div_mod(y, 2 * n);
    vstd::arithmetic::div_mod::lemma_mod_bound(y, 2 * n);
    let p = x / (2 * n);
    let q = y / (2 * n);
    assert(0 <= q - p <= 1) by (nonlinear_arith)
        requires
            x == (2 * n) * p + x % (2 * n),
            y == (2 * n) * q + y % (2 * n),
            0 <= x % (2 * n) < 2 * n,
            0 <= y % (2 * n) < 2 * n,
            y == x + 2 * m,
            0 <= m <= n,
            0 < n,
    ;
}

/// Per-cell visibility state of a grid: whether a cell lets light through,
/// whether it can be walked on, whether it is in view now, and whether it
/// was ever in view.
pub struct FovMap {
    width: i32,
    height: i32,
    transparent: Vec<bool>,
    walkable: Vec<bool>,
    visible: Vec<bool>,
    seen: Vec<bool>,
}

impl FovMap {
    /// The representation invariant: the dimensions are not negative and
    /// every layer has one entry per cell.
    pub closed spec fn wf(&self) -> bool {
        &&& 0 <= self.width
        &&& 0 <= self.height
        &&& self.width * self.height <= i32::MAX
        &&& self.transparent@.len() == self.width * self.height
        &&& self.walkable@.len() == self.width * self.height
        &&& self.visible@.len() == self.width * self.height
        &&& self.seen@.len() == self.width * self.height
    }

    /// The number of columns.
    pub closed spec fn width_spec(&self) -> int {
        self.width as int
    }

    /// The number of rows.
    pub closed spec fn height_spec(&self) -> int {
        self.height as int
    }

    /// Whether `(x, y)` is a cell of the grid.
    pub open spec fn in_bounds(&self, x: int, y: int) -> bool {
        in_grid(self.width_spec(), self.height_spec(), x, y)
    }

    /// Whether the cell `(x, y)` lets light through. No cell outside the
    /// grid does.
    pub closed spec fn transparent_at(&self, x: int, y: int) -> bool {
        self.in_bounds(x, y) && self.transparent@[cell(self.width as int, x, y)]
    }

    /// Whether the cell `(x, y)` can be walked on.
    pub closed spec fn walkable_at(&self, x: int, y: int) -> bool {
        self.in_bounds(x, y) && self.walkable@[cell(self.width as int, x, y)]
    }

    /// Whether the cell `(x, y)` is in view.
    pub closed spec fn visible_at(&self, x: int, y: int) -> bool {
        self.in_bounds(x, y) && self.visible@[cell(self.width as int, x, y)]
    }

    /// Whether the cell `(x, y)` was ever in view.
    pub closed spec fn seen_at(&self, x: int, y: int) -> bool {
        self.in_bounds(x, y) && self.seen@[cell(self.width as int, x, y)]
    }

    /// Whether the two maps agree on what lets light through and what can
    /// be walked on.
    pub open spec fn same_terrain(&self, other: &FovMap) -> bool {
        &&& self.width_spec() == other.width_spec()
        &&& self.height_spec() == other.height_spec()
        &&& forall|x: int, y: int|
            #![trigger self.transparent_at(x, y)]
            #![trigger other.transparent_at(x, y)]
            self.transparent_at(x, y) == other.transparent_at(x, y)
        &&& forall|x: int, y: int|
            #![trigger self.walkable_at(x, y)]
            #![trigger other.walkable_at(x, y)]
            self.walkable_at(x, y) == other.walkable_at(x, y)
    }

    /// Whether the two maps agree on what is and what was in view.
    pub open spec fn same_view(&self, other: &FovMap) -> bool {
        &&& forall|x: int, y: int|
            #![trigger self.visible_at(x, y)]
            #![trigger other.visible_at(x, y)]
            self.visible_at(x, y) == other.visible_at(x, y)
        &&& forall|x: int, y: int|
            #![trigger self.seen_at(x, y)]
            #![trigger other.seen_at(x, y)]
            self.seen_at(x, y) == other.seen_at(x, y)
    }

    /// Whether every cell of the line from `(ox, oy)` to `(tx, ty)`, the two
    /// ends excluded, is transparent.
    pub open spec fn clear_between(&self, ox: int, oy: int, tx: int, ty: int) -> bool {
        forall|k: int|
            0 < k < span(tx - ox, ty - oy) ==> self.transparent_at(
                (#[trigger] ray_cell(ox, oy, tx, ty, k)).0,
                ray_cell(ox, oy, tx, ty, k).1,
            )
    }

    /// Whether `(tx, ty)` is lit from `(ox, oy)` at `radius`: both are cells
    /// of the grid, their Euclidean distance is at most the radius, and
    /// nothing opaque stands strictly between them.
    pub open spec fn lit(&self, ox: int, oy: int, radius: int, tx: int, ty: int) -> bool {
        &&& self.in_bounds(ox, oy)
        &&& self.in_bounds(tx, ty)
        &&& radius >= 0
        &&& (tx - ox) * (tx - ox) + (ty - oy) * (ty - oy) <= radius * radius
        &&& self.clear_between(ox, oy, tx, ty)
    }

    /// A map `width` by `height` in which every cell is opaque, unwalkable
    /// and unseen.
    pub fn new(width: i32, height: i32) -> (m: FovMap)
        requires
            0 <= width,
            0 <= height,
            width * height <= i32::MAX,
        ensures
            m.wf(),
            m.width_spec() == width,
            m.height_spec() == height,
            forall|x: int, y: int| !#[trigger] m.transparent_at(x, y),
            forall|x: int, y: int| !#[trigger] m.walkable_at(x, y),
            forall|x: int, y: int| !#[trigger] m.visible_at(x, y),
            forall|x: int, y: int| !#[trigger] m.seen_at(x, y),
    {
        assert(0 <= width * height) by (nonlinear_arith)
            requires
                0 <= width,
                0 <= height,
        ;
        let n = (width * height) as usize;
        let m = FovMap {
            width,
            height,
            transparent: filled(false, n),
            walkable: filled(false, n),
            visible: filled(false, n),
            seen: filled(false, n),
        };
        proof {
            assert forall|x: int, y: int| m.in_bounds(x, y) implies 0 <= cell(width as int, x, y)
                < n by {
                lemma_cell_in_range(width as int, height as int, x, y);
            }
        }
        m
    }

    /// The number of columns.
    pub fn width(&self) -> (w: i32)
        ensures
            w == self.width_spec(),
    {
        self.width
    }

    /// The number of rows.
    pub fn height(&self) -> (h: i32)
        ensures
            h == self.height_spec(),
    {
        self.height
    }

    /// Sets whether the cell `(x, y)` lets light through and can be walked
    /// on. Outside the grid this does nothing.
    pub fn set(&mut self, x: i32, y: i32, transparent: bool, walkable: bool)
        requires
            old(self).wf(),
        ensures
            final(self).wf(),
            final(self).width_spec() == old(self).width_spec(),
            final(self).height_spec() == old(self).height_spec(),
            final(self).same_view(old(self)),
            forall|a: int, b: int| #[trigger]
                final(self).transparent_at(a, b) == if a == x && b == y {
                    old(self).in_bounds(a, b) && transparent
                } else {
                    old(self).transparent_at(a, b)
                },
            forall|a: int, b: int| #[trigger]
                final(self).walkable_at(a, b) == if a == x && b == y {
                    old(self).in_bounds(a, b) && walkable
                } else {
                    old(self).walkable_at(a, b)
                },
    {
        if x < 0 || x >= self.width || y < 0 || y >= self.height {
            return ;
        }
        let i = cell_index(self.width, self.height, x, y);
        self.transparent.set(i, transparent);
        self.walkable.set(i, walkable);
        proof {
            let w = self.width as int;
            let h = self.height as int;
            assert forall|a: int, b: int|
                final(self).transparent_at(a, b) == if a == x && b == y {
                    old(self).in_bounds(a, b) && transparent
                } else {
                    old(self).transparent_at(a, b)
                } by {
                if in_grid(w, h, a, b) && cell(w, a, b) == i {
                    lemma_cell_unique(w, h, a, b, x as int, y as int);
                }
                if in_grid(w, h, a, b) {
                    lemma_cell_in_range(w, h, a, b);
                }
            }
            assert forall|a: int, b: int|
                final(self).walkable_at(a, b) == if a == x && b == y {
                    old(self).in_bounds(a, b) && walkable
                } else {
                    old(self).walkable_at(a, b)
                } by {
                if in_grid(w, h, a, b) && cell(w, a, b) == i {
                    lemma_cell_unique(w, h, a, b, x as int, y as int);
                }
                if in_grid(w, h, a, b) {
                    lemma_cell_in_range(w, h, a, b);
                }
            }
        }
    }

    /// Whether the cell `(x, y)` is in view. No cell outside the grid is.
    pub fn is_in_fov(&self, x: i32, y: i32) -> (b: bool)
        requires
            self.wf(),
        ensures
            b == self.visible_at(x as int, y as int),
    {
        if x < 0 || x >= self.width || y < 0 || y >= self.height {
            false
        } else {
            self.visible[cell_index(self.width, self.height, x, y)]
        }
    }

    /// Whether the cell `(x, y)` was ever in view.
    pub fn is_explored(&self, x: i32, y: i32) -> (b: bool)
        requires
            self.wf(),
        ensures
            b == self.seen_at(x as int, y as int),
    {
        if x < 0 || x >= self.width || y < 0 || y >= self.height {
            false
        } else {
            self.seen[cell_index(self.width, self.height, x, y)]
        }
    }

    /// Whether the cell `(x, y)` lets light through.
    pub fn is_transparent(&self, x: i32, y: i32) -> (b: bool)
        requires
            self.wf(),
        ensures
            b == self.transparent_at(x as int, y as int),
    {
        if x < 0 || x >= self.width || y < 0 || y >= self.height {
            false
        } else {
            self.transparent[cell_index(self.width, self.height, x, y)]
        }
    }

    /// Whether the cell `(x, y)` can be walked on.
    pub fn is_walkable(&self, x: i32, y: i32) -> (b: bool)
        requires
            self.wf(),
        ensures
            b == self.walkable_at(x as int, y as int),
    {
        if x < 0 || x >= self.width || y < 0 || y >= self.height {
            false
        } else {
            self.walkable[cell_index(self.width, self.height, x, y)]
        }
    }
}

/// One step of the line, computed: `k * a / n` rounded to the nearest.
fn step_toward(a: i64, k: u64, n: u64) -> (r: i64)
    requires
        0 < k < n,
        n <= 0x8000_0000,
        abs(a as int) <= n,
    ensures
        r == toward(a as int, k as int, n as int),
        a >= 0 ==> 0 <= r <= a,
        a < 0 ==> a <= r <= 0,
{
    let m: u64 = if a >= 0 {
        a as u64
    } else {
        (-a) as u64
    };
    proof {
        lemma_toward_bounds(a as int, k as int, n as int);
        assert(2 * k * m == 2 * (k * m)) by (nonlinear_arith);
        assert(0 <= k * m <= 0x4000_0000_0000_0000) by (nonlinear_arith)
            requires
                0 < k < n,
                n <= 0x8000_0000,
                0 <= m <= n,
        ;
    }
    let q: u64 = (2 * (k * m) + n) / (2 * n);
    if a >= 0 {
        q as i64
    } else {
        -(q as i64)
    }
}

impl FovMap {
    /// Whether `(tx, ty)` is lit from `(ox, oy)` at `radius`.
    pub fn sees(&self, ox: i32, oy: i32, radius: i32, tx: i32, ty: i32) -> (b: bool)
        requires
            self.wf(),
        ensures
            b == self.lit(ox as int, oy as int, radius as int, tx as int, ty as int),
    {
        if ox < 0 || ox >= self.width || oy < 0 || oy >= self.height {
            return false;
        }
        if tx < 0 || tx >= self.width || ty < 0 || ty >= self.height {
            return false;
        }
        if radius < 0 {
            return false;
        }
        let dx: i64 = tx as i64 - ox as i64;
        let dy: i64 = ty as i64 - oy as i64;
        let r: i64 = radius as i64;
        proof {
            assert(0 <= dx * dx <= 0x4000_0000_0000_0000) by (nonlinear_arith)
                requires
                    -0x8000_0000 <= dx <= 0x8000_0000,
            ;
            assert(0 <= dy * dy <= 0x4000_0000_0000_0000) by (nonlinear_arith)
                requires
                    -0x8000_0000 <= dy <= 0x8000_0000,
            ;
            assert(0 <= r * r <= 0x4000_0000_0000_0000) by (nonlinear_arith)
                requires
                    0 <= r <= 0x8000_0000,
            ;
        }
        if dx as i128 * dx as i128 + dy as i128 * dy as i128 > r as i128 * r as i128 {
            return false;
        }
        let ax: u64 = if dx >= 0 {
            dx as u64
        } else {
            (-dx) as u64
        };
        let ay: u64 = if dy >= 0 {
            dy as u64
        } else {
            (-dy) as u64
        };
        let n: u64 = if ax >= ay {
            ax
        } else {
            ay
        };
        let mut k: u64 = 1;
        while k < n
            invariant
                self.wf(),
                1 <= k,
                n == span(tx - ox, ty - oy),
                n <= 0x8000_0000,
                dx == tx - ox,
                dy == ty - oy,
                self.in_bounds(ox as int, oy as int),
                self.in_bounds(tx as int, ty as int),
                forall|j: int|
                    0 < j < k ==> self.transparent_at(
                        (#[trigger] ray_cell(ox as int, oy as int, tx as int, ty as int, j)).0,
                        ray_cell(ox as int, oy as int, tx as int, ty as int, j).1,
                    ),
            decreases n - k,
        {
            let sx = step_toward(dx, k, n);
            let sy = step_toward(dy, k, n);
            let cx: i32 = (ox as i64 + sx) as i32;
            let cy: i32 = (oy as i64 + sy) as i32;
            assert((cx as int, cy as int) == ray_cell(
                ox as int,
                oy as int,
                tx as int,
                ty as int,
                k as int,
            ));
            if !self.transparent[cell_index(self.width, self.height, cx, cy)] {
                return false;
            }
            k = k + 1;
        }
        true
    }

    /// Records whether the cell `(x, y)` is in view; a cell in view counts
    /// as seen from then on.
    fn mark(&mut self, x: i32, y: i32, in_view: bool)
        requires
            old(self).wf(),
            old(self).in_bounds(x as int, y as int),
        ensures
            final(self).wf(),
            final(self).same_terrain(old(self)),
            forall|a: int, b: int| #[trigger]
                final(self).visible_at(a, b) == if a == x && b == y {
                    in_view
                } else {
                    old(self).visible_at(a, b)
                },
            forall|a: int, b: int| #[trigger]
                final(self).seen_at(a, b) == if a == x && b == y {
                    in_view || old(self).seen_at(a, b)
                } else {
                    old(self).seen_at(a, b)
                },
    {
        let i = cell_index(self.width, self.height, x, y);
        self.visible.set(i, in_view);
        if in_view {
            self.seen.set(i, true);
        }
        proof {
            let w = self.width as int;
            let h = self.height as int;
            assert forall|a: int, b: int|
                final(self).visible_at(a, b) == if a == x && b == y {
                    in_view
                } else {
                    old(self).visible_at(a, b)
                } by {
                if in_grid(w, h, a, b) && cell(w, a, b) == i {
                    lemma_cell_unique(w, h, a, b, x as int, y as int);
                }
                if in_grid(w, h, a, b) {
                    lemma_cell_in_range(w, h, a, b);
                }
            }
            assert forall|a: int, b: int|
                final(self).seen_at(a, b) == if a == x && b == y {
                    in_view || old(self).seen_at(a, b)
                } else {
                    old(self).seen_at(a, b)
                } by {
                if in_grid(w, h, a, b) && cell(w, a, b) == i {
                    lemma_cell_unique(w, h, a, b, x as int, y as int);
                }
                if in_grid(w, h, a, b) {
                    lemma_cell_in_range(w, h, a, b);
                }
            }
        }
    }

    /// Recomputes what is in view from `(origin_x, origin_y)` at `radius`.
    /// Afterwards a cell is in view exactly if it is lit, and a cell counts
    /// as seen exactly if it was seen before or is in view now. From an
    /// origin outside the grid, or at a negative radius, nothing is in view.
    pub fn compute_fov(&mut self, origin_x: i32, origin_y: i32, radius: i32)
        requires
            old(self).wf(),
        ensures
            final(self).wf(),
            final(self).same_terrain(old(self)),
            forall|x: int, y: int| #[trigger]
                final(self).visible_at(x, y) == old(self).lit(
                    origin_x as int,
                    origin_y as int,
                    radius as int,
                    x,
                    y,
                ),
            forall|x: int, y: int| #[trigger]
                final(self).seen_at(x, y) == (old(self).seen_at(x, y) || old(self).lit(
                    origin_x as int,
                    origin_y as int,
                    radius as int,
                    x,
                    y,
                )),
    {
        let ghost before = *self;
        let ghost ox = origin_x as int;
        let ghost oy = origin_y as int;
        let ghost rad = radius as int;
        let width = self.width;
        let height = self.height;
        let mut y: i32 = 0;
        while y < height
            invariant
                self.wf(),
                before.wf(),
                0 <= y <= height,
                ox == origin_x,
                oy == origin_y,
                rad == radius,
                width == self.width,
                height == self.height,
                self.same_terrain(&before),
                forall|a: int, b: int|
                    0 <= b < y ==> #[trigger] self.visible_at(a, b) == before.lit(ox, oy, rad, a, b),
                forall|a: int, b: int|
                    0 <= b < y ==> #[trigger] self.seen_at(a, b) == (before.seen_at(a, b)
                        || before.lit(ox, oy, rad, a, b)),
                forall|a: int, b: int| b >= y ==> #[trigger] self.seen_at(a, b) == before.seen_at(a, b),
            decreases height - y,
        {
            let mut x: i32 = 0;
            while x < width
                invariant
                    self.wf(),
                    before.wf(),
                    0 <= y < height,
                    0 <= x <= width,
                    ox == origin_x,
                    oy == origin_y,
                    rad == radius,
                    width == self.width,
                    height == self.height,
                    self.same_terrain(&before),
                    forall|a: int, b: int|
                        0 <= b < y || (b == y && a < x) ==> #[trigger] self.visible_at(a, b)
                            == before.lit(ox, oy, rad, a, b),
                    forall|a: int, b: int|
                        0 <= b < y || (b == y && a < x) ==> #[trigger] self.seen_at(a, b) == (
                        before.seen_at(a, b) || before.lit(ox, oy, rad, a, b)),
                    forall|a: int, b: int|
                        b > y || (b == y && a >= x) ==> #[trigger] self.seen_at(a, b)
                            == before.seen_at(a, b),
                decreases width - x,
            {
                let in_view = self.sees(origin_x, origin_y, radius, x, y);
                proof {
                    lemma_same_terrain_same_light(self, &before, ox, oy, rad, x as int, y as int);
                }
                self.mark(x, y, in_view);
                x = x + 1;
            }
            y = y + 1;
        }
    }
}

/// Maps with the same terrain light the same cells.
pub proof fn lemma_same_terrain_same_light(
    a: &FovMap,
    b: &FovMap,
    ox: int,
    oy: int,
    radius: int,
    tx: int,
    ty: int,
)
    requires
        a.same_terrain(b),
    ensures
        a.lit(ox, oy, radius, tx, ty) == b.lit(ox, oy, radius, tx, ty),
{
    if a.clear_between(ox, oy, tx, ty) {
        assert forall|k: int| 0 < k < span(tx - ox, ty - oy) implies b.transparent_at(
            (#[trigger] ray_cell(ox, oy, tx, ty, k)).0,
            ray_cell(ox, oy, tx, ty, k).1,
        ) by {
            let c = ray_cell(ox, oy, tx, ty, k);
            assert(a.transparent_at(c.0, c.1));
        }
    }
    if b.clear_between(ox, oy, tx, ty) {
        assert forall|k: int| 0 < k < span(tx - ox, ty - oy) implies a.transparent_at(
            (#[trigger] ray_cell(ox, oy, tx, ty, k)).0,
            ray_cell(ox, oy, tx, ty, k).1,
        ) by {
            let c = ray_cell(ox, oy, tx, ty, k);
            assert(b.transparent_at(c.0, c.1));
        }
    }
}

/// A cell is in view after a computation only if it is within the radius
/// of the origin and no opaque cell stands on the line strictly between the
/// origin and it; and what was seen before the computation is seen after
/// it, in view or not.
pub proof fn law_view_is_near_and_unoccluded(
    before: &FovMap,
    after: &FovMap,
    ox: int,
    oy: int,
    radius: int,
    x: int,
    y: int,
    k: int,
)
    requires
        after.visible_at(x, y) == before.lit(ox, oy, radius, x, y),
        after.seen_at(x, y) == (before.seen_at(x, y) || before.lit(ox, oy, radius, x, y)),
        0 < k < span(x - ox, y - oy),
    ensures
        after.visible_at(x, y) ==> (x - ox) * (x - ox) + (y - oy) * (y - oy) <= radius * radius,
        after.visible_at(x, y) ==> before.transparent_at(
            ray_cell(ox, oy, x, y, k).0,
            ray_cell(ox, oy, x, y, k).1,
        ),
        after.visible_at(x, y) ==> after.seen_at(x, y),
        before.seen_at(x, y) ==> after.seen_at(x, y),
{
    if before.lit(ox, oy, radius, x, y) {
        let c = ray_cell(ox, oy, x, y, k);
        assert(before.transparent_at(c.0, c.1));
    }
}

} // verus!

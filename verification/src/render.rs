//! The render adapter: reduces the world and the map to a scene that a
//! presentation layer can paint. Nothing here changes the world.

use vstd::prelude::*;
use crate::components::Color;
use crate::components::Displayable;
use crate::components::Position;
use crate::grid::cell;
use crate::map::GameMap;
use crate::store::entity_id;
use crate::store::records;
use crate::store::Components;
use crate::store::EntityId;
use crate::store::Store;

verus! {

/// An entity as it is drawn: where, and what.
#[derive(Clone, Copy, Debug, PartialEq, Eq, Structural)]
pub struct Sprite {
    pub position: Position,
    pub display: Displayable,
}

/// A glyph on the grid.
#[derive(Clone, Copy, Debug, PartialEq, Eq, Structural)]
pub struct Glyph {
    pub x: i32,
    pub y: i32,
    pub glyph: char,
    pub color: Color,
}

/// What there is to paint.
pub struct Scene {
    /// The cells to clear first: where each drawn entity stood before.
    pub erase: Vec<(i32, i32)>,
    /// The background colour of every tile, row by row.
    pub tiles: Vec<Color>,
    /// The glyphs of the entities in view, those drawn later last.
    pub glyphs: Vec<Glyph>,
}

/// The entities of `order` that have a position and a display.
pub open spec fn sprites(m: Map<EntityId, Components>, order: Seq<specs::Entity>) -> Seq<Sprite>
    decreases order.len(),
{
    if order.len() == 0 {
        Seq::empty()
    } else {
        let rest = sprites(m, order.drop_last());
        let c = records(m, entity_id(order.last()));
        if c.position is Some && c.displayable is Some {
            rest.push(Sprite { position: c.position.unwrap(), display: c.displayable.unwrap() })
        } else {
            rest
        }
    }
}

/// `sorted` with `x` put behind the last sprite that is not drawn later
/// than `x`.
pub open spec fn placed(sorted: Seq<Sprite>, x: Sprite) -> Seq<Sprite>
    decreases sorted.len(),
{
    if sorted.len() == 0 {
        seq![x]
    } else if sorted.last().position.z <= x.position.z {
        sorted.push(x)
    } else {
        placed(sorted.drop_last(), x).push(sorted.last())
    }
}

/// The sprites in draw order: by ascending `z`, and among equals in the
/// order in which they came.
pub open spec fn by_depth(s: Seq<Sprite>) -> Seq<Sprite>
    decreases s.len(),
{
    if s.len() == 0 {
        Seq::empty()
    } else {
        placed(by_depth(s.drop_last()), s.last())
    }
}

/// Whether the sprites are in draw order.
pub open spec fn ascending(s: Seq<Sprite>) -> bool {
    forall|i: int, j: int| 0 <= i < j < s.len() ==> s[i].position.z <= s[j].position.z
}

/// The cells that the sprites stood on before.
pub open spec fn erased(sorted: Seq<Sprite>) -> Seq<(i32, i32)> {
    Seq::new(sorted.len(), |i: int| (sorted[i].position.old_x, sorted[i].position.old_y))
}

/// The glyph of a sprite.
pub open spec fn glyph_of(s: Sprite) -> Glyph {
    Glyph { x: s.position.x, y: s.position.y, glyph: s.display.glyph, color: s.display.color }
}

/// The glyphs of the sprites that stand on a cell in view, in the order of
/// the sprites.
pub open spec fn drawn(sorted: Seq<Sprite>, map: &GameMap) -> Seq<Glyph>
    decreases sorted.len(),
{
    if sorted.len() == 0 {
        Seq::empty()
    } else {
        let rest = drawn(sorted.drop_last(), map);
        let s = sorted.last();
        if map.fov_spec().visible_at(s.position.x as int, s.position.y as int) {
            rest.push(glyph_of(s))
        } else {
            rest
        }
    }
}

/// Where `x` goes in `s`: the sprites from `j` on are drawn later than
/// `x`, and the one before `j`, if any, is not.
pub proof fn lemma_placed_at(s: Seq<Sprite>, x: Sprite, j: int)
    requires
        0 <= j <= s.len(),
        j > 0 ==> s[j - 1].position.z <= x.position.z,
        forall|k: int| j <= k < s.len() ==> s[k].position.z > x.position.z,
    ensures
        placed(s, x) == s.insert(j, x),
    decreases s.len(),
{
    if s.len() == 0 {
        assert(s.insert(j, x) =~= seq![x]);
    } else if j == s.len() {
        assert(s.insert(j, x) =~= s.push(x));
    } else {
        lemma_placed_at(s.drop_last(), x, j);
        assert(s.insert(j, x) =~= s.drop_last().insert(j, x).push(s.last()));
    }
}

/// Putting a sprite into draw order keeps the order.
pub proof fn lemma_placed_ascending(s: Seq<Sprite>, x: Sprite)
    requires
        ascending(s),
    ensures
        ascending(placed(s, x)),
        placed(s, x).len() == s.len() + 1,
        forall|i: int|
            0 <= i < placed(s, x).len() ==> (#[trigger] placed(s, x)[i]) == x || s.contains(
                placed(s, x)[i],
            ),
    decreases s.len(),
{
    if s.len() == 0 {
    } else if s.last().position.z <= x.position.z {
        let p = s.push(x);
        assert forall|i: int| 0 <= i < p.len() implies (#[trigger] p[i]) == x || s.contains(
            p[i],
        ) by {
            if i < s.len() {
                assert(s[i] == p[i]);
            }
        }
    } else {
        let rest = s.drop_last();
        lemma_placed_ascending(rest, x);
        let q = placed(rest, x);
        let p = q.push(s.last());
        assert forall|i: int, j: int| 0 <= i < j < p.len() implies p[i].position.z
            <= p[j].position.z by {
            if j < q.len() {
            } else {
                if q[i] == x {
                } else {
                    assert(rest.contains(q[i]));
                    let k = choose|k: int| 0 <= k < rest.len() && rest[k] == q[i];
                    assert(s[k] == rest[k]);
                    assert(s[k].position.z <= s[s.len() - 1].position.z);
                }
            }
        }
        assert forall|i: int| 0 <= i < p.len() implies (#[trigger] p[i]) == x || s.contains(
            p[i],
        ) by {
            if i < q.len() {
                if q[i] != x {
                    let k = choose|k: int| 0 <= k < rest.len() && rest[k] == q[i];
                    assert(s[k] == rest[k]);
                }
            } else {
                assert(s[s.len() - 1] == p[i]);
            }
        }
    }
}

/// The draw order is ascending in `z`.
pub proof fn law_by_depth_ascending(s: Seq<Sprite>)
    ensures
        ascending(by_depth(s)),
        by_depth(s).len() == s.len(),
    decreases s.len(),
{
    if s.len() > 0 {
        law_by_depth_ascending(s.drop_last());
        lemma_placed_ascending(by_depth(s.drop_last()), s.last());
    }
}

/// The draw order holds the same sprites, each as often as it came.
pub proof fn law_by_depth_same_sprites(s: Seq<Sprite>)
    ensures
        by_depth(s).to_multiset() == s.to_multiset(),
    decreases s.len(),
{
    broadcast use vstd::seq_lib::to_multiset_build;

    if s.len() > 0 {
        law_by_depth_same_sprites(s.drop_last());
        lemma_placed_multiset(by_depth(s.drop_last()), s.last());
        assert(s.drop_last().push(s.last()) == s);
    } else {
        assert(by_depth(s) == s);
    }
}

/// Putting a sprite into draw order adds it once.
pub proof fn lemma_placed_multiset(s: Seq<Sprite>, x: Sprite)
    ensures
        placed(s, x).to_multiset() == s.to_multiset().insert(x),
    decreases s.len(),
{
    broadcast use vstd::seq_lib::to_multiset_build;

    if s.len() == 0 {
        assert(seq![x] == s.push(x));
    } else if s.last().position.z <= x.position.z {
    } else {
        lemma_placed_multiset(s.drop_last(), x);
        assert(s.drop_last().push(s.last()) == s);
        assert(s.drop_last().to_multiset().insert(x).insert(s.last()) =~= s.drop_last().to_multiset().insert(
            s.last(),
        ).insert(x));
    }
}

/// Where a sprite of depth `z` goes in `v`.
fn find_slot(v: &Vec<Sprite>, z: i8) -> (j: usize)
    ensures
        j <= v@.len(),
        j > 0 ==> v@[j - 1].position.z <= z,
        forall|k: int| j <= k < v@.len() ==> v@[k].position.z > z,
{
    let mut j: usize = v.len();
    while j > 0
        invariant
            j <= v@.len(),
            forall|k: int| j <= k < v@.len() ==> v@[k].position.z > z,
        decreases j,
    {
        if v[j - 1].position.z <= z {
            return j;
        }
        j = j - 1;
    }
    j
}

/// Puts the sprites into draw order.
pub fn sort_by_depth(s: &Vec<Sprite>) -> (sorted: Vec<Sprite>)
    ensures
        sorted@ == by_depth(s@),
{
    let mut sorted: Vec<Sprite> = Vec::new();
    let mut i: usize = 0;
    while i < s.len()
        invariant
            i <= s@.len(),
            sorted@ == by_depth(s@.subrange(0, i as int)),
        decreases s@.len() - i,
    {
        proof {
            assert(s@.subrange(0, i as int + 1).drop_last() == s@.subrange(0, i as int));
        }
        let x = s[i];
        let j = find_slot(&sorted, x.position.z);
        proof {
            lemma_placed_at(sorted@, x, j as int);
        }
        sorted.insert(j, x);
        i = i + 1;
    }
    proof {
        assert(s@.subrange(0, s@.len() as int) == s@);
    }
    sorted
}

/// Collects the entities that have a position and a display.
pub fn collect_sprites(store: &Store, order: &Vec<specs::Entity>) -> (s: Vec<Sprite>)
    requires
        store.wf(),
    ensures
        s@ == sprites(store.entities(), order@),
{
    let mut s: Vec<Sprite> = Vec::new();
    let mut i: usize = 0;
    while i < order.len()
        invariant
            store.wf(),
            i <= order@.len(),
            s@ == sprites(store.entities(), order@.subrange(0, i as int)),
        decreases order@.len() - i,
    {
        proof {
            assert(order@.subrange(0, i as int + 1).drop_last() == order@.subrange(0, i as int));
        }
        let e = order[i];
        if let Some(position) = store.position(e) {
            if let Some(display) = store.displayable(e) {
                s.push(Sprite { position, display });
            }
        }
        i = i + 1;
    }
    proof {
        assert(order@.subrange(0, order@.len() as int) == order@);
    }
    s
}

/// The render system.
pub struct Print;

impl Print {
    /// Reduces the world to a scene. The entities that have a position and
    /// a display are put into draw order. The scene names the cell each of
    /// them stood on before, to be cleared; the background colour of every
    /// tile; and the glyph of each of them that stands on a cell in view.
    pub fn run(&mut self, store: &Store, map: &GameMap) -> (scene: Scene)
        requires
            store.wf(),
            map.wf(),
        ensures
            scene.erase@ == erased(by_depth(sprites(store.entities(), store.order()))),
            scene.glyphs@ == drawn(by_depth(sprites(store.entities(), store.order())), map),
            scene.tiles@.len() == map.width_spec() * map.height_spec(),
            forall|x: int, y: int|
                map.in_bounds(x, y) ==> scene.tiles@[#[trigger] cell(map.width_spec(), x, y)]
                    == map.shade_at(x, y).color_spec(),
    {
        let order = store.entity_list();
        let data = sort_by_depth(&collect_sprites(store, &order));
        let mut erase: Vec<(i32, i32)> = Vec::new();
        let mut glyphs: Vec<Glyph> = Vec::new();
        let mut i: usize = 0;
        while i < data.len()
            invariant
                map.wf(),
                i <= data@.len(),
                erase@ == erased(data@.subrange(0, i as int)),
                glyphs@ == drawn(data@.subrange(0, i as int), map),
            decreases data@.len() - i,
        {
            proof {
                assert(data@.subrange(0, i as int + 1).drop_last() == data@.subrange(0, i as int));
            }
            let s = data[i];
            erase.push((s.position.old_x, s.position.old_y));
            if map.is_in_fov(s.position.x, s.position.y) {
                glyphs.push(
                    Glyph {
                        x: s.position.x,
                        y: s.position.y,
                        glyph: s.display.glyph,
                        color: s.display.color,
                    },
                );
            }
            proof {
                assert(erase@ =~= erased(data@.subrange(0, i as int + 1)));
            }
            i = i + 1;
        }
        proof {
            assert(data@.subrange(0, data@.len() as int) == data@);
        }
        Scene { erase, tiles: map.render(), glyphs }
    }
}

} // verus!

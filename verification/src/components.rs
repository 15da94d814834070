//! The component records that entities carry, and the rules that act on one
//! record at a time: how a health change is applied, what a death does, how
//! much damage a blow deals.

use vstd::prelude::*;

verus! {

/// `specs::Entity`, the handle of an entity, taken as it comes.
#[verifier::external_type_specification]
#[verifier::external_body]
pub struct ExEntity(specs::Entity);

/// `specs::VecStorage`, the storage that every component kind names as
/// its own.
#[verifier::external_type_specification]
#[verifier::external_body]
#[verifier::reject_recursive_types(T)]
pub struct ExVecStorage<T>(specs::VecStorage<T>);

/// An RGB colour.
#[derive(Clone, Copy, Debug, PartialEq, Eq, Structural)]
pub struct Color {
    pub r: u8,
    pub g: u8,
    pub b: u8,
}

impl Color {
    /// White, the colour of the player.
    #[verifier::allow_in_spec]
    pub fn white() -> Color
        returns
            (Color { r: 255, g: 255, b: 255 }),
    {
        Color { r: 255, g: 255, b: 255 }
    }

    /// Dark red, the colour of corpses.
    #[verifier::allow_in_spec]
    pub fn dark_red() -> Color
        returns
            (Color { r: 191, g: 0, b: 0 }),
    {
        Color { r: 191, g: 0, b: 0 }
    }

    /// Desaturated green, the colour of orcs.
    #[verifier::allow_in_spec]
    pub fn desaturated_green() -> Color
        returns
            (Color { r: 63, g: 127, b: 63 }),
    {
        Color { r: 63, g: 127, b: 63 }
    }

    /// Darker green, the colour of trolls.
    #[verifier::allow_in_spec]
    pub fn darker_green() -> Color
        returns
            (Color { r: 0, g: 127, b: 0 }),
    {
        Color { r: 0, g: 127, b: 0 }
    }
}

/// The glyph drawn for a corpse.
pub const CORPSE_GLYPH: char = '%';

/// Where an entity stands, where it stood before its last move, and its
/// draw-order key (a higher `z` is drawn later).
#[derive(Clone, Copy, Debug, PartialEq, Eq, Structural)]
pub struct Position {
    pub x: i32,
    pub y: i32,
    pub old_x: i32,
    pub old_y: i32,
    pub z: i8,
}

impl Position {
    /// The position of an entity that stands at `(x, y)` and has not moved.
    pub fn new(x: i32, y: i32, z: i8) -> (p: Position)
        ensures
            p == (Position { x, y, old_x: x, old_y: y, z }),
    {
        Position { x, y, old_x: x, old_y: y, z }
    }

    /// The cell `(dx, dy)` away from this position, as unbounded integers.
    pub open spec fn target(self, dx: i32, dy: i32) -> (int, int) {
        (self.x + dx, self.y + dy)
    }

    /// This position after a step to `(x, y)`: the cell left behind is kept
    /// in `old_x`, `old_y`.
    pub open spec fn moved_to(self, x: i32, y: i32) -> Position {
        Position { x, y, old_x: self.x, old_y: self.y, z: self.z }
    }
}

impl specs::Component for Position {
    type Storage = specs::VecStorage<Self>;
}

/// What is drawn for an entity.
#[derive(Clone, Copy, Debug, PartialEq, Eq, Structural)]
pub struct Displayable {
    pub glyph: char,
    pub color: Color,
}

impl Displayable {
    /// The display of the glyph `c` in `color`.
    pub fn new(c: char, color: Color) -> (d: Displayable)
        ensures
            d == (Displayable { glyph: c, color }),
    {
        Displayable { glyph: c, color }
    }
}

impl specs::Component for Displayable {
    type Storage = specs::VecStorage<Self>;
}

/// What happens to an entity's records at the moment it dies.
#[derive(Clone, Copy, Debug, PartialEq, Eq, Structural)]
pub enum DeathEffect {
    /// The entity is shown as a corpse and stays in the way.
    Collapse,
    /// The entity is shown as a corpse and no longer blocks movement.
    BecomeCorpse,
}

impl DeathEffect {
    /// The properties of a dying entity once this effect has acted on them.
    pub open spec fn on_properties(self, p: Properties) -> Properties {
        match self {
            DeathEffect::Collapse => Properties { alive: false, ..p },
            DeathEffect::BecomeCorpse => Properties { alive: false, blocks: false, ..p },
        }
    }

    /// The display of a dying entity once this effect has acted on it.
    pub open spec fn on_display(self, d: Displayable) -> Displayable {
        Displayable { glyph: CORPSE_GLYPH, color: Color::dark_red() }
    }

    /// Acts on the display of the entity that just died.
    pub fn apply_to_display(self, display: &mut Displayable)
        ensures
            *final(display) == self.on_display(*old(display)),
    {
        display.glyph = CORPSE_GLYPH;
        display.color = Color::dark_red();
    }

    /// Acts on the properties of the entity that just died.
    pub fn apply_to_properties(self, props: &mut Properties)
        ensures
            *final(props) == self.on_properties(*old(props)),
    {
        props.alive = false;
        match self {
            DeathEffect::Collapse => {},
            DeathEffect::BecomeCorpse => {
                props.blocks = false;
            },
        }
    }
}

/// Name, vitality and collision behaviour of an entity.
#[derive(Clone, Debug)]
pub struct Properties {
    pub name: String,
    pub blocks: bool,
    pub alive: bool,
    pub max_hp: i32,
    pub hp: i32,
    pub on_death: Option<DeathEffect>,
}

/// What became of an entity when a health change was applied to it.
#[derive(Clone, Copy, Debug, PartialEq, Eq, Structural)]
pub enum HealthOutcome {
    /// The entity did not die of this change.
    Survived,
    /// The entity died of this change, with the effect that was still armed,
    /// if any.
    Died(Option<DeathEffect>),
}

impl Properties {
    /// The properties of an entity whose death effect `f` is armed.
    pub fn new(name: &str, blocks: bool, alive: bool, max_hp: i32, hp: i32, f: DeathEffect) -> (p:
        Properties)
        ensures
            p.name@ == name@,
            p.blocks == blocks,
            p.alive == alive,
            p.max_hp == max_hp,
            p.hp == hp,
            p.on_death == Some(f),
    {
        Properties { name: name.to_owned(), blocks, alive, max_hp, hp, on_death: Some(f) }
    }

    /// A copy of these properties.
    pub fn duplicate(&self) -> (p: Properties)
        ensures
            p == *self,
    {
        Properties {
            name: self.name.clone(),
            blocks: self.blocks,
            alive: self.alive,
            max_hp: self.max_hp,
            hp: self.hp,
            on_death: self.on_death,
        }
    }

    /// Hit points after a change of `delta`: the sum, never below zero and
    /// never above what an `i32` holds.
    pub open spec fn hp_after(hp: i32, delta: i32) -> i32 {
        if hp + delta <= 0 {
            0i32
        } else if hp + delta > i32::MAX {
            i32::MAX
        } else {
            (hp + delta) as i32
        }
    }

    /// Whether a change of `delta` kills: the entity is alive and its hit
    /// points reach zero.
    pub open spec fn dies_of(self, delta: i32) -> bool {
        self.alive && self.hp + delta <= 0
    }

    /// Whether a change of `delta` fires the death effect.
    pub open spec fn fires(self, delta: i32) -> bool {
        self.dies_of(delta) && self.on_death is Some
    }

    /// The properties after health resolution of a change of `delta`.
    pub open spec fn resolved(self, delta: i32) -> Properties {
        let hit = Properties { hp: Self::hp_after(self.hp, delta), ..self };
        if self.dies_of(delta) {
            let dead = Properties { alive: false, on_death: None, ..hit };
            match self.on_death {
                Some(effect) => effect.on_properties(dead),
                None => dead,
            }
        } else {
            hit
        }
    }

    /// The display of the entity after health resolution of a change of
    /// `delta`.
    pub open spec fn resolved_display(self, delta: i32, d: Displayable) -> Displayable {
        if self.fires(delta) {
            self.on_death.unwrap().on_display(d)
        } else {
            d
        }
    }

    /// What a change of `delta` does to the entity.
    pub open spec fn outcome(self, delta: i32) -> HealthOutcome {
        if self.dies_of(delta) {
            HealthOutcome::Died(self.on_death)
        } else {
            HealthOutcome::Survived
        }
    }

    /// Applies a health change: adds `delta` to the hit points, with zero as
    /// the floor. An entity that was alive and reaches zero dies; its death
    /// effect, if still armed, acts on the properties and is disarmed. The
    /// caller applies the effect that is handed back to the display.
    pub fn apply_health_delta(&mut self, delta: i32) -> (out: HealthOutcome)
        ensures
            *final(self) == old(self).resolved(delta),
            out == old(self).outcome(delta),
    {
        let sum: i64 = self.hp as i64 + delta as i64;
        let was_alive = self.alive;
        if sum <= 0 {
            self.hp = 0;
        } else if sum > i32::MAX as i64 {
            self.hp = i32::MAX;
        } else {
            self.hp = sum as i32;
        }
        if was_alive && sum <= 0 {
            self.alive = false;
            let effect = self.on_death;
            self.on_death = None;
            match effect {
                Some(e) => {
                    e.apply_to_properties(self);
                },
                None => {},
            }
            HealthOutcome::Died(effect)
        } else {
            HealthOutcome::Survived
        }
    }
}

impl specs::Component for Properties {
    type Storage = specs::VecStorage<Self>;
}

/// A requested displacement, consumed by movement resolution.
#[derive(Clone, Copy, Debug, PartialEq, Eq, Structural)]
pub struct MoveEvent(pub i32, pub i32);

impl specs::Component for MoveEvent {
    type Storage = specs::VecStorage<Self>;
}

/// A pending blow on the entity that holds it, dealt by the entity named.
#[derive(Clone, Copy, Debug)]
pub struct MeleeEvent(pub specs::Entity);

impl specs::Component for MeleeEvent {
    type Storage = specs::VecStorage<Self>;
}

/// A signed change of hit points that waits for health resolution.
#[derive(Clone, Copy, Debug, PartialEq, Eq, Structural)]
pub struct HpChange(pub i32);

impl HpChange {
    /// The pending change once `damage` more is taken: the stored amount
    /// less the damage, or the end of the `i32` range beyond which that
    /// lies.
    pub open spec fn worsened(pending: Option<HpChange>, damage: int) -> HpChange {
        let before: int = match pending {
            Some(c) => c.0 as int,
            None => 0,
        };
        if before - damage < i32::MIN {
            HpChange(i32::MIN)
        } else if before - damage > i32::MAX {
            HpChange(i32::MAX)
        } else {
            HpChange((before - damage) as i32)
        }
    }

    /// Combines a pending change, if any, with `damage` more.
    pub fn worsen(pending: Option<HpChange>, damage: i64) -> (c: HpChange)
        ensures
            c == Self::worsened(pending, damage as int),
    {
        let before: i128 = match pending {
            Some(c) => c.0 as i128,
            None => 0,
        };
        let after: i128 = before - damage as i128;
        if after < i32::MIN as i128 {
            HpChange(i32::MIN)
        } else if after > i32::MAX as i128 {
            HpChange(i32::MAX)
        } else {
            HpChange(after as i32)
        }
    }
}

impl specs::Component for HpChange {
    type Storage = specs::VecStorage<Self>;
}

/// Attack and defense ratings of an entity that can take part in melee.
#[derive(Clone, Copy, Debug, PartialEq, Eq, Structural)]
pub struct Fighter {
    pub defense: i32,
    pub attack: i32,
}

impl Fighter {
    /// The ratings of a fighter.
    pub fn new(attack: i32, defense: i32) -> (f: Fighter)
        ensures
            f == (Fighter { defense, attack }),
    {
        Fighter { attack, defense }
    }

    /// The damage of a blow by `self` on a defender: attack less the
    /// defender's defense, where an entity that is no fighter defends with 0.
    pub open spec fn damage_to(self, defender: Option<Fighter>) -> int {
        self.attack - match defender {
            Some(d) => d.defense as int,
            None => 0,
        }
    }

    /// Computes `damage_to`.
    pub fn damage(&self, defender: Option<Fighter>) -> (d: i64)
        ensures
            d == self.damage_to(defender),
    {
        let def: i64 = match defender {
            Some(d) => d.defense as i64,
            None => 0,
        };
        self.attack as i64 - def
    }
}

impl specs::Component for Fighter {
    type Storage = specs::VecStorage<Self>;
}

/// The number of turns taken so far.
#[derive(Clone, Copy, Debug, PartialEq, Eq, Structural)]
pub struct Turns(pub i64);

/// The entity that the player controls.
#[derive(Clone, Copy, Debug)]
pub struct Player(pub specs::Entity);

/// The properties after the health changes `deltas` were resolved one
/// after the other.
pub open spec fn after_changes(p: Properties, deltas: Seq<i32>) -> Properties
    decreases deltas.len(),
{
    if deltas.len() == 0 {
        p
    } else {
        after_changes(p, deltas.drop_last()).resolved(deltas.last())
    }
}

/// Whether the hit points stood at zero after one of the changes `deltas`.
pub open spec fn ever_zero(p: Properties, deltas: Seq<i32>) -> bool
    decreases deltas.len(),
{
    if deltas.len() == 0 {
        false
    } else {
        ever_zero(p, deltas.drop_last()) || after_changes(p, deltas).hp == 0
    }
}

/// How often the death effect fired while the changes `deltas` were
/// resolved.
pub open spec fn times_fired(p: Properties, deltas: Seq<i32>) -> nat
    decreases deltas.len(),
{
    if deltas.len() == 0 {
        0
    } else if after_changes(p, deltas.drop_last()).fires(deltas.last()) {
        times_fired(p, deltas.drop_last()) + 1
    } else {
        times_fired(p, deltas.drop_last())
    }
}

/// Health resolution never leaves hit points below zero, and leaves them
/// at most at `max_hp` where the sum of hit points and change is.
pub proof fn law_hp_in_range(p: Properties, delta: i32)
    ensures
        0 <= p.resolved(delta).hp,
        p.resolved(delta).max_hp == p.max_hp,
        p.hp + delta <= p.max_hp && 0 <= p.max_hp ==> p.resolved(delta).hp <= p.max_hp,
{
}

/// An entity that starts alive with hit points above zero is dead after a
/// run of health changes exactly if its hit points stood at zero after one
/// of them; until then its hit points are above zero.
pub proof fn law_dead_iff_reached_zero(p: Properties, deltas: Seq<i32>)
    requires
        p.alive,
        p.hp > 0,
    ensures
        !after_changes(p, deltas).alive <==> ever_zero(p, deltas),
        after_changes(p, deltas).alive ==> after_changes(p, deltas).hp > 0,
    decreases deltas.len(),
{
    if deltas.len() > 0 {
        law_dead_iff_reached_zero(p, deltas.drop_last());
    }
}

/// A dead entity stays dead, whatever health changes follow.
pub proof fn law_dead_stays_dead(p: Properties, deltas: Seq<i32>)
    requires
        !p.alive,
    ensures
        !after_changes(p, deltas).alive,
    decreases deltas.len(),
{
    if deltas.len() > 0 {
        law_dead_stays_dead(p, deltas.drop_last());
    }
}

/// Over any run of health changes the death effect fires at most once, and
/// once it has fired it is disarmed for good.
pub proof fn law_death_effect_at_most_once(p: Properties, deltas: Seq<i32>)
    ensures
        times_fired(p, deltas) <= 1,
        times_fired(p, deltas) == 1 ==> after_changes(p, deltas).on_death is None,
        times_fired(p, deltas) == 1 ==> !after_changes(p, deltas).alive,
        p.on_death is None ==> times_fired(p, deltas) == 0,
        !after_changes(p, deltas).alive && p.alive ==> after_changes(p, deltas).on_death is None,
        !p.alive ==> times_fired(p, deltas) == 0 && !after_changes(p, deltas).alive,
        p.on_death is None ==> after_changes(p, deltas).on_death is None,
    decreases deltas.len(),
{
    if deltas.len() > 0 {
        law_death_effect_at_most_once(p, deltas.drop_last());
    }
}

/// The death effect of an entity that starts alive, armed and with hit
/// points above zero fires exactly once if its hit points reach zero
/// during a run of health changes, however many changes follow; and it
/// does not fire if they never do.
pub proof fn law_death_effect_exactly_once(p: Properties, deltas: Seq<i32>)
    requires
        p.alive,
        p.hp > 0,
        p.on_death is Some,
    ensures
        times_fired(p, deltas) == if ever_zero(p, deltas) {
            1nat
        } else {
            0nat
        },
        after_changes(p, deltas).alive ==> after_changes(p, deltas).on_death is Some,
    decreases deltas.len(),
{
    if deltas.len() > 0 {
        law_death_effect_exactly_once(p, deltas.drop_last());
        law_dead_iff_reached_zero(p, deltas.drop_last());
        law_dead_iff_reached_zero(p, deltas);
    }
}

} // verus!

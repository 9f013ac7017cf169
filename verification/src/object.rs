//! Objects on the map, their combat statistics, damage and death.

use vstd::prelude::*;
use vstd::string::StringExecFns;
use crate::color::{dark_red, orange, red, white, Color};
use crate::game::Game;
use crate::messages::{
    death_message, death_text, hit_message, hit_text, miss_message, miss_text, remains_name,
    remains_of, Line,
};

verus! {

/// What happens when a fighter dies.
#[derive(Clone, Copy, Debug, PartialEq, Eq, Structural)]
pub enum DeathCallback {
    /// The run is over; the object stays what it was, as a corpse.
    Hero,
    /// The object turns into remains that block nothing and do nothing.
    Hostile,
}

/// Combat statistics. Only `hp` ever changes, and only downwards.
#[derive(Clone, Copy, Debug, PartialEq, Eq, Structural)]
pub struct Fighter {
    pub max_hp: i32,
    pub hp: i32,
    pub defense: i32,
    pub power: i32,
    pub on_death: DeathCallback,
}

/// How an object acts on its turn.
#[derive(Clone, Copy, Debug, PartialEq, Eq, Structural)]
pub enum Ai {
    /// Walks toward the hero while in sight, and strikes when next to them.
    Basic,
}

/// Anything that stands on the map: the hero, a hostile, remains.
#[derive(Debug)]
pub struct Object {
    pub x: i32,
    pub y: i32,
    pub char: char,
    pub color: Color,
    pub name: String,
    pub blocks: bool,
    pub alive: bool,
    pub fighter: Option<Fighter>,
    pub ai: Option<Ai>,
}

/// An object as contracts see it: the name is a sequence of characters.
pub struct ObjectView {
    pub x: i32,
    pub y: i32,
    pub glyph: char,
    pub color: Color,
    pub name: Seq<char>,
    pub blocks: bool,
    pub alive: bool,
    pub fighter: Option<Fighter>,
    pub ai: Option<Ai>,
}

impl View for Object {
    type V = ObjectView;

    open spec fn view(&self) -> ObjectView {
        ObjectView {
            x: self.x,
            y: self.y,
            glyph: self.char,
            color: self.color,
            name: self.name@,
            blocks: self.blocks,
            alive: self.alive,
            fighter: self.fighter,
            ai: self.ai,
        }
    }
}

impl ObjectView {
    /// An object is alive exactly while it has hit points left.
    pub open spec fn consistent(self) -> bool {
        self.alive <==> (self.fighter matches Some(f) && f.hp > 0)
    }

    /// Whether the object stands at `(x, y)`.
    pub open spec fn at(self, x: int, y: int) -> bool {
        self.x == x && self.y == y
    }

    /// The force of its blows; none without combat statistics.
    pub open spec fn power(self) -> int {
        match self.fighter {
            Some(f) => f.power as int,
            None => 0,
        }
    }

    /// What it takes off a blow; nothing without combat statistics.
    pub open spec fn defense(self) -> int {
        match self.fighter {
            Some(f) => f.defense as int,
            None => 0,
        }
    }

    /// Whether its hit points can go down by `damage` without leaving `i32`.
    pub open spec fn can_take(self, damage: int) -> bool {
        self.fighter matches Some(f) ==> damage > 0 ==> f.hp - damage >= i32::MIN
    }

    /// The object with `damage` taken off its hit points, before anything
    /// follows from that. Damage that is not positive changes nothing.
    pub open spec fn hurt(self, damage: int) -> ObjectView {
        match self.fighter {
            Some(f) if damage > 0 => ObjectView {
                fighter: Some(Fighter { hp: (f.hp - damage) as i32, ..f }),
                ..self
            },
            _ => self,
        }
    }

    /// Whether the object has not died yet: it counts as alive, or it has hit
    /// points left.
    pub open spec fn standing(self) -> bool {
        self.alive || (self.fighter matches Some(f) && f.hp > 0)
    }

    /// Whether `damage` kills the object: it had not died yet, and is left
    /// with no hit points. An object that died before does not die again.
    pub open spec fn dies_from(self, damage: int) -> bool {
        self.standing() && (self.hurt(damage).fighter matches Some(f) && f.hp <= 0)
    }

    /// The dead hero: a corpse on the map, otherwise as before.
    pub open spec fn hero_corpse(self) -> ObjectView {
        ObjectView { glyph: '%', color: dark_red(), ..self }
    }

    /// A dead hostile: remains that block nothing, fight nothing and take no
    /// turns.
    pub open spec fn hostile_remains(self) -> ObjectView {
        ObjectView {
            glyph: '%',
            color: dark_red(),
            blocks: false,
            fighter: None,
            ai: None,
            name: remains_name(self.name),
            ..self
        }
    }

    /// The object after `on_death` has run on it.
    pub open spec fn buried(self, on_death: DeathCallback) -> ObjectView {
        match on_death {
            DeathCallback::Hero => self.hero_corpse(),
            DeathCallback::Hostile => self.hostile_remains(),
        }
    }

    /// The line that `on_death` logs for the object.
    pub open spec fn obituary(self, on_death: DeathCallback) -> Line {
        match on_death {
            DeathCallback::Hero => ("you died"@, red()),
            DeathCallback::Hostile => (death_text(self.name), orange()),
        }
    }

    /// The object after it took `damage`, death included.
    pub open spec fn after_damage(self, damage: int) -> ObjectView {
        let hurt = self.hurt(damage);
        if self.dies_from(damage) {
            ObjectView { alive: false, ..hurt }.buried(hurt.fighter->0.on_death)
        } else {
            hurt
        }
    }

    /// The lines that taking `damage` adds to the log: one if it kills, else
    /// none.
    pub open spec fn damage_log(self, damage: int) -> Seq<Line> {
        if self.dies_from(damage) {
            seq![self.obituary(self.fighter->0.on_death)]
        } else {
            Seq::empty()
        }
    }
}

/// The square of the straight-line distance between two objects.
pub open spec fn distance_squared(a: ObjectView, b: ObjectView) -> int {
    (b.x - a.x) * (b.x - a.x) + (b.y - a.y) * (b.y - a.y)
}

/// What a blow of `attacker` against `target` takes off, before it is floored
/// at zero: the attacker's power less the target's defense.
pub open spec fn strike(attacker: ObjectView, target: ObjectView) -> int {
    attacker.power() - target.defense()
}

/// The target after a blow of `attacker`.
pub open spec fn struck(attacker: ObjectView, target: ObjectView) -> ObjectView {
    if strike(attacker, target) > 0 {
        target.after_damage(strike(attacker, target))
    } else {
        target
    }
}

/// The lines that a blow adds to the log: what happened, and the death of the
/// target if it died of it.
pub open spec fn attack_log(attacker: ObjectView, target: ObjectView) -> Seq<Line> {
    let damage = strike(attacker, target);
    if damage > 0 {
        seq![(hit_text(attacker.name, target.name, damage as nat), white())] + target.damage_log(
            damage,
        )
    } else {
        seq![(miss_text(attacker.name, target.name), white())]
    }
}

/// Whether a blow of `attacker` against `target` stays within `i32`.
pub open spec fn can_attack(attacker: ObjectView, target: ObjectView) -> bool {
    &&& strike(attacker, target) <= i32::MAX
    &&& target.can_take(strike(attacker, target))
}

impl DeathCallback {
    /// Runs the death of `object`.
    pub fn callback(self, object: &mut Object, game: &mut Game)
        ensures
            final(object)@ == old(object)@.buried(self),
            final(game).messages@ == old(game).messages@.push(old(object)@.obituary(self)),
            final(game).plan == old(game).plan,
    {
        match self {
            DeathCallback::Hero => hero_death(object, game),
            DeathCallback::Hostile => hostile_death(object, game),
        }
    }
}

/// The hero dies: the log says so and the glyph becomes a corpse. The object
/// keeps its slot, its name and its statistics.
pub fn hero_death(hero: &mut Object, game: &mut Game)
    ensures
        final(hero)@ == old(hero)@.hero_corpse(),
        final(game).messages@ == old(game).messages@.push(("you died"@, red())),
        final(game).plan == old(game).plan,
{
    game.messages.add(String::from_str("you died"), red());
    hero.char = '%';
    hero.color = dark_red();
}

/// A hostile dies: the log says so, and the object becomes remains.
pub fn hostile_death(hostile: &mut Object, game: &mut Game)
    ensures
        final(hostile)@ == old(hostile)@.hostile_remains(),
        final(game).messages@ == old(game).messages@.push(
            (death_text(old(hostile)@.name), orange()),
        ),
        final(game).plan == old(game).plan,
{
    game.messages.add(death_message(hostile.name.as_str()), orange());
    hostile.char = '%';
    hostile.color = dark_red();
    hostile.blocks = false;
    hostile.fighter = None;
    hostile.ai = None;
    hostile.name = remains_of(hostile.name.as_str());
}

impl Object {
    /// A lifeless object without combat statistics or behaviour.
    pub fn new(x: i32, y: i32, char: char, name: &str, color: Color, blocks: bool) -> (object:
        Self)
        ensures
            object@ == (ObjectView {
                x,
                y,
                glyph: char,
                color,
                name: name@,
                blocks,
                alive: false,
                fighter: None,
                ai: None,
            }),
    {
        Object {
            x: x,
            y: y,
            char: char,
            color: color,
            name: String::from_str(name),
            blocks: blocks,
            alive: false,
            fighter: None,
            ai: None,
        }
    }

    /// Where the object stands.
    pub fn pos(&self) -> (p: (i32, i32))
        ensures
            p == (self.x, self.y),
    {
        (self.x, self.y)
    }

    /// Puts the object at `(x, y)`, whatever is there.
    pub fn set_pos(&mut self, x: i32, y: i32)
        ensures
            final(self)@ == (ObjectView { x, y, ..old(self)@ }),
    {
        self.x = x;
        self.y = y;
    }

    /// The square of the straight-line distance to `other`.
    pub fn distance_squared_to(&self, other: &Object) -> (d: i128)
        ensures
            d == distance_squared(self@, other@),
    {
        let dx: i128 = other.x as i128 - self.x as i128;
        let dy: i128 = other.y as i128 - self.y as i128;
        assert(0 <= dx * dx <= 0x1_0000_0000_0000_0000) by (nonlinear_arith)
            requires
                -0x1_0000_0000 <= dx <= 0x1_0000_0000,
        ;
        assert(0 <= dy * dy <= 0x1_0000_0000_0000_0000) by (nonlinear_arith)
            requires
                -0x1_0000_0000 <= dy <= 0x1_0000_0000,
        ;
        dx * dx + dy * dy
    }

    /// Takes `damage` off the hit points, if it is positive and there are
    /// any. An object that had not died yet and is left with none dies.
    pub fn take_damage(&mut self, damage: i32, game: &mut Game)
        requires
            old(self)@.can_take(damage as int),
        ensures
            final(self)@ == old(self)@.after_damage(damage as int),
            final(game).messages@ == old(game).messages@ + old(self)@.damage_log(damage as int),
            final(game).plan == old(game).plan,
    {
        let had_hp = match self.fighter {
            Some(fighter) => fighter.hp > 0,
            None => false,
        };
        let was_standing = self.alive || had_hp;
        match self.fighter {
            Some(fighter) => {
                if damage > 0 {
                    self.fighter = Some(
                        Fighter {
                            max_hp: fighter.max_hp,
                            hp: fighter.hp - damage,
                            defense: fighter.defense,
                            power: fighter.power,
                            on_death: fighter.on_death,
                        },
                    );
                }
            },
            None => {},
        }
        match self.fighter {
            Some(fighter) => {
                if was_standing && fighter.hp <= 0 {
                    self.alive = false;
                    fighter.on_death.callback(self, game);
                }
            },
            None => {},
        }
    }

    /// Strikes `target`: the damage is this object's power less the target's
    /// defense. Positive damage is logged and taken; anything else is logged
    /// as a blow without effect and changes nothing.
    pub fn attack(&mut self, target: &mut Object, game: &mut Game)
        requires
            can_attack(old(self)@, old(target)@),
        ensures
            *final(self) == *old(self),
            final(target)@ == struck(old(self)@, old(target)@),
            final(game).messages@ == old(game).messages@ + attack_log(old(self)@, old(target)@),
            final(game).plan == old(game).plan,
    {
        let power: i64 = match self.fighter {
            Some(f) => f.power as i64,
            None => 0,
        };
        let defense: i64 = match target.fighter {
            Some(f) => f.defense as i64,
            None => 0,
        };
        let damage: i64 = power - defense;
        if damage > 0 {
            game.messages.add(
                hit_message(self.name.as_str(), target.name.as_str(), damage as u32),
                white(),
            );
            target.take_damage(damage as i32, game);
        } else {
            game.messages.add(miss_message(self.name.as_str(), target.name.as_str()), white());
        }
    }
}


/// Damage keeps an object alive exactly while it has hit points left, and
/// never brings a dead object back to life.
pub proof fn lemma_damage_keeps_consistent(object: ObjectView, damage: int)
    requires
        object.consistent(),
        object.can_take(damage),
    ensures
        object.after_damage(damage).consistent(),
        !object.alive ==> !object.after_damage(damage).alive,
{
}

/// A blow keeps the target alive exactly while it has hit points left, and
/// never brings a dead target back to life.
pub proof fn lemma_blow_keeps_consistent(attacker: ObjectView, target: ObjectView)
    requires
        target.consistent(),
        can_attack(attacker, target),
    ensures
        struck(attacker, target).consistent(),
        !target.alive ==> !struck(attacker, target).alive,
{
}

/// Hit points only go down: damage that is not positive leaves them as they
/// are, and positive damage is taken off in full, whether or not it kills.
pub proof fn lemma_damage_lowers_hp(object: ObjectView, damage: int)
    requires
        object.fighter is Some,
        object.can_take(damage),
    ensures
        object.hurt(damage).fighter is Some,
        damage <= 0 ==> object.hurt(damage).fighter->0.hp == object.fighter->0.hp,
        damage > 0 ==> object.hurt(damage).fighter->0.hp == object.fighter->0.hp - damage,
        object.after_damage(damage).fighter matches Some(f) ==> f.hp == object.hurt(
            damage,
        ).fighter->0.hp,
        object.consistent() && damage <= 0 ==> object.after_damage(damage) == object,
{
}

/// A blow whose power does not exceed the target's defense changes nothing
/// about the target and logs one line, which says that it had no effect.
pub proof fn lemma_weak_blow_has_no_effect(attacker: ObjectView, target: ObjectView)
    requires
        strike(attacker, target) <= 0,
    ensures
        struck(attacker, target) == target,
        attack_log(attacker, target) == seq![
            (miss_text(attacker.name, target.name), white()),
        ],
{
}

/// A living hostile that loses its last hit point turns into remains: it no
/// longer blocks, fights or acts, its name says what it is, its death is
/// logged once, and no later damage changes it or logs anything.
pub proof fn lemma_killed_hostile_is_inert(object: ObjectView, damage: int, later: int)
    requires
        object.fighter matches Some(f) && f.on_death == DeathCallback::Hostile,
        object.dies_from(damage),
    ensures
        !object.after_damage(damage).alive,
        !object.after_damage(damage).blocks,
        object.after_damage(damage).ai is None,
        object.after_damage(damage).fighter is None,
        object.after_damage(damage).name == remains_name(object.name),
        object.damage_log(damage) == seq![(death_text(object.name), orange())],
        object.after_damage(damage).after_damage(later) == object.after_damage(damage),
        object.after_damage(damage).damage_log(later) == Seq::<Line>::empty(),
{
}

/// The hero who loses their last hit point stays in place as a corpse, with
/// name and statistics, and dies only once: later damage logs nothing.
pub proof fn lemma_killed_hero_keeps_slot(object: ObjectView, damage: int, later: int)
    requires
        object.can_take(damage),
        object.fighter matches Some(f) && f.on_death == DeathCallback::Hero,
        object.dies_from(damage),
    ensures
        !object.after_damage(damage).alive,
        object.after_damage(damage).fighter is Some,
        object.after_damage(damage).name == object.name,
        object.after_damage(damage).blocks == object.blocks,
        object.damage_log(damage) == seq![("you died"@, red())],
        object.after_damage(damage).damage_log(later) == Seq::<Line>::empty(),
{
}


/// A blow that takes at least the hit points that a hostile has left kills
/// it, whether or not it counted as alive: the log gets the line of the blow
/// and then the line of the death, and the hostile is left as remains.
pub proof fn lemma_killing_blow_leaves_remains(attacker: ObjectView, target: ObjectView)
    requires
        target.fighter matches Some(f) && f.on_death == DeathCallback::Hostile && f.hp > 0,
        strike(attacker, target) >= target.fighter->0.hp,
        can_attack(attacker, target),
    ensures
        attack_log(attacker, target) == seq![
            (
                hit_text(attacker.name, target.name, strike(attacker, target) as nat),
                white(),
            ),
            (death_text(target.name), orange()),
        ],
        !struck(attacker, target).alive,
        !struck(attacker, target).blocks,
        struck(attacker, target).fighter is None,
        struck(attacker, target).ai is None,
        struck(attacker, target).name == remains_name(target.name),
{
    assert(target.dies_from(strike(attacker, target)));
    assert(attack_log(attacker, target) =~= seq![
        (hit_text(attacker.name, target.name, strike(attacker, target) as nat), white()),
        (death_text(target.name), orange()),
    ]);
}

/// The dead stay dead, whatever the damage.
pub proof fn lemma_dead_stay_dead(object: ObjectView, damage: int)
    requires
        !object.alive,
    ensures
        !object.after_damage(damage).alive,
{
}

/// Hit points never rise: what is left after damage is at most what there
/// was.
pub proof fn lemma_hp_never_rises(object: ObjectView, damage: int)
    requires
        object.can_take(damage),
    ensures
        object.after_damage(damage).fighter matches Some(g) ==> (object.fighter matches Some(f)
            && g.hp <= f.hp),
{
}

} // verus!

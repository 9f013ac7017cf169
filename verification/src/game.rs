//! The state of one level: its map and its log.

use vstd::prelude::*;
use crate::messages::Messages;
use crate::movement::views;
use crate::object::{strike, DeathCallback, Object, ObjectView};
use crate::tile::{in_bounds, is_grid, tile_at, Plan};

verus! {

/// The slot of the hero in the list of objects. Every other object is a
/// hostile, alive or dead.
pub const HERO: usize = 0;

/// The map and the log of a level. The objects are kept beside it, so that
/// two of them can be changed while the log is written.
pub struct Game {
    pub plan: Plan,
    pub messages: Messages,
}

/// Which cells are in the hero's sight, laid out like the map:
/// `fov[x][y]`. The caller fills it in from its field-of-view computation.
pub type FovGrid = Vec<Vec<bool>>;

/// Whether `fov` says of `(x, y)` that it is in sight.
pub open spec fn seen(fov: &FovGrid, x: int, y: int) -> bool {
    fov@[x]@[y]
}

/// Whether `fov` has an entry for `(x, y)`.
pub open spec fn fov_has(fov: &FovGrid, x: int, y: int) -> bool {
    0 <= x < fov@.len() && 0 <= y < fov@[x]@.len()
}

/// Whether `fov` has an entry for every cell of `plan`.
pub open spec fn fov_covers(fov: &FovGrid, plan: &Plan) -> bool {
    forall|x: int, y: int| in_bounds(plan, x, y) ==> fov_has(fov, x, y)
}

/// Tells whether `fov` has an entry for every cell of `plan`.
pub fn is_fov_covering(fov: &FovGrid, plan: &Plan) -> (b: bool)
    ensures
        b == fov_covers(fov, plan),
{
    let mut x: usize = 0;
    while x < plan.len()
        invariant
            x <= plan@.len(),
            forall|cx: int, cy: int| in_bounds(plan, cx, cy) && cx < x ==> fov_has(fov, cx, cy),
        decreases plan@.len() - x,
    {
        let height: usize = plan[x].len();
        if height > 0 {
            if x >= fov.len() {
                assert(in_bounds(plan, x as int, 0) && !fov_has(fov, x as int, 0));
                return false;
            }
            if fov[x].len() < height {
                assert(in_bounds(plan, x as int, height - 1) && !fov_has(
                    fov,
                    x as int,
                    height - 1,
                ));
                return false;
            }
        }
        x += 1;
    }
    true
}

/// Whether `plan` is a full grid, small enough for `i32` coordinates, whose
/// outermost cells are all blocked.
pub open spec fn walled(plan: &Plan) -> bool {
    &&& 0 < plan@.len() <= i32::MAX
    &&& 0 < plan@[0]@.len() <= i32::MAX
    &&& is_grid(plan, plan@.len() as int, plan@[0]@.len() as int)
    &&& forall|x: int, y: int|
        in_bounds(plan, x, y) && (x == 0 || y == 0 || x == plan@.len() - 1 || y == plan@[0]@.len()
            - 1) ==> tile_at(plan, x, y).blocked
}

/// Whether `object` stands on a cell of `plan` that is not blocked.
pub open spec fn on_floor(plan: &Plan, object: ObjectView) -> bool {
    in_bounds(plan, object.x as int, object.y as int) && !tile_at(
        plan,
        object.x as int,
        object.y as int,
    ).blocked
}

/// What holds of the hero: nothing steers them but the player, and their
/// death leaves a corpse, not remains.
pub open spec fn hero_ok(hero: ObjectView) -> bool {
    &&& hero.ai is None
    &&& hero.fighter matches Some(f) ==> f.on_death == DeathCallback::Hero
}

/// What holds of every object but the hero: one that can fight is alive and
/// turns to remains when it dies, and its blows against the hero, and the
/// hero's against it, stay within `i32`.
pub open spec fn hostile_ok(hero: ObjectView, object: ObjectView) -> bool {
    &&& object.fighter matches Some(f) ==> f.hp > 0 && f.on_death == DeathCallback::Hostile
        && strike(hero, object) <= i32::MAX
    &&& object.ai is Some ==> strike(object, hero) <= i32::MAX
}

/// Whether no two objects that block movement stand on one cell.
pub open spec fn blockers_apart(objects: Seq<ObjectView>) -> bool {
    forall|i: int, j: int|
        0 <= i < j < objects.len() && (#[trigger] objects[i]).blocks && (#[trigger] objects[j]).blocks
            ==> !objects[i].at(objects[j].x as int, objects[j].y as int)
}

/// The state that every turn keeps: a walled map, the hero in their slot,
/// every object on open floor, a cell of its own for each object that blocks
/// movement, and each object alive exactly while it has hit points left.
pub open spec fn world_ok(plan: &Plan, objects: Seq<ObjectView>) -> bool {
    &&& walled(plan)
    &&& HERO < objects.len()
    &&& hero_ok(objects[HERO as int])
    &&& blockers_apart(objects)
    &&& forall|i: int|
        0 <= i < objects.len() ==> {
            &&& (#[trigger] objects[i]).consistent()
            &&& on_floor(plan, objects[i])
            &&& i != HERO ==> hostile_ok(objects[HERO as int], objects[i])
        }
}

/// Tells whether `plan` is walled.
pub fn is_walled(plan: &Plan) -> (b: bool)
    ensures
        b == walled(plan),
{
    let width: usize = plan.len();
    if width == 0 || width > 0x7fff_ffff {
        return false;
    }
    let height: usize = plan[0].len();
    if height == 0 || height > 0x7fff_ffff {
        return false;
    }
    let mut x: usize = 0;
    while x < width
        invariant
            x <= width,
            width == plan@.len(),
            height == plan@[0]@.len(),
            forall|c: int| 0 <= c < x ==> (#[trigger] plan@[c])@.len() == height,
            forall|c: int, r: int|
                0 <= c < x && 0 <= r < height && (c == 0 || r == 0 || c == width - 1 || r
                    == height - 1) ==> tile_at(plan, c, r).blocked,
        decreases width - x,
    {
        if plan[x].len() != height {
            return false;
        }
        let mut y: usize = 0;
        while y < height
            invariant
                y <= height,
                x < width,
                width == plan@.len(),
                height == plan@[0]@.len(),
                plan@[x as int]@.len() == height,
                forall|r: int|
                    0 <= r < y && (x == 0 || r == 0 || x == width - 1 || r == height - 1)
                        ==> tile_at(plan, x as int, r).blocked,
            decreases height - y,
        {
            if (x == 0 || y == 0 || x == width - 1 || y == height - 1) && !plan[x][y].blocked {
                assert(in_bounds(plan, x as int, y as int));
                return false;
            }
            y += 1;
        }
        x += 1;
    }
    true
}

fn fits_i32(a: i32, b: i32) -> (ok: bool)
    ensures
        ok == (a - b <= i32::MAX),
{
    a as i64 - b as i64 <= 0x7fff_ffff
}

fn power_of(object: &Object) -> (p: i32)
    ensures
        p == object@.power(),
{
    match object.fighter {
        Some(f) => f.power,
        None => 0,
    }
}

fn defense_of(object: &Object) -> (d: i32)
    ensures
        d == object@.defense(),
{
    match object.fighter {
        Some(f) => f.defense,
        None => 0,
    }
}

fn is_consistent(object: &Object) -> (b: bool)
    ensures
        b == object@.consistent(),
{
    let has_hp = match object.fighter {
        Some(f) => f.hp > 0,
        None => false,
    };
    object.alive == has_hp
}

fn is_on_floor(plan: &Plan, object: &Object) -> (b: bool)
    ensures
        b == on_floor(plan, object@),
{
    if object.x < 0 || object.y < 0 {
        return false;
    }
    let x: usize = object.x as usize;
    let y: usize = object.y as usize;
    x < plan.len() && y < plan[x].len() && !plan[x][y].blocked
}

fn is_hero_ok(hero: &Object) -> (b: bool)
    ensures
        b == hero_ok(hero@),
{
    let dies_as_hero = match hero.fighter {
        Some(f) => match f.on_death {
            DeathCallback::Hero => true,
            DeathCallback::Hostile => false,
        },
        None => true,
    };
    hero.ai.is_none() && dies_as_hero
}

fn is_hostile_ok(hero: &Object, object: &Object) -> (b: bool)
    ensures
        b == hostile_ok(hero@, object@),
{
    let fighter_ok = match object.fighter {
        Some(f) => {
            let turns_to_remains = match f.on_death {
                DeathCallback::Hero => false,
                DeathCallback::Hostile => true,
            };
            f.hp > 0 && turns_to_remains && fits_i32(power_of(hero), f.defense)
        },
        None => true,
    };
    let ai_ok = object.ai.is_none() || fits_i32(power_of(object), defense_of(hero));
    fighter_ok && ai_ok
}

fn are_blockers_apart(objects: &[Object]) -> (b: bool)
    ensures
        b == blockers_apart(views(objects@)),
{
    let mut j: usize = 0;
    while j < objects.len()
        invariant
            j <= objects@.len(),
            forall|a: int, c: int|
                0 <= a < c < j && (#[trigger] views(objects@)[a]).blocks && (#[trigger] views(
                    objects@,
                )[c]).blocks ==> !views(objects@)[a].at(
                    views(objects@)[c].x as int,
                    views(objects@)[c].y as int,
                ),
        decreases objects@.len() - j,
    {
        let mut i: usize = 0;
        while i < j
            invariant
                i <= j < objects@.len(),
                forall|a: int|
                    0 <= a < i && (#[trigger] views(objects@)[a]).blocks && views(
                        objects@,
                    )[j as int].blocks ==> !views(objects@)[a].at(
                        views(objects@)[j as int].x as int,
                        views(objects@)[j as int].y as int,
                    ),
            decreases j - i,
        {
            if objects[i].blocks && objects[j].blocks && objects[i].x == objects[j].x
                && objects[i].y == objects[j].y {
                assert(views(objects@)[i as int].blocks && views(objects@)[j as int].blocks);
                return false;
            }
            i += 1;
        }
        j += 1;
    }
    true
}

/// Tells whether the map and the objects are in the state that every turn
/// keeps.
pub fn is_world_ok(plan: &Plan, objects: &[Object]) -> (b: bool)
    ensures
        b == world_ok(plan, views(objects@)),
{
    if !is_walled(plan) {
        return false;
    }
    if objects.len() <= HERO {
        return false;
    }
    if !is_hero_ok(&objects[HERO]) {
        return false;
    }
    if !are_blockers_apart(objects) {
        return false;
    }
    let mut i: usize = 0;
    while i < objects.len()
        invariant
            i <= objects@.len(),
            HERO < objects@.len(),
            forall|j: int|
                0 <= j < i ==> {
                    &&& (#[trigger] views(objects@)[j]).consistent()
                    &&& on_floor(plan, views(objects@)[j])
                    &&& j != HERO ==> hostile_ok(views(objects@)[HERO as int], views(objects@)[j])
                },
        decreases objects@.len() - i,
    {
        let object_ok = is_consistent(&objects[i]) && is_on_floor(plan, &objects[i]) && (i == HERO
            || is_hostile_ok(&objects[HERO], &objects[i]));
        if !object_ok {
            assert(views(objects@)[i as int] == objects@[i as int]@);
            return false;
        }
        i += 1;
    }
    true
}

} // verus!

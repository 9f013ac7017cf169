//! A turn: the hero acts on an intent, then every hostile acts in the order
//! of its slot.

use vstd::prelude::*;
use crate::game::{
    fov_covers, fov_has, hostile_ok, on_floor, seen, world_ok, FovGrid, Game, HERO,
};
use crate::messages::Line;
use crate::movement::{can_step, move_by, move_towards, moved, mut_two, unit_step, views};
use crate::object::{attack_log, can_attack, distance_squared, struck, Object, ObjectView};
use crate::tile::{in_bounds, Plan};

verus! {

/// What the hero did with an intent.
#[derive(Clone, Copy, Debug, PartialEq, Eq, Structural)]
pub enum HeroAction {
    /// The hero moved, struck, or walked into something: the hostiles are due.
    TookTurn,
    /// Nothing happened on the map.
    DidntTakeTurn,
    /// The player wants to leave.
    Exit,
}

/// What the player asked for.
#[derive(Clone, Copy, Debug, PartialEq, Eq, Structural)]
pub enum Intent {
    /// One cell toward smaller `y`.
    MoveUp,
    /// One cell toward greater `y`.
    MoveDown,
    /// One cell toward smaller `x`.
    MoveLeft,
    /// One cell toward greater `x`.
    MoveRight,
    /// Switch between window and full screen; the caller's business.
    ToggleFullscreen,
    /// Leave the game.
    Exit,
    /// No key, or one that means nothing.
    Nothing,
}

impl Intent {
    /// The step that the intent asks of the hero, if it asks for one. Up is
    /// toward smaller `y`.
    pub open spec fn step(self) -> Option<(int, int)> {
        match self {
            Intent::MoveUp => Some((0, -1)),
            Intent::MoveDown => Some((0, 1)),
            Intent::MoveLeft => Some((-1, 0)),
            Intent::MoveRight => Some((1, 0)),
            _ => None,
        }
    }
}

/// The objects and the log after something happened.
pub struct Outcome {
    pub objects: Seq<ObjectView>,
    pub log: Seq<Line>,
}

/// Whether `object` can fight and stands at `(x, y)`.
pub open spec fn fights_at(object: ObjectView, x: int, y: int) -> bool {
    object.fighter is Some && object.at(x, y)
}

/// The first slot from `from` on whose object can fight and stands at
/// `(x, y)`, or the number of objects if there is none.
pub open spec fn first_fighter_at(objects: Seq<ObjectView>, x: int, y: int, from: int) -> int
    decreases objects.len() - from,
{
    if from >= objects.len() {
        objects.len() as int
    } else if fights_at(objects[from], x, y) {
        from
    } else {
        first_fighter_at(objects, x, y, from + 1)
    }
}

/// Whether the hero's step by `(dx, dy)` can be resolved: the cell is within
/// reach, a fighter that stands there is not the hero and can be struck
/// within `i32`, and a cell without a fighter is on the map.
pub open spec fn hero_can_act(plan: &Plan, objects: Seq<ObjectView>, dx: int, dy: int) -> bool {
    let hero = objects[HERO as int];
    let x = hero.x + dx;
    let y = hero.y + dy;
    let target = first_fighter_at(objects, x, y, 0);
    &&& i32::MIN <= x <= i32::MAX
    &&& i32::MIN <= y <= i32::MAX
    &&& if target < objects.len() {
        target != HERO && can_attack(hero, objects[target])
    } else {
        in_bounds(plan, x, y)
    }
}

/// The hero's step by `(dx, dy)`: a blow against the first fighter on the
/// cell if there is one, a move onto the cell otherwise.
pub open spec fn hero_acts(
    plan: &Plan,
    objects: Seq<ObjectView>,
    log: Seq<Line>,
    dx: int,
    dy: int,
) -> Outcome {
    let hero = objects[HERO as int];
    let target = first_fighter_at(objects, hero.x + dx, hero.y + dy, 0);
    if target < objects.len() {
        Outcome {
            objects: objects.update(target, struck(hero, objects[target])),
            log: log + attack_log(hero, objects[target]),
        }
    } else {
        Outcome { objects: moved(plan, objects, HERO as int, dx, dy), log }
    }
}

fn find_fighter_at(x: i32, y: i32, objects: &[Object]) -> (found: Option<usize>)
    ensures
        match found {
            Some(id) => id == first_fighter_at(views(objects@), x as int, y as int, 0) && id
                < objects@.len(),
            None => first_fighter_at(views(objects@), x as int, y as int, 0) == objects@.len(),
        },
{
    let mut i: usize = 0;
    while i < objects.len()
        invariant
            i <= objects@.len(),
            first_fighter_at(views(objects@), x as int, y as int, 0) == first_fighter_at(
                views(objects@),
                x as int,
                y as int,
                i as int,
            ),
        decreases objects@.len() - i,
    {
        assert(views(objects@)[i as int] == objects@[i as int]@);
        if objects[i].fighter.is_some() && objects[i].x == x && objects[i].y == y {
            return Some(i);
        }
        i += 1;
    }
    None
}

/// The hero steps by `(dx, dy)`: onto the cell if no fighter stands there,
/// against the first fighter that does otherwise.
pub fn hero_move_or_attack(dx: i32, dy: i32, game: &mut Game, objects: &mut [Object])
    requires
        HERO < old(objects)@.len(),
        hero_can_act(&old(game).plan, views(old(objects)@), dx as int, dy as int),
    ensures
        final(objects)@.len() == old(objects)@.len(),
        final(game).plan == old(game).plan,
        (Outcome { objects: views(final(objects)@), log: final(game).messages@ }) == hero_acts(
            &old(game).plan,
            views(old(objects)@),
            old(game).messages@,
            dx as int,
            dy as int,
        ),
{
    let x: i32 = objects[HERO].x + dx;
    let y: i32 = objects[HERO].y + dy;
    let target_id = find_fighter_at(x, y, objects);
    match target_id {
        Some(target_id) => {
            let (hero, target) = mut_two(HERO, target_id, objects);
            hero.attack(target, game);
            assert(views(objects@) =~= hero_acts(
                &old(game).plan,
                views(old(objects)@),
                old(game).messages@,
                dx as int,
                dy as int,
            ).objects);
        },
        None => {
            move_by(HERO, dx, dy, &game.plan, objects);
        },
    }
}

/// The step of a hostile at `me` toward the hero at `hero`.
pub open spec fn chase_step(me: ObjectView, hero: ObjectView) -> (int, int) {
    (unit_step(hero.x - me.x, hero.y - me.y), unit_step(hero.y - me.y, hero.x - me.x))
}

/// Whether the hero still has hit points to lose.
pub open spec fn has_hp(object: ObjectView) -> bool {
    object.fighter matches Some(f) && f.hp > 0
}

/// Whether the turn of hostile `id` can be resolved: `fov` knows its cell,
/// the cell it would step onto is on the map, and a blow against the hero
/// comes from another slot and stays within `i32`.
pub open spec fn ai_can_act(plan: &Plan, fov: &FovGrid, objects: Seq<ObjectView>, id: int) -> bool {
    let me = objects[id];
    let hero = objects[HERO as int];
    &&& fov_has(fov, me.x as int, me.y as int)
    &&& seen(fov, me.x as int, me.y as int) ==> if distance_squared(me, hero) >= 4 {
        can_step(plan, me, chase_step(me, hero).0, chase_step(me, hero).1)
    } else {
        has_hp(hero) ==> id != HERO && can_attack(me, hero)
    }
}

/// The turn of hostile `id`. Out of sight it does nothing. In sight, and two
/// cells or more from the hero, it tries one step toward them. Nearer than
/// that, it strikes the hero if the hero has hit points left.
pub open spec fn ai_acts(
    plan: &Plan,
    fov: &FovGrid,
    objects: Seq<ObjectView>,
    log: Seq<Line>,
    id: int,
) -> Outcome {
    let me = objects[id];
    let hero = objects[HERO as int];
    if !seen(fov, me.x as int, me.y as int) {
        Outcome { objects, log }
    } else if distance_squared(me, hero) >= 4 {
        Outcome {
            objects: moved(plan, objects, id, chase_step(me, hero).0, chase_step(me, hero).1),
            log,
        }
    } else if has_hp(hero) {
        Outcome {
            objects: objects.update(HERO as int, struck(me, hero)),
            log: log + attack_log(me, hero),
        }
    } else {
        Outcome { objects, log }
    }
}

fn is_in_fov(fov: &FovGrid, x: i32, y: i32) -> (visible: bool)
    requires
        fov_has(fov, x as int, y as int),
    ensures
        visible == seen(fov, x as int, y as int),
{
    fov[x as usize][y as usize]
}

/// Hostile `hostile_id` takes its turn; `fov` says whether it is in sight.
pub fn ai_take_turn(hostile_id: usize, fov: &FovGrid, game: &mut Game, objects: &mut [Object])
    requires
        hostile_id < old(objects)@.len(),
        HERO < old(objects)@.len(),
        ai_can_act(&old(game).plan, fov, views(old(objects)@), hostile_id as int),
    ensures
        final(objects)@.len() == old(objects)@.len(),
        final(game).plan == old(game).plan,
        (Outcome { objects: views(final(objects)@), log: final(game).messages@ }) == ai_acts(
            &old(game).plan,
            fov,
            views(old(objects)@),
            old(game).messages@,
            hostile_id as int,
        ),
{
    let (hostile_x, hostile_y) = objects[hostile_id].pos();
    if is_in_fov(fov, hostile_x, hostile_y) {
        if objects[hostile_id].distance_squared_to(&objects[HERO]) >= 4 {
            let (hero_x, hero_y) = objects[HERO].pos();
            move_towards(hostile_id, hero_x, hero_y, &game.plan, objects);
        } else if hero_has_hp(&objects[HERO]) {
            let (hostile, hero) = mut_two(hostile_id, HERO, objects);
            hostile.attack(hero, game);
            assert(views(objects@) =~= ai_acts(
                &old(game).plan,
                fov,
                views(old(objects)@),
                old(game).messages@,
                hostile_id as int,
            ).objects);
        } else {
            assert(views(objects@) =~= views(old(objects)@));
        }
    } else {
        assert(views(objects@) =~= views(old(objects)@));
    }
}

fn hero_has_hp(hero: &Object) -> (b: bool)
    ensures
        b == has_hp(hero@),
{
    match hero.fighter {
        Some(f) => f.hp > 0,
        None => false,
    }
}


/// The hostiles' turns in the slots below `upto`, in the order of the slots.
/// An object without behaviour, such as remains, takes no turn.
pub open spec fn ai_sweep(
    plan: &Plan,
    fov: &FovGrid,
    objects: Seq<ObjectView>,
    log: Seq<Line>,
    upto: int,
) -> Outcome
    decreases upto,
{
    if upto <= 0 {
        Outcome { objects, log }
    } else {
        let before = ai_sweep(plan, fov, objects, log, upto - 1);
        if before.objects[upto - 1].ai is Some {
            ai_acts(plan, fov, before.objects, before.log, upto - 1)
        } else {
            before
        }
    }
}

/// Whether the hostiles' turns in the slots below `upto` can all be
/// resolved, each in the state that the turns before it leave behind.
pub open spec fn sweep_can_run(
    plan: &Plan,
    fov: &FovGrid,
    objects: Seq<ObjectView>,
    log: Seq<Line>,
    upto: int,
) -> bool
    decreases upto,
{
    if upto <= 0 {
        true
    } else {
        let before = ai_sweep(plan, fov, objects, log, upto - 1);
        &&& sweep_can_run(plan, fov, objects, log, upto - 1)
        &&& before.objects[upto - 1].ai is Some ==> ai_can_act(plan, fov, before.objects, upto - 1)
    }
}

/// What the hero's handling of `intent` reports: a step takes a turn while
/// the hero is alive; leaving is reported as such; nothing else takes a turn.
pub open spec fn input_action(objects: Seq<ObjectView>, intent: Intent) -> HeroAction {
    if intent.step() is Some && objects[HERO as int].alive {
        HeroAction::TookTurn
    } else if intent == Intent::Exit {
        HeroAction::Exit
    } else {
        HeroAction::DidntTakeTurn
    }
}

/// What the hero's handling of `intent` does: a step is resolved while the
/// hero is alive, and nothing else changes anything.
pub open spec fn input_outcome(
    plan: &Plan,
    objects: Seq<ObjectView>,
    log: Seq<Line>,
    intent: Intent,
) -> Outcome {
    match intent.step() {
        Some(step) if objects[HERO as int].alive => hero_acts(plan, objects, log, step.0, step.1),
        _ => Outcome { objects, log },
    }
}

/// Whether `intent` can be handled: a living hero's step can be resolved.
pub open spec fn can_handle(plan: &Plan, objects: Seq<ObjectView>, intent: Intent) -> bool {
    intent.step() matches Some(step) ==> objects[HERO as int].alive ==> hero_can_act(
        plan,
        objects,
        step.0,
        step.1,
    )
}

/// A whole turn: the hero handles `intent`; if that took a turn and the hero
/// is alive, every hostile takes its turn.
pub open spec fn turn_outcome(
    plan: &Plan,
    fov: &FovGrid,
    objects: Seq<ObjectView>,
    log: Seq<Line>,
    intent: Intent,
) -> Outcome {
    let after_hero = input_outcome(plan, objects, log, intent);
    if input_action(objects, intent) == HeroAction::TookTurn && after_hero.objects[HERO as int].alive {
        ai_sweep(plan, fov, after_hero.objects, after_hero.log, after_hero.objects.len() as int)
    } else {
        after_hero
    }
}

/// Whether a whole turn can be resolved: the hero's part can, and so can the
/// hostiles' turns that follow it.
pub open spec fn turn_can_run(
    plan: &Plan,
    fov: &FovGrid,
    objects: Seq<ObjectView>,
    log: Seq<Line>,
    intent: Intent,
) -> bool {
    let after_hero = input_outcome(plan, objects, log, intent);
    &&& can_handle(plan, objects, intent)
    &&& input_action(objects, intent) == HeroAction::TookTurn && after_hero.objects[HERO as int].alive
        ==> sweep_can_run(
        plan,
        fov,
        after_hero.objects,
        after_hero.log,
        after_hero.objects.len() as int,
    )
}

/// The hero acts on `intent`. Toggling the full screen is left to the caller.
pub fn handle_input(intent: Intent, game: &mut Game, objects: &mut [Object]) -> (action: HeroAction)
    requires
        HERO < old(objects)@.len(),
        can_handle(&old(game).plan, views(old(objects)@), intent),
    ensures
        action == input_action(views(old(objects)@), intent),
        final(objects)@.len() == old(objects)@.len(),
        final(game).plan == old(game).plan,
        (Outcome { objects: views(final(objects)@), log: final(game).messages@ }) == input_outcome(
            &old(game).plan,
            views(old(objects)@),
            old(game).messages@,
            intent,
        ),
{
    let hero_alive = objects[HERO].alive;
    assert(views(objects@)[HERO as int] == objects@[HERO as int]@);
    match (intent, hero_alive) {
        (Intent::MoveUp, true) => {
            hero_move_or_attack(0, -1, game, objects);
            HeroAction::TookTurn
        },
        (Intent::MoveDown, true) => {
            hero_move_or_attack(0, 1, game, objects);
            HeroAction::TookTurn
        },
        (Intent::MoveLeft, true) => {
            hero_move_or_attack(-1, 0, game, objects);
            HeroAction::TookTurn
        },
        (Intent::MoveRight, true) => {
            hero_move_or_attack(1, 0, game, objects);
            HeroAction::TookTurn
        },
        (Intent::ToggleFullscreen, _) => HeroAction::DidntTakeTurn,
        (Intent::Exit, _) => HeroAction::Exit,
        _ => HeroAction::DidntTakeTurn,
    }
}

/// Every hostile takes its turn, in the order of the slots.
pub fn ai_turns(fov: &FovGrid, game: &mut Game, objects: &mut [Object])
    requires
        sweep_can_run(
            &old(game).plan,
            fov,
            views(old(objects)@),
            old(game).messages@,
            old(objects)@.len() as int,
        ),
    ensures
        final(objects)@.len() == old(objects)@.len(),
        final(game).plan == old(game).plan,
        (Outcome { objects: views(final(objects)@), log: final(game).messages@ }) == ai_sweep(
            &old(game).plan,
            fov,
            views(old(objects)@),
            old(game).messages@,
            old(objects)@.len() as int,
        ),
        world_ok(&old(game).plan, views(old(objects)@)) && fov_covers(fov, &old(game).plan)
            ==> world_ok(&final(game).plan, views(final(objects)@)),
{
    let mut id: usize = 0;
    while id < objects.len()
        invariant
            id <= objects@.len(),
            objects@.len() == old(objects)@.len(),
            game.plan == old(game).plan,
            sweep_can_run(
                &old(game).plan,
                fov,
                views(old(objects)@),
                old(game).messages@,
                old(objects)@.len() as int,
            ),
            (Outcome { objects: views(objects@), log: game.messages@ }) == ai_sweep(
                &old(game).plan,
                fov,
                views(old(objects)@),
                old(game).messages@,
                id as int,
            ),
        decreases objects@.len() - id,
    {
        assert(views(objects@)[id as int] == objects@[id as int]@);
        proof {
            lemma_sweep_can_run_so_far(
                &old(game).plan,
                fov,
                views(old(objects)@),
                old(game).messages@,
                old(objects)@.len() as int,
                id + 1,
            );
        }
        if objects[id].ai.is_some() {
            ai_take_turn(id, fov, game, objects);
        }
        id += 1;
    }
    proof {
        if world_ok(&old(game).plan, views(old(objects)@)) && fov_covers(fov, &old(game).plan) {
            lemma_sweep_keeps_world(
                &old(game).plan,
                fov,
                views(old(objects)@),
                old(game).messages@,
                old(objects)@.len() as int,
            );
        }
    }
}

/// Plays one turn: the hero acts on `intent`, and if that took a turn and
/// the hero is alive, the hostiles act.
pub fn play_turn(intent: Intent, fov: &FovGrid, game: &mut Game, objects: &mut [Object]) -> (action:
    HeroAction)
    requires
        HERO < old(objects)@.len(),
        turn_can_run(&old(game).plan, fov, views(old(objects)@), old(game).messages@, intent),
    ensures
        action == input_action(views(old(objects)@), intent),
        final(objects)@.len() == old(objects)@.len(),
        final(game).plan == old(game).plan,
        (Outcome { objects: views(final(objects)@), log: final(game).messages@ }) == turn_outcome(
            &old(game).plan,
            fov,
            views(old(objects)@),
            old(game).messages@,
            intent,
        ),
        world_ok(&old(game).plan, views(old(objects)@)) && fov_covers(fov, &old(game).plan)
            ==> world_ok(&final(game).plan, views(final(objects)@)),
{
    proof {
        if world_ok(&game.plan, views(objects@)) && fov_covers(fov, &game.plan) {
            lemma_turn_keeps_world(&game.plan, fov, views(objects@), game.messages@, intent);
        }
    }
    let action = handle_input(intent, game, objects);
    assert(views(objects@)[HERO as int] == objects@[HERO as int]@);
    let took_turn = match action {
        HeroAction::TookTurn => true,
        _ => false,
    };
    if took_turn && objects[HERO].alive {
        ai_turns(fov, game, objects);
    }
    action
}

/// A step along one axis is one cell at most, and never away from the target.
pub proof fn lemma_unit_step_toward(d: int, e: int)
    ensures
        -1 <= unit_step(d, e) <= 1,
        unit_step(d, e) == 1 ==> d > 0,
        unit_step(d, e) == -1 ==> d < 0,
{
}

/// The slot that `first_fighter_at` finds holds a fighter on the cell, no
/// earlier slot from `from` on does, and it finds one whenever there is one.
pub proof fn lemma_first_fighter_at(objects: Seq<ObjectView>, x: int, y: int, from: int)
    requires
        0 <= from,
    ensures
        from <= first_fighter_at(objects, x, y, from) || objects.len() < from,
        first_fighter_at(objects, x, y, from) <= objects.len() || objects.len() < from,
        first_fighter_at(objects, x, y, from) < objects.len() ==> fights_at(
            objects[first_fighter_at(objects, x, y, from)],
            x,
            y,
        ),
        forall|i: int|
            from <= i < first_fighter_at(objects, x, y, from) && i < objects.len() ==> !fights_at(
                #[trigger] objects[i],
                x,
                y,
            ),
    decreases objects.len() - from,
{
    if from < objects.len() && !fights_at(objects[from], x, y) {
        lemma_first_fighter_at(objects, x, y, from + 1);
    }
}

/// A step keeps the world in order: the object ends on open floor, and
/// nothing else about it changes.
pub proof fn lemma_move_keeps_world(
    plan: &Plan,
    objects: Seq<ObjectView>,
    id: int,
    dx: int,
    dy: int,
)
    requires
        world_ok(plan, objects),
        0 <= id < objects.len(),
        can_step(plan, objects[id], dx, dy),
    ensures
        world_ok(plan, moved(plan, objects, id, dx, dy)),
{
    let after = moved(plan, objects, id, dx, dy);
    assert forall|i: int| 0 <= i < after.len() implies {
        &&& (#[trigger] after[i]).consistent()
        &&& on_floor(plan, after[i])
        &&& i != HERO ==> hostile_ok(after[HERO as int], after[i])
    } by {
        assert(objects[i].consistent());
    }
}

/// The hero's part of a turn keeps the world in order, and every step that
/// an intent can ask for can be resolved in a world that is in order.
pub proof fn lemma_hero_turn_keeps_world(
    plan: &Plan,
    objects: Seq<ObjectView>,
    log: Seq<Line>,
    intent: Intent,
)
    requires
        world_ok(plan, objects),
    ensures
        can_handle(plan, objects, intent),
        world_ok(plan, input_outcome(plan, objects, log, intent).objects),
        input_outcome(plan, objects, log, intent).objects.len() == objects.len(),
{
    let hero = objects[HERO as int];
    assert(hero.consistent() && on_floor(plan, hero));
    if intent.step() is Some && hero.alive {
        let step = intent.step()->0;
        let x = hero.x + step.0;
        let y = hero.y + step.1;
        let width = plan@.len() as int;
        let height = plan@[0]@.len() as int;
        assert(in_bounds(plan, hero.x as int, hero.y as int));
        assert(plan@[hero.x as int]@.len() == height);
        assert(in_bounds(plan, x, y)) by {
            assert(plan@[x]@.len() == height);
        }
        lemma_first_fighter_at(objects, x, y, 0);
        let target = first_fighter_at(objects, x, y, 0);
        if target < objects.len() {
            let victim = objects[target];
            assert(victim.consistent() && on_floor(plan, victim));
            assert(hostile_ok(hero, victim));
            let after = objects.update(target, struck(hero, victim));
            assert forall|i: int| 0 <= i < after.len() implies {
                &&& (#[trigger] after[i]).consistent()
                &&& on_floor(plan, after[i])
                &&& i != HERO ==> hostile_ok(after[HERO as int], after[i])
            } by {
                assert(objects[i].consistent());
            }
        } else {
            lemma_move_keeps_world(plan, objects, HERO as int, step.0, step.1);
        }
    }
}

/// A hostile's turn keeps the world in order, and can always be resolved in
/// a world that is in order.
pub proof fn lemma_ai_turn_keeps_world(
    plan: &Plan,
    fov: &FovGrid,
    objects: Seq<ObjectView>,
    log: Seq<Line>,
    id: int,
)
    requires
        world_ok(plan, objects),
        fov_covers(fov, plan),
        0 <= id < objects.len(),
        objects[id].ai is Some,
    ensures
        ai_can_act(plan, fov, objects, id),
        world_ok(plan, ai_acts(plan, fov, objects, log, id).objects),
        ai_acts(plan, fov, objects, log, id).objects.len() == objects.len(),
{
    let me = objects[id];
    let hero = objects[HERO as int];
    assert(me.consistent() && on_floor(plan, me));
    assert(hero.consistent() && on_floor(plan, hero));
    assert(hostile_ok(hero, me));
    if seen(fov, me.x as int, me.y as int) {
        if distance_squared(me, hero) >= 4 {
            let step = chase_step(me, hero);
            lemma_unit_step_toward(hero.x - me.x, hero.y - me.y);
            lemma_unit_step_toward(hero.y - me.y, hero.x - me.x);
            let height = plan@[0]@.len() as int;
            assert(plan@[me.x as int]@.len() == height);
            assert(plan@[hero.x as int]@.len() == height);
            assert(in_bounds(plan, me.x + step.0, me.y + step.1)) by {
                assert(plan@[me.x + step.0]@.len() == height);
            }
            lemma_move_keeps_world(plan, objects, id, step.0, step.1);
        } else if has_hp(hero) {
            let after = objects.update(HERO as int, struck(me, hero));
            assert forall|i: int| 0 <= i < after.len() implies {
                &&& (#[trigger] after[i]).consistent()
                &&& on_floor(plan, after[i])
                &&& i != HERO ==> hostile_ok(after[HERO as int], after[i])
            } by {
                assert(objects[i].consistent());
            }
        }
    }
}

/// The hostiles' turns keep the world in order.
pub proof fn lemma_sweep_keeps_world(
    plan: &Plan,
    fov: &FovGrid,
    objects: Seq<ObjectView>,
    log: Seq<Line>,
    upto: int,
)
    requires
        world_ok(plan, objects),
        fov_covers(fov, plan),
        upto <= objects.len(),
    ensures
        world_ok(plan, ai_sweep(plan, fov, objects, log, upto).objects),
        ai_sweep(plan, fov, objects, log, upto).objects.len() == objects.len(),
    decreases upto,
{
    if upto > 0 {
        lemma_sweep_keeps_world(plan, fov, objects, log, upto - 1);
        let before = ai_sweep(plan, fov, objects, log, upto - 1);
        if before.objects[upto - 1].ai is Some {
            lemma_ai_turn_keeps_world(plan, fov, before.objects, before.log, upto - 1);
        }
    }
}

/// If the hostiles' turns in the slots below `upto` can be resolved, so can
/// those in the slots below any `fewer`.
pub proof fn lemma_sweep_can_run_so_far(
    plan: &Plan,
    fov: &FovGrid,
    objects: Seq<ObjectView>,
    log: Seq<Line>,
    upto: int,
    fewer: int,
)
    requires
        sweep_can_run(plan, fov, objects, log, upto),
        fewer <= upto,
    ensures
        sweep_can_run(plan, fov, objects, log, fewer),
    decreases upto,
{
    if fewer < upto && upto > 0 {
        lemma_sweep_can_run_so_far(plan, fov, objects, log, upto - 1, fewer);
    }
}

/// In a world that is in order, the hostiles' turns can be resolved.
pub proof fn lemma_sweep_can_run_in_order(
    plan: &Plan,
    fov: &FovGrid,
    objects: Seq<ObjectView>,
    log: Seq<Line>,
    upto: int,
)
    requires
        world_ok(plan, objects),
        fov_covers(fov, plan),
        upto <= objects.len(),
    ensures
        sweep_can_run(plan, fov, objects, log, upto),
    decreases upto,
{
    if upto > 0 {
        lemma_sweep_can_run_in_order(plan, fov, objects, log, upto - 1);
        lemma_sweep_keeps_world(plan, fov, objects, log, upto - 1);
        let before = ai_sweep(plan, fov, objects, log, upto - 1);
        if before.objects[upto - 1].ai is Some {
            lemma_ai_turn_keeps_world(plan, fov, before.objects, before.log, upto - 1);
        }
    }
}

/// In a world that is in order, a whole turn can be resolved, whatever the
/// intent.
pub proof fn lemma_turn_can_run_in_order(
    plan: &Plan,
    fov: &FovGrid,
    objects: Seq<ObjectView>,
    log: Seq<Line>,
    intent: Intent,
)
    requires
        world_ok(plan, objects),
        fov_covers(fov, plan),
    ensures
        turn_can_run(plan, fov, objects, log, intent),
{
    lemma_hero_turn_keeps_world(plan, objects, log, intent);
    let after_hero = input_outcome(plan, objects, log, intent);
    lemma_sweep_can_run_in_order(
        plan,
        fov,
        after_hero.objects,
        after_hero.log,
        after_hero.objects.len() as int,
    );
}

/// A whole turn keeps the world in order.
pub proof fn lemma_turn_keeps_world(
    plan: &Plan,
    fov: &FovGrid,
    objects: Seq<ObjectView>,
    log: Seq<Line>,
    intent: Intent,
)
    requires
        world_ok(plan, objects),
        fov_covers(fov, plan),
    ensures
        world_ok(plan, turn_outcome(plan, fov, objects, log, intent).objects),
        turn_outcome(plan, fov, objects, log, intent).objects.len() == objects.len(),
{
    lemma_hero_turn_keeps_world(plan, objects, log, intent);
    let after_hero = input_outcome(plan, objects, log, intent);
    lemma_sweep_keeps_world(plan, fov, after_hero.objects, after_hero.log, objects.len() as int);
}


/// Whether nothing was undone between two states: the objects are the same
/// in number, none that was dead is alive, and the log has only grown at its
/// end.
pub open spec fn one_way(
    objects: Seq<ObjectView>,
    log: Seq<Line>,
    after: Outcome,
) -> bool {
    &&& after.objects.len() == objects.len()
    &&& forall|i: int|
        0 <= i < objects.len() ==> !(#[trigger] objects[i]).alive ==> !after.objects[i].alive
    &&& log.len() <= after.log.len()
    &&& after.log.subrange(0, log.len() as int) == log
}

/// The hero's step undoes nothing.
pub proof fn lemma_hero_step_is_one_way(
    plan: &Plan,
    objects: Seq<ObjectView>,
    log: Seq<Line>,
    dx: int,
    dy: int,
)
    requires
        HERO < objects.len(),
    ensures
        one_way(objects, log, hero_acts(plan, objects, log, dx, dy)),
{
    let after = hero_acts(plan, objects, log, dx, dy);
    lemma_first_fighter_at(objects, objects[HERO as int].x + dx, objects[HERO as int].y + dy, 0);
    assert(after.log.subrange(0, log.len() as int) =~= log);
}

/// A hostile's turn undoes nothing.
pub proof fn lemma_ai_turn_is_one_way(
    plan: &Plan,
    fov: &FovGrid,
    objects: Seq<ObjectView>,
    log: Seq<Line>,
    id: int,
)
    requires
        HERO < objects.len(),
        0 <= id < objects.len(),
    ensures
        one_way(objects, log, ai_acts(plan, fov, objects, log, id)),
{
    let after = ai_acts(plan, fov, objects, log, id);
    assert(after.log.subrange(0, log.len() as int) =~= log);
}

/// The hostiles' turns undo nothing.
pub proof fn lemma_sweep_is_one_way(
    plan: &Plan,
    fov: &FovGrid,
    objects: Seq<ObjectView>,
    log: Seq<Line>,
    upto: int,
)
    requires
        HERO < objects.len(),
        upto <= objects.len(),
    ensures
        one_way(objects, log, ai_sweep(plan, fov, objects, log, upto)),
    decreases upto,
{
    if upto > 0 {
        lemma_sweep_is_one_way(plan, fov, objects, log, upto - 1);
        let before = ai_sweep(plan, fov, objects, log, upto - 1);
        let after = ai_sweep(plan, fov, objects, log, upto);
        if before.objects[upto - 1].ai is Some {
            lemma_ai_turn_is_one_way(plan, fov, before.objects, before.log, upto - 1);
        }
        assert(after.log.subrange(0, log.len() as int) =~= before.log.subrange(
            0,
            log.len() as int,
        ));
    } else {
        assert(log.subrange(0, log.len() as int) =~= log);
    }
}

/// A whole turn undoes nothing: the dead stay dead, and the log keeps every
/// line it had, in place.
pub proof fn lemma_turn_is_one_way(
    plan: &Plan,
    fov: &FovGrid,
    objects: Seq<ObjectView>,
    log: Seq<Line>,
    intent: Intent,
)
    requires
        HERO < objects.len(),
    ensures
        one_way(objects, log, turn_outcome(plan, fov, objects, log, intent)),
{
    let after_hero = input_outcome(plan, objects, log, intent);
    if intent.step() is Some && objects[HERO as int].alive {
        let step = intent.step()->0;
        lemma_hero_step_is_one_way(plan, objects, log, step.0, step.1);
    } else {
        assert(log.subrange(0, log.len() as int) =~= log);
    }
    lemma_sweep_is_one_way(plan, fov, after_hero.objects, after_hero.log, objects.len() as int);
    let after = turn_outcome(plan, fov, objects, log, intent);
    assert(after.log.subrange(0, log.len() as int) =~= after_hero.log.subrange(
        0,
        log.len() as int,
    ));
}

} // verus!

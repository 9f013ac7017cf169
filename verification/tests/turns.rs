use dungeon::color::{orange, red, white};
use dungeon::dungeon::gen_room;
use dungeon::turn::{ai_take_turn, ai_turns, handle_input, hero_move_or_attack};
use dungeon::{
    is_world_ok, play_turn, Ai, DeathCallback, Fighter, FovGrid, Game, HeroAction, Intent,
    Messages, Object, Plan, Rect, Tile, HERO,
};

fn room_game(width: usize, height: usize) -> Game {
    let mut plan: Plan = vec![vec![Tile::wall(); height]; width];
    gen_room(Rect::new(0, 0, width as i32 - 1, height as i32 - 1), &mut plan);
    Game { plan, messages: Messages::new() }
}

fn sight(width: usize, height: usize, visible: bool) -> FovGrid {
    vec![vec![visible; height]; width]
}

fn hero_at(x: i32, y: i32) -> Object {
    let mut hero = Object::new(x, y, '@', "hero", white(), true);
    hero.alive = true;
    hero.fighter =
        Some(Fighter { max_hp: 30, hp: 30, defense: 2, power: 5, on_death: DeathCallback::Hero });
    hero
}

fn officer_at(x: i32, y: i32) -> Object {
    let mut officer = Object::new(x, y, 'o', "police officer", white(), true);
    officer.alive = true;
    officer.fighter =
        Some(Fighter { max_hp: 10, hp: 10, defense: 0, power: 3, on_death: DeathCallback::Hostile });
    officer.ai = Some(Ai::Basic);
    officer
}

fn soldier_at(x: i32, y: i32) -> Object {
    let mut soldier = Object::new(x, y, 'a', "army soldier", white(), true);
    soldier.alive = true;
    soldier.fighter =
        Some(Fighter { max_hp: 15, hp: 15, defense: 1, power: 4, on_death: DeathCallback::Hostile });
    soldier.ai = Some(Ai::Basic);
    soldier
}

#[test]
fn hero_is_the_first_slot() {
    assert_eq!(HERO, 0);
}

#[test]
fn hero_moves_onto_free_floor() {
    let mut game = room_game(10, 10);
    let mut objects = vec![hero_at(4, 4), officer_at(7, 7)];
    hero_move_or_attack(1, 0, &mut game, &mut objects);
    assert_eq!(objects[HERO].pos(), (5, 4));
    assert_eq!(game.messages.len(), 0);
    assert_eq!(objects[1].fighter.unwrap().hp, 10);
}

#[test]
fn hero_strikes_the_fighter_in_the_way() {
    let mut game = room_game(10, 10);
    let mut objects = vec![hero_at(4, 4), officer_at(5, 4)];
    hero_move_or_attack(1, 0, &mut game, &mut objects);
    assert_eq!(objects[HERO].pos(), (4, 4));
    assert_eq!(objects[1].fighter.unwrap().hp, 5);
    assert_eq!(game.messages.len(), 1);
    assert_eq!(
        game.messages.get(0),
        &("hero attacks police officer for 5 hit points".to_string(), white())
    );
}

#[test]
fn hero_kills_and_then_walks_over_the_remains() {
    let mut game = room_game(10, 10);
    let mut objects = vec![hero_at(4, 4), officer_at(5, 4)];
    hero_move_or_attack(1, 0, &mut game, &mut objects);
    hero_move_or_attack(1, 0, &mut game, &mut objects);
    assert!(!objects[1].alive);
    assert_eq!(objects[1].name, "remains of police officer");
    assert_eq!(game.messages.len(), 3);
    assert_eq!(game.messages.get(2), &("police officer is dead".to_string(), orange()));
    hero_move_or_attack(1, 0, &mut game, &mut objects);
    assert_eq!(objects[HERO].pos(), (5, 4));
    assert_eq!(game.messages.len(), 3);
}

#[test]
fn hero_strikes_the_first_fighter_on_the_cell() {
    let mut game = room_game(10, 10);
    let mut bystander = Object::new(5, 4, 'x', "crate", white(), false);
    bystander.fighter = None;
    let mut objects = vec![hero_at(4, 4), bystander, soldier_at(5, 4), officer_at(5, 4)];
    hero_move_or_attack(1, 0, &mut game, &mut objects);
    assert_eq!(objects[2].fighter.unwrap().hp, 11);
    assert_eq!(objects[3].fighter.unwrap().hp, 10);
    assert_eq!(
        game.messages.get(0),
        &("hero attacks army soldier for 4 hit points".to_string(), white())
    );
}

#[test]
fn hero_is_stopped_by_a_wall() {
    let mut game = room_game(10, 10);
    let mut objects = vec![hero_at(1, 1)];
    hero_move_or_attack(-1, 0, &mut game, &mut objects);
    assert_eq!(objects[HERO].pos(), (1, 1));
    hero_move_or_attack(0, -1, &mut game, &mut objects);
    assert_eq!(objects[HERO].pos(), (1, 1));
    assert_eq!(game.messages.len(), 0);
}

#[test]
fn hostile_out_of_sight_does_nothing() {
    let mut game = room_game(10, 10);
    let fov = sight(10, 10, false);
    let mut objects = vec![hero_at(4, 4), officer_at(5, 4), officer_at(8, 8)];
    ai_take_turn(1, &fov, &mut game, &mut objects);
    ai_take_turn(2, &fov, &mut game, &mut objects);
    assert_eq!(objects[HERO].fighter.unwrap().hp, 30);
    assert_eq!(objects[1].pos(), (5, 4));
    assert_eq!(objects[2].pos(), (8, 8));
    assert_eq!(game.messages.len(), 0);
}

#[test]
fn adjacent_hostile_with_power_three_hits_the_hero_for_one() {
    let mut game = room_game(10, 10);
    let fov = sight(10, 10, true);
    let center = Rect::new(0, 0, 9, 9).center();
    assert_eq!(center, (4, 4));
    let mut objects = vec![hero_at(center.0, center.1), officer_at(5, 4)];
    ai_take_turn(1, &fov, &mut game, &mut objects);
    assert_eq!(objects[HERO].fighter.unwrap().hp, 29);
    assert!(objects[HERO].alive);
    assert_eq!(objects[1].pos(), (5, 4));
    assert_eq!(game.messages.len(), 1);
    assert_eq!(
        game.messages.get(0),
        &("police officer attacks hero for 1 hit points".to_string(), white())
    );
}

#[test]
fn diagonal_neighbour_strikes_too() {
    let mut game = room_game(10, 10);
    let fov = sight(10, 10, true);
    let mut objects = vec![hero_at(4, 4), soldier_at(5, 5)];
    ai_take_turn(1, &fov, &mut game, &mut objects);
    assert_eq!(objects[HERO].fighter.unwrap().hp, 28);
    assert_eq!(objects[1].pos(), (5, 5));
}

#[test]
fn weak_hostile_has_no_effect_on_the_hero() {
    let mut game = room_game(10, 10);
    let fov = sight(10, 10, true);
    let mut hero = hero_at(4, 4);
    hero.fighter =
        Some(Fighter { max_hp: 30, hp: 30, defense: 5, power: 5, on_death: DeathCallback::Hero });
    let mut weak = officer_at(4, 5);
    weak.fighter =
        Some(Fighter { max_hp: 10, hp: 10, defense: 0, power: 1, on_death: DeathCallback::Hostile });
    let mut objects = vec![hero, weak];
    ai_take_turn(1, &fov, &mut game, &mut objects);
    assert_eq!(objects[HERO].fighter.unwrap().hp, 30);
    assert_eq!(game.messages.len(), 1);
    assert_eq!(
        game.messages.get(0),
        &("police officer attacks hero but it has no effect".to_string(), white())
    );
}

#[test]
fn hostile_two_cells_away_steps_closer() {
    let mut game = room_game(10, 10);
    let fov = sight(10, 10, true);
    let mut objects = vec![hero_at(4, 4), officer_at(6, 4), officer_at(2, 7)];
    ai_take_turn(1, &fov, &mut game, &mut objects);
    assert_eq!(objects[1].pos(), (5, 4));
    ai_take_turn(2, &fov, &mut game, &mut objects);
    assert_eq!(objects[2].pos(), (3, 6));
    assert_eq!(objects[HERO].fighter.unwrap().hp, 30);
    assert_eq!(game.messages.len(), 0);
}

#[test]
fn hostile_only_acts_on_its_own_cell_being_in_sight() {
    let mut game = room_game(10, 10);
    let mut fov = sight(10, 10, false);
    fov[6][4] = true;
    let mut objects = vec![hero_at(4, 4), officer_at(6, 4), officer_at(4, 6)];
    ai_take_turn(1, &fov, &mut game, &mut objects);
    ai_take_turn(2, &fov, &mut game, &mut objects);
    assert_eq!(objects[1].pos(), (5, 4));
    assert_eq!(objects[2].pos(), (4, 6));
}

#[test]
fn hostile_does_not_strike_a_dead_hero() {
    let mut game = room_game(10, 10);
    let fov = sight(10, 10, true);
    let mut hero = hero_at(4, 4);
    hero.take_damage(30, &mut game);
    assert!(!hero.alive);
    let mut objects = vec![hero, officer_at(5, 4)];
    ai_take_turn(1, &fov, &mut game, &mut objects);
    assert_eq!(objects[HERO].fighter.unwrap().hp, 0);
    assert_eq!(game.messages.len(), 1);
    assert_eq!(game.messages.get(0), &("you died".to_string(), red()));
}

#[test]
fn hostiles_act_in_the_order_of_their_slots() {
    let mut game = room_game(10, 10);
    let fov = sight(10, 10, true);
    let mut objects = vec![hero_at(4, 4), soldier_at(5, 4), officer_at(3, 4), officer_at(8, 4)];
    ai_turns(&fov, &mut game, &mut objects);
    assert_eq!(game.messages.len(), 2);
    assert_eq!(
        game.messages.get(0),
        &("army soldier attacks hero for 2 hit points".to_string(), white())
    );
    assert_eq!(
        game.messages.get(1),
        &("police officer attacks hero for 1 hit points".to_string(), white())
    );
    assert_eq!(objects[HERO].fighter.unwrap().hp, 27);
    assert_eq!(objects[3].pos(), (7, 4));
}

#[test]
fn remains_take_no_turn() {
    let mut game = room_game(10, 10);
    let fov = sight(10, 10, true);
    let mut dead = officer_at(5, 4);
    dead.fighter =
        Some(Fighter { max_hp: 10, hp: 1, defense: 0, power: 3, on_death: DeathCallback::Hostile });
    dead.take_damage(5, &mut game);
    assert!(dead.ai.is_none());
    let mut objects = vec![hero_at(4, 4), dead];
    ai_turns(&fov, &mut game, &mut objects);
    assert_eq!(objects[HERO].fighter.unwrap().hp, 30);
    assert_eq!(objects[1].pos(), (5, 4));
    assert_eq!(game.messages.len(), 1);
    assert_eq!(game.messages.get(0), &("police officer is dead".to_string(), orange()));
}

#[test]
fn hero_killed_mid_sweep_is_not_struck_again() {
    let mut game = room_game(10, 10);
    let fov = sight(10, 10, true);
    let mut hero = hero_at(4, 4);
    hero.fighter =
        Some(Fighter { max_hp: 30, hp: 2, defense: 2, power: 5, on_death: DeathCallback::Hero });
    let mut objects = vec![hero, soldier_at(5, 4), soldier_at(3, 4)];
    ai_turns(&fov, &mut game, &mut objects);
    assert!(!objects[HERO].alive);
    assert_eq!(objects[HERO].fighter.unwrap().hp, 0);
    assert_eq!(game.messages.len(), 2);
    assert_eq!(
        game.messages.get(0),
        &("army soldier attacks hero for 2 hit points".to_string(), white())
    );
    assert_eq!(game.messages.get(1), &("you died".to_string(), red()));
    assert!(is_world_ok(&game.plan, &objects));
}

#[test]
fn each_step_intent_moves_the_hero_one_cell() {
    let mut game = room_game(10, 10);
    let mut objects = vec![hero_at(4, 4)];
    assert_eq!(handle_input(Intent::MoveUp, &mut game, &mut objects), HeroAction::TookTurn);
    assert_eq!(objects[HERO].pos(), (4, 3));
    assert_eq!(handle_input(Intent::MoveLeft, &mut game, &mut objects), HeroAction::TookTurn);
    assert_eq!(objects[HERO].pos(), (3, 3));
    assert_eq!(handle_input(Intent::MoveDown, &mut game, &mut objects), HeroAction::TookTurn);
    assert_eq!(objects[HERO].pos(), (3, 4));
    assert_eq!(handle_input(Intent::MoveRight, &mut game, &mut objects), HeroAction::TookTurn);
    assert_eq!(objects[HERO].pos(), (4, 4));
}

#[test]
fn walking_into_a_wall_still_takes_the_turn() {
    let mut game = room_game(10, 10);
    let mut objects = vec![hero_at(1, 1)];
    assert_eq!(handle_input(Intent::MoveUp, &mut game, &mut objects), HeroAction::TookTurn);
    assert_eq!(objects[HERO].pos(), (1, 1));
}

#[test]
fn other_intents_take_no_turn() {
    let mut game = room_game(10, 10);
    let mut objects = vec![hero_at(4, 4), officer_at(5, 4)];
    assert_eq!(
        handle_input(Intent::ToggleFullscreen, &mut game, &mut objects),
        HeroAction::DidntTakeTurn
    );
    assert_eq!(handle_input(Intent::Nothing, &mut game, &mut objects), HeroAction::DidntTakeTurn);
    assert_eq!(handle_input(Intent::Exit, &mut game, &mut objects), HeroAction::Exit);
    assert_eq!(objects[HERO].pos(), (4, 4));
    assert_eq!(objects[1].fighter.unwrap().hp, 10);
    assert_eq!(game.messages.len(), 0);
}

#[test]
fn a_dead_hero_takes_no_step() {
    let mut game = room_game(10, 10);
    let mut hero = hero_at(4, 4);
    hero.take_damage(40, &mut game);
    let mut objects = vec![hero, officer_at(5, 4)];
    assert_eq!(handle_input(Intent::MoveRight, &mut game, &mut objects), HeroAction::DidntTakeTurn);
    assert_eq!(handle_input(Intent::MoveUp, &mut game, &mut objects), HeroAction::DidntTakeTurn);
    assert_eq!(handle_input(Intent::Exit, &mut game, &mut objects), HeroAction::Exit);
    assert_eq!(objects[HERO].pos(), (4, 4));
    assert_eq!(objects[1].fighter.unwrap().hp, 10);
}

#[test]
fn a_turn_is_the_hero_then_the_hostiles() {
    let mut game = room_game(10, 10);
    let fov = sight(10, 10, true);
    let mut objects = vec![hero_at(4, 4), officer_at(5, 4), officer_at(8, 8)];
    assert!(is_world_ok(&game.plan, &objects));
    let action = play_turn(Intent::MoveRight, &fov, &mut game, &mut objects);
    assert_eq!(action, HeroAction::TookTurn);
    assert_eq!(objects[1].fighter.unwrap().hp, 5);
    assert_eq!(objects[HERO].fighter.unwrap().hp, 29);
    assert_eq!(objects[2].pos(), (7, 7));
    assert_eq!(game.messages.len(), 2);
    assert_eq!(
        game.messages.get(0),
        &("hero attacks police officer for 5 hit points".to_string(), white())
    );
    assert_eq!(
        game.messages.get(1),
        &("police officer attacks hero for 1 hit points".to_string(), white())
    );
    assert!(is_world_ok(&game.plan, &objects));
}

#[test]
fn a_hostile_killed_by_the_hero_does_not_strike_back() {
    let mut game = room_game(10, 10);
    let fov = sight(10, 10, true);
    let mut weak = officer_at(5, 4);
    weak.fighter =
        Some(Fighter { max_hp: 10, hp: 5, defense: 0, power: 3, on_death: DeathCallback::Hostile });
    let mut objects = vec![hero_at(4, 4), weak];
    let action = play_turn(Intent::MoveRight, &fov, &mut game, &mut objects);
    assert_eq!(action, HeroAction::TookTurn);
    assert!(!objects[1].alive);
    assert!(!objects[1].blocks);
    assert_eq!(objects[HERO].fighter.unwrap().hp, 30);
    assert_eq!(game.messages.len(), 2);
    assert!(is_world_ok(&game.plan, &objects));
}

#[test]
fn no_hostile_acts_when_no_turn_was_taken() {
    let mut game = room_game(10, 10);
    let fov = sight(10, 10, true);
    let mut objects = vec![hero_at(4, 4), officer_at(5, 4), officer_at(8, 8)];
    assert_eq!(play_turn(Intent::Nothing, &fov, &mut game, &mut objects), HeroAction::DidntTakeTurn);
    assert_eq!(
        play_turn(Intent::ToggleFullscreen, &fov, &mut game, &mut objects),
        HeroAction::DidntTakeTurn
    );
    assert_eq!(play_turn(Intent::Exit, &fov, &mut game, &mut objects), HeroAction::Exit);
    assert_eq!(objects[HERO].fighter.unwrap().hp, 30);
    assert_eq!(objects[2].pos(), (8, 8));
    assert_eq!(game.messages.len(), 0);
}

#[test]
fn is_world_ok_tells_an_ordered_world_from_a_broken_one() {
    let game = room_game(10, 10);
    let good = vec![hero_at(4, 4), officer_at(5, 4)];
    assert!(is_world_ok(&game.plan, &good));
    let empty: Vec<Object> = Vec::new();
    assert!(!is_world_ok(&game.plan, &empty));
    let in_wall = vec![hero_at(0, 4)];
    assert!(!is_world_ok(&game.plan, &in_wall));
    let off_map = vec![hero_at(4, 40)];
    assert!(!is_world_ok(&game.plan, &off_map));
    let mut zombie = officer_at(5, 4);
    zombie.alive = false;
    assert!(!is_world_ok(&game.plan, &vec![hero_at(4, 4), zombie]));
    assert!(!is_world_ok(&game.plan, &vec![hero_at(4, 4), officer_at(4, 4)]));
    let mut remains = officer_at(4, 4);
    remains.take_damage(10, &mut room_game(3, 3));
    assert!(is_world_ok(&game.plan, &vec![hero_at(4, 4), remains]));
    let mut steered = hero_at(4, 4);
    steered.ai = Some(Ai::Basic);
    assert!(!is_world_ok(&game.plan, &vec![steered]));
    let mut open: Plan = vec![vec![Tile::wall(); 10]; 10];
    gen_room(Rect::new(-1, 0, 10, 9), &mut open);
    assert!(!is_world_ok(&open, &vec![hero_at(4, 4)]));
    let ragged: Plan = vec![vec![Tile::wall(); 10], vec![Tile::wall(); 9]];
    assert!(!is_world_ok(&ragged, &vec![hero_at(4, 4)]));
}

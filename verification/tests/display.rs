use dungeon::color::{floor_dark, floor_light, wall_dark, wall_light, white};
use dungeon::display::{
    draw_order, explore, fov_is_stale, get_names_under_mouse, message_row, tile_color,
};
use dungeon::{is_fov_covering, Color, FovGrid, Object, Plan, Tile};

fn thing(x: i32, y: i32, name: &str, blocks: bool) -> Object {
    Object::new(x, y, 'x', name, white(), blocks)
}

fn sight(width: usize, height: usize, visible: bool) -> FovGrid {
    vec![vec![visible; height]; width]
}

#[test]
fn tile_colors_tell_walls_from_floor_and_sight_from_memory() {
    assert_eq!(tile_color(false, true), wall_dark());
    assert_eq!(tile_color(false, false), floor_dark());
    assert_eq!(tile_color(true, true), wall_light());
    assert_eq!(tile_color(true, false), floor_light());
    assert_eq!(wall_dark(), Color { r: 0, g: 0, b: 100 });
    assert_eq!(wall_light(), Color { r: 130, g: 110, b: 50 });
    assert_eq!(floor_dark(), Color { r: 50, g: 50, b: 150 });
    assert_eq!(floor_light(), Color { r: 200, g: 180, b: 50 });
}

#[test]
fn a_sight_grid_covers_a_map_that_it_has_every_cell_of() {
    let plan: Plan = vec![vec![Tile::wall(); 3]; 4];
    assert!(is_fov_covering(&sight(4, 3, false), &plan));
    assert!(is_fov_covering(&sight(6, 5, true), &plan));
    assert!(!is_fov_covering(&sight(3, 3, true), &plan));
    assert!(!is_fov_covering(&sight(4, 2, true), &plan));
    let mut short = sight(4, 3, true);
    short[2] = vec![true; 2];
    assert!(!is_fov_covering(&short, &plan));
    let nothing: Plan = Vec::new();
    assert!(is_fov_covering(&sight(0, 0, true), &nothing));
    let hollow: Plan = vec![Vec::new(), Vec::new()];
    assert!(is_fov_covering(&sight(0, 0, true), &hollow));
}

#[test]
fn explore_marks_what_is_in_sight() {
    let mut plan: Plan = vec![vec![Tile::wall(); 3]; 4];
    plan[1][1] = Tile::floor();
    let mut fov = sight(4, 3, false);
    fov[1][1] = true;
    fov[2][0] = true;
    explore(&mut plan, &fov);
    for x in 0..4usize {
        for y in 0..3usize {
            let expected = (x, y) == (1, 1) || (x, y) == (2, 0);
            assert_eq!(plan[x][y].explored, expected);
            assert_eq!(plan[x][y].blocked, (x, y) != (1, 1));
            assert_eq!(plan[x][y].block_sight, (x, y) != (1, 1));
        }
    }
}

#[test]
fn explored_cells_stay_explored() {
    let mut plan: Plan = vec![vec![Tile::floor(); 3]; 3];
    let mut fov = sight(3, 3, false);
    fov[0][2] = true;
    explore(&mut plan, &fov);
    assert!(plan[0][2].explored);
    let dark = sight(3, 3, false);
    explore(&mut plan, &dark);
    assert!(plan[0][2].explored);
    assert!(!plan[1][1].explored);
    let mut other = sight(3, 3, false);
    other[1][1] = true;
    explore(&mut plan, &other);
    assert!(plan[0][2].explored);
    assert!(plan[1][1].explored);
}

#[test]
fn draw_order_puts_what_blocks_last() {
    let objects = vec![
        thing(1, 1, "hero", true),
        thing(2, 1, "remains of a", false),
        thing(3, 1, "officer", true),
        thing(1, 2, "remains of b", false),
    ];
    let fov = sight(5, 5, true);
    assert_eq!(draw_order(&objects, &fov), vec![1, 3, 0, 2]);
}

#[test]
fn draw_order_leaves_out_what_is_out_of_sight() {
    let objects = vec![
        thing(1, 1, "hero", true),
        thing(2, 1, "remains of a", false),
        thing(3, 1, "officer", true),
        thing(1, 2, "remains of b", false),
    ];
    let mut fov = sight(5, 5, false);
    fov[1][1] = true;
    fov[1][2] = true;
    assert_eq!(draw_order(&objects, &fov), vec![3, 0]);
    let dark = sight(5, 5, false);
    assert!(draw_order(&objects, &dark).is_empty());
    let nothing: Vec<Object> = Vec::new();
    assert!(draw_order(&nothing, &fov).is_empty());
}

#[test]
fn names_under_the_pointer_are_joined_by_commas() {
    let objects = vec![
        thing(1, 1, "hero", true),
        thing(2, 1, "remains of police officer", false),
        thing(2, 1, "army soldier", true),
        thing(2, 1, "remains of army soldier", false),
    ];
    let fov = sight(5, 5, true);
    assert_eq!(
        get_names_under_mouse(2, 1, &objects, &fov),
        "remains of police officer, army soldier, remains of army soldier"
    );
    assert_eq!(get_names_under_mouse(1, 1, &objects, &fov), "hero");
    assert_eq!(get_names_under_mouse(3, 3, &objects, &fov), "");
}

#[test]
fn names_under_the_pointer_need_the_cell_in_sight() {
    let objects = vec![thing(1, 1, "hero", true), thing(2, 1, "army soldier", true)];
    let mut fov = sight(5, 5, false);
    fov[1][1] = true;
    assert_eq!(get_names_under_mouse(2, 1, &objects, &fov), "");
    assert_eq!(get_names_under_mouse(1, 1, &objects, &fov), "hero");
}

#[test]
fn names_under_a_pointer_off_the_map_are_none() {
    let objects = vec![thing(1, 1, "hero", true)];
    let fov = sight(5, 5, true);
    assert_eq!(get_names_under_mouse(70, 35, &objects, &fov), "");
    assert_eq!(get_names_under_mouse(-1, -1, &objects, &fov), "");
}

#[test]
fn message_rows_fill_the_panel_from_the_bottom() {
    assert_eq!(message_row(6, 1), Some(5));
    assert_eq!(message_row(5, 2), Some(3));
    assert_eq!(message_row(3, 3), Some(0));
    assert_eq!(message_row(0, 1), None);
    assert_eq!(message_row(2, 3), None);
    assert_eq!(message_row(4, 0), Some(4));
}

#[test]
fn fov_is_stale_once_the_hero_has_moved() {
    let mut objects = vec![thing(4, 4, "hero", true)];
    assert!(fov_is_stale((-1, -1), &objects));
    assert!(!fov_is_stale((4, 4), &objects));
    objects[0].set_pos(4, 5);
    assert!(fov_is_stale((4, 4), &objects));
    assert!(fov_is_stale((5, 5), &objects));
}

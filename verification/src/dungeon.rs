//! The level builder: rooms, the corridors between them, and the hostiles in
//! them.

use vstd::prelude::*;
use rand::rngs::StdRng;
use crate::color::{darker_green, desaturated_green};
use crate::game::{blockers_apart, hero_ok, hostile_ok, on_floor, walled, world_ok, HERO};
use crate::movement::{blocked, is_blocked, occupied, views};
use crate::object::{Ai, DeathCallback, Fighter, Object, ObjectView};
use crate::random::{random_bool, random_range, random_ratio};
use crate::rect::Rect;
use crate::tile::{in_bounds, is_grid, same_shape, tile_at, Plan, Tile};

verus! {

/// Whether `(x, y)` lies on the row `y0` between the columns `x1` and `x2`,
/// ends included, whichever of the two is the smaller.
pub open spec fn on_h_tunnel(x1: int, x2: int, y0: int, x: int, y: int) -> bool {
    y == y0 && (x1 <= x <= x2 || x2 <= x <= x1)
}

/// Whether `(x, y)` lies on the column `x0` between the rows `y1` and `y2`,
/// ends included, whichever of the two is the smaller.
pub open spec fn on_v_tunnel(y1: int, y2: int, x0: int, x: int, y: int) -> bool {
    x == x0 && (y1 <= y <= y2 || y2 <= y <= y1)
}

/// Turns every cell strictly inside `room` into floor.
pub fn gen_room(room: Rect, plan: &mut Plan)
    requires
        forall|x: int, y: int| room.inside(x, y) ==> in_bounds(old(plan), x, y),
    ensures
        same_shape(final(plan), old(plan)),
        forall|x: int, y: int|
            in_bounds(old(plan), x, y) ==> tile_at(final(plan), x, y) == if room.inside(x, y) {
                Tile::floor()
            } else {
                tile_at(old(plan), x, y)
            },
{
    if room.x1 >= room.x2 || room.y1 >= room.y2 {
        return ;
    }
    let mut x: i32 = room.x1 + 1;
    while x < room.x2
        invariant
            room.x1 < x <= room.x2,
            room.y1 < room.y2,
            forall|cx: int, cy: int| room.inside(cx, cy) ==> in_bounds(old(plan), cx, cy),
            same_shape(plan, old(plan)),
            forall|cx: int, cy: int|
                in_bounds(old(plan), cx, cy) ==> tile_at(plan, cx, cy) == if room.inside(cx, cy)
                    && cx < x {
                    Tile::floor()
                } else {
                    tile_at(old(plan), cx, cy)
                },
        decreases room.x2 - x,
    {
        let mut y: i32 = room.y1 + 1;
        while y < room.y2
            invariant
                room.x1 < x < room.x2,
                room.y1 < y <= room.y2,
                forall|cx: int, cy: int| room.inside(cx, cy) ==> in_bounds(old(plan), cx, cy),
                same_shape(plan, old(plan)),
                forall|cx: int, cy: int|
                    in_bounds(old(plan), cx, cy) ==> tile_at(plan, cx, cy) == if room.inside(
                        cx,
                        cy,
                    ) && (cx < x || (cx == x && cy < y)) {
                        Tile::floor()
                    } else {
                        tile_at(old(plan), cx, cy)
                    },
            decreases room.y2 - y,
        {
            assert(room.inside(x as int, y as int));
            plan[x as usize][y as usize] = Tile::floor();
            y += 1;
        }
        x += 1;
    }
}

/// Turns the cells of row `y` between the columns `x1` and `x2` into floor.
pub fn gen_h_tunnel(x1: i32, x2: i32, y: i32, plan: &mut Plan)
    requires
        forall|cx: int, cy: int|
            on_h_tunnel(x1 as int, x2 as int, y as int, cx, cy) ==> in_bounds(old(plan), cx, cy),
    ensures
        same_shape(final(plan), old(plan)),
        forall|cx: int, cy: int|
            in_bounds(old(plan), cx, cy) ==> tile_at(final(plan), cx, cy) == if on_h_tunnel(
                x1 as int,
                x2 as int,
                y as int,
                cx,
                cy,
            ) {
                Tile::floor()
            } else {
                tile_at(old(plan), cx, cy)
            },
{
    let low: i32 = if x1 <= x2 {
        x1
    } else {
        x2
    };
    let high: i32 = if x1 <= x2 {
        x2
    } else {
        x1
    };
    let mut x: i32 = low;
    while x < high
        invariant
            low <= x <= high,
            low == if x1 <= x2 { x1 } else { x2 },
            high == if x1 <= x2 { x2 } else { x1 },
            forall|cx: int, cy: int|
                on_h_tunnel(x1 as int, x2 as int, y as int, cx, cy) ==> in_bounds(
                    old(plan),
                    cx,
                    cy,
                ),
            same_shape(plan, old(plan)),
            forall|cx: int, cy: int|
                in_bounds(old(plan), cx, cy) ==> tile_at(plan, cx, cy) == if on_h_tunnel(
                    x1 as int,
                    x2 as int,
                    y as int,
                    cx,
                    cy,
                ) && cx < x {
                    Tile::floor()
                } else {
                    tile_at(old(plan), cx, cy)
                },
        decreases high - x,
    {
        assert(on_h_tunnel(x1 as int, x2 as int, y as int, x as int, y as int));
        assert(in_bounds(old(plan), x as int, y as int));
        assert(plan@[x as int]@.len() == old(plan)@[x as int]@.len());
        plan[x as usize][y as usize] = Tile::floor();
        x += 1;
    }
    assert(on_h_tunnel(x1 as int, x2 as int, y as int, high as int, y as int));
    assert(in_bounds(old(plan), high as int, y as int));
    assert(plan@[high as int]@.len() == old(plan)@[high as int]@.len());
    plan[high as usize][y as usize] = Tile::floor();
}

/// Turns the cells of column `x` between the rows `y1` and `y2` into floor.
pub fn gen_v_tunnel(y1: i32, y2: i32, x: i32, plan: &mut Plan)
    requires
        forall|cx: int, cy: int|
            on_v_tunnel(y1 as int, y2 as int, x as int, cx, cy) ==> in_bounds(old(plan), cx, cy),
    ensures
        same_shape(final(plan), old(plan)),
        forall|cx: int, cy: int|
            in_bounds(old(plan), cx, cy) ==> tile_at(final(plan), cx, cy) == if on_v_tunnel(
                y1 as int,
                y2 as int,
                x as int,
                cx,
                cy,
            ) {
                Tile::floor()
            } else {
                tile_at(old(plan), cx, cy)
            },
{
    let low: i32 = if y1 <= y2 {
        y1
    } else {
        y2
    };
    let high: i32 = if y1 <= y2 {
        y2
    } else {
        y1
    };
    let mut y: i32 = low;
    while y < high
        invariant
            low <= y <= high,
            low == if y1 <= y2 { y1 } else { y2 },
            high == if y1 <= y2 { y2 } else { y1 },
            forall|cx: int, cy: int|
                on_v_tunnel(y1 as int, y2 as int, x as int, cx, cy) ==> in_bounds(
                    old(plan),
                    cx,
                    cy,
                ),
            same_shape(plan, old(plan)),
            forall|cx: int, cy: int|
                in_bounds(old(plan), cx, cy) ==> tile_at(plan, cx, cy) == if on_v_tunnel(
                    y1 as int,
                    y2 as int,
                    x as int,
                    cx,
                    cy,
                ) && cy < y {
                    Tile::floor()
                } else {
                    tile_at(old(plan), cx, cy)
                },
        decreases high - y,
    {
        assert(on_v_tunnel(y1 as int, y2 as int, x as int, x as int, y as int));
        assert(in_bounds(old(plan), x as int, y as int));
        assert(plan@[x as int]@.len() == old(plan)@[x as int]@.len());
        plan[x as usize][y as usize] = Tile::floor();
        y += 1;
    }
    assert(on_v_tunnel(y1 as int, y2 as int, x as int, x as int, high as int));
    assert(in_bounds(old(plan), x as int, high as int));
    assert(plan@[x as int]@.len() == old(plan)@[x as int]@.len());
    plan[x as usize][high as usize] = Tile::floor();
}


/// Whether `(x, y)` lies on the corridor that runs in the shape of an L from
/// `from` to `to`: along the row of `from` and then the column of `to` if it
/// starts horizontally, along the column of `from` and then the row of `to`
/// if it does not.
pub open spec fn on_corridor(
    from: (int, int),
    to: (int, int),
    horizontal_first: bool,
    x: int,
    y: int,
) -> bool {
    if horizontal_first {
        on_h_tunnel(from.0, to.0, from.1, x, y) || on_v_tunnel(from.1, to.1, to.0, x, y)
    } else {
        on_v_tunnel(from.1, to.1, from.0, x, y) || on_h_tunnel(from.0, to.0, to.1, x, y)
    }
}

/// Whether every cell of the corridor from `from` to `to` is on the map and
/// open.
pub open spec fn corridor_open(
    plan: &Plan,
    from: (int, int),
    to: (int, int),
    horizontal_first: bool,
) -> bool {
    forall|x: int, y: int| #[trigger]
        on_corridor(from, to, horizontal_first, x, y) ==> in_bounds(plan, x, y) && !tile_at(
            plan,
            x,
            y,
        ).blocked
}

/// Whether `room` leaves a wall around it on a map of the given size, and
/// has floor inside.
pub open spec fn fits(room: Rect, width: int, height: int) -> bool {
    &&& 0 <= room.x1
    &&& room.x1 + 2 <= room.x2 < width
    &&& 0 <= room.y1
    &&& room.y1 + 2 <= room.y2 < height
}

/// Whether the corners of `room` are cells of a map of the given size.
pub open spec fn on_map(room: Rect, width: int, height: int) -> bool {
    &&& 0 <= room.x1 < width
    &&& 0 <= room.x2 < width
    &&& 0 <= room.y1 < height
    &&& 0 <= room.y2 < height
}

/// Whether `room` intersects one of `rooms`.
pub open spec fn intersects_any(room: Rect, rooms: Seq<Rect>) -> bool {
    exists|i: int| 0 <= i < rooms.len() && room.spec_intersects_with(#[trigger] rooms[i])
}

/// Whether `(x, y)` lies strictly inside one of `rooms`.
pub open spec fn in_some_room(rooms: Seq<Rect>, x: int, y: int) -> bool {
    exists|i: int| 0 <= i < rooms.len() && (#[trigger] rooms[i]).inside(x, y)
}

/// Whether `(x, y)` lies on the corridor from room `i - 1` to room `i`, which
/// starts horizontally if `bends[i]` says so.
pub open spec fn corridor_at(rooms: Seq<Rect>, bends: Seq<bool>, i: int, x: int, y: int) -> bool {
    on_corridor(rooms[i - 1].spec_center(), rooms[i].spec_center(), bends[i], x, y)
}

/// Whether `(x, y)` lies on a corridor between two rooms that follow each
/// other in `rooms`.
pub open spec fn on_some_corridor(rooms: Seq<Rect>, bends: Seq<bool>, x: int, y: int) -> bool {
    exists|i: int| 0 < i < rooms.len() && #[trigger] corridor_at(rooms, bends, i, x, y)
}

/// Whether `(x, y)` is floor on the map of `rooms`: inside a room, or on a
/// corridor between one room and the next.
pub open spec fn carved(rooms: Seq<Rect>, bends: Seq<bool>, x: int, y: int) -> bool {
    in_some_room(rooms, x, y) || on_some_corridor(rooms, bends, x, y)
}

/// Whether `plan` is the map of `rooms`: floor where a room or a corridor
/// is, wall everywhere else, and nothing explored.
pub open spec fn plan_shows(plan: &Plan, rooms: Seq<Rect>, bends: Seq<bool>) -> bool {
    forall|x: int, y: int|
        in_bounds(plan, x, y) ==> #[trigger] tile_at(plan, x, y) == if carved(rooms, bends, x, y) {
            Tile::floor()
        } else {
            Tile::wall()
        }
}

/// A police officer at `(x, y)`: the weaker and more frequent hostile.
pub open spec fn officer(x: i32, y: i32) -> ObjectView {
    ObjectView {
        x,
        y,
        glyph: 'o',
        color: desaturated_green(),
        name: "police officer"@,
        blocks: true,
        alive: true,
        fighter: Some(
            Fighter { max_hp: 10, hp: 10, defense: 0, power: 3, on_death: DeathCallback::Hostile },
        ),
        ai: Some(Ai::Basic),
    }
}

/// An army soldier at `(x, y)`: the stronger and rarer hostile.
pub open spec fn soldier(x: i32, y: i32) -> ObjectView {
    ObjectView {
        x,
        y,
        glyph: 'a',
        color: darker_green(),
        name: "army soldier"@,
        blocks: true,
        alive: true,
        fighter: Some(
            Fighter { max_hp: 15, hp: 15, defense: 1, power: 4, on_death: DeathCallback::Hostile },
        ),
        ai: Some(Ai::Basic),
    }
}

/// The hostile of the given kind at `(x, y)`.
pub open spec fn hostile(x: i32, y: i32, is_officer: bool) -> ObjectView {
    if is_officer {
        officer(x, y)
    } else {
        soldier(x, y)
    }
}

/// The objects after a hostile was to be placed at `(x, y)`: it is added at
/// the end unless the cell is blocked, by the map or by an object.
pub open spec fn placed(
    plan: &Plan,
    objects: Seq<ObjectView>,
    x: i32,
    y: i32,
    is_officer: bool,
) -> Seq<ObjectView> {
    if blocked(plan, objects, x as int, y as int) {
        objects
    } else {
        objects.push(hostile(x, y, is_officer))
    }
}

/// Whether `object` is a hostile as it is placed, strictly inside `room`.
pub open spec fn is_hostile_in(object: ObjectView, room: Rect) -> bool {
    &&& room.inside(object.x as int, object.y as int)
    &&& (object == officer(object.x, object.y) || object == soldier(object.x, object.y))
}

/// Whether `after` is `before` with at most `limit` hostiles added at the
/// end, each strictly inside `room`, on a cell that neither the map nor an
/// object before it blocks.
pub open spec fn populated(
    plan: &Plan,
    room: Rect,
    limit: int,
    before: Seq<ObjectView>,
    after: Seq<ObjectView>,
) -> bool {
    &&& before.len() <= after.len() <= before.len() + limit
    &&& forall|i: int| 0 <= i < before.len() ==> #[trigger] after[i] == before[i]
    &&& forall|k: int|
        before.len() <= k < after.len() ==> {
            &&& is_hostile_in(#[trigger] after[k], room)
            &&& !blocked(plan, after.subrange(0, k), after[k].x as int, after[k].y as int)
        }
}

fn new_hostile(x: i32, y: i32, is_officer: bool) -> (object: Object)
    ensures
        object@ == hostile(x, y, is_officer),
{
    let mut object = if is_officer {
        let mut officer = Object::new(x, y, 'o', "police officer", desaturated_green(), true);
        officer.fighter = Some(
            Fighter { max_hp: 10, hp: 10, defense: 0, power: 3, on_death: DeathCallback::Hostile },
        );
        officer.ai = Some(Ai::Basic);
        officer
    } else {
        let mut army = Object::new(x, y, 'a', "army soldier", darker_green(), true);
        army.fighter = Some(
            Fighter { max_hp: 15, hp: 15, defense: 1, power: 4, on_death: DeathCallback::Hostile },
        );
        army.ai = Some(Ai::Basic);
        army
    };
    object.alive = true;
    object
}

/// Places a hostile of the given kind at `(x, y)`, unless the cell is
/// blocked.
pub fn place_hostile(x: i32, y: i32, is_officer: bool, plan: &Plan, objects: &mut Vec<Object>)
    requires
        in_bounds(plan, x as int, y as int),
    ensures
        views(final(objects)@) == placed(plan, views(old(objects)@), x, y, is_officer),
{
    if !is_blocked(x, y, plan, objects.as_slice()) {
        let object = new_hostile(x, y, is_officer);
        objects.push(object);
        assert(views(objects@) =~= views(old(objects)@).push(hostile(x, y, is_officer)));
    }
}

/// Places up to `max_hostiles` hostiles at random cells inside `room`: four
/// in five are police officers, the others army soldiers. A hostile whose
/// cell is blocked is left out.
pub fn place_objects(
    room: Rect,
    plan: &Plan,
    objects: &mut Vec<Object>,
    rng: &mut StdRng,
    max_hostiles: i32,
)
    requires
        room.x1 + 1 < room.x2,
        room.y1 + 1 < room.y2,
        forall|x: int, y: int| room.inside(x, y) ==> in_bounds(plan, x, y),
        0 <= max_hostiles < i32::MAX,
    ensures
        populated(
            plan,
            room,
            max_hostiles as int,
            views(old(objects)@),
            views(final(objects)@),
        ),
{
    let num_hostiles: i32 = random_range(rng, 0, max_hostiles + 1);
    let mut n: i32 = 0;
    while n < num_hostiles
        invariant
            0 <= n <= num_hostiles <= max_hostiles,
            room.x1 + 1 < room.x2,
            room.y1 + 1 < room.y2,
            forall|x: int, y: int| room.inside(x, y) ==> in_bounds(plan, x, y),
            populated(plan, room, n as int, views(old(objects)@), views(objects@)),
        decreases num_hostiles - n,
    {
        let x: i32 = random_range(rng, room.x1 + 1, room.x2);
        let y: i32 = random_range(rng, room.y1 + 1, room.y2);
        let is_officer = random_ratio(rng, 4, 5);
        assert(room.inside(x as int, y as int));
        let ghost before = views(objects@);
        place_hostile(x, y, is_officer, plan, objects);
        proof {
            let after = views(objects@);
            if after.len() > before.len() {
                assert(after.subrange(0, before.len() as int) =~= before);
            }
            assert forall|k: int| views(old(objects)@).len() <= k < after.len() implies {
                &&& is_hostile_in(#[trigger] after[k], room)
                &&& !blocked(plan, after.subrange(0, k), after[k].x as int, after[k].y as int)
            } by {
                if k < before.len() {
                    assert(after[k] == before[k]);
                    assert(after.subrange(0, k) =~= before.subrange(0, k));
                }
            }
        }
        n += 1;
    }
}


/// The size of a level and of what goes into it.
#[derive(Clone, Copy, Debug, PartialEq, Eq, Structural)]
pub struct LevelConfig {
    /// Columns of the map.
    pub width: i32,
    /// Rows of the map.
    pub height: i32,
    /// How many rooms are tried; one that intersects an earlier room is
    /// dropped and not tried again.
    pub max_rooms: i32,
    /// The least width and height of a room, walls included.
    pub room_min_size: i32,
    /// The greatest width and height of a room, walls included.
    pub room_max_size: i32,
    /// The most hostiles that are placed in one room.
    pub max_room_hostiles: i32,
}

impl LevelConfig {
    /// Whether a level can be built to these sizes: every room has floor
    /// inside and fits on the map with a wall to spare, and the count of
    /// hostiles is not negative.
    pub open spec fn valid(self) -> bool {
        &&& 2 <= self.room_min_size <= self.room_max_size
        &&& self.room_max_size < self.width
        &&& self.room_max_size < self.height
        &&& 0 <= self.max_room_hostiles < i32::MAX
    }

    /// Tells whether a level can be built to these sizes.
    pub fn is_valid(&self) -> (b: bool)
        ensures
            b == self.valid(),
    {
        2 <= self.room_min_size && self.room_min_size <= self.room_max_size && self.room_max_size
            < self.width && self.room_max_size < self.height && 0 <= self.max_room_hostiles
            && self.max_room_hostiles < i32::MAX
    }

    /// A map of 60 by 30 cells, twelve tries at rooms of 4 to 10 cells a
    /// side, and up to three hostiles in each.
    pub fn standard() -> (config: Self)
        ensures
            config.valid(),
            config == (LevelConfig {
                width: 60,
                height: 30,
                max_rooms: 12,
                room_min_size: 4,
                room_max_size: 10,
                max_room_hostiles: 3,
            }),
    {
        LevelConfig {
            width: 60,
            height: 30,
            max_rooms: 12,
            room_min_size: 4,
            room_max_size: 10,
            max_room_hostiles: 3,
        }
    }
}

/// Whether `room` is one that a level of these sizes can hold.
pub open spec fn room_allowed(config: LevelConfig, room: Rect) -> bool {
    &&& fits(room, config.width as int, config.height as int)
    &&& config.room_min_size <= room.x2 - room.x1 <= config.room_max_size
    &&& config.room_min_size <= room.y2 - room.y1 <= config.room_max_size
}

fn solid_plan(width: usize, height: usize) -> (plan: Plan)
    ensures
        is_grid(&plan, width as int, height as int),
        forall|x: int, y: int| in_bounds(&plan, x, y) ==> tile_at(&plan, x, y) == Tile::wall(),
{
    let mut plan: Plan = Vec::new();
    let mut x: usize = 0;
    while x < width
        invariant
            x <= width,
            is_grid(&plan, x as int, height as int),
            forall|cx: int, cy: int|
                in_bounds(&plan, cx, cy) ==> tile_at(&plan, cx, cy) == Tile::wall(),
        decreases width - x,
    {
        let mut column: Vec<Tile> = Vec::new();
        let mut y: usize = 0;
        while y < height
            invariant
                y <= height,
                column@.len() == y,
                forall|cy: int| 0 <= cy < y ==> column@[cy] == Tile::wall(),
            decreases height - y,
        {
            column.push(Tile::wall());
            y += 1;
        }
        let ghost before = plan;
        let ghost cells = column@;
        plan.push(column);
        assert forall|cx: int, cy: int| in_bounds(&plan, cx, cy) implies tile_at(&plan, cx, cy)
            == Tile::wall() by {
            if cx < x {
                assert(plan@[cx] == before@[cx]);
                assert(in_bounds(&before, cx, cy));
            } else {
                assert(plan@[cx]@ == cells);
            }
        }
        x += 1;
    }
    plan
}

fn draw_room(config: &LevelConfig, rng: &mut StdRng) -> (room: Rect)
    requires
        config.valid(),
    ensures
        room_allowed(*config, room),
{
    let w: i32 = random_range(rng, config.room_min_size, config.room_max_size + 1);
    let h: i32 = random_range(rng, config.room_min_size, config.room_max_size + 1);
    let x: i32 = random_range(rng, 0, config.width - w);
    let y: i32 = random_range(rng, 0, config.height - h);
    Rect::new(x, y, w, h)
}

/// Tells whether `room` intersects one of `rooms`, in which case the level
/// does not take it.
pub fn hits_any(room: &Rect, rooms: &Vec<Rect>) -> (b: bool)
    ensures
        b == intersects_any(*room, rooms@),
{
    let mut i: usize = 0;
    while i < rooms.len()
        invariant
            i <= rooms@.len(),
            forall|j: int| 0 <= j < i ==> !room.spec_intersects_with(#[trigger] rooms@[j]),
        decreases rooms@.len() - i,
    {
        if room.intersects_with(&rooms[i]) {
            return true;
        }
        i += 1;
    }
    false
}

/// The hero moved to `(x, y)`, with every other object as it was.
pub open spec fn hero_set(objects: Seq<ObjectView>, x: int, y: int) -> Seq<ObjectView> {
    objects.update(
        HERO as int,
        ObjectView { x: x as i32, y: y as i32, ..objects[HERO as int] },
    )
}

/// Takes `room` into the level: its inside becomes floor; the first room
/// gets the hero at its centre; every later room gets a corridor from the
/// centre of the room before it to its own.
pub fn add_room(
    room: Rect,
    horizontal_first: bool,
    plan: &mut Plan,
    rooms: &mut Vec<Rect>,
    objects: &mut Vec<Object>,
)
    requires
        HERO < old(objects)@.len(),
        old(plan)@.len() > 0,
        is_grid(old(plan), old(plan)@.len() as int, old(plan)@[0]@.len() as int),
        on_map(room, old(plan)@.len() as int, old(plan)@[0]@.len() as int),
        old(rooms)@.len() > 0 ==> on_map(
            old(rooms)@.last(),
            old(plan)@.len() as int,
            old(plan)@[0]@.len() as int,
        ),
    ensures
        room_added(
            room,
            horizontal_first,
            old(plan),
            old(rooms)@,
            views(old(objects)@),
            final(plan),
            final(rooms)@,
            views(final(objects)@),
        ),
{
    let ghost height = plan@[0]@.len() as int;
    assert forall|x: int, y: int| room.inside(x, y) implies in_bounds(plan, x, y) by {
        if room.inside(x, y) {
            assert(plan@[x]@.len() == height);
        }
    }
    gen_room(room, plan);
    let (new_x, new_y) = room.center();
    if rooms.len() == 0 {
        objects[HERO].set_pos(new_x, new_y);
        assert(views(objects@) =~= hero_set(
            views(old(objects)@),
            room.spec_center().0,
            room.spec_center().1,
        ));
    } else {
        let (prev_x, prev_y) = rooms[rooms.len() - 1].center();
        assert forall|x: int, y: int|
            0 <= x < plan@.len() && 0 <= y < height implies in_bounds(plan, x, y) by {
            if 0 <= x < plan@.len() && 0 <= y < height {
                assert(old(plan)@[x]@.len() == height);
                assert(plan@[x]@.len() == old(plan)@[x]@.len());
            }
        }
        if horizontal_first {
            gen_h_tunnel(prev_x, new_x, prev_y, plan);
            assert forall|x: int, y: int|
                0 <= x < plan@.len() && 0 <= y < height implies in_bounds(plan, x, y) by {
                if 0 <= x < plan@.len() && 0 <= y < height {
                    assert(old(plan)@[x]@.len() == height);
                }
            }
            gen_v_tunnel(prev_y, new_y, new_x, plan);
        } else {
            gen_v_tunnel(prev_y, new_y, prev_x, plan);
            assert forall|x: int, y: int|
                0 <= x < plan@.len() && 0 <= y < height implies in_bounds(plan, x, y) by {
                if 0 <= x < plan@.len() && 0 <= y < height {
                    assert(old(plan)@[x]@.len() == height);
                }
            }
            gen_h_tunnel(prev_x, new_x, new_y, plan);
        }
        assert(views(objects@) =~= views(old(objects)@));
    }
    rooms.push(room);
}


/// Whether `after_plan`, `after_rooms` and `after_objects` are what taking
/// `room` into the level makes of the map, the rooms and the objects from
/// before: the room is added at the end of the rooms; its inside is floor,
/// and so is the corridor from the centre of the room before it, if there
/// is one; the first room has the hero at its centre; nothing else changes.
pub open spec fn room_added(
    room: Rect,
    horizontal_first: bool,
    before_plan: &Plan,
    before_rooms: Seq<Rect>,
    before_objects: Seq<ObjectView>,
    after_plan: &Plan,
    after_rooms: Seq<Rect>,
    after_objects: Seq<ObjectView>,
) -> bool {
    &&& same_shape(after_plan, before_plan)
    &&& after_rooms == before_rooms.push(room)
    &&& forall|x: int, y: int|
        in_bounds(before_plan, x, y) ==> tile_at(after_plan, x, y) == if room.inside(x, y) || (
        before_rooms.len() > 0 && on_corridor(
            before_rooms.last().spec_center(),
            room.spec_center(),
            horizontal_first,
            x,
            y,
        )) {
            Tile::floor()
        } else {
            tile_at(before_plan, x, y)
        }
    &&& after_objects == if before_rooms.len() == 0 {
        hero_set(before_objects, room.spec_center().0, room.spec_center().1)
    } else {
        before_objects
    }
}

/// Tries `room` for the level: it is taken if and only if it intersects no
/// room taken before, and a room that is not taken leaves everything as it
/// was. `horizontal_first` is the coin for the bend of the corridor.
pub fn try_room(
    room: Rect,
    horizontal_first: bool,
    plan: &mut Plan,
    rooms: &mut Vec<Rect>,
    objects: &mut Vec<Object>,
) -> (taken: bool)
    requires
        HERO < old(objects)@.len(),
        old(plan)@.len() > 0,
        is_grid(old(plan), old(plan)@.len() as int, old(plan)@[0]@.len() as int),
        on_map(room, old(plan)@.len() as int, old(plan)@[0]@.len() as int),
        old(rooms)@.len() > 0 ==> on_map(
            old(rooms)@.last(),
            old(plan)@.len() as int,
            old(plan)@[0]@.len() as int,
        ),
    ensures
        taken == !intersects_any(room, old(rooms)@),
        taken ==> room_added(
            room,
            horizontal_first,
            old(plan),
            old(rooms)@,
            views(old(objects)@),
            final(plan),
            final(rooms)@,
            views(final(objects)@),
        ),
        !taken ==> *final(plan) == *old(plan) && final(rooms)@ == old(rooms)@ && views(
            final(objects)@,
        ) == views(old(objects)@),
{
    if hits_any(&room, rooms) {
        false
    } else {
        add_room(room, horizontal_first, plan, rooms, objects);
        true
    }
}

/// Whether no two of `rooms` intersect.
pub open spec fn rooms_apart(rooms: Seq<Rect>) -> bool {
    forall|i: int, j: int|
        0 <= i < j < rooms.len() ==> !(#[trigger] rooms[i]).spec_intersects_with(
            #[trigger] rooms[j],
        )
}

/// Whether object `k` is a hostile as it is placed, strictly inside one of
/// `rooms`, on a cell where no object before it stands in the way.
pub open spec fn hostile_placed(objects: Seq<ObjectView>, k: int, rooms: Seq<Rect>) -> bool {
    &&& exists|r: int| 0 <= r < rooms.len() && is_hostile_in(objects[k], #[trigger] rooms[r])
    &&& !occupied(objects.subrange(0, k), objects[k].x as int, objects[k].y as int)
}

/// What the hero and the objects that were there before look like once the
/// level stands: the hero is at the centre of the first room, if there is a
/// room, and nothing else has changed.
pub open spec fn settled(before: Seq<ObjectView>, rooms: Seq<Rect>) -> Seq<ObjectView> {
    if rooms.len() > 0 {
        hero_set(before, rooms[0].spec_center().0, rooms[0].spec_center().1)
    } else {
        before
    }
}

/// Whether `plan`, `rooms` and the objects `after` are a level built to
/// `config` around the objects `before`.
///
/// The map has the size asked for. There are no more rooms than tries, and
/// at least one if there was a try. Every room has an allowed size and place,
/// and no two intersect. The map is floor exactly inside the rooms and on the
/// corridors from each room to the next. The objects from before are
/// followed by the hostiles, each placed in a room, and no more of them than
/// the rooms can have got.
pub open spec fn level_built(
    config: LevelConfig,
    plan: &Plan,
    rooms: Seq<Rect>,
    before: Seq<ObjectView>,
    after: Seq<ObjectView>,
) -> bool {
    &&& is_grid(plan, config.width as int, config.height as int)
    &&& rooms.len() == 0 || rooms.len() <= config.max_rooms
    &&& config.max_rooms >= 1 ==> rooms.len() >= 1
    &&& forall|i: int| 0 <= i < rooms.len() ==> room_allowed(config, #[trigger] rooms[i])
    &&& rooms_apart(rooms)
    &&& exists|bends: Seq<bool>| bends.len() == rooms.len() && plan_shows(plan, rooms, bends)
    &&& before.len() <= after.len() <= before.len() + config.max_room_hostiles * rooms.len()
    &&& after.subrange(0, before.len() as int) == settled(before, rooms)
    &&& forall|k: int| before.len() <= k < after.len() ==> hostile_placed(after, k, rooms)
}

/// Whether a level can be built around `before` that is ready for play: the
/// hero is alone, in order, and not so weak in defense that a hostile's blow
/// would leave `i32`; and at least one room is tried.
pub open spec fn fresh_start(config: LevelConfig, before: Seq<ObjectView>) -> bool {
    &&& before.len() == 1
    &&& hero_ok(before[HERO as int])
    &&& before[HERO as int].consistent()
    &&& 4 - before[HERO as int].defense() <= i32::MAX
    &&& config.max_rooms >= 1
}

/// Builds a level: a map of walls into which up to `config.max_rooms` rooms
/// are carved at random places. A room that would intersect an earlier one
/// is dropped. The hero is put at the centre of the first room; every later
/// room is joined to the one before it by a corridor whose bend a coin
/// decides; each room gets its hostiles. Returns the map and the rooms in the
/// order in which they were taken.
pub fn gen_plan(config: &LevelConfig, rng: &mut StdRng, objects: &mut Vec<Object>) -> (level: (
    Plan,
    Vec<Rect>,
))
    requires
        config.valid(),
        HERO < old(objects)@.len(),
    ensures
        level_built(*config, &level.0, level.1@, views(old(objects)@), views(final(objects)@)),
        fresh_start(*config, views(old(objects)@)) ==> world_ok(
            &level.0,
            views(final(objects)@),
        ),
{
    let mut plan = solid_plan(config.width as usize, config.height as usize);
    let mut rooms: Vec<Rect> = Vec::new();
    let ghost mut bends: Seq<bool> = Seq::empty();
    let ghost before = views(objects@);
    assert(before.subrange(0, before.len() as int) =~= before);
    let mut n: i32 = 0;
    while n < config.max_rooms
        invariant
            0 <= n,
            n == 0 || n <= config.max_rooms,
            config.valid(),
            before == views(old(objects)@),
            HERO < before.len() <= objects@.len(),
            is_grid(&plan, config.width as int, config.height as int),
            rooms@.len() <= n,
            n >= 1 ==> rooms@.len() >= 1,
            forall|i: int| 0 <= i < rooms@.len() ==> room_allowed(*config, #[trigger] rooms@[i]),
            rooms_apart(rooms@),
            bends.len() == rooms@.len(),
            plan_shows(&plan, rooms@, bends),
            views(objects@).subrange(0, before.len() as int) == settled(before, rooms@),
            rooms@.len() == 0 ==> objects@.len() == before.len(),
            objects@.len() <= before.len() + config.max_room_hostiles * rooms@.len(),
            forall|k: int|
                before.len() <= k < objects@.len() ==> hostile_placed(views(objects@), k, rooms@),
        decreases config.max_rooms - n,
    {
        let room = draw_room(config, rng);
        let horizontal_first = if rooms.len() == 0 || hits_any(&room, &rooms) {
            false
        } else {
            random_bool(rng)
        };
        let ghost old_plan = plan;
        let ghost old_rooms = rooms@;
        let ghost old_bends = bends;
        let ghost old_objects = views(objects@);
        assert(plan@[0]@.len() == config.height);
        assert(old_rooms.len() > 0 ==> room_allowed(*config, old_rooms.last()));
        assert(old_objects.len() == objects@.len());
        let taken = try_room(room, horizontal_first, &mut plan, &mut rooms, objects);
        assert(views(objects@).len() == objects@.len());
        if taken {
            let ghost mid_objects = views(objects@);
            proof {
                bends = bends.push(horizontal_first);
                assert(config.max_room_hostiles * (old_rooms.len() + 1)
                    == config.max_room_hostiles * old_rooms.len() + config.max_room_hostiles)
                    by (nonlinear_arith);
                assert forall|x: int, y: int| in_bounds(&plan, x, y) implies #[trigger] tile_at(
                    &plan,
                    x,
                    y,
                ) == if carved(rooms@, bends, x, y) {
                    Tile::floor()
                } else {
                    Tile::wall()
                } by {
                    assert(old_plan@[x]@.len() == plan@[x]@.len());
                    assert(in_bounds(&old_plan, x, y));
                    lemma_carved_push(old_rooms, old_bends, room, horizontal_first, x, y);
                    assert(rooms@ == old_rooms.push(room));
                    assert(tile_at(&old_plan, x, y) == if carved(old_rooms, old_bends, x, y) {
                        Tile::floor()
                    } else {
                        Tile::wall()
                    });
                    assert(tile_at(&plan, x, y) == if room.inside(x, y) || (old_rooms.len() > 0
                        && on_corridor(
                        old_rooms.last().spec_center(),
                        room.spec_center(),
                        horizontal_first,
                        x,
                        y,
                    )) {
                        Tile::floor()
                    } else {
                        tile_at(&old_plan, x, y)
                    });
                }
                assert forall|x: int, y: int| room.inside(x, y) implies in_bounds(&plan, x, y) by {
                    if room.inside(x, y) {
                        assert(plan@[x]@.len() == config.height);
                    }
                }
            }
            place_objects(room, &plan, objects, rng, config.max_room_hostiles);
            proof {
                let after = views(objects@);
                assert(after.subrange(0, before.len() as int) =~= mid_objects.subrange(
                    0,
                    before.len() as int,
                ));
                if old_rooms.len() == 0 {
                    assert(old_objects =~= old_objects.subrange(0, before.len() as int));
                    assert(mid_objects.subrange(0, before.len() as int) =~= mid_objects);
                }
                assert forall|k: int| before.len() <= k < after.len() implies hostile_placed(
                    after,
                    k,
                    rooms@,
                ) by {
                    if k < mid_objects.len() {
                        assert(after[k] == mid_objects[k]);
                        assert(after.subrange(0, k) =~= old_objects.subrange(0, k));
                        assert(hostile_placed(old_objects, k, old_rooms));
                        let r = choose|r: int|
                            0 <= r < old_rooms.len() && is_hostile_in(
                                old_objects[k],
                                #[trigger] old_rooms[r],
                            );
                        assert(rooms@[r] == old_rooms[r]);
                    } else {
                        assert(is_hostile_in(after[k], rooms@[rooms@.len() - 1]));
                    }
                }
            }
        }
        n += 1;
    }
    proof {
        if fresh_start(*config, before) {
            lemma_fresh_level_in_order(*config, &plan, rooms@, before, views(objects@));
        }
    }
    (plan, rooms)
}

/// Taking one more room adds to the floor its inside and its corridor, and
/// nothing else.
pub proof fn lemma_carved_push(
    rooms: Seq<Rect>,
    bends: Seq<bool>,
    room: Rect,
    bend: bool,
    x: int,
    y: int,
)
    requires
        bends.len() == rooms.len(),
    ensures
        carved(rooms.push(room), bends.push(bend), x, y) == (carved(rooms, bends, x, y)
            || room.inside(x, y) || (rooms.len() > 0 && on_corridor(
            rooms.last().spec_center(),
            room.spec_center(),
            bend,
            x,
            y,
        ))),
{
    let more_rooms = rooms.push(room);
    let more_bends = bends.push(bend);
    let last = rooms.len() as int;
    if in_some_room(more_rooms, x, y) {
        let i = choose|i: int| 0 <= i < more_rooms.len() && (#[trigger] more_rooms[i]).inside(x, y);
        if i < last {
            assert(rooms[i].inside(x, y));
        }
    }
    if on_some_corridor(more_rooms, more_bends, x, y) {
        let i = choose|i: int|
            0 < i < more_rooms.len() && #[trigger] corridor_at(more_rooms, more_bends, i, x, y);
        if i < last {
            assert(corridor_at(rooms, bends, i, x, y));
        }
    }
    if in_some_room(rooms, x, y) {
        let i = choose|i: int| 0 <= i < rooms.len() && (#[trigger] rooms[i]).inside(x, y);
        assert(more_rooms[i].inside(x, y));
    }
    if on_some_corridor(rooms, bends, x, y) {
        let i = choose|i: int| 0 < i < rooms.len() && #[trigger] corridor_at(rooms, bends, i, x, y);
        assert(corridor_at(more_rooms, more_bends, i, x, y));
    }
    if room.inside(x, y) {
        assert(more_rooms[last].inside(x, y));
    }
    if rooms.len() > 0 && on_corridor(rooms.last().spec_center(), room.spec_center(), bend, x, y) {
        assert(corridor_at(more_rooms, more_bends, last, x, y));
    }
}

/// Floor never reaches the edge of the map: a cell inside a room that fits,
/// or on a corridor between two such rooms, has a cell on every side.
pub proof fn lemma_carved_is_inner(
    rooms: Seq<Rect>,
    bends: Seq<bool>,
    width: int,
    height: int,
    x: int,
    y: int,
)
    requires
        forall|i: int| 0 <= i < rooms.len() ==> fits(#[trigger] rooms[i], width, height),
        carved(rooms, bends, x, y),
    ensures
        1 <= x <= width - 2,
        1 <= y <= height - 2,
{
    if in_some_room(rooms, x, y) {
        let i = choose|i: int| 0 <= i < rooms.len() && (#[trigger] rooms[i]).inside(x, y);
        assert(fits(rooms[i], width, height));
    } else {
        let i = choose|i: int| 0 < i < rooms.len() && #[trigger] corridor_at(rooms, bends, i, x, y);
        assert(fits(rooms[i - 1], width, height));
        assert(fits(rooms[i], width, height));
    }
}

/// A level built around a fresh start is in the state that every turn keeps.
pub proof fn lemma_fresh_level_in_order(
    config: LevelConfig,
    plan: &Plan,
    rooms: Seq<Rect>,
    before: Seq<ObjectView>,
    after: Seq<ObjectView>,
)
    requires
        config.valid(),
        level_built(config, plan, rooms, before, after),
        fresh_start(config, before),
    ensures
        world_ok(plan, after),
{
    let width = config.width as int;
    let height = config.height as int;
    let bends = choose|bends: Seq<bool>| bends.len() == rooms.len() && plan_shows(plan, rooms, bends);
    assert(plan@[0]@.len() == height);
    assert forall|x: int, y: int|
        in_bounds(plan, x, y) && (x == 0 || y == 0 || x == plan@.len() - 1 || y == plan@[0]@.len()
            - 1) implies tile_at(plan, x, y).blocked by {
        if carved(rooms, bends, x, y) {
            lemma_carved_is_inner(rooms, bends, width, height, x, y);
        }
    }
    assert(walled(plan));
    let hero = after[HERO as int];
    assert(hero == after.subrange(0, before.len() as int)[HERO as int]);
    assert(room_allowed(config, rooms[0]));
    assert(rooms[0].inside(hero.x as int, hero.y as int));
    assert forall|i: int, j: int|
        0 <= i < j < after.len() && (#[trigger] after[i]).blocks && (#[trigger] after[j]).blocks
        implies !after[i].at(after[j].x as int, after[j].y as int) by {
        assert(hostile_placed(after, j, rooms));
        assert(after.subrange(0, j)[i] == after[i]);
    }
    assert(blockers_apart(after));
    assert forall|i: int| 0 <= i < after.len() implies {
        &&& (#[trigger] after[i]).consistent()
        &&& on_floor(plan, after[i])
        &&& i != HERO ==> hostile_ok(after[HERO as int], after[i])
    } by {
        let object = after[i];
        let r = if i == HERO {
            0
        } else {
            assert(hostile_placed(after, i, rooms));
            choose|r: int| 0 <= r < rooms.len() && is_hostile_in(after[i], #[trigger] rooms[r])
        };
        assert(room_allowed(config, rooms[r]));
        assert(rooms[r].inside(object.x as int, object.y as int));
        assert(plan@[object.x as int]@.len() == height);
        assert(in_bounds(plan, object.x as int, object.y as int));
        assert(in_some_room(rooms, object.x as int, object.y as int));
        assert(tile_at(plan, object.x as int, object.y as int) == Tile::floor());
    }
}

/// What can be walked in a level: the rooms do not intersect, the inside of
/// every room is open floor, so is a corridor in the shape of an L between
/// the centres of each room and the next, and the hero stands at the centre
/// of the first room.
pub proof fn lemma_level_is_walkable(
    config: LevelConfig,
    plan: &Plan,
    rooms: Seq<Rect>,
    before: Seq<ObjectView>,
    after: Seq<ObjectView>,
)
    requires
        config.valid(),
        HERO < before.len(),
        level_built(config, plan, rooms, before, after),
    ensures
        rooms_apart(rooms),
        forall|r: int, x: int, y: int|
            0 <= r < rooms.len() && (#[trigger] rooms[r]).inside(x, y) ==> in_bounds(plan, x, y)
                && !(#[trigger] tile_at(plan, x, y)).blocked,
        forall|r: int|
            0 < r < rooms.len() ==> {
                ||| corridor_open(
                    plan,
                    rooms[r - 1].spec_center(),
                    (#[trigger] rooms[r]).spec_center(),
                    true,
                )
                ||| corridor_open(plan, rooms[r - 1].spec_center(), rooms[r].spec_center(), false)
            },
        rooms.len() > 0 ==> after[HERO as int].at(
            rooms[0].spec_center().0,
            rooms[0].spec_center().1,
        ),
{
    let width = config.width as int;
    let height = config.height as int;
    let bends = choose|bends: Seq<bool>| bends.len() == rooms.len() && plan_shows(plan, rooms, bends);
    assert forall|i: int| 0 <= i < rooms.len() implies fits(#[trigger] rooms[i], width, height) by {
        assert(room_allowed(config, rooms[i]));
    }
    assert forall|x: int, y: int| carved(rooms, bends, x, y) implies in_bounds(plan, x, y)
        && !tile_at(plan, x, y).blocked by {
        if carved(rooms, bends, x, y) {
            lemma_carved_is_inner(rooms, bends, width, height, x, y);
            assert(plan@[x]@.len() == height);
        }
    }
    assert forall|r: int, x: int, y: int|
        0 <= r < rooms.len() && (#[trigger] rooms[r]).inside(x, y) implies in_bounds(plan, x, y)
        && !(#[trigger] tile_at(plan, x, y)).blocked by {
        if 0 <= r < rooms.len() && rooms[r].inside(x, y) {
            assert(in_some_room(rooms, x, y));
        }
    }
    assert forall|r: int| 0 < r < rooms.len() implies {
        ||| corridor_open(
            plan,
            rooms[r - 1].spec_center(),
            (#[trigger] rooms[r]).spec_center(),
            true,
        )
        ||| corridor_open(plan, rooms[r - 1].spec_center(), rooms[r].spec_center(), false)
    } by {
        let bend = bends[r];
        assert forall|x: int, y: int| #[trigger]
            on_corridor(rooms[r - 1].spec_center(), rooms[r].spec_center(), bend, x, y)
            implies in_bounds(plan, x, y) && !tile_at(plan, x, y).blocked by {
            if on_corridor(rooms[r - 1].spec_center(), rooms[r].spec_center(), bend, x, y) {
                assert(corridor_at(rooms, bends, r, x, y));
                assert(on_some_corridor(rooms, bends, x, y));
            }
        }
        assert(corridor_open(plan, rooms[r - 1].spec_center(), rooms[r].spec_center(), bend));
    }
    if rooms.len() > 0 {
        assert(after[HERO as int] == after.subrange(0, before.len() as int)[HERO as int]);
    }
}


/// A corridor joins what it is drawn between: both ends lie on it, and so
/// does the corner where it bends.
pub proof fn lemma_corridor_joins_its_ends(from: (int, int), to: (int, int), horizontal_first: bool)
    ensures
        on_corridor(from, to, horizontal_first, from.0, from.1),
        on_corridor(from, to, horizontal_first, to.0, to.1),
        horizontal_first ==> on_corridor(from, to, horizontal_first, to.0, from.1),
        !horizontal_first ==> on_corridor(from, to, horizontal_first, from.0, to.1),
{
}


/// A level has no more hostiles than its rooms can have got, and so no more
/// than every try at a room could have brought.
pub proof fn lemma_level_bounds_hostiles(
    config: LevelConfig,
    plan: &Plan,
    rooms: Seq<Rect>,
    before: Seq<ObjectView>,
    after: Seq<ObjectView>,
)
    requires
        config.valid(),
        level_built(config, plan, rooms, before, after),
    ensures
        after.len() - before.len() <= config.max_room_hostiles * rooms.len(),
        config.max_rooms >= 0 ==> after.len() - before.len() <= config.max_room_hostiles
            * config.max_rooms,
{
    if config.max_rooms >= 0 {
        assert(config.max_room_hostiles * rooms.len() <= config.max_room_hostiles
            * config.max_rooms) by (nonlinear_arith)
            requires
                0 <= config.max_room_hostiles,
                0 <= rooms.len() <= config.max_rooms,
        ;
    }
}

} // verus!

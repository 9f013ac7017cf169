//! What a frame shows, worked out from the map, the objects and the cells in
//! sight. Putting it on a screen is the caller's part.

use vstd::prelude::*;
use vstd::string::StringExecFns;
use crate::color::{floor_dark, floor_light, wall_dark, wall_light, Color};
use crate::game::{fov_covers, fov_has, seen, FovGrid, HERO};
use crate::movement::views;
use crate::object::{Object, ObjectView};
use crate::tile::{in_bounds, same_shape, tile_at, Plan, Tile};

verus! {

/// The background of a cell: walls and floor each have a colour in sight and
/// one out of sight.
pub open spec fn spec_tile_color(visible: bool, wall: bool) -> Color {
    match (visible, wall) {
        (false, true) => wall_dark(),
        (false, false) => floor_dark(),
        (true, true) => wall_light(),
        (true, false) => floor_light(),
    }
}

/// The background of a cell that is drawn.
#[verifier::when_used_as_spec(spec_tile_color)]
pub fn tile_color(visible: bool, wall: bool) -> (color: Color)
    ensures
        color == spec_tile_color(visible, wall),
{
    match (visible, wall) {
        (false, true) => wall_dark(),
        (false, false) => floor_dark(),
        (true, true) => wall_light(),
        (true, false) => floor_light(),
    }
}

/// Marks every cell in sight as explored. A cell that was explored stays so;
/// nothing else about a cell changes.
pub fn explore(plan: &mut Plan, fov: &FovGrid)
    requires
        fov_covers(fov, old(plan)),
    ensures
        same_shape(final(plan), old(plan)),
        forall|x: int, y: int|
            in_bounds(old(plan), x, y) ==> tile_at(final(plan), x, y) == (Tile {
                explored: tile_at(old(plan), x, y).explored || seen(fov, x, y),
                ..tile_at(old(plan), x, y)
            }),
{
    let mut x: usize = 0;
    while x < plan.len()
        invariant
            x <= plan@.len(),
            fov_covers(fov, old(plan)),
            same_shape(plan, old(plan)),
            forall|cx: int, cy: int|
                in_bounds(old(plan), cx, cy) ==> tile_at(plan, cx, cy) == if cx < x {
                    Tile {
                        explored: tile_at(old(plan), cx, cy).explored || seen(fov, cx, cy),
                        ..tile_at(old(plan), cx, cy)
                    }
                } else {
                    tile_at(old(plan), cx, cy)
                },
        decreases plan@.len() - x,
    {
        let mut y: usize = 0;
        while y < plan[x].len()
            invariant
                x < plan@.len(),
                y <= plan@[x as int]@.len(),
                fov_covers(fov, old(plan)),
                same_shape(plan, old(plan)),
                forall|cx: int, cy: int|
                    in_bounds(old(plan), cx, cy) ==> tile_at(plan, cx, cy) == if cx < x
                        || (cx == x && cy < y) {
                        Tile {
                            explored: tile_at(old(plan), cx, cy).explored || seen(fov, cx, cy),
                            ..tile_at(old(plan), cx, cy)
                        }
                    } else {
                        tile_at(old(plan), cx, cy)
                    },
            decreases plan@[x as int]@.len() - y,
        {
            assert(plan@[x as int]@.len() == old(plan)@[x as int]@.len());
            assert(in_bounds(old(plan), x as int, y as int));
            assert(fov_has(fov, x as int, y as int));
            assert(tile_at(plan, x as int, y as int) == tile_at(old(plan), x as int, y as int));
            if fov[x][y] {
                let tile = plan[x][y];
                plan[x][y] = Tile {
                    blocked: tile.blocked,
                    block_sight: tile.block_sight,
                    explored: true,
                };
            }
            y += 1;
        }
        x += 1;
    }
}

/// Whether the frame shows `object`: its cell is in sight.
pub open spec fn shown(fov: &FovGrid, object: ObjectView) -> bool {
    seen(fov, object.x as int, object.y as int)
}

/// The slots below `upto` whose objects are shown and block movement, or do
/// not, as `blocking` says; in the order of the slots.
pub open spec fn shown_slots(
    objects: Seq<ObjectView>,
    fov: &FovGrid,
    blocking: bool,
    upto: int,
) -> Seq<usize>
    decreases upto,
{
    if upto <= 0 {
        Seq::empty()
    } else {
        let below = shown_slots(objects, fov, blocking, upto - 1);
        if shown(fov, objects[upto - 1]) && objects[upto - 1].blocks == blocking {
            below.push((upto - 1) as usize)
        } else {
            below
        }
    }
}

fn push_shown(objects: &[Object], fov: &FovGrid, blocking: bool, order: &mut Vec<usize>)
    requires
        forall|i: int|
            0 <= i < objects@.len() ==> fov_has(
                fov,
                (#[trigger] objects@[i]).x as int,
                objects@[i].y as int,
            ),
    ensures
        final(order)@ == old(order)@ + shown_slots(
            views(objects@),
            fov,
            blocking,
            objects@.len() as int,
        ),
{
    let mut i: usize = 0;
    while i < objects.len()
        invariant
            i <= objects@.len(),
            forall|j: int|
                0 <= j < objects@.len() ==> fov_has(
                    fov,
                    (#[trigger] objects@[j]).x as int,
                    objects@[j].y as int,
                ),
            order@ == old(order)@ + shown_slots(views(objects@), fov, blocking, i as int),
        decreases objects@.len() - i,
    {
        assert(views(objects@)[i as int] == objects@[i as int]@);
        let object = &objects[i];
        if fov[object.x as usize][object.y as usize] && object.blocks == blocking {
            order.push(i);
        }
        assert(order@ =~= old(order)@ + shown_slots(views(objects@), fov, blocking, i + 1));
        i += 1;
    }
}

/// The slots of the objects to draw, in the order in which to draw them:
/// those in sight, first the ones that block nothing, then the ones that
/// block, so that the living are drawn over remains. Within each group the
/// order of the slots is kept.
pub fn draw_order(objects: &[Object], fov: &FovGrid) -> (order: Vec<usize>)
    requires
        forall|i: int|
            0 <= i < objects@.len() ==> fov_has(
                fov,
                (#[trigger] objects@[i]).x as int,
                objects@[i].y as int,
            ),
    ensures
        order@ == shown_slots(views(objects@), fov, false, objects@.len() as int) + shown_slots(
            views(objects@),
            fov,
            true,
            objects@.len() as int,
        ),
{
    let mut order: Vec<usize> = Vec::new();
    push_shown(objects, fov, false, &mut order);
    push_shown(objects, fov, true, &mut order);
    order
}

/// The names of the objects in the slots below `upto` that stand at `(x, y)`
/// and are shown, in the order of the slots.
pub open spec fn names_at(
    objects: Seq<ObjectView>,
    fov: &FovGrid,
    x: int,
    y: int,
    upto: int,
) -> Seq<Seq<char>>
    decreases upto,
{
    if upto <= 0 {
        Seq::empty()
    } else {
        let below = names_at(objects, fov, x, y, upto - 1);
        if objects[upto - 1].at(x, y) && shown(fov, objects[upto - 1]) {
            below.push(objects[upto - 1].name)
        } else {
            below
        }
    }
}

/// `names` in one line, with a comma and a space between each two.
pub open spec fn comma_list(names: Seq<Seq<char>>) -> Seq<char>
    decreases names.len(),
{
    if names.len() == 0 {
        Seq::empty()
    } else if names.len() == 1 {
        names[0]
    } else {
        comma_list(names.drop_last()) + ", "@ + names.last()
    }
}

/// The names of the objects at `(x, y)` that are in sight, for the line under
/// the pointer.
pub fn get_names_under_mouse(x: i32, y: i32, objects: &[Object], fov: &FovGrid) -> (names: String)
    requires
        forall|i: int|
            0 <= i < objects@.len() && (#[trigger] objects@[i])@.at(x as int, y as int) ==> fov_has(
                fov,
                x as int,
                y as int,
            ),
    ensures
        names@ == comma_list(names_at(views(objects@), fov, x as int, y as int, objects@.len() as int)),
{
    let mut names = String::new();
    let mut first = true;
    let mut i: usize = 0;
    while i < objects.len()
        invariant
            i <= objects@.len(),
            forall|j: int|
                0 <= j < objects@.len() && (#[trigger] objects@[j])@.at(x as int, y as int)
                    ==> fov_has(fov, x as int, y as int),
            first == (names_at(views(objects@), fov, x as int, y as int, i as int).len() == 0),
            names@ == comma_list(names_at(views(objects@), fov, x as int, y as int, i as int)),
        decreases objects@.len() - i,
    {
        assert(views(objects@)[i as int] == objects@[i as int]@);
        let object = &objects[i];
        if object.x == x && object.y == y && fov[x as usize][y as usize] {
            let ghost below = names_at(views(objects@), fov, x as int, y as int, i as int);
            if !first {
                names.append(", ");
            }
            names.append(object.name.as_str());
            first = false;
            assert(below.push(object@.name).drop_last() =~= below);
        }
        i += 1;
    }
    names
}

/// The row for the next message of the panel, which fills from the bottom
/// up: `msg_height` rows above `y`, or none if that is off the panel.
pub fn message_row(y: i32, msg_height: i32) -> (row: Option<i32>)
    requires
        i32::MIN <= y - msg_height <= i32::MAX,
    ensures
        row == if y - msg_height < 0 {
            None
        } else {
            Some((y - msg_height) as i32)
        },
{
    let above: i32 = y - msg_height;
    if above < 0 {
        None
    } else {
        Some(above)
    }
}

/// Whether the cells in sight have to be worked out anew: the hero no longer
/// stands where they stood when that was last done.
pub fn fov_is_stale(previous: (i32, i32), objects: &[Object]) -> (stale: bool)
    requires
        HERO < objects@.len(),
    ensures
        stale == !objects@[HERO as int]@.at(previous.0 as int, previous.1 as int),
{
    previous.0 != objects[HERO].x || previous.1 != objects[HERO].y
}

} // verus!

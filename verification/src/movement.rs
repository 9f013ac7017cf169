//! Who stands where: blocked cells, steps, and two objects at once.

use vstd::prelude::*;
use crate::object::{Object, ObjectView};
use crate::tile::{in_bounds, tile_at, Plan};

verus! {

/// The objects as contracts see them.
pub open spec fn views(objects: Seq<Object>) -> Seq<ObjectView> {
    objects.map_values(|o: Object| o@)
}

/// Whether an object that blocks movement stands at `(x, y)`.
pub open spec fn occupied(objects: Seq<ObjectView>, x: int, y: int) -> bool {
    exists|i: int| 0 <= i < objects.len() && (#[trigger] objects[i]).blocks && objects[i].at(x, y)
}

/// Whether nothing can step onto `(x, y)`: the cell itself is blocked, or an
/// object that blocks movement stands there. Remains block nothing.
pub open spec fn blocked(plan: &Plan, objects: Seq<ObjectView>, x: int, y: int) -> bool {
    tile_at(plan, x, y).blocked || occupied(objects, x, y)
}

/// Tells whether nothing can step onto `(x, y)`.
pub fn is_blocked(x: i32, y: i32, plan: &Plan, objects: &[Object]) -> (b: bool)
    requires
        in_bounds(plan, x as int, y as int),
    ensures
        b == blocked(plan, views(objects@), x as int, y as int),
{
    if plan[x as usize][y as usize].blocked {
        return true;
    }
    let mut i: usize = 0;
    while i < objects.len()
        invariant
            i <= objects@.len(),
            forall|j: int| 0 <= j < i ==> !((#[trigger] views(objects@)[j]).blocks && views(objects@)[j].at(x as int, y as int)),
        decreases objects@.len() - i,
    {
        if objects[i].blocks && objects[i].x == x && objects[i].y == y {
            assert(views(objects@)[i as int].blocks);
            return true;
        }
        i += 1;
    }
    false
}

/// Whether the cell `(dx, dy)` away from `object` is on the map and within
/// reach of `i32` coordinates.
pub open spec fn can_step(plan: &Plan, object: ObjectView, dx: int, dy: int) -> bool {
    &&& in_bounds(plan, object.x + dx, object.y + dy)
    &&& object.x + dx <= i32::MAX
    &&& object.y + dy <= i32::MAX
}

/// The objects after object `id` tried to step by `(dx, dy)`: it stands on
/// the new cell if that cell is not blocked, and nothing has changed if it is.
pub open spec fn moved(plan: &Plan, objects: Seq<ObjectView>, id: int, dx: int, dy: int) -> Seq<
    ObjectView,
> {
    let x = objects[id].x + dx;
    let y = objects[id].y + dy;
    if blocked(plan, objects, x, y) {
        objects
    } else {
        objects.update(id, ObjectView { x: x as i32, y: y as i32, ..objects[id] })
    }
}

/// Object `id` tries to step by `(dx, dy)`; a blocked cell leaves it where
/// it is.
pub fn move_by(id: usize, dx: i32, dy: i32, plan: &Plan, objects: &mut [Object])
    requires
        id < old(objects)@.len(),
        can_step(plan, old(objects)@[id as int]@, dx as int, dy as int),
    ensures
        final(objects)@.len() == old(objects)@.len(),
        views(final(objects)@) == moved(plan, views(old(objects)@), id as int, dx as int, dy as int),
{
    let (x, y) = objects[id].pos();
    if !is_blocked(x + dx, y + dy, plan, objects) {
        objects[id].set_pos(x + dx, y + dy);
        assert(views(objects@) =~= moved(
            plan,
            views(old(objects)@),
            id as int,
            dx as int,
            dy as int,
        ));
    } else {
        assert(views(objects@) =~= views(old(objects)@));
    }
}

/// One coordinate of the step from an object toward a target that lies
/// `(d, e)` away, `d` along this axis and `e` along the other: the whole
/// number nearest to `d` divided by the straight-line distance. That is a
/// step toward the target where `2 * |d|` is at least the distance, and no
/// step along this axis otherwise.
pub open spec fn unit_step(d: int, e: int) -> int {
    if d != 0 && 4 * (d * d) >= d * d + e * e {
        if d > 0 {
            1
        } else {
            -1
        }
    } else {
        0
    }
}

fn step_along(d: i64, e: i64) -> (s: i32)
    requires
        -0x1_0000_0000 <= d <= 0x1_0000_0000,
        -0x1_0000_0000 <= e <= 0x1_0000_0000,
    ensures
        s == unit_step(d as int, e as int),
{
    let dd: i128 = d as i128;
    let ee: i128 = e as i128;
    assert(0 <= dd * dd <= 0x1_0000_0000_0000_0000) by (nonlinear_arith)
        requires
            -0x1_0000_0000 <= dd <= 0x1_0000_0000,
    ;
    assert(0 <= ee * ee <= 0x1_0000_0000_0000_0000) by (nonlinear_arith)
        requires
            -0x1_0000_0000 <= ee <= 0x1_0000_0000,
    ;
    let d2: i128 = dd * dd;
    let e2: i128 = ee * ee;
    if d != 0 && 4 * d2 >= d2 + e2 {
        if d > 0 {
            1
        } else {
            -1
        }
    } else {
        0
    }
}

/// Object `id` tries one step toward `(target_x, target_y)`.
pub fn move_towards(id: usize, target_x: i32, target_y: i32, plan: &Plan, objects: &mut [Object])
    requires
        id < old(objects)@.len(),
        can_step(
            plan,
            old(objects)@[id as int]@,
            unit_step(
                target_x - old(objects)@[id as int].x,
                target_y - old(objects)@[id as int].y,
            ),
            unit_step(
                target_y - old(objects)@[id as int].y,
                target_x - old(objects)@[id as int].x,
            ),
        ),
    ensures
        final(objects)@.len() == old(objects)@.len(),
        views(final(objects)@) == moved(
            plan,
            views(old(objects)@),
            id as int,
            unit_step(
                target_x - old(objects)@[id as int].x,
                target_y - old(objects)@[id as int].y,
            ),
            unit_step(
                target_y - old(objects)@[id as int].y,
                target_x - old(objects)@[id as int].x,
            ),
        ),
{
    let dx: i64 = target_x as i64 - objects[id].x as i64;
    let dy: i64 = target_y as i64 - objects[id].y as i64;
    let step_x: i32 = step_along(dx, dy);
    let step_y: i32 = step_along(dy, dx);
    move_by(id, step_x, step_y, plan, objects);
}

/// Two distinct items of one slice, both open to change at once.
pub fn mut_two<T>(first_id: usize, second_id: usize, items: &mut [T]) -> (pair: (&mut T, &mut T))
    requires
        first_id != second_id,
        first_id < old(items)@.len(),
        second_id < old(items)@.len(),
    ensures
        *pair.0 == old(items)@[first_id as int],
        *pair.1 == old(items)@[second_id as int],
        final(items)@ == old(items)@.update(first_id as int, *final(pair.0)).update(
            second_id as int,
            *final(pair.1),
        ),
{
    let split_at_index: usize = if first_id < second_id {
        second_id
    } else {
        first_id
    };
    let (first_slice, second_slice) = items.split_at_mut(split_at_index);
    if first_id < second_id {
        (&mut first_slice[first_id], &mut second_slice[0])
    } else {
        (&mut second_slice[0], &mut first_slice[second_id])
    }
}

/// A step onto a blocked cell changes nothing; a step onto any other cell
/// puts the object there and leaves every other object as it was.
pub proof fn lemma_moves_exactly_onto_free_cells(
    plan: &Plan,
    objects: Seq<ObjectView>,
    id: int,
    dx: int,
    dy: int,
)
    requires
        0 <= id < objects.len(),
        i32::MIN <= objects[id].x + dx <= i32::MAX,
        i32::MIN <= objects[id].y + dy <= i32::MAX,
    ensures
        blocked(plan, objects, objects[id].x + dx, objects[id].y + dy) ==> moved(
            plan,
            objects,
            id,
            dx,
            dy,
        ) == objects,
        !blocked(plan, objects, objects[id].x + dx, objects[id].y + dy) ==> {
            let after = moved(plan, objects, id, dx, dy);
            &&& after.len() == objects.len()
            &&& after[id].at(objects[id].x + dx, objects[id].y + dy)
            &&& forall|i: int| 0 <= i < objects.len() && i != id ==> after[i] == objects[i]
        },
{
}

/// Remains never stand in the way: an object that does not block movement
/// makes no cell occupied.
pub proof fn lemma_remains_block_nothing(objects: Seq<ObjectView>, id: int, x: int, y: int)
    requires
        0 <= id < objects.len(),
        !objects[id].blocks,
    ensures
        occupied(objects, x, y) == occupied(objects.remove(id), x, y),
{
    let rest = objects.remove(id);
    if occupied(objects, x, y) {
        let i = choose|i: int| 0 <= i < objects.len() && (#[trigger] objects[i]).blocks && objects[i].at(x, y);
        if i < id {
            assert(rest[i] == objects[i]);
        } else {
            assert(rest[i - 1] == objects[i]);
        }
    }
    if occupied(rest, x, y) {
        let i = choose|i: int| 0 <= i < rest.len() && (#[trigger] rest[i]).blocks && rest[i].at(x, y);
        if i < id {
            assert(objects[i] == rest[i]);
        } else {
            assert(objects[i + 1] == rest[i]);
        }
    }
}

} // verus!

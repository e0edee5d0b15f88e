//! One frame of the simulation, and runs of frames.

use vstd::prelude::*;
use crate::boundary::{crosses, fits_arena, lemma_bounce_keeps_inside};
use crate::collision::overlap;
use crate::components::{arena, AsteroidBundle, Body};
use crate::fixed::Fixed;
use crate::schedule::{lemma_schedule_entries, pair_schedule};
use crate::systems::{
    advanced_all, bounced_all, collide_asteroids, collide_asteroids_with_boundaries, collided_all,
    collided_in_order, lemma_collided_all_keeps_bodies, rotate_asteroids, translate_asteroids,
    turned_all,
};

verus! {

/// The bodies after one frame of `dt` seconds: every body bounces off the
/// walls, the collisions of all pairs are resolved, and every body moves.
/// Where a step of the rotation is due, every body then turns.
pub open spec fn ticked(bodies: Seq<Body>, dt: int, rotate: bool) -> Seq<Body> {
    let moved = advanced_all(collided_all(bounced_all(bodies)), dt);
    if rotate {
        turned_all(moved)
    } else {
        moved
    }
}

/// The bodies after a run of frames, each given by its length in seconds
/// and by whether a step of the rotation is due in it.
pub open spec fn ticked_through(bodies: Seq<Body>, frames: Seq<(int, bool)>) -> Seq<Body>
    decreases frames.len(),
{
    if frames.len() == 0 {
        bodies
    } else {
        ticked(ticked_through(bodies, frames.drop_last()), frames.last().0, frames.last().1)
    }
}

/// Whether nothing is in the way of any body: none reaches past a wall and
/// no two overlap.
pub open spec fn quiet(bodies: Seq<Body>) -> bool {
    &&& forall|k: int|
        0 <= k < bodies.len() ==> !crosses((#[trigger] bodies[k]).position.x, bodies[k].radius)
            && !crosses(bodies[k].position.y, bodies[k].radius)
    &&& forall|i: int, j: int|
        0 <= i < j < bodies.len() ==> overlap(#[trigger] bodies[i], #[trigger] bodies[j]) <= 0
}

/// Where no two bodies overlap, resolving the collisions of any pairs
/// changes nothing.
proof fn lemma_no_overlap_no_change(bodies: Seq<Body>, pairs: Seq<(int, int)>)
    requires
        forall|i: int, j: int|
            0 <= i < j < bodies.len() ==> overlap(#[trigger] bodies[i], #[trigger] bodies[j]) <= 0,
        forall|k: int|
            0 <= k < pairs.len() ==> 0 <= (#[trigger] pairs[k]).0 < pairs[k].1 < bodies.len(),
    ensures
        collided_in_order(bodies, pairs) == bodies,
    decreases pairs.len(),
{
    if pairs.len() > 0 {
        lemma_no_overlap_no_change(bodies, pairs.drop_last());
        let pair = pairs.last();
        assert(overlap(bodies[pair.0], bodies[pair.1]) <= 0);
        assert(collided_in_order(bodies, pairs) =~= bodies);
    }
}

/// In a frame in which nothing is in the way of any body, every body moves
/// by its velocity times the length of the frame, and nothing else
/// changes.
pub proof fn lemma_quiet_frame_moves_freely(bodies: Seq<Body>, dt: int)
    requires
        quiet(bodies),
    ensures
        ticked(bodies, dt, false) == advanced_all(bodies, dt),
{
    assert(bounced_all(bodies) =~= bodies) by {
        assert forall|k: int| 0 <= k < bodies.len() implies bounced_all(bodies)[k]
            == bodies[k] by {
            lemma_bounce_keeps_inside(bodies[k]);
        }
    }
    let n = bodies.len() as int;
    assert forall|k: int| 0 <= k < pair_schedule(n).len() implies 0 <= (
    #[trigger] pair_schedule(n)[k]).0 < pair_schedule(n)[k].1 < n by {
        lemma_schedule_entries(n, k);
    }
    lemma_no_overlap_no_change(bodies, pair_schedule(n));
}

/// A frame neither adds nor removes a body, and changes no radius.
pub proof fn lemma_tick_keeps_bodies(bodies: Seq<Body>, dt: int, rotate: bool)
    ensures
        ticked(bodies, dt, rotate).len() == bodies.len(),
        forall|k: int|
            0 <= k < bodies.len() ==> (#[trigger] ticked(bodies, dt, rotate)[k]).radius
                == bodies[k].radius,
{
    lemma_collided_all_keeps_bodies(bounced_all(bodies));
}

/// However many frames pass, no body is added or removed, and no radius
/// changes.
pub proof fn lemma_population_is_constant(bodies: Seq<Body>, frames: Seq<(int, bool)>)
    ensures
        ticked_through(bodies, frames).len() == bodies.len(),
        forall|k: int|
            0 <= k < bodies.len() ==> (#[trigger] ticked_through(bodies, frames)[k]).radius
                == bodies[k].radius,
    decreases frames.len(),
{
    if frames.len() > 0 {
        lemma_population_is_constant(bodies, frames.drop_last());
        lemma_tick_keeps_bodies(
            ticked_through(bodies, frames.drop_last()),
            frames.last().0,
            frames.last().1,
        );
    }
}

/// Runs one frame of `dt` seconds, with a step of the rotation if `rotate`
/// says that one is due.
pub fn tick(bodies: &mut Vec<AsteroidBundle>, dt: Fixed, rotate: bool)
    requires
        forall|k: int| 0 <= k < old(bodies)@.len() ==> fits_arena(#[trigger] old(bodies)@[k]@),
    ensures
        final(bodies)@.len() == old(bodies)@.len(),
        arena(final(bodies)@) == ticked(arena(old(bodies)@), dt@, rotate),
        forall|k: int| 0 <= k < final(bodies)@.len() ==> fits_arena(#[trigger] final(bodies)@[k]@),
{
    proof {
        lemma_tick_keeps_bodies(arena(bodies@), dt@, rotate);
    }
    collide_asteroids_with_boundaries(bodies);
    collide_asteroids(bodies);
    translate_asteroids(bodies, dt);
    if rotate {
        rotate_asteroids(bodies);
    }
    assert forall|k: int| 0 <= k < bodies@.len() implies fits_arena(#[trigger] bodies@[k]@) by {
        assert(arena(bodies@)[k] == bodies@[k]@);
        assert(arena(old(bodies)@)[k] == old(bodies)@[k]@);
    }
}

} // verus!

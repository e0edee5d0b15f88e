//! The steps of the simulation, each over all the bodies of a store.

use vstd::prelude::*;
use crate::boundary::{bounce, bounced, fits_arena, lemma_bounce_contains};
use crate::collision::{resolve, resolve_pair};
use crate::components::{arena, AsteroidBundle, Body, Stats};
use crate::fixed::{magnitude, Fixed, ONE};
use crate::motion::{advance, advanced, turn, turned};
use crate::schedule::{lemma_schedule_entries, pair_row, pair_schedule, pairs_before};
use crate::text::{format_two_decimals, two_decimals};

verus! {

/// The characters of each of some strings.
pub open spec fn texts(sections: Seq<String>) -> Seq<Seq<char>> {
    Seq::new(sections.len(), |k: int| sections[k]@)
}

/// What a section shows of a figure: the figure with two decimals, or, as
/// long as the figure is missing, what it showed before.
pub open spec fn shown(figure: Option<Fixed>, before: Seq<char>) -> Seq<char> {
    match figure {
        Some(value) => two_decimals(value@),
        None => before,
    }
}

/// The sections of the overlay once the figures are written into them: the
/// latest value into the second section, the simple moving average into the
/// fourth and the exponential moving average into the sixth. The sections
/// between them hold the labels and stay as they are.
pub open spec fn overlaid(figures: Stats, sections: Seq<Seq<char>>) -> Seq<Seq<char>> {
    Seq::new(
        sections.len(),
        |k: int|
            if k == 1 {
                shown(figures.raw, sections[k])
            } else if k == 3 {
                shown(figures.sma, sections[k])
            } else if k == 5 {
                shown(figures.ema, sections[k])
            } else {
                sections[k]
            },
    )
}

/// The bodies after each has bounced off the walls.
pub open spec fn bounced_all(bodies: Seq<Body>) -> Seq<Body> {
    Seq::new(bodies.len(), |k: int| bounced(bodies[k]))
}

/// The bodies after each has moved at its velocity for `dt` seconds.
pub open spec fn advanced_all(bodies: Seq<Body>, dt: int) -> Seq<Body> {
    Seq::new(bodies.len(), |k: int| advanced(bodies[k], dt))
}

/// The bodies after each has turned by one step.
pub open spec fn turned_all(bodies: Seq<Body>) -> Seq<Body> {
    Seq::new(bodies.len(), |k: int| turned(bodies[k]))
}

/// The bodies after the collision of bodies `i` and `j` is resolved.
pub open spec fn collided_pair(bodies: Seq<Body>, i: int, j: int) -> Seq<Body> {
    bodies.update(i, resolve(bodies[i], bodies[j]).0).update(j, resolve(bodies[i], bodies[j]).1)
}

/// The bodies after the collisions of the given pairs are resolved one
/// after another: each pair meets the bodies as the pairs before it left
/// them.
pub open spec fn collided_in_order(bodies: Seq<Body>, pairs: Seq<(int, int)>) -> Seq<Body>
    decreases pairs.len(),
{
    if pairs.len() == 0 {
        bodies
    } else {
        collided_pair(collided_in_order(bodies, pairs.drop_last()), pairs.last().0, pairs.last().1)
    }
}

/// The bodies after the collisions of all pairs are resolved.
pub open spec fn collided_all(bodies: Seq<Body>) -> Seq<Body> {
    collided_in_order(bodies, pair_schedule(bodies.len() as int))
}

/// Resolving one more pair after some others.
proof fn lemma_collided_one_more(bodies: Seq<Body>, pairs: Seq<(int, int)>, pair: (int, int))
    ensures
        collided_in_order(bodies, pairs.push(pair)) == collided_pair(
            collided_in_order(bodies, pairs),
            pair.0,
            pair.1,
        ),
{
    assert(pairs.push(pair).drop_last() =~= pairs);
}

/// Writes the figures of the frame rate into the sections of the overlay.
///
/// A figure that is there needs its section to be there.
pub fn stats(diagnostics: &Stats, sections: &mut Vec<String>)
    requires
        diagnostics.raw is Some ==> old(sections)@.len() > 1,
        diagnostics.sma is Some ==> old(sections)@.len() > 3,
        diagnostics.ema is Some ==> old(sections)@.len() > 5,
    ensures
        final(sections)@.len() == old(sections)@.len(),
        texts(final(sections)@) == overlaid(*diagnostics, texts(old(sections)@)),
{
    if let Some(raw) = diagnostics.raw {
        sections[1] = format_two_decimals(raw);
    }
    if let Some(sma) = diagnostics.sma {
        sections[3] = format_two_decimals(sma);
    }
    if let Some(ema) = diagnostics.ema {
        sections[5] = format_two_decimals(ema);
    }
    assert(texts(sections@) =~= overlaid(*diagnostics, texts(old(sections)@)));
}

/// Resolving collisions neither adds nor removes a body, and changes
/// neither the radius nor the orientation of one.
pub proof fn lemma_collisions_keep_bodies(bodies: Seq<Body>, pairs: Seq<(int, int)>)
    requires
        forall|k: int|
            0 <= k < pairs.len() ==> 0 <= (#[trigger] pairs[k]).0 < bodies.len() && 0
                <= pairs[k].1 < bodies.len(),
    ensures
        collided_in_order(bodies, pairs).len() == bodies.len(),
        forall|k: int|
            0 <= k < bodies.len() ==> (#[trigger] collided_in_order(bodies, pairs)[k]).radius
                == bodies[k].radius && collided_in_order(bodies, pairs)[k].pose == bodies[k].pose,
    decreases pairs.len(),
{
    if pairs.len() > 0 {
        lemma_collisions_keep_bodies(bodies, pairs.drop_last());
    }
}

/// Resolving the collisions of all pairs neither adds nor removes a body,
/// and changes neither the radius nor the orientation of one.
pub proof fn lemma_collided_all_keeps_bodies(bodies: Seq<Body>)
    ensures
        collided_all(bodies).len() == bodies.len(),
        forall|k: int|
            0 <= k < bodies.len() ==> (#[trigger] collided_all(bodies)[k]).radius
                == bodies[k].radius && collided_all(bodies)[k].pose == bodies[k].pose,
{
    let n = bodies.len() as int;
    assert forall|k: int| 0 <= k < pair_schedule(n).len() implies 0 <= (
    #[trigger] pair_schedule(n)[k]).0 < n && 0 <= pair_schedule(n)[k].1 < n by {
        lemma_schedule_entries(n, k);
    }
    lemma_collisions_keep_bodies(bodies, pair_schedule(n));
}

/// Where there are two bodies, resolving the collisions of all pairs is
/// resolving the collision of the two.
pub proof fn lemma_two_bodies_collide_as_a_pair(bodies: Seq<Body>)
    requires
        bodies.len() == 2,
    ensures
        collided_all(bodies) == seq![
            resolve(bodies[0], bodies[1]).0,
            resolve(bodies[0], bodies[1]).1,
        ],
{
    let pairs = pair_schedule(2);
    assert(pairs_before(2, 0) =~= Seq::<(int, int)>::empty());
    assert(pairs_before(2, 1) =~= seq![(0int, 1int)]) by {
        assert(pair_row(2, 0) =~= seq![(0int, 1int)]);
        assert(pairs_before(2, 1) == pairs_before(2, 0) + pair_row(2, 0));
    }
    assert(pairs =~= seq![(0int, 1int)]) by {
        assert(pair_row(2, 1) =~= Seq::<(int, int)>::empty());
        assert(pairs_before(2, 2) == pairs_before(2, 1) + pair_row(2, 1));
    }
    assert(pairs.drop_last() =~= Seq::<(int, int)>::empty());
    assert(collided_in_order(bodies, pairs.drop_last()) == bodies);
    assert(collided_in_order(bodies, pairs) == collided_pair(bodies, 0, 1));
    assert(collided_pair(bodies, 0, 1) =~= seq![
        resolve(bodies[0], bodies[1]).0,
        resolve(bodies[0], bodies[1]).1,
    ]);
}

/// Resolves the collisions of all pairs of bodies, each pair once, in the
/// order of `pair_schedule`.
pub fn collide_asteroids(bodies: &mut Vec<AsteroidBundle>)
    ensures
        final(bodies)@.len() == old(bodies)@.len(),
        arena(final(bodies)@) == collided_all(arena(old(bodies)@)),
{
    let n = bodies.len();
    let ghost start = arena(bodies@);
    let mut i: usize = 0;
    while i < n
        invariant
            i <= n,
            bodies@.len() == n,
            start.len() == n,
            arena(bodies@) == collided_in_order(start, pairs_before(n as int, i as int)),
        decreases n - i,
    {
        let ghost done = pairs_before(n as int, i as int);
        let ghost row = pair_row(n as int, i as int);
        let mut j: usize = i + 1;
        assert(row.take(0) =~= Seq::empty());
        assert(done + row.take(0) =~= done);
        while j < n
            invariant
                i < j <= n,
                bodies@.len() == n,
                start.len() == n,
                done == pairs_before(n as int, i as int),
                row == pair_row(n as int, i as int),
                arena(bodies@) == collided_in_order(start, done + row.take(j - i - 1)),
            decreases n - j,
        {
            let ghost before = arena(bodies@);
            let a = bodies[i];
            let b = bodies[j];
            let r = resolve_pair(&a, &b);
            bodies[i] = r.0;
            bodies[j] = r.1;
            proof {
                let k = j - i - 1;
                assert(row[k] == (i as int, j as int));
                assert(row.take(k + 1) =~= row.take(k).push(row[k]));
                assert(done + row.take(k + 1) =~= (done + row.take(k)).push(row[k]));
                lemma_collided_one_more(start, done + row.take(k), row[k]);
                assert(arena(bodies@) =~= collided_pair(before, i as int, j as int));
            }
            j += 1;
        }
        proof {
            assert(row.take(n - i - 1) =~= row);
        }
        i += 1;
    }
}

/// Bounces every body off the walls of the arena.
pub fn collide_asteroids_with_boundaries(bodies: &mut Vec<AsteroidBundle>)
    requires
        forall|k: int| 0 <= k < old(bodies)@.len() ==> fits_arena(#[trigger] old(bodies)@[k]@),
    ensures
        final(bodies)@.len() == old(bodies)@.len(),
        arena(final(bodies)@) == bounced_all(arena(old(bodies)@)),
        forall|k: int|
            0 <= k < final(bodies)@.len() ==> magnitude((#[trigger] final(bodies)@[k])@.position.x)
                <= ONE - final(bodies)@[k]@.radius && magnitude(final(bodies)@[k]@.position.y)
                <= ONE - final(bodies)@[k]@.radius,
{
    let n = bodies.len();
    let ghost start = arena(bodies@);
    let mut i: usize = 0;
    while i < n
        invariant
            i <= n,
            bodies@.len() == n,
            start.len() == n,
            forall|k: int| 0 <= k < i ==> (#[trigger] bodies@[k])@ == bounced(start[k]),
            forall|k: int| i <= k < n ==> (#[trigger] bodies@[k])@ == start[k],
            forall|k: int| 0 <= k < n ==> fits_arena(#[trigger] start[k]),
            forall|k: int|
                0 <= k < i ==> magnitude((#[trigger] bodies@[k])@.position.x) <= ONE
                    - bodies@[k]@.radius && magnitude(bodies@[k]@.position.y) <= ONE
                    - bodies@[k]@.radius,
        decreases n - i,
    {
        let body = bodies[i];
        proof {
            use_type_invariant(&body);
            lemma_bounce_contains(body@);
        }
        bodies[i] = bounce(&body);
        i += 1;
    }
    assert(arena(bodies@) =~= bounced_all(start));
}

/// Moves every body at its velocity for `dt` seconds.
pub fn translate_asteroids(bodies: &mut Vec<AsteroidBundle>, dt: Fixed)
    ensures
        final(bodies)@.len() == old(bodies)@.len(),
        arena(final(bodies)@) == advanced_all(arena(old(bodies)@), dt@),
{
    let n = bodies.len();
    let ghost start = arena(bodies@);
    let mut i: usize = 0;
    while i < n
        invariant
            i <= n,
            bodies@.len() == n,
            start.len() == n,
            forall|k: int| 0 <= k < i ==> (#[trigger] bodies@[k])@ == advanced(start[k], dt@),
            forall|k: int| i <= k < n ==> (#[trigger] bodies@[k])@ == start[k],
        decreases n - i,
    {
        let body = bodies[i];
        bodies[i] = advance(&body, dt);
        i += 1;
    }
    assert(arena(bodies@) =~= advanced_all(start, dt@));
}

/// Turns every body by one step of the fixed rotation.
pub fn rotate_asteroids(bodies: &mut Vec<AsteroidBundle>)
    ensures
        final(bodies)@.len() == old(bodies)@.len(),
        arena(final(bodies)@) == turned_all(arena(old(bodies)@)),
{
    let n = bodies.len();
    let ghost start = arena(bodies@);
    let mut i: usize = 0;
    while i < n
        invariant
            i <= n,
            bodies@.len() == n,
            start.len() == n,
            forall|k: int| 0 <= k < i ==> (#[trigger] bodies@[k])@ == turned(start[k]),
            forall|k: int| i <= k < n ==> (#[trigger] bodies@[k])@ == start[k],
        decreases n - i,
    {
        let body = bodies[i];
        bodies[i] = turn(&body);
        i += 1;
    }
    assert(arena(bodies@) =~= turned_all(start));
}

} // verus!

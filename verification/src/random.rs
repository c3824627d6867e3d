//! Draws from the thread's random number generator.

use rand::rngs::ThreadRng;
use rand::Rng;
use rand_distr::{Distribution, Uniform};
use vstd::prelude::*;

verus! {

/// `rand::rngs::ThreadRng`, a handle on the generator of the current thread.
#[verifier::external_type_specification]
#[verifier::external_body]
pub struct ExThreadRng(rand::rngs::ThreadRng);

/// `rand::rng` hands out the generator of the current thread. Nothing is claimed of its state.
/// It panics where the operating system gives no seed.
pub assume_specification[ rand::rng ]() -> ThreadRng;

/// `Rng::random_range` on `0..high`: some number below `high`. It panics on an empty range.
/// Which number comes is left to chance. Like every draw it panics where the operating system
/// gives no seed.
#[verifier::external_body]
pub(crate) fn random_below(rng: &mut ThreadRng, high: u32) -> (drawn: u32)
    requires
        0 < high,
    ensures
        drawn < high,
{
    rng.random_range(0..high)
}

/// `Uniform::new(0, high)`, which exists only for a positive `high`, and a sample of it: some
/// number below `high`. Which number comes is left to chance. Like every draw it panics where
/// the operating system gives no seed.
#[verifier::external_body]
pub(crate) fn uniform_below(rng: &mut ThreadRng, high: u64) -> (drawn: u64)
    requires
        0 < high,
    ensures
        drawn < high,
{
    Uniform::new(0, high).unwrap().sample(rng)
}

/// Whether the generator, in state `before`, hands out `drawn` when it is asked by
/// `random_below` for a number below `high`. Only a call shows that it does.
pub closed spec fn hands_out_in_range(before: ThreadRng, high: u32, drawn: u32) -> bool {
    exists|rng: &mut ThreadRng|
        *rng == before && #[trigger] call_ensures(random_below, (rng, high), drawn)
}

/// Whether the generator, in state `before`, hands out `drawn` when it is asked by
/// `uniform_below` for a number below `high`. Only a call shows that it does.
pub closed spec fn hands_out_uniform(before: ThreadRng, high: u64, drawn: u64) -> bool {
    exists|rng: &mut ThreadRng|
        *rng == before && #[trigger] call_ensures(uniform_below, (rng, high), drawn)
}

/// Calls `f` on the generator, and keeps as a fact that it was this call that gave the number.
fn ask<T, F: Fn(&mut ThreadRng, T) -> T>(f: F, rng: &mut ThreadRng, high: T) -> (drawn: T)
    requires
        forall|r: &mut ThreadRng| #[trigger] call_requires(f, (r, high)),
    ensures
        exists|r: &mut ThreadRng|
            *r == *old(rng) && #[trigger] call_ensures(f, (r, high), drawn),
{
    f(rng, high)
}

/// Calls `f` on the generator, and keeps as a fact that it was this call that gave the number
/// and the state after it.
fn step<T, F: Fn(ThreadRng, T) -> (ThreadRng, T)>(f: F, rng: ThreadRng, high: T) -> (out: (
    ThreadRng,
    T,
))
    requires
        call_requires(f, (rng, high)),
    ensures
        call_ensures(f, (rng, high), out),
{
    f(rng, high)
}

/// Calls `f`, and keeps as a fact that it was this call that gave the generator.
fn obtain<F: Fn() -> ThreadRng>(f: F) -> (rng: ThreadRng)
    requires
        call_requires(f, ()),
    ensures
        call_ensures(f, (), rng),
{
    f()
}

/// The next number below `high` that `random_below` gives, and the generator after it.
pub fn draw_in_range(rng: ThreadRng, high: u32) -> (out: (ThreadRng, u32))
    requires
        0 < high,
    ensures
        out.1 < high,
        hands_out_in_range(rng, high, out.1),
{
    let mut rng = rng;
    let drawn: u32 = ask(random_below, &mut rng, high);
    (rng, drawn)
}

/// The next number below `high` that `uniform_below` gives, and the generator after it.
pub fn draw_uniform(rng: ThreadRng, high: u64) -> (out: (ThreadRng, u64))
    requires
        0 < high,
    ensures
        out.1 < high,
        hands_out_uniform(rng, high, out.1),
{
    let mut rng = rng;
    let drawn: u64 = ask(uniform_below, &mut rng, high);
    (rng, drawn)
}

/// Whether one `draw_in_range` below `high` gave `drawn` and took the generator from `before`
/// to `after`.
pub open spec fn drew_in_range(
    before: ThreadRng,
    after: ThreadRng,
    high: u32,
    drawn: u32,
) -> bool {
    call_ensures(draw_in_range, (before, high), (after, drawn))
}

/// Whether one `draw_uniform` below `high` gave `drawn` and took the generator from `before` to
/// `after`.
pub open spec fn drew_uniform(
    before: ThreadRng,
    after: ThreadRng,
    high: u64,
    drawn: u64,
) -> bool {
    call_ensures(draw_uniform, (before, high), (after, drawn))
}

/// Whether `rng` was handed out by `rand::rng`.
pub open spec fn is_thread_rng(rng: ThreadRng) -> bool {
    call_ensures(rand::rng, (), rng)
}

/// What was drawn in a range is a number that the generator handed out for that bound.
pub(crate) proof fn range_draws_come_from_the_generator(
    before: ThreadRng,
    after: ThreadRng,
    high: u32,
    drawn: u32,
)
    requires
        drew_in_range(before, after, high, drawn),
    ensures
        call_ensures(draw_in_range, (before, high), (after, drawn)),
        drawn < high,
        exists|rng: &mut ThreadRng|
            *rng == before && #[trigger] call_ensures(random_below, (rng, high), drawn),
{
}

/// What was drawn uniformly is a number that the generator handed out for that bound.
pub(crate) proof fn uniform_draws_come_from_the_generator(
    before: ThreadRng,
    after: ThreadRng,
    high: u64,
    drawn: u64,
)
    requires
        drew_uniform(before, after, high, drawn),
    ensures
        call_ensures(draw_uniform, (before, high), (after, drawn)),
        drawn < high,
        exists|rng: &mut ThreadRng|
            *rng == before && #[trigger] call_ensures(uniform_below, (rng, high), drawn),
{
}

/// The generator of the current thread.
pub fn thread_rng() -> (rng: ThreadRng)
    ensures
        is_thread_rng(rng),
{
    obtain(rand::rng)
}

/// The next number in a range, with the generator moved on by that one draw.
pub fn next_in_range(rng: &mut ThreadRng, high: u32) -> (drawn: u32)
    requires
        0 < high,
    ensures
        drawn < high,
        drew_in_range(*old(rng), *final(rng), high, drawn),
{
    let mut current: ThreadRng = rand::rng();
    std::mem::swap(rng, &mut current);
    let (after, drawn) = step(draw_in_range, current, high);
    *rng = after;
    drawn
}

/// The next uniform number, with the generator moved on by that one draw.
pub fn next_uniform(rng: &mut ThreadRng, high: u64) -> (drawn: u64)
    requires
        0 < high,
    ensures
        drawn < high,
        drew_uniform(*old(rng), *final(rng), high, drawn),
{
    let mut current: ThreadRng = rand::rng();
    std::mem::swap(rng, &mut current);
    let (after, drawn) = step(draw_uniform, current, high);
    *rng = after;
    drawn
}

} // verus!

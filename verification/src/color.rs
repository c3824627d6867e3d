//! Distances between RGBA colours.

use vstd::prelude::*;

verus! {

/// The largest squared distance between two colours, `4 * 255 * 255`.
pub const MAX_DISTANCE: u64 = 260_100;

/// Square of the difference of two channels.
pub open spec fn channel_distance(a: u8, b: u8) -> int {
    (a - b) * (a - b)
}

/// Squared Euclidean distance between two colours, alpha included.
pub open spec fn distance(a: [u8; 4], b: [u8; 4]) -> int {
    channel_distance(a[0], b[0]) + channel_distance(a[1], b[1]) + channel_distance(a[2], b[2])
        + channel_distance(a[3], b[3])
}

/// Whether `d` is the distance from `p` to the closest of `centroids`.
pub open spec fn is_nearest_distance(p: [u8; 4], centroids: Seq<[u8; 4]>, d: int) -> bool {
    &&& exists|j: int| 0 <= j < centroids.len() && d == distance(p, #[trigger] centroids[j])
    &&& forall|j: int| 0 <= j < centroids.len() ==> d <= distance(p, #[trigger] centroids[j])
}

/// Distance from `p` to the closest of `centroids`.
pub open spec fn nearest(p: [u8; 4], centroids: Seq<[u8; 4]>) -> int
    decreases centroids.len(),
{
    if centroids.len() <= 1 {
        distance(p, centroids[0])
    } else {
        let before = nearest(p, centroids.drop_last());
        let last = distance(p, centroids.last());
        if last < before {
            last
        } else {
            before
        }
    }
}

/// The distances of `pixels`, one by one, to the closest of `centroids`.
pub open spec fn weights_of(pixels: Seq<[u8; 4]>, centroids: Seq<[u8; 4]>) -> Seq<u64> {
    Seq::new(pixels.len(), |i: int| nearest(pixels[i], centroids) as u64)
}

/// Whether `weights` are the distances of `pixels`, one by one, to the closest of `centroids`.
pub open spec fn are_weights(
    pixels: Seq<[u8; 4]>,
    centroids: Seq<[u8; 4]>,
    weights: Seq<u64>,
) -> bool {
    &&& weights.len() == pixels.len()
    &&& forall|i: int|
        0 <= i < pixels.len() ==> is_nearest_distance(
            pixels[i],
            centroids,
            #[trigger] weights[i] as int,
        )
}

proof fn lemma_channel_distance(a: u8, b: u8)
    ensures
        0 <= channel_distance(a, b) <= 65_025,
        channel_distance(a, b) == channel_distance(b, a),
        channel_distance(a, b) == 0 <==> a == b,
{
    assert(0 <= (a - b) * (a - b) <= 65_025) by (nonlinear_arith)
        requires
            -255 <= a - b <= 255,
    ;
    assert((a - b) * (a - b) == (b - a) * (b - a)) by (nonlinear_arith);
    assert((a - b) * (a - b) == 0 <==> a == b) by (nonlinear_arith);
}

/// The distance is a number from zero to `MAX_DISTANCE`.
pub proof fn distance_is_bounded(a: [u8; 4], b: [u8; 4])
    ensures
        0 <= distance(a, b) <= MAX_DISTANCE,
{
    lemma_channel_distance(a[0], b[0]);
    lemma_channel_distance(a[1], b[1]);
    lemma_channel_distance(a[2], b[2]);
    lemma_channel_distance(a[3], b[3]);
}

/// The distance does not depend on the order of the two colours.
pub proof fn distance_is_symmetric(a: [u8; 4], b: [u8; 4])
    ensures
        distance(a, b) == distance(b, a),
{
    lemma_channel_distance(a[0], b[0]);
    lemma_channel_distance(a[1], b[1]);
    lemma_channel_distance(a[2], b[2]);
    lemma_channel_distance(a[3], b[3]);
}

/// Two colours are at distance zero if and only if they are the same colour.
pub proof fn distance_separates_colors(a: [u8; 4], b: [u8; 4])
    ensures
        distance(a, b) == 0 <==> a == b,
{
    lemma_channel_distance(a[0], b[0]);
    lemma_channel_distance(a[1], b[1]);
    lemma_channel_distance(a[2], b[2]);
    lemma_channel_distance(a[3], b[3]);
    if distance(a, b) == 0 {
        assert(a =~= b);
    }
}

/// The distance of two colours is the length squared of the difference of their channels: the
/// squares of the four differences, added up.
pub proof fn distance_is_a_sum_of_squares(a: [u8; 4], b: [u8; 4])
    ensures
        distance(a, b) == (a[0] - b[0]) * (a[0] - b[0]) + (a[1] - b[1]) * (a[1] - b[1]) + (a[2]
            - b[2]) * (a[2] - b[2]) + (a[3] - b[3]) * (a[3] - b[3]),
{
}

/// One step further apart in the channel `c`, from a difference of `n`, adds `2 * n + 1`.
pub proof fn distance_grows_by_odd_numbers(a: [u8; 4], b: [u8; 4], further: [u8; 4], c: int)
    requires
        0 <= c < 4,
        a[c] <= b[c],
        further[c] == b[c] + 1,
        forall|i: int| 0 <= i < 4 && i != c ==> further[i] == b[i],
    ensures
        distance(a, further) == distance(a, b) + 2 * (b[c] - a[c]) + 1,
{
    let n = b[c] - a[c];
    let (x, y, z) = (a[c] as int, b[c] as int, further[c] as int);
    assert((x - z) * (x - z) == (x - y) * (x - y) + 2 * n + 1) by (nonlinear_arith)
        requires
            n == y - x,
            z == y + 1,
    ;
}

/// The largest distance is reached between the two extremes.
pub proof fn largest_distance_is_reached(a: [u8; 4], b: [u8; 4])
    requires
        forall|i: int| 0 <= i < 4 ==> a[i] == 0 && b[i] == 255,
    ensures
        distance(a, b) == MAX_DISTANCE,
{
    assert(a[0] == 0 && a[1] == 0 && a[2] == 0 && a[3] == 0);
    assert(b[0] == 255 && b[1] == 255 && b[2] == 255 && b[3] == 255);
    assert((0int - 255) * (0int - 255) == 65_025) by (nonlinear_arith);
}

/// A colour is at distance zero from a set of centroids if and only if it is one of them.
pub proof fn nearest_distance_is_zero_on_centroids(p: [u8; 4], centroids: Seq<[u8; 4]>, d: int)
    requires
        is_nearest_distance(p, centroids, d),
    ensures
        0 <= d <= MAX_DISTANCE,
        d == 0 <==> centroids.contains(p),
{
    let j = choose|j: int| 0 <= j < centroids.len() && d == distance(p, #[trigger] centroids[j]);
    distance_is_bounded(p, centroids[j]);
    distance_separates_colors(p, centroids[j]);
    if centroids.contains(p) {
        let i = choose|i: int| 0 <= i < centroids.len() && centroids[i] == p;
        distance_separates_colors(p, centroids[i]);
    }
}

/// `nearest` is the distance to the closest centroid.
proof fn lemma_nearest(p: [u8; 4], centroids: Seq<[u8; 4]>)
    requires
        centroids.len() > 0,
    ensures
        is_nearest_distance(p, centroids, nearest(p, centroids)),
    decreases centroids.len(),
{
    let n = centroids.len() - 1;
    if n == 0 {
        assert(nearest(p, centroids) == distance(p, centroids[0]));
    } else {
        let before = centroids.drop_last();
        lemma_nearest(p, before);
        let i = choose|i: int|
            0 <= i < before.len() && nearest(p, before) == distance(p, #[trigger] before[i]);
        assert(centroids[i] == before[i]);
        assert(centroids[n] == centroids.last());
        assert forall|j: int| 0 <= j < centroids.len() implies nearest(p, centroids) <= distance(
            p,
            #[trigger] centroids[j],
        ) by {
            if j < n {
                assert(before[j] == centroids[j]);
            }
        }
    }
}

/// The distance to the closest of some centroids is the least of the distances to each.
pub proof fn nearest_is_the_least(p: [u8; 4], centroids: Seq<[u8; 4]>)
    requires
        centroids.len() > 0,
    ensures
        exists|j: int|
            0 <= j < centroids.len() && nearest(p, centroids) == distance(
                p,
                #[trigger] centroids[j],
            ),
        forall|j: int|
            0 <= j < centroids.len() ==> nearest(p, centroids) <= distance(
                p,
                #[trigger] centroids[j],
            ),
{
    lemma_nearest(p, centroids);
}

/// One more centroid lowers the weight of exactly the pixels that it is closer to than all
/// before, to their distance to it.
pub proof fn one_more_centroid_lowers_weights(
    pixels: Seq<[u8; 4]>,
    centroids: Seq<[u8; 4]>,
    next: [u8; 4],
    i: int,
)
    requires
        centroids.len() > 0,
        0 <= i < pixels.len(),
    ensures
        weights_of(pixels, centroids).len() == pixels.len(),
        weights_of(pixels, seq![next])[i] == distance(pixels[i], next),
        weights_of(pixels, centroids.push(next))[i] == if distance(pixels[i], next) < weights_of(
            pixels,
            centroids,
        )[i] {
            distance(pixels[i], next)
        } else {
            weights_of(pixels, centroids)[i] as int
        },
{
    assert(centroids.push(next).drop_last() =~= centroids);
    distance_is_bounded(pixels[i], next);
    lemma_nearest(pixels[i], centroids);
    nearest_distance_is_zero_on_centroids(pixels[i], centroids, nearest(pixels[i], centroids));
}

/// Pixels have one list of distances to the closest of some centroids, `weights_of`.
pub proof fn weights_are_unique(
    pixels: Seq<[u8; 4]>,
    centroids: Seq<[u8; 4]>,
    weights: Seq<u64>,
)
    requires
        centroids.len() > 0,
    ensures
        are_weights(pixels, centroids, weights) <==> weights == weights_of(pixels, centroids),
{
    assert forall|i: int| 0 <= i < pixels.len() implies is_nearest_distance(
        pixels[i],
        centroids,
        (#[trigger] weights_of(pixels, centroids)[i]) as int,
    ) by {
        lemma_nearest(pixels[i], centroids);
        nearest_distance_is_zero_on_centroids(
            pixels[i],
            centroids,
            nearest(pixels[i], centroids),
        );
    }
    if are_weights(pixels, centroids, weights) {
        assert forall|i: int| 0 <= i < pixels.len() implies weights[i] == weights_of(
            pixels,
            centroids,
        )[i] by {
            assert(is_nearest_distance(pixels[i], centroids, weights[i] as int));
            assert(is_nearest_distance(
                pixels[i],
                centroids,
                weights_of(pixels, centroids)[i] as int,
            ));
        }
        assert(weights =~= weights_of(pixels, centroids));
    }
}

/// Whether two colours agree in every channel.
pub fn same_color(a: [u8; 4], b: [u8; 4]) -> (same: bool)
    ensures
        same == (a == b),
{
    let same = a[0] == b[0] && a[1] == b[1] && a[2] == b[2] && a[3] == b[3];
    proof {
        if same {
            assert(a =~= b);
        }
    }
    same
}

/// Square of the difference of two channels.
fn channel_distance_squared(a: u8, b: u8) -> (d: u64)
    ensures
        d == channel_distance(a, b),
        d == (a - b) * (a - b),
        d <= 65_025,
{
    let diff: u64 = if a > b { (a - b) as u64 } else { (b - a) as u64 };
    proof {
        lemma_channel_distance(a, b);
        assert(diff * diff == (a - b) * (a - b)) by (nonlinear_arith)
            requires
                diff == a - b || diff == b - a,
        ;
    }
    diff * diff
}

/// Squared Euclidean distance between two colours.
pub fn dist_euclid_squared(a: [u8; 4], b: [u8; 4]) -> (d: u64)
    ensures
        d == distance(a, b),
        d == (a[0] - b[0]) * (a[0] - b[0]) + (a[1] - b[1]) * (a[1] - b[1]) + (a[2] - b[2]) * (a[2]
            - b[2]) + (a[3] - b[3]) * (a[3] - b[3]),
{
    channel_distance_squared(a[0], b[0]) + channel_distance_squared(a[1], b[1])
        + channel_distance_squared(a[2], b[2]) + channel_distance_squared(a[3], b[3])
}

/// Distance from `p` to the closest of `centroids`.
pub fn nearest_distance(p: [u8; 4], centroids: &[[u8; 4]]) -> (d: u64)
    requires
        centroids@.len() > 0,
    ensures
        is_nearest_distance(p, centroids@, d as int),
        exists|j: int|
            0 <= j < centroids@.len() && d == distance(p, #[trigger] centroids@[j]),
        forall|j: int| 0 <= j < centroids@.len() ==> d <= distance(p, #[trigger] centroids@[j]),
{
    let mut least: u64 = dist_euclid_squared(p, centroids[0]);
    let mut i: usize = 1;
    assert(centroids@.take(1)[0] == centroids@[0]);
    while i < centroids.len()
        invariant
            1 <= i <= centroids@.len(),
            is_nearest_distance(p, centroids@.take(i as int), least as int),
        decreases centroids@.len() - i,
    {
        let d: u64 = dist_euclid_squared(p, centroids[i]);
        proof {
            let before = centroids@.take(i as int);
            let after = centroids@.take(i + 1);
            assert(after =~= before.push(centroids@[i as int]));
            let j = choose|j: int|
                0 <= j < before.len() && least == distance(p, #[trigger] before[j]);
            assert(after[j] == before[j]);
            assert(after[i as int] == centroids@[i as int]);
            assert forall|n: int| 0 <= n < i implies least <= distance(p, #[trigger] after[n]) by {
                assert(after[n] == before[n]);
            }
        }
        if d < least {
            least = d;
        }
        i += 1;
    }
    assert(centroids@.take(i as int) =~= centroids@);
    least
}

} // verus!

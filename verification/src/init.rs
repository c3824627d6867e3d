//! Initialization methods for k-means (Forgy, K-means++).

use rand::rngs::ThreadRng;
use vstd::prelude::*;
use vstd::seq_lib::seq_to_set_is_finite;
use vstd::set_lib::lemma_len_subset;

use crate::color::{
    are_weights, nearest_distance_is_zero_on_centroids, same_color, weights_are_unique,
    weights_of, MAX_DISTANCE,
};
use crate::pixels::{
    image_size, index_in_bounds, pixels_fill_the_size, position_in_bounds, Image,
};
use crate::random::{
    draw_in_range, draw_uniform, drew_in_range, drew_uniform, is_thread_rng, next_in_range,
    thread_rng,
};
use crate::weighted::{
    is_below_total, numbers_of_an_index, selected, selected_index_holds_the_number,
    selected_number_is_below_total, selected_weight_is_positive, selection_exists,
    selection_is_unique, selects, total, total_is_bounded, total_is_positive, weight_has_a_number,
    WeightedDistr,
};

verus! {

/// With this many pixels, the distances of all of them still add up to less than two to the
/// power of 64.
pub const MAX_PIXELS: u64 = 70_921_738_076_545;

/// How the first centroids are chosen.
#[derive(Copy, Clone, PartialEq, Eq, Structural)]
pub enum InitializationMethod {
    /// Pixels at random, each independent of the others.
    Forgy,
    /// Pixels at random, each drawn with a probability proportional to its squared distance to
    /// the closest of those before it, on images of up to two to the power of 32 pixels. On a
    /// larger one only the low 32 bits of the index that is drawn count.
    Kmeanspp,
}

/// Whether an image has a pixel to draw.
pub open spec fn has_pixels(image: Image) -> bool {
    image.spec_width() > 0 && image.spec_height() > 0
}

/// Number of different colours in an image.
pub open spec fn distinct_colors(image: Image) -> nat {
    image@.to_set().len()
}

/// The pixel at the given column and row.
pub open spec fn pixel_at(image: Image, position: (u32, u32)) -> [u8; 4] {
    image@[position.1 * image.spec_width() + position.0]
}

/// The pixels at the given columns and rows.
pub open spec fn pixels_at(image: Image, positions: Seq<(u32, u32)>) -> Seq<[u8; 4]> {
    Seq::new(positions.len(), |i: int| pixel_at(image, positions[i]))
}

/// Whether a position lies inside the image.
pub open spec fn position_inside(image: Image, position: (u32, u32)) -> bool {
    position.0 < image.spec_width() && position.1 < image.spec_height()
}

/// Whether every position lies inside the image.
pub open spec fn positions_inside(image: Image, positions: Seq<(u32, u32)>) -> bool {
    forall|i: int|
        0 <= i < positions.len() ==> position_inside(image, #[trigger] positions[i])
}

/// Whether `centroids` can come out of Forgy's method for some draw.
pub open spec fn is_forgy_outcome(image: Image, k: u32, centroids: Seq<[u8; 4]>) -> bool {
    exists|positions: Seq<(u32, u32)>|
        positions.len() == k && positions_inside(image, positions) && centroids
            == #[trigger] pixels_at(image, positions)
}

/// The pixel that the index `index` of a weight stands for. Only the low 32 bits of the index
/// count.
pub open spec fn pixel_for_index(pixels: Seq<[u8; 4]>, index: int) -> [u8; 4] {
    pixels[index % 0x1_0000_0000]
}

/// Whether `next` can be drawn after `chosen`: with the distances to `chosen` as weights, some
/// number falls to an index that stands for `next`.
pub open spec fn can_follow(
    pixels: Seq<[u8; 4]>,
    chosen: Seq<[u8; 4]>,
    next: [u8; 4],
) -> bool {
    exists|weights: Seq<u64>, drawn: u64, index: int|
        are_weights(pixels, chosen, weights) && #[trigger] selects(weights, drawn, index) && next
            == pixel_for_index(pixels, index)
}

/// The colour that the number `drawn` gives after `chosen`.
pub open spec fn drawn_color(
    pixels: Seq<[u8; 4]>,
    chosen: Seq<[u8; 4]>,
    drawn: u64,
) -> [u8; 4] {
    pixel_for_index(pixels, selected(weights_of(pixels, chosen), drawn))
}

/// The centroids of K-means++ with `first` as the first of them and one number drawn for each
/// further one.
pub open spec fn seeded(pixels: Seq<[u8; 4]>, first: [u8; 4], draws: Seq<u64>) -> Seq<[u8; 4]>
    decreases draws.len(),
{
    if draws.len() == 0 {
        seq![first]
    } else {
        let before = seeded(pixels, first, draws.drop_last());
        before.push(drawn_color(pixels, before, draws.last()))
    }
}

/// Whether each number can be drawn when its turn comes: it is below the sum of the weights.
pub open spec fn draws_fit(pixels: Seq<[u8; 4]>, first: [u8; 4], draws: Seq<u64>) -> bool {
    forall|j: int|
        0 <= j < draws.len() ==> (#[trigger] draws[j]) < total(
            weights_of(pixels, seeded(pixels, first, draws.take(j))),
        )
}

/// Whether `centroids` come out of K-means++ if the first pixel drawn is at `first` and the
/// numbers drawn after it are `draws`.
pub open spec fn is_kmeans_pp_run(
    image: Image,
    first: (u32, u32),
    draws: Seq<u64>,
    centroids: Seq<[u8; 4]>,
) -> bool {
    &&& position_inside(image, first)
    &&& draws_fit(image@, pixel_at(image, first), draws)
    &&& centroids == seeded(image@, pixel_at(image, first), draws)
}

/// Whether `centroids` can come out of K-means++ for some draw.
pub open spec fn is_kmeans_pp_outcome(image: Image, k: u32, centroids: Seq<[u8; 4]>) -> bool {
    &&& centroids.len() == if k == 0 { 1 } else { k as nat }
    &&& exists|first: (u32, u32), draws: Seq<u64>|
        #[trigger] is_kmeans_pp_run(image, first, draws, centroids)
}

/// Whether the generator, on its way from `before` to `after`, gave the position: first a column
/// below the width, then a row below the height.
pub open spec fn drew_position(
    image: Image,
    before: ThreadRng,
    after: ThreadRng,
    position: (u32, u32),
) -> bool {
    exists|between: ThreadRng|
        #[trigger] drew_in_range(before, between, image.spec_width(), position.0)
            && drew_in_range(between, after, image.spec_height(), position.1)
}

/// Whether the generator, going through `states`, gave the positions one by one.
pub open spec fn drew_positions(
    image: Image,
    states: Seq<ThreadRng>,
    positions: Seq<(u32, u32)>,
) -> bool {
    &&& states.len() == positions.len() + 1
    &&& forall|i: int|
        0 <= i < positions.len() ==> drew_position(
            image,
            states[i],
            states[i + 1],
            #[trigger] positions[i],
        )
}

/// Whether the generator, going through `states`, gave the numbers one by one, each below the
/// sum of the weights when its turn came.
pub open spec fn drew_numbers(
    pixels: Seq<[u8; 4]>,
    first: [u8; 4],
    states: Seq<ThreadRng>,
    draws: Seq<u64>,
) -> bool {
    &&& states.len() == draws.len() + 1
    &&& forall|j: int|
        0 <= j < draws.len() ==> drew_uniform(
            states[j],
            states[j + 1],
            total(weights_of(pixels, seeded(pixels, first, draws.take(j)))) as u64,
            #[trigger] draws[j],
        )
}

/// Whether Forgy's method gave `centroids` with what the generator drew on its way from
/// `before` to `after`.
pub open spec fn forgy_drew(
    image: Image,
    k: u32,
    before: ThreadRng,
    after: ThreadRng,
    centroids: Seq<[u8; 4]>,
) -> bool {
    exists|states: Seq<ThreadRng>, positions: Seq<(u32, u32)>|
        #[trigger] drew_positions(image, states, positions) && positions.len() == k && states[0]
            == before && states.last() == after && centroids == pixels_at(image, positions)
}

/// Whether K-means++ gave `centroids` with what the generator drew on its way from `before` to
/// `after`.
pub open spec fn kmeans_pp_drew(
    image: Image,
    k: u32,
    before: ThreadRng,
    after: ThreadRng,
    centroids: Seq<[u8; 4]>,
) -> bool {
    exists|first: (u32, u32), states: Seq<ThreadRng>, draws: Seq<u64>|
        #[trigger] is_kmeans_pp_run(image, first, draws, centroids) && #[trigger] drew_numbers(
            image@,
            pixel_at(image, first),
            states,
            draws,
        ) && drew_position(image, before, states[0], first) && states.last() == after
            && draws.len() + 1 == if k == 0 { 1 } else { k as int }
}

/// Whether K-means++ has a pixel to draw for each of `k` centroids: there are at least `k`
/// colours. (The sum of the weights has to fit its type, too.)
pub open spec fn kmeans_pp_applies(image: Image, k: u32) -> bool {
    &&& has_pixels(image)
    &&& k > 1 ==> image@.len() <= MAX_PIXELS && distinct_colors(image) >= k
}

/// Fewer centroids than colours leave a pixel with a colour that none of them has.
proof fn lemma_unchosen_pixel(pixels: Seq<[u8; 4]>, chosen: Seq<[u8; 4]>) -> (index: int)
    requires
        chosen.len() < pixels.to_set().len(),
    ensures
        0 <= index < pixels.len(),
        !chosen.contains(pixels[index]),
{
    seq_to_set_is_finite(chosen);
    chosen.lemma_cardinality_of_set();
    if pixels.to_set().subset_of(chosen.to_set()) {
        lemma_len_subset(pixels.to_set(), chosen.to_set());
    }
    let color = choose|color: [u8; 4]|
        pixels.to_set().contains(color) && !chosen.to_set().contains(color);
    assert(pixels.contains(color));
    pixels.index_of(color)
}

/// A list of different colours of an image is at most as long as their number.
proof fn lemma_distinct_list_is_short(list: Seq<[u8; 4]>, pixels: Seq<[u8; 4]>)
    requires
        list.no_duplicates(),
        list.to_set().subset_of(pixels.to_set()),
    ensures
        list.len() <= pixels.to_set().len(),
{
    seq_to_set_is_finite(pixels);
    list.unique_seq_to_set();
    lemma_len_subset(list.to_set(), pixels.to_set());
}

/// A colour that can be drawn stands at an index whose pixel has a colour unlike those chosen
/// before.
pub proof fn followers_are_new(
    pixels: Seq<[u8; 4]>,
    chosen: Seq<[u8; 4]>,
    next: [u8; 4],
) -> (index: int)
    requires
        can_follow(pixels, chosen, next),
    ensures
        0 <= index < pixels.len(),
        !chosen.contains(pixels[index]),
        next == pixel_for_index(pixels, index),
{
    let (weights, drawn, index) = choose|weights: Seq<u64>, drawn: u64, index: int|
        are_weights(pixels, chosen, weights) && #[trigger] selects(weights, drawn, index) && next
            == pixel_for_index(pixels, index);
    selected_weight_is_positive(weights, drawn, index);
    nearest_distance_is_zero_on_centroids(pixels[index], chosen, weights[index] as int);
    index
}

/// On an image of at most two to the power of 32 pixels, every colour unlike those chosen
/// before can be drawn next, wherever it stands.
pub proof fn unchosen_colors_can_follow(
    pixels: Seq<[u8; 4]>,
    chosen: Seq<[u8; 4]>,
    index: int,
)
    requires
        0 <= index < pixels.len() <= 0x1_0000_0000,
        chosen.len() > 0,
        !chosen.contains(pixels[index]),
    ensures
        can_follow(pixels, chosen, pixels[index]),
{
    let weights = weights_of(pixels, chosen);
    weights_are_unique(pixels, chosen, weights);
    lemma_weights_add_up(pixels, chosen, weights);
    nearest_distance_is_zero_on_centroids(pixels[index], chosen, weights[index] as int);
    let drawn = weight_has_a_number(weights, index);
    assert(selects(weights, drawn, index));
    assert(pixel_for_index(pixels, index) == pixels[index]);
}

/// The first centroids of a run are those of its first draws.
pub proof fn more_draws_only_append(
    pixels: Seq<[u8; 4]>,
    first: [u8; 4],
    draws: Seq<u64>,
    n: int,
)
    requires
        0 <= n <= draws.len(),
    ensures
        seeded(pixels, first, draws).len() == draws.len() + 1,
        seeded(pixels, first, draws.take(n)) == seeded(pixels, first, draws).take(n + 1),
    decreases draws.len(),
{
    let all = seeded(pixels, first, draws);
    if draws.len() == 0 {
        assert(draws.take(n) =~= draws);
        assert(all.take(n + 1) =~= all);
    } else {
        let rest = draws.drop_last();
        more_draws_only_append(pixels, first, rest, 0);
        if n == draws.len() {
            assert(draws.take(n) =~= draws);
            assert(all.take(n + 1) =~= all);
        } else {
            more_draws_only_append(pixels, first, rest, n);
            assert(draws.take(n) =~= rest.take(n));
            assert(all.take(n + 1) =~= seeded(pixels, first, rest).take(n + 1));
        }
    }
}

/// Asking K-means++ for one more centroid, with the same draws, only appends: the run for `k`
/// centroids is the run for `k + 1` without its last.
pub proof fn one_more_centroid_only_appends(
    image: Image,
    first: (u32, u32),
    draws: Seq<u64>,
    shorter: Seq<[u8; 4]>,
    longer: Seq<[u8; 4]>,
)
    requires
        draws.len() > 0,
        is_kmeans_pp_run(image, first, draws.drop_last(), shorter),
        is_kmeans_pp_run(image, first, draws, longer),
    ensures
        longer.len() == shorter.len() + 1,
        shorter == longer.drop_last(),
{
    let n = draws.len() - 1;
    more_draws_only_append(image@, pixel_at(image, first), draws, n);
    more_draws_only_append(image@, pixel_at(image, first), draws.drop_last(), 0);
    assert(draws.take(n) =~= draws.drop_last());
    assert(longer.take(n + 1) =~= longer.drop_last());
}

/// A run that can be drawn can also stop earlier.
pub proof fn draws_fit_up_to_any_point(
    pixels: Seq<[u8; 4]>,
    first: [u8; 4],
    draws: Seq<u64>,
    n: int,
)
    requires
        draws_fit(pixels, first, draws),
        0 <= n <= draws.len(),
    ensures
        draws_fit(pixels, first, draws.take(n)),
{
    let fewer = draws.take(n);
    assert forall|j: int| 0 <= j < fewer.len() implies (#[trigger] fewer[j]) < total(
        weights_of(pixels, seeded(pixels, first, fewer.take(j))),
    ) by {
        assert(fewer[j] == draws[j]);
        assert(fewer.take(j) =~= draws.take(j));
    }
}

/// A number below the sum of the weights gives a colour that can follow.
proof fn lemma_drawn_color_follows(pixels: Seq<[u8; 4]>, chosen: Seq<[u8; 4]>, drawn: u64)
    requires
        chosen.len() > 0,
        drawn < total(weights_of(pixels, chosen)),
    ensures
        can_follow(pixels, chosen, drawn_color(pixels, chosen, drawn)),
{
    let weights = weights_of(pixels, chosen);
    weights_are_unique(pixels, chosen, weights);
    let index = selection_exists(weights, drawn);
    assert(selects(weights, drawn, selected(weights, drawn)));
}

/// Each further centroid of a run can follow those before it.
proof fn lemma_run_follows(pixels: Seq<[u8; 4]>, first: [u8; 4], draws: Seq<u64>, j: int)
    requires
        draws_fit(pixels, first, draws),
        1 <= j <= draws.len(),
    ensures
        can_follow(
            pixels,
            seeded(pixels, first, draws).take(j),
            seeded(pixels, first, draws)[j],
        ),
{
    let all = seeded(pixels, first, draws);
    more_draws_only_append(pixels, first, draws, j - 1);
    more_draws_only_append(pixels, first, draws, j);
    let upto = draws.take(j);
    assert(upto.drop_last() =~= draws.take(j - 1));
    assert(upto.last() == draws[j - 1]);
    let before = seeded(pixels, first, draws.take(j - 1));
    assert(seeded(pixels, first, upto)[j] == drawn_color(pixels, before, draws[j - 1]));
    assert(all.take(j + 1)[j] == all[j]);
    lemma_drawn_color_follows(pixels, before, draws[j - 1]);
}

/// The number of each step of a run falls to the pixel that the step gave.
proof fn lemma_run_selects(
    pixels: Seq<[u8; 4]>,
    first: [u8; 4],
    draws: Seq<u64>,
    j: int,
) -> (index: int)
    requires
        draws_fit(pixels, first, draws),
        1 <= j <= draws.len(),
    ensures
        selects(weights_of(pixels, seeded(pixels, first, draws).take(j)), draws[j - 1], index),
        seeded(pixels, first, draws)[j] == pixels[index % 0x1_0000_0000],
        seeded(pixels, first, draws.take(j - 1)) == seeded(pixels, first, draws).take(j),
{
    let all = seeded(pixels, first, draws);
    more_draws_only_append(pixels, first, draws, j - 1);
    more_draws_only_append(pixels, first, draws, j);
    let upto = draws.take(j);
    assert(upto.drop_last() =~= draws.take(j - 1));
    let drawn = draws[j - 1];
    let weights = weights_of(pixels, all.take(j));
    assert(drawn < total(weights));
    let index = selection_exists(weights, drawn);
    selection_is_unique(weights, drawn, index, selected(weights, drawn));
    more_draws_only_append(pixels, first, draws.take(j - 1), 0);
    assert(seeded(pixels, first, upto)[j] == drawn_color(pixels, all.take(j), drawn));
    assert(all.take(j + 1)[j] == all[j]);
    index
}

/// One more number that can be drawn makes a longer run that can be drawn.
proof fn lemma_draws_fit_push(
    pixels: Seq<[u8; 4]>,
    first: [u8; 4],
    draws: Seq<u64>,
    drawn: u64,
)
    requires
        draws_fit(pixels, first, draws),
        drawn < total(weights_of(pixels, seeded(pixels, first, draws))),
    ensures
        draws_fit(pixels, first, draws.push(drawn)),
        seeded(pixels, first, draws.push(drawn)) == seeded(pixels, first, draws).push(
            drawn_color(pixels, seeded(pixels, first, draws), drawn),
        ),
{
    let longer = draws.push(drawn);
    assert(longer.drop_last() =~= draws);
    assert forall|j: int| 0 <= j < longer.len() implies (#[trigger] longer[j]) < total(
        weights_of(pixels, seeded(pixels, first, longer.take(j))),
    ) by {
        if j < draws.len() {
            assert(longer[j] == draws[j]);
            assert(longer.take(j) =~= draws.take(j));
        } else {
            assert(longer.take(j) =~= draws);
        }
    }
}

/// Draws that give the colours `order`, each of them a pixel unlike those before it.
proof fn lemma_draws_for(pixels: Seq<[u8; 4]>, order: Seq<[u8; 4]>) -> (draws: Seq<u64>)
    requires
        order.len() > 0,
        order.no_duplicates(),
        pixels.len() <= 0x1_0000_0000,
        forall|i: int| 0 <= i < order.len() ==> pixels.contains(#[trigger] order[i]),
    ensures
        draws_fit(pixels, order[0], draws),
        seeded(pixels, order[0], draws) == order,
    decreases order.len(),
{
    if order.len() == 1 {
        let draws = Seq::<u64>::empty();
        assert(seeded(pixels, order[0], draws) =~= order);
        draws
    } else {
        let before = order.drop_last();
        let next = order.last();
        assert forall|i: int| 0 <= i < before.len() implies pixels.contains(
            #[trigger] before[i],
        ) by {
            assert(before[i] == order[i]);
        }
        let draws = lemma_draws_for(pixels, before);
        assert(pixels.contains(order[order.len() - 1]));
        unchosen_colors_can_follow(pixels, before, pixels.index_of(next));
        let (weights, drawn, index) = choose|weights: Seq<u64>, drawn: u64, index: int|
            are_weights(pixels, before, weights) && #[trigger] selects(weights, drawn, index)
                && next == pixel_for_index(pixels, index);
        weights_are_unique(pixels, before, weights);
        selected_number_is_below_total(weights, drawn, index);
        selection_is_unique(weights, drawn, index, selected(weights, drawn));
        lemma_draws_fit_push(pixels, order[0], draws, drawn);
        assert(before.push(next) =~= order);
        draws.push(drawn)
    }
}

/// A pixel of an image has a position inside it.
proof fn lemma_position_of(image: Image, color: [u8; 4]) -> (position: (u32, u32))
    requires
        image@.contains(color),
    ensures
        position_inside(image, position),
        pixel_at(image, position) == color,
{
    let width = image.spec_width() as int;
    let height = image.spec_height() as int;
    let index = image@.index_of(color);
    pixels_fill_the_size(image);
    assert(width > 0) by (nonlinear_arith)
        requires
            0 <= index < width * height,
            0 <= width,
    ;
    index_in_bounds(index, width, height);
    ((index % width) as u32, (index / width) as u32)
}

/// A position inside an image has a pixel of it.
proof fn lemma_pixel_at(image: Image, position: (u32, u32))
    requires
        position_inside(image, position),
    ensures
        image@.contains(pixel_at(image, position)),
{
    pixels_fill_the_size(image);
    position_in_bounds(
        position.0 as int,
        position.1 as int,
        image.spec_width() as int,
        image.spec_height() as int,
    );
    assert(image@[position.1 * image.spec_width() + position.0] == pixel_at(image, position));
}

/// Every centroid that Forgy's method gives is a pixel of the image.
pub proof fn forgy_centroids_are_pixels(image: Image, k: u32, centroids: Seq<[u8; 4]>, i: int)
    requires
        is_forgy_outcome(image, k, centroids),
        0 <= i < centroids.len(),
    ensures
        image@.contains(centroids[i]),
{
    let positions = choose|positions: Seq<(u32, u32)>|
        positions.len() == k && positions_inside(image, positions) && centroids
            == #[trigger] pixels_at(image, positions);
    assert(position_inside(image, positions[i]));
    lemma_pixel_at(image, positions[i]);
}

/// Every list of `k` pixels can come out of Forgy's method.
pub proof fn every_list_of_pixels_can_come_out_of_forgy(
    image: Image,
    k: u32,
    centroids: Seq<[u8; 4]>,
)
    requires
        centroids.len() == k,
        forall|i: int| 0 <= i < centroids.len() ==> image@.contains(#[trigger] centroids[i]),
    ensures
        is_forgy_outcome(image, k, centroids),
{
    let positions = Seq::new(
        centroids.len(),
        |i: int|
            choose|p: (u32, u32)|
                position_inside(image, p) && #[trigger] pixel_at(image, p) == centroids[i],
    );
    assert forall|i: int| 0 <= i < positions.len() implies position_inside(
        image,
        #[trigger] positions[i],
    ) && pixel_at(image, positions[i]) == centroids[i] by {
        assert(image@.contains(centroids[i]));
        let p = lemma_position_of(image, centroids[i]);
        assert(position_inside(image, p) && pixel_at(image, p) == centroids[i]);
    }
    assert(centroids =~= pixels_at(image, positions));
}

/// Every list of different colours of an image of at most two to the power of 32 pixels can
/// come out of K-means++, in any order.
pub proof fn every_order_of_colors_can_come_out_of_kmeans_pp(
    image: Image,
    k: u32,
    centroids: Seq<[u8; 4]>,
)
    requires
        image@.len() <= 0x1_0000_0000,
        centroids.len() == if k == 0 { 1 } else { k as nat },
        centroids.no_duplicates(),
        forall|i: int| 0 <= i < centroids.len() ==> image@.contains(#[trigger] centroids[i]),
    ensures
        is_kmeans_pp_outcome(image, k, centroids),
{
    let draws = lemma_draws_for(image@, centroids);
    let first = lemma_position_of(image, centroids[0]);
    assert(is_kmeans_pp_run(image, first, draws, centroids));
}

/// The first centroid of an outcome of K-means++ is a pixel of the image, and each further one
/// can follow those before it.
pub proof fn kmeans_pp_centroids_follow(
    image: Image,
    k: u32,
    centroids: Seq<[u8; 4]>,
    j: int,
)
    requires
        is_kmeans_pp_outcome(image, k, centroids),
        0 <= j < centroids.len(),
    ensures
        j == 0 ==> image@.contains(centroids[j]),
        j > 0 ==> can_follow(image@, centroids.take(j), centroids[j]),
{
    let (first, draws) = choose|first: (u32, u32), draws: Seq<u64>|
        #[trigger] is_kmeans_pp_run(image, first, draws, centroids);
    let color = pixel_at(image, first);
    more_draws_only_append(image@, color, draws, 0);
    if j == 0 {
        lemma_pixel_at(image, first);
        assert(draws.take(0) =~= Seq::<u64>::empty());
        assert(centroids.take(1)[0] == centroids[0]);
    } else {
        lemma_run_follows(image@, color, draws, j);
    }
}

/// Every centroid that K-means++ gives is a pixel of the image.
pub proof fn kmeans_pp_centroids_are_pixels(
    image: Image,
    k: u32,
    centroids: Seq<[u8; 4]>,
    i: int,
)
    requires
        is_kmeans_pp_outcome(image, k, centroids),
        0 <= i < centroids.len(),
    ensures
        image@.contains(centroids[i]),
{
    kmeans_pp_centroids_follow(image, k, centroids, i);
    if i > 0 {
        let index = followers_are_new(image@, centroids.take(i), centroids[i]);
        assert(0 <= index % 0x1_0000_0000 <= index);
        assert(image@[index % 0x1_0000_0000] == centroids[i]);
    }
}

/// On an image of at most two to the power of 32 pixels, K-means++ never gives a colour twice.
pub proof fn kmeans_pp_centroids_are_distinct(image: Image, k: u32, centroids: Seq<[u8; 4]>)
    requires
        is_kmeans_pp_outcome(image, k, centroids),
        image@.len() <= 0x1_0000_0000,
    ensures
        centroids.no_duplicates(),
{
    assert forall|i: int, j: int| 0 <= i < j < centroids.len() implies centroids[i]
        != centroids[j] by {
        kmeans_pp_centroids_follow(image, k, centroids, j);
        let index = followers_are_new(image@, centroids.take(j), centroids[j]);
        assert(index % 0x1_0000_0000 == index);
        assert(centroids.take(j)[i] == centroids[i]);
    }
}

/// No outcome of K-means++ exists on an image of at most two to the power of 32 pixels that has
/// fewer colours than centroids are asked for.
pub proof fn kmeans_pp_needs_colors(image: Image, k: u32, centroids: Seq<[u8; 4]>)
    requires
        is_kmeans_pp_outcome(image, k, centroids),
        image@.len() <= 0x1_0000_0000,
    ensures
        distinct_colors(image) >= k,
{
    kmeans_pp_centroids_are_distinct(image, k, centroids);
    let (ours, all) = (centroids.to_set(), image@.to_set());
    assert forall|color: [u8; 4]| ours.contains(color) implies all.contains(color) by {
        let i = centroids.index_of(color);
        kmeans_pp_centroids_are_pixels(image, k, centroids, i);
    }
    lemma_distinct_list_is_short(centroids, image@);
}

/// Every centroid that Forgy's method drew is the pixel at a column and a row that the
/// generator handed out, one after the other, below the width and the height.
pub proof fn forgy_centroids_come_from_the_generator(
    image: Image,
    k: u32,
    before: ThreadRng,
    after: ThreadRng,
    centroids: Seq<[u8; 4]>,
    i: int,
)
    requires
        forgy_drew(image, k, before, after, centroids),
        0 <= i < centroids.len(),
    ensures
        centroids.len() == k,
        exists|a: ThreadRng, b: ThreadRng, c: ThreadRng, x: u32, y: u32|
            #[trigger] call_ensures(draw_in_range, (a, image_size(image).0), (b, x))
                && #[trigger] call_ensures(draw_in_range, (b, image_size(image).1), (c, y))
                && centroids[i] == image@[y * image_size(image).0 + x],
{
    let (states, positions) = choose|states: Seq<ThreadRng>, positions: Seq<(u32, u32)>|
        #[trigger] drew_positions(image, states, positions) && positions.len() == k && states[0]
            == before && states.last() == after && centroids == pixels_at(image, positions);
    let (x, y) = positions[i];
    assert(drew_position(image, states[i], states[i + 1], positions[i]));
    let between = choose|between: ThreadRng|
        #[trigger] drew_in_range(states[i], between, image.spec_width(), x) && drew_in_range(
            between,
            states[i + 1],
            image.spec_height(),
            y,
        );
    assert(call_ensures(draw_in_range, (states[i], image_size(image).0), (between, x)));
    assert(call_ensures(draw_in_range, (between, image_size(image).1), (states[i + 1], y)));
}

/// The first centroid that K-means++ drew is the pixel at a column and a row that the generator
/// handed out, one after the other, below the width and the height.
pub proof fn first_centroid_comes_from_the_generator(
    image: Image,
    k: u32,
    before: ThreadRng,
    after: ThreadRng,
    centroids: Seq<[u8; 4]>,
)
    requires
        kmeans_pp_drew(image, k, before, after, centroids),
    ensures
        centroids.len() == if k == 0 { 1 } else { k as int },
        exists|b: ThreadRng, c: ThreadRng, x: u32, y: u32|
            #[trigger] call_ensures(draw_in_range, (before, image_size(image).0), (b, x))
                && #[trigger] call_ensures(draw_in_range, (b, image_size(image).1), (c, y))
                && centroids[0] == image@[y * image_size(image).0 + x],
{
    let (first, states, draws) = choose|
        first: (u32, u32),
        states: Seq<ThreadRng>,
        draws: Seq<u64>,
    |
        #[trigger] is_kmeans_pp_run(image, first, draws, centroids) && #[trigger] drew_numbers(
            image@,
            pixel_at(image, first),
            states,
            draws,
        ) && drew_position(image, before, states[0], first) && states.last() == after
            && draws.len() + 1 == if k == 0 { 1 } else { k as int };
    let (x, y) = first;
    let between = choose|between: ThreadRng|
        #[trigger] drew_in_range(before, between, image.spec_width(), x) && drew_in_range(
            between,
            states[0],
            image.spec_height(),
            y,
        );
    assert(call_ensures(draw_in_range, (before, image_size(image).0), (between, x)));
    assert(call_ensures(draw_in_range, (between, image_size(image).1), (states[0], y)));
    runs_start_with_the_first(image@, pixel_at(image, first), draws);
    more_draws_only_append(image@, pixel_at(image, first), draws, 0);
}

/// Every further centroid that K-means++ drew is the pixel that a number falls to which the
/// generator handed out below the sum of the distances to the centroids before it.
pub proof fn further_centroids_come_from_the_generator(
    image: Image,
    k: u32,
    before: ThreadRng,
    after: ThreadRng,
    centroids: Seq<[u8; 4]>,
    j: int,
)
    requires
        kmeans_pp_drew(image, k, before, after, centroids),
        1 <= j < centroids.len(),
    ensures
        exists|a: ThreadRng, b: ThreadRng, drawn: u64, index: int|
            #[trigger] call_ensures(
                draw_uniform,
                (a, total(weights_of(image@, centroids.take(j))) as u64),
                (b, drawn),
            ) && #[trigger] selects(weights_of(image@, centroids.take(j)), drawn, index)
                && centroids[j] == image@[index % 0x1_0000_0000],
{
    let (first, states, draws) = choose|
        first: (u32, u32),
        states: Seq<ThreadRng>,
        draws: Seq<u64>,
    |
        #[trigger] is_kmeans_pp_run(image, first, draws, centroids) && #[trigger] drew_numbers(
            image@,
            pixel_at(image, first),
            states,
            draws,
        ) && drew_position(image, before, states[0], first) && states.last() == after
            && draws.len() + 1 == if k == 0 { 1 } else { k as int };
    let color = pixel_at(image, first);
    let chosen = centroids.take(j);
    let weights = weights_of(image@, chosen);
    more_draws_only_append(image@, color, draws, 0);
    let index = lemma_run_selects(image@, color, draws, j);
    let drawn = draws[j - 1];
    assert(draws[j - 1] == drawn);
    assert(selects(weights, drawn, index));
    assert(call_ensures(
        draw_uniform,
        (states[j - 1], total(weights) as u64),
        (states[j], drawn),
    ));
}

/// What K-means++ drew is one of its outcomes.
pub proof fn kmeans_pp_draws_are_outcomes(
    image: Image,
    k: u32,
    before: ThreadRng,
    after: ThreadRng,
    centroids: Seq<[u8; 4]>,
)
    requires
        kmeans_pp_drew(image, k, before, after, centroids),
    ensures
        is_kmeans_pp_outcome(image, k, centroids),
{
    let (first, states, draws) = choose|
        first: (u32, u32),
        states: Seq<ThreadRng>,
        draws: Seq<u64>,
    |
        #[trigger] is_kmeans_pp_run(image, first, draws, centroids) && #[trigger] drew_numbers(
            image@,
            pixel_at(image, first),
            states,
            draws,
        ) && drew_position(image, before, states[0], first) && states.last() == after
            && draws.len() + 1 == if k == 0 { 1 } else { k as int };
    more_draws_only_append(image@, pixel_at(image, first), draws, 0);
}

/// A run starts with the colour that it is given.
pub proof fn runs_start_with_the_first(
    pixels: Seq<[u8; 4]>,
    first: [u8; 4],
    draws: Seq<u64>,
)
    ensures
        seeded(pixels, first, draws).len() == draws.len() + 1,
        seeded(pixels, first, draws)[0] == first,
    decreases draws.len(),
{
    if draws.len() > 0 {
        runs_start_with_the_first(pixels, first, draws.drop_last());
    }
}

/// A run that is valid starts with the pixel at its first position, and the number of each
/// further centroid falls to it, with the distances to the centroids before it as weights.
pub proof fn runs_are_drawn_number_by_number(
    image: Image,
    first: (u32, u32),
    draws: Seq<u64>,
    centroids: Seq<[u8; 4]>,
    j: int,
) -> (index: int)
    requires
        is_kmeans_pp_run(image, first, draws, centroids),
        1 <= j < centroids.len(),
    ensures
        first.0 < image_size(image).0,
        first.1 < image_size(image).1,
        centroids.len() == draws.len() + 1,
        centroids[0] == image@[first.1 * image_size(image).0 + first.0],
        0 <= index < image@.len(),
        ({
            let weights = weights_of(image@, centroids.take(j));
            total(weights.take(index)) <= draws[j - 1] < total(weights.take(index))
                + weights[index]
        }),
        centroids[j] == image@[index % 0x1_0000_0000],
{
    let color = pixel_at(image, first);
    runs_start_with_the_first(image@, color, draws);
    let index = lemma_run_selects(image@, color, draws, j);
    numbers_of_an_index(weights_of(image@, centroids.take(j)), draws[j - 1], index);
    index
}

/// One more number makes a run longer by the pixel that it falls to, with the distances to the
/// centroids so far as weights.
pub proof fn each_number_adds_the_pixel_it_falls_to(
    pixels: Seq<[u8; 4]>,
    first: [u8; 4],
    draws: Seq<u64>,
    drawn: u64,
    index: int,
)
    requires
        0 <= index < pixels.len(),
        ({
            let weights = weights_of(pixels, seeded(pixels, first, draws));
            total(weights.take(index)) <= drawn < total(weights.take(index)) + weights[index]
        }),
    ensures
        seeded(pixels, first, draws.push(drawn)) == seeded(pixels, first, draws).push(
            pixels[index % 0x1_0000_0000],
        ),
{
    let longer = draws.push(drawn);
    assert(longer.drop_last() =~= draws);
    selected_index_holds_the_number(
        weights_of(pixels, seeded(pixels, first, draws)),
        drawn,
        index,
    );
}

/// Numbers can be drawn one after the other if and only if each is below the sum of the
/// distances to the centroids that those before it gave.
pub proof fn numbers_fit_one_by_one(
    pixels: Seq<[u8; 4]>,
    first: [u8; 4],
    draws: Seq<u64>,
    drawn: u64,
)
    ensures
        draws_fit(pixels, first, Seq::empty()),
        draws_fit(pixels, first, draws.push(drawn)) <==> (draws_fit(pixels, first, draws) && drawn
            < total(weights_of(pixels, seeded(pixels, first, draws)))),
{
    let longer = draws.push(drawn);
    if draws_fit(pixels, first, longer) {
        draws_fit_up_to_any_point(pixels, first, longer, draws.len() as int);
        assert(longer.take(draws.len() as int) =~= draws);
        assert(longer[draws.len() as int] == drawn);
    }
    if draws_fit(pixels, first, draws) && drawn < total(
        weights_of(pixels, seeded(pixels, first, draws)),
    ) {
        lemma_draws_fit_push(pixels, first, draws, drawn);
    }
}

/// A list of positions is inside an image if and only if each has a column below the width and
/// a row below the height, and what is found there is, row by row, the pixel with that number.
pub proof fn positions_stand_for_pixels(image: Image, positions: Seq<(u32, u32)>)
    ensures
        positions_inside(image, positions) <==> forall|i: int|
            0 <= i < positions.len() ==> (#[trigger] positions[i]).0 < image_size(image).0
                && positions[i].1 < image_size(image).1,
        pixels_at(image, positions).len() == positions.len(),
        forall|i: int|
            0 <= i < positions.len() ==> #[trigger] pixels_at(image, positions)[i]
                == image@[positions[i].1 * image_size(image).0 + positions[i].0],
{
}

/// K-means++ applies to an image that has pixels if and only if it is asked for at most one
/// centroid, or for at most as many as there are colours and the distances add up; what it can
/// give for some number of centroids it can give for one fewer.
pub proof fn kmeans_pp_applies_up_to_the_number_of_colors(image: Image, k: u32)
    ensures
        kmeans_pp_applies(image, k) <==> {
            &&& image_size(image).0 > 0
            &&& image_size(image).1 > 0
            &&& k <= 1 || (k <= image@.to_set().len() && image@.len() <= 70_921_738_076_545)
        },
        k > 0 && kmeans_pp_applies(image, k) ==> kmeans_pp_applies(image, (k - 1) as u32),
{
}

/// An index of at most 32 bits stands for the pixel at that place; two indices that differ by
/// a multiple of two to the power of 32 stand for the same.
pub proof fn indices_stand_for_pixels(pixels: Seq<[u8; 4]>, index: int)
    ensures
        0 <= index < 0x1_0000_0000 ==> pixel_for_index(pixels, index) == pixels[index],
        pixel_for_index(pixels, index + 0x1_0000_0000) == pixel_for_index(pixels, index),
{
}

/// Whether `color` is in `colors`.
fn contains_color(colors: &Vec<[u8; 4]>, color: [u8; 4]) -> (found: bool)
    ensures
        found == colors@.contains(color),
{
    let mut i: usize = 0;
    while i < colors.len()
        invariant
            i <= colors@.len(),
            forall|j: int| 0 <= j < i ==> colors@[j] != color,
        decreases colors@.len() - i,
    {
        if same_color(colors[i], color) {
            assert(colors@[i as int] == color);
            return true;
        }
        i += 1;
    }
    false
}

/// Whether `image` has at least `k` different colours.
pub fn has_distinct_colors(image: &Image, k: u32) -> (enough: bool)
    ensures
        enough == (distinct_colors(*image) >= k),
        enough == (image@.to_set().len() >= k),
{
    let (width, height) = image.dimensions();
    let mut seen: Vec<[u8; 4]> = Vec::new();
    let mut y: u32 = 0;
    assert(image@.take(0).to_set() =~= seen@.to_set());
    while y < height
        invariant
            y <= height,
            width == image.spec_width(),
            height == image.spec_height(),
            image@.len() == width * height,
            seen@.no_duplicates(),
            seen@.to_set() == image@.take(y * width).to_set(),
            y * width <= image@.len(),
        decreases height - y,
    {
        let mut x: u32 = 0;
        while x < width
            invariant
                x <= width,
                y < height,
                width == image.spec_width(),
                height == image.spec_height(),
                image@.len() == width * height,
                seen@.no_duplicates(),
                seen@.to_set() == image@.take(y * width + x).to_set(),
                0 <= y * width + x <= image@.len(),
            decreases width - x,
        {
            proof {
                position_in_bounds(x as int, y as int, width as int, height as int);
            }
            if seen.len() >= k as usize {
                proof {
                    let n = y * width + x;
                    assert forall|color: [u8; 4]| seen@.to_set().contains(
                        color,
                    ) implies image@.to_set().contains(color) by {
                        let i = image@.take(n).index_of(color);
                        assert(image@.take(n).contains(color));
                        assert(image@[i] == color);
                    }
                    lemma_distinct_list_is_short(seen@, image@);
                }
                return true;
            }
            let color: [u8; 4] = image.get_pixel(x, y);
            proof {
                let n = y * width + x;
                assert(image@.take(n + 1) =~= image@.take(n).push(color));
                image@.take(n).lemma_push_to_set_commute(color);
                seen@.lemma_push_to_set_commute(color);
            }
            if !contains_color(&seen, color) {
                seen.push(color);
            } else {
                assert(seen@.to_set().insert(color) =~= seen@.to_set());
            }
            x += 1;
        }
        assert(y * width + width == (y + 1) * width) by (nonlinear_arith);
        y += 1;
    }
    proof {
        assert(image@.take(image@.len() as int) =~= image@);
        seen@.unique_seq_to_set();
        assert(y * width == width * height) by (nonlinear_arith)
            requires
                y == height,
        ;
    }
    seen.len() >= k as usize
}

/// The pixels at the given columns and rows.
pub fn forgy_at(image: &Image, positions: &Vec<(u32, u32)>) -> (centroids: Vec<[u8; 4]>)
    requires
        positions_inside(*image, positions@),
    ensures
        centroids@ == pixels_at(*image, positions@),
        centroids@.len() == positions@.len(),
        forall|i: int|
            0 <= i < positions@.len() ==> #[trigger] centroids@[i] == image@[positions@[i].1
                * image_size(*image).0 + positions@[i].0],
{
    let mut centroids: Vec<[u8; 4]> = Vec::with_capacity(positions.len());
    let mut i: usize = 0;
    while i < positions.len()
        invariant
            i <= positions@.len(),
            positions_inside(*image, positions@),
            centroids@.len() == i,
            forall|j: int|
                0 <= j < i ==> #[trigger] centroids@[j] == pixels_at(*image, positions@)[j],
        decreases positions@.len() - i,
    {
        let (x, y) = positions[i];
        assert(position_inside(*image, positions@[i as int]));
        centroids.push(image.get_pixel(x, y));
        i += 1;
    }
    assert(centroids@ =~= pixels_at(*image, positions@));
    centroids
}

/// `k` pixels of `image`, at the columns and rows that `rng` gives.
pub fn forgy_from(image: &Image, k: u32, rng: &mut ThreadRng) -> (centroids: Vec<[u8; 4]>)
    requires
        k > 0 ==> has_pixels(*image),
    ensures
        forgy_drew(*image, k, *old(rng), *final(rng), centroids@),
        is_forgy_outcome(*image, k, centroids@),
        centroids@.len() == k,
        forall|i: int| 0 <= i < centroids@.len() ==> image@.contains(#[trigger] centroids@[i]),
{
    let (width, height) = image.dimensions();
    let mut positions: Vec<(u32, u32)> = Vec::new();
    let ghost mut states = seq![*rng];
    let mut i: u32 = 0;
    while i < k
        invariant
            i <= k,
            width == image.spec_width(),
            height == image.spec_height(),
            k > 0 ==> has_pixels(*image),
            positions@.len() == i,
            positions_inside(*image, positions@),
            drew_positions(*image, states, positions@),
            states[0] == *old(rng),
            states.last() == *rng,
        decreases k - i,
    {
        let ghost before = *rng;
        let x: u32 = next_in_range(rng, width);
        let ghost between = *rng;
        let y: u32 = next_in_range(rng, height);
        let ghost earlier = (states, positions@);
        positions.push((x, y));
        proof {
            let position = (x, y);
            assert(drew_in_range(before, between, image.spec_width(), position.0));
            assert(drew_in_range(between, *rng, image.spec_height(), position.1));
            assert(drew_position(*image, before, *rng, (x, y)));
            states = states.push(*rng);
            assert forall|j: int| 0 <= j < positions@.len() implies drew_position(
                *image,
                states[j],
                states[j + 1],
                #[trigger] positions@[j],
            ) by {
                if j < i {
                    assert(positions@[j] == earlier.1[j]);
                    assert(states[j] == earlier.0[j]);
                    assert(states[j + 1] == earlier.0[j + 1]);
                }
            }
        }
        i += 1;
    }
    let centroids: Vec<[u8; 4]> = forgy_at(image, &positions);
    proof {
        assert forall|i: int| 0 <= i < centroids@.len() implies image@.contains(
            #[trigger] centroids@[i],
        ) by {
            forgy_centroids_are_pixels(*image, k, centroids@, i);
        }
    }
    centroids
}

/// `k` pixels of `image`, drawn at random with equal chances.
pub fn forgy(image: &Image, k: u32) -> (centroids: Vec<[u8; 4]>)
    requires
        k > 0 ==> has_pixels(*image),
    ensures
        exists|before: ThreadRng, after: ThreadRng|
            is_thread_rng(before) && #[trigger] forgy_drew(
                *image,
                k,
                before,
                after,
                centroids@,
            ),
        is_forgy_outcome(*image, k, centroids@),
        centroids@.len() == k,
        forall|i: int| 0 <= i < centroids@.len() ==> image@.contains(#[trigger] centroids@[i]),
{
    let mut rng: ThreadRng = thread_rng();
    let ghost before = rng;
    let centroids: Vec<[u8; 4]> = forgy_from(image, k, &mut rng);
    assert(forgy_drew(*image, k, before, rng, centroids@));
    centroids
}

/// The pixel that the index `index` of a weight stands for.
pub fn pixel_at_index(image: &Image, index: usize) -> (color: [u8; 4])
    requires
        index < image@.len(),
    ensures
        color == pixel_for_index(image@, index as int),
        color == image@[index as int % 0x1_0000_0000],
{
    let (width, height) = image.dimensions();
    let wide: u64 = index as u64;
    let idx: u32 = #[verifier::truncate] (wide as u32);
    proof {
        assert(wide as u32 == wide % 0x1_0000_0000) by (bit_vector);
        assert(width > 0) by {
            if width == 0 {
                assert(width * height == 0) by (nonlinear_arith)
                    requires
                        width == 0,
                ;
            }
        }
        index_in_bounds(idx as int, width as int, height as int);
    }
    image.get_pixel(idx % width, idx / width)
}

/// The colour that the number `chosen_weight` gives after `centroids`.
pub fn next_centroid(
    image: &Image,
    centroids: &Vec<[u8; 4]>,
    chosen_weight: u64,
) -> (color: [u8; 4])
    requires
        centroids@.len() > 0,
        image@.len() <= MAX_PIXELS,
        chosen_weight < total(weights_of(image@, centroids@)),
    ensures
        color == drawn_color(image@, centroids@, chosen_weight),
        forall|weights: Seq<u64>, index: int|
            are_weights(image@, centroids@, weights) && #[trigger] selects(
                weights,
                chosen_weight,
                index,
            ) ==> color == pixel_for_index(image@, index),
        exists|index: int|
            {
                &&& 0 <= index < image@.len()
                &&& total(#[trigger] weights_of(image@, centroids@).take(index)) <= chosen_weight
                &&& chosen_weight < total(weights_of(image@, centroids@).take(index))
                    + weights_of(image@, centroids@)[index]
                &&& color == image@[index % 0x1_0000_0000]
            },
{
    let mut weights: Vec<u64> = Vec::new();
    image.nearest_distances(centroids, &mut weights);
    proof {
        weights_are_unique(image@, centroids@, weights@);
        lemma_weights_add_up(image@, centroids@, weights@);
        let some = selection_exists(weights@, chosen_weight);
    }
    let distr: WeightedDistr = WeightedDistr::new(&weights);
    let index: usize = distr.index_for(chosen_weight);
    proof {
        selection_is_unique(
            weights@,
            chosen_weight,
            index as int,
            selected(weights@, chosen_weight),
        );
        assert forall|w: Seq<u64>, i: int|
            are_weights(image@, centroids@, w) && #[trigger] selects(
                w,
                chosen_weight,
                i,
            ) implies i == index by {
            weights_are_unique(image@, centroids@, w);
            selection_is_unique(w, chosen_weight, i, index as int);
        }
    }
    let color: [u8; 4] = pixel_at_index(image, index);
    assert(total(weights@.take(index as int)) <= chosen_weight);
    color
}

/// The colour that the number `chosen_weight` gives after `centroids`, or `None` if it cannot
/// be drawn.
pub fn try_next_centroid(
    image: &Image,
    centroids: &Vec<[u8; 4]>,
    chosen_weight: u64,
) -> (color: Option<[u8; 4]>)
    ensures
        color is Some <==> (centroids@.len() > 0 && image@.len() <= MAX_PIXELS && chosen_weight
            < total(weights_of(image@, centroids@))),
        color matches Some(color) ==> color == drawn_color(image@, centroids@, chosen_weight),
        color matches Some(color) ==> exists|index: int|
            {
                &&& 0 <= index < image@.len()
                &&& total(#[trigger] weights_of(image@, centroids@).take(index)) <= chosen_weight
                &&& chosen_weight < total(weights_of(image@, centroids@).take(index))
                    + weights_of(image@, centroids@)[index]
                &&& color == image@[index % 0x1_0000_0000]
            },
{
    let (width, height) = image.dimensions();
    proof {
        lemma_pixel_count_fits(width, height);
    }
    let count: u64 = width as u64 * height as u64;
    if centroids.len() == 0 || count > MAX_PIXELS {
        return None;
    }
    let mut weights: Vec<u64> = Vec::new();
    image.nearest_distances(centroids, &mut weights);
    proof {
        weights_are_unique(image@, centroids@, weights@);
        lemma_weights_add_up(image@, centroids@, weights@);
    }
    if is_below_total(&weights, chosen_weight) {
        Some(next_centroid(image, centroids, chosen_weight))
    } else {
        None
    }
}

/// The centroids of K-means++ with the pixel at `first` as the first of them and one number
/// drawn for each further one, or `None` if the pixel or one of the numbers cannot be drawn.
pub fn kmeans_pp_at(image: &Image, first: (u32, u32), draws: &Vec<u64>) -> (centroids: Option<
    Vec<[u8; 4]>,
>)
    ensures
        centroids is Some <==> {
            &&& position_inside(*image, first)
            &&& draws@.len() > 0 ==> image@.len() <= MAX_PIXELS
            &&& draws_fit(image@, pixel_at(*image, first), draws@)
        },
        centroids is Some <==> {
            &&& first.0 < image_size(*image).0
            &&& first.1 < image_size(*image).1
            &&& draws@.len() > 0 ==> image@.len() <= 70_921_738_076_545
            &&& draws_fit(
                image@,
                image@[first.1 * image_size(*image).0 + first.0],
                draws@,
            )
        },
        centroids matches Some(centroids) ==> is_kmeans_pp_run(
            *image,
            first,
            draws@,
            centroids@,
        ),
        centroids matches Some(centroids) ==> {
            &&& first.0 < image_size(*image).0
            &&& first.1 < image_size(*image).1
            &&& centroids@.len() == draws@.len() + 1
            &&& centroids@[0] == image@[first.1 * image_size(*image).0 + first.0]
        },
{
    let (width, height) = image.dimensions();
    if first.0 >= width || first.1 >= height {
        return None;
    }
    let ghost color = pixel_at(*image, first);
    let mut centroids: Vec<[u8; 4]> = Vec::new();
    centroids.push(image.get_pixel(first.0, first.1));
    let mut i: usize = 0;
    proof {
        assert(draws@.take(0) =~= Seq::<u64>::empty());
        assert(centroids@ =~= seeded(image@, color, draws@.take(0)));
    }
    while i < draws.len()
        invariant
            i <= draws@.len(),
            i > 0 ==> image@.len() <= MAX_PIXELS,
            draws_fit(image@, color, draws@.take(i as int)),
            centroids@ == seeded(image@, color, draws@.take(i as int)),
            centroids@.len() == i + 1,
            color == pixel_at(*image, first),
        decreases draws@.len() - i,
    {
        match try_next_centroid(image, &centroids, draws[i]) {
            Some(next) => {
                proof {
                    lemma_draws_fit_push(image@, color, draws@.take(i as int), draws@[i as int]);
                    assert(draws@.take(i + 1) =~= draws@.take(i as int).push(draws@[i as int]));
                }
                centroids.push(next);
            },
            None => {
                assert(!(draws@[i as int] < total(weights_of(image@, centroids@))) || image@.len()
                    > MAX_PIXELS);
                return None;
            },
        }
        i += 1;
    }
    proof {
        assert(draws@.take(i as int) =~= draws@);
        runs_start_with_the_first(image@, color, draws@);
    }
    Some(centroids)
}

/// `k` pixels of `image`, but at least one. The first is the one at the column and row that
/// `rng` gives, each further one the one that its next number below the sum of the weights
/// falls to.
pub fn kmeans_pp_from(image: &Image, k: u32, rng: &mut ThreadRng) -> (centroids: Vec<[u8; 4]>)
    requires
        kmeans_pp_applies(*image, k),
    ensures
        kmeans_pp_drew(*image, k, *old(rng), *final(rng), centroids@),
        is_kmeans_pp_outcome(*image, k, centroids@),
        forall|i: int| 0 <= i < centroids@.len() ==> image@.contains(#[trigger] centroids@[i]),
        image@.len() <= 0x1_0000_0000 ==> centroids@.no_duplicates(),
        centroids@.len() == if k == 0 { 1 } else { k as int },
{
    let mut centroids: Vec<[u8; 4]> = Vec::with_capacity(k as usize);
    let (width, height) = image.dimensions();
    let x: u32 = next_in_range(rng, width);
    let y: u32 = next_in_range(rng, height);
    centroids.push(image.get_pixel(x, y));
    let ghost first = (x, y);
    let ghost color = pixel_at(*image, first);
    let ghost mut draws = Seq::<u64>::empty();
    let ghost mut states = seq![*rng];
    let mut distr: WeightedDistr = first_distribution();
    let mut weights: Vec<u64> = Vec::new();
    let mut i: u32 = 1;
    assert(centroids@ =~= seeded(image@, color, draws));
    assert(drew_position(*image, *old(rng), *rng, first));
    while i < k
        invariant
            1 <= i,
            k > 0 ==> i <= k,
            k == 0 ==> i == 1,
            kmeans_pp_applies(*image, k),
            centroids@.len() == i,
            draws.len() + 1 == i,
            draws_fit(image@, color, draws),
            centroids@ == seeded(image@, color, draws),
            drew_numbers(image@, color, states, draws),
            drew_position(*image, *old(rng), states[0], first),
            states.last() == *rng,
        decreases k - i,
    {
        image.nearest_distances(&centroids, &mut weights);
        proof {
            lemma_weights_drawable(image@, centroids@, weights@);
            weights_are_unique(image@, centroids@, weights@);
        }
        distr.update(&weights);
        let ghost before = *rng;
        let index: usize = distr.sample(rng);
        let next: [u8; 4] = pixel_at_index(image, index);
        proof {
            let drawn = choose|drawn: u64|
                drew_uniform(before, *rng, total(weights@) as u64, drawn) && #[trigger] selects(
                    weights@,
                    drawn,
                    index as int,
                );
            selected_number_is_below_total(weights@, drawn, index as int);
            selection_is_unique(weights@, drawn, index as int, selected(weights@, drawn));
            lemma_draws_fit_push(image@, color, draws, drawn);
            lemma_drew_numbers_push(image@, color, states, draws, *rng, drawn);
            draws = draws.push(drawn);
            states = states.push(*rng);
        }
        centroids.push(next);
        weights.clear();
        i += 1;
    }
    proof {
        assert(is_kmeans_pp_run(*image, first, draws, centroids@));
        assert forall|i: int| 0 <= i < centroids@.len() implies image@.contains(
            #[trigger] centroids@[i],
        ) by {
            kmeans_pp_centroids_are_pixels(*image, k, centroids@, i);
        }
        if image@.len() <= 0x1_0000_0000 {
            kmeans_pp_centroids_are_distinct(*image, k, centroids@);
        }
    }
    centroids
}

/// One more number that the generator gave, below the sum of the weights then.
proof fn lemma_drew_numbers_push(
    pixels: Seq<[u8; 4]>,
    first: [u8; 4],
    states: Seq<ThreadRng>,
    draws: Seq<u64>,
    after: ThreadRng,
    drawn: u64,
)
    requires
        drew_numbers(pixels, first, states, draws),
        drew_uniform(
            states.last(),
            after,
            total(weights_of(pixels, seeded(pixels, first, draws))) as u64,
            drawn,
        ),
    ensures
        drew_numbers(pixels, first, states.push(after), draws.push(drawn)),
{
    let more = draws.push(drawn);
    let through = states.push(after);
    assert forall|j: int| 0 <= j < more.len() implies drew_uniform(
        through[j],
        through[j + 1],
        total(weights_of(pixels, seeded(pixels, first, more.take(j)))) as u64,
        #[trigger] more[j],
    ) by {
        if j < draws.len() {
            assert(more[j] == draws[j]);
            assert(more.take(j) =~= draws.take(j));
        } else {
            assert(more.take(j) =~= draws);
        }
    }
}

/// `k` pixels of `image`, but at least one. The first is drawn with equal chances, each
/// further one with a probability proportional to its squared distance to the closest of those
/// before it, on images of up to two to the power of 32 pixels. On a larger one only the low 32
/// bits of the index that is drawn count.
pub fn kmeans_pp(image: &Image, k: u32) -> (centroids: Vec<[u8; 4]>)
    requires
        kmeans_pp_applies(*image, k),
    ensures
        exists|before: ThreadRng, after: ThreadRng|
            is_thread_rng(before) && #[trigger] kmeans_pp_drew(
                *image,
                k,
                before,
                after,
                centroids@,
            ),
        is_kmeans_pp_outcome(*image, k, centroids@),
        forall|i: int| 0 <= i < centroids@.len() ==> image@.contains(#[trigger] centroids@[i]),
        image@.len() <= 0x1_0000_0000 ==> centroids@.no_duplicates(),
        centroids@.len() == if k == 0 { 1 } else { k as int },
{
    let mut rng: ThreadRng = thread_rng();
    let ghost before = rng;
    let centroids: Vec<[u8; 4]> = kmeans_pp_from(image, k, &mut rng);
    assert(kmeans_pp_drew(*image, k, before, rng, centroids@));
    centroids
}

/// The distribution that K-means++ starts with: a single index.
fn first_distribution() -> (distr: WeightedDistr)
    ensures
        distr.wf(),
{
    let weights: [u64; 1] = [1];
    proof {
        assert(weights@.drop_last() =~= Seq::<u64>::empty());
        assert(total(Seq::<u64>::empty()) == 0);
    }
    WeightedDistr::new(&weights)
}

/// Distances of at most `MAX_PIXELS` pixels add up without overflow, and one pixel more could
/// be too much.
pub proof fn distances_add_up(weights: Seq<u64>)
    requires
        weights.len() <= MAX_PIXELS,
        forall|i: int| 0 <= i < weights.len() ==> #[trigger] weights[i] <= MAX_DISTANCE,
    ensures
        total(weights) <= u64::MAX,
        (MAX_PIXELS + 1) * MAX_DISTANCE > u64::MAX,
{
    total_is_bounded(weights, MAX_DISTANCE as nat);
    assert(MAX_DISTANCE * weights.len() <= MAX_DISTANCE * MAX_PIXELS) by (nonlinear_arith)
        requires
            weights.len() <= MAX_PIXELS,
    ;
}

/// The distances of at most `MAX_PIXELS` pixels have a sum that fits its type.
proof fn lemma_weights_add_up(
    pixels: Seq<[u8; 4]>,
    centroids: Seq<[u8; 4]>,
    weights: Seq<u64>,
)
    requires
        pixels.len() <= MAX_PIXELS,
        are_weights(pixels, centroids, weights),
    ensures
        total(weights) <= u64::MAX,
{
    assert forall|i: int| 0 <= i < weights.len() implies #[trigger] weights[i]
        <= MAX_DISTANCE by {
        nearest_distance_is_zero_on_centroids(pixels[i], centroids, weights[i] as int);
    }
    distances_add_up(weights);
}

/// The distances to fewer centroids than there are colours can be drawn from.
proof fn lemma_weights_drawable(
    pixels: Seq<[u8; 4]>,
    centroids: Seq<[u8; 4]>,
    weights: Seq<u64>,
)
    requires
        pixels.len() <= MAX_PIXELS,
        centroids.len() < pixels.to_set().len(),
        are_weights(pixels, centroids, weights),
    ensures
        weights.len() > 0,
        0 < total(weights) <= u64::MAX,
{
    let index = lemma_unchosen_pixel(pixels, centroids);
    nearest_distance_is_zero_on_centroids(pixels[index], centroids, weights[index] as int);
    total_is_positive(weights, index);
    lemma_weights_add_up(pixels, centroids, weights);
}

/// The product of two 32-bit numbers fits in 64 bits.
proof fn lemma_pixel_count_fits(width: u32, height: u32)
    ensures
        0 <= width * height <= u64::MAX,
{
    assert(0 <= width * height <= 0xffff_ffff * 0xffff_ffff) by (nonlinear_arith)
        requires
            0 <= width <= 0xffff_ffff,
            0 <= height <= 0xffff_ffff,
    ;
}

impl InitializationMethod {
    /// Whether the method can give `k` centroids for `input_image`.
    pub open spec fn applies(self, input_image: Image, k: u32) -> bool {
        match self {
            InitializationMethod::Forgy => k > 0 ==> has_pixels(input_image),
            InitializationMethod::Kmeanspp => kmeans_pp_applies(input_image, k),
        }
    }

    /// Whether `centroids` can come out of the method for some draw.
    pub open spec fn is_outcome(
        self,
        input_image: Image,
        k: u32,
        centroids: Seq<[u8; 4]>,
    ) -> bool {
        match self {
            InitializationMethod::Forgy => is_forgy_outcome(input_image, k, centroids),
            InitializationMethod::Kmeanspp => is_kmeans_pp_outcome(input_image, k, centroids),
        }
    }

    /// Whether the method gave `centroids` with what the thread's generator drew.
    pub open spec fn drew(self, input_image: Image, k: u32, centroids: Seq<[u8; 4]>) -> bool {
        match self {
            InitializationMethod::Forgy => exists|before: ThreadRng, after: ThreadRng|
                is_thread_rng(before) && #[trigger] forgy_drew(
                    input_image,
                    k,
                    before,
                    after,
                    centroids,
                ),
            InitializationMethod::Kmeanspp => exists|before: ThreadRng, after: ThreadRng|
                is_thread_rng(before) && #[trigger] kmeans_pp_drew(
                    input_image,
                    k,
                    before,
                    after,
                    centroids,
                ),
        }
    }

    /// Centroids to start from.
    pub fn initialize(&self, input_image: &Image, k: u32) -> (centroids: Vec<[u8; 4]>)
        requires
            self.applies(*input_image, k),
        ensures
            self.drew(*input_image, k, centroids@),
            self.is_outcome(*input_image, k, centroids@),
            *self == InitializationMethod::Forgy ==> {
                &&& is_forgy_outcome(*input_image, k, centroids@)
                &&& exists|before: ThreadRng, after: ThreadRng|
                    #[trigger] forgy_drew(*input_image, k, before, after, centroids@)
            },
            *self == InitializationMethod::Kmeanspp ==> {
                &&& is_kmeans_pp_outcome(*input_image, k, centroids@)
                &&& exists|before: ThreadRng, after: ThreadRng|
                    #[trigger] kmeans_pp_drew(*input_image, k, before, after, centroids@)
            },
            forall|i: int|
                0 <= i < centroids@.len() ==> input_image@.contains(#[trigger] centroids@[i]),
    {
        match self {
            InitializationMethod::Forgy => forgy(input_image, k),
            InitializationMethod::Kmeanspp => kmeans_pp(input_image, k),
        }
    }

    /// Whether the method can give `k` centroids for `input_image`.
    pub fn can_initialize(&self, input_image: &Image, k: u32) -> (can: bool)
        ensures
            can == self.applies(*input_image, k),
            *self == InitializationMethod::Forgy ==> can == (k == 0 || (image_size(*input_image).0
                > 0 && image_size(*input_image).1 > 0)),
            *self == InitializationMethod::Kmeanspp ==> can == (image_size(*input_image).0 > 0
                && image_size(*input_image).1 > 0 && (k <= 1 || (input_image@.len()
                <= 70_921_738_076_545 && input_image@.to_set().len() >= k))),
    {
        let (width, height) = input_image.dimensions();
        let drawable = width > 0 && height > 0;
        match self {
            InitializationMethod::Forgy => k == 0 || drawable,
            InitializationMethod::Kmeanspp => {
                proof {
                    lemma_pixel_count_fits(width, height);
                }
                let count: u64 = width as u64 * height as u64;
                drawable && (k <= 1 || (count <= MAX_PIXELS && has_distinct_colors(
                    input_image,
                    k,
                )))
            },
        }
    }

    /// Centroids to start from, or `None` if the method cannot give `k` of them.
    pub fn try_initialize(&self, input_image: &Image, k: u32) -> (centroids: Option<Vec<[u8; 4]>>)
        ensures
            centroids is Some <==> self.applies(*input_image, k),
            centroids matches Some(centroids) ==> {
                &&& self.is_outcome(*input_image, k, centroids@)
                &&& self.drew(*input_image, k, centroids@)
                &&& forall|i: int|
                    0 <= i < centroids@.len() ==> input_image@.contains(#[trigger] centroids@[i])
            },
    {
        if self.can_initialize(input_image, k) {
            Some(self.initialize(input_image, k))
        } else {
            None
        }
    }
}

} // verus!

//! The seeded population of a region with asteroids and fuel pods.
//!
//! A region is filled by a fixed number of draws from a generator seeded by
//! the region's centre: first the asteroid draws, then the fuel-pod draws.
//! A draw that lands on an expired cell places nothing; a later draw on a
//! cell replaces what an earlier one placed there.

use vstd::prelude::*;
use rand::rngs::SmallRng;
use crate::region_map::{lemma_entries_canonical, RegionMap};
use crate::sampler::{gen_range_inclusive, seeded_rng};
use crate::types::{Error, MapElement, Point};

verus! {

/// The `i32` that is congruent to `n` modulo `2^32`: what wrapping 32-bit
/// arithmetic leaves of `n`.
pub open spec fn wrap_i32(n: int) -> int {
    let m = n % 0x1_0000_0000;
    if m >= 0x8000_0000 {
        m - 0x1_0000_0000
    } else {
        m
    }
}

/// The generator seed of the region with the given centre: `x * seed + y` in
/// wrapping 32-bit signed arithmetic, on the low 32 bits of `seed`, then
/// widened to 64 bits with its sign.
pub open spec fn spec_region_seed(center: Point, seed: u64) -> u64 {
    let w = wrap_i32(center.x * wrap_i32(seed as int) + center.y);
    if w < 0 {
        (w + 0x1_0000_0000_0000_0000) as u64
    } else {
        w as u64
    }
}

/// Computes the generator seed of a region.
pub fn region_seed(center: Point, seed: u64) -> (r: u64)
    ensures
        r == spec_region_seed(center, seed),
{
    let low: u64 = seed % 0x1_0000_0000;
    let s: i32 = if low >= 0x8000_0000 {
        (low as i64 - 0x1_0000_0000) as i32
    } else {
        low as i32
    };
    let w: i32 = center.x.wrapping_mul(s).wrapping_add(center.y);
    if w < 0 {
        u64::MAX - ((-(w as i64)) as u64) + 1
    } else {
        w as u64
    }
}

/// Whether one of the draws at places `from` and up is a draw of cell `p`
/// that found it not expired. A draw is a cell together with the answer
/// of the expiry predicate on it.
pub open spec fn lands(draws: Seq<(Point, bool)>, from: int, p: Point) -> bool {
    exists|i: int| 0 <= i && from <= i < draws.len() && #[trigger] draws[i] == (p, false)
}

/// The contents that a sequence of draws leaves, of which the first
/// `ast_density` are asteroid draws and the rest fuel-pod draws: a cell is
/// occupied when some draw landed on it, by a fuel pod when a fuel-pod draw
/// did, by an asteroid otherwise.
pub open spec fn placed(draws: Seq<(Point, bool)>, ast_density: int) -> Map<Point, MapElement> {
    Map::new(
        |p: Point| lands(draws, 0, p),
        |p: Point|
            if lands(draws, ast_density, p) {
                MapElement::FuelPod
            } else {
                MapElement::Asteroid
            },
    )
}

/// What a draw at place `i` places.
pub open spec fn kind_at(i: int, ast_density: int) -> MapElement {
    if i < ast_density {
        MapElement::Asteroid
    } else {
        MapElement::FuelPod
    }
}

/// One more draw: an expired one changes nothing, another puts its kind on
/// its cell.
pub proof fn lemma_placed_push(draws: Seq<(Point, bool)>, draw: (Point, bool), ast_density: int)
    ensures
        placed(draws.push(draw), ast_density) == if draw.1 {
            placed(draws, ast_density)
        } else {
            placed(draws, ast_density).insert(draw.0, kind_at(draws.len() as int, ast_density))
        },
{
    let more = draws.push(draw);
    let n = draws.len() as int;
    let target = if draw.1 {
        placed(draws, ast_density)
    } else {
        placed(draws, ast_density).insert(draw.0, kind_at(n, ast_density))
    };
    assert forall|from: int, p: Point| #[trigger]
        lands(more, from, p) <==> lands(draws, from, p) || (from <= n && draw == (
            p,
            false,
        )) by {
        if lands(more, from, p) {
            let i = choose|i: int| 0 <= i && from <= i < more.len() && #[trigger] more[i] == (p, false);
            if i < n {
                assert(draws[i] == (p, false));
            }
        }
        if lands(draws, from, p) {
            let i = choose|i: int|
                0 <= i && from <= i < draws.len() && #[trigger] draws[i] == (p, false);
            assert(more[i] == (p, false));
        }
        if from <= n && draw == (p, false) {
            assert(more[n] == (p, false));
        }
    }
    assert forall|p: Point| placed(draws, ast_density).contains_key(p) implies !lands(
        draws,
        ast_density,
        p,
    ) || lands(draws, 0, p) by {}
    assert(placed(more, ast_density) =~= target) by {
        assert forall|p: Point| #[trigger]
            placed(more, ast_density).contains_key(p) == target.contains_key(p) by {
            assert(lands(more, 0, p) <==> lands(draws, 0, p) || (0 <= n && draw == (p, false)));
        }
        assert forall|p: Point| placed(more, ast_density).contains_key(p) implies #[trigger]
            placed(more, ast_density)[p] == target[p] by {
            assert(lands(more, ast_density, p) <==> lands(draws, ast_density, p) || (ast_density
                <= n && draw == (p, false)));
            if lands(draws, ast_density, p) {
                let i = choose|i: int|
                    0 <= i && ast_density <= i < draws.len() && #[trigger] draws[i] == (p, false);
                assert(i < n);
            }
        }
    }
}

/// A sequence of draws occupies at most as many cells as it has draws.
pub proof fn lemma_placed_len(draws: Seq<(Point, bool)>, ast_density: int)
    ensures
        placed(draws, ast_density).dom().finite(),
        placed(draws, ast_density).dom().len() <= draws.len(),
    decreases draws.len(),
{
    if draws.len() == 0 {
        assert(placed(draws, ast_density).dom() =~= Set::<Point>::empty());
    } else {
        let fewer = draws.drop_last();
        let draw = draws.last();
        assert(draws =~= fewer.push(draw));
        lemma_placed_len(fewer, ast_density);
        lemma_placed_push(fewer, draw, ast_density);
        if !draw.1 {
            assert(placed(draws, ast_density).dom() =~= placed(fewer, ast_density).dom().insert(
                draw.0,
            ));
        }
    }
}

/// Two populations made of the same draws are the same map, entry for
/// entry: the contents depend on nothing but the cells drawn, the answers of
/// the expiry predicate on them, and the number of asteroid draws.
pub proof fn lemma_same_draws_same_map(
    a: RegionMap,
    b: RegionMap,
    draws: Seq<(Point, bool)>,
    ast_density: int,
)
    requires
        a.wf(),
        b.wf(),
        a@ == placed(draws, ast_density),
        b@ == placed(draws, ast_density),
    ensures
        a.entries() == b.entries(),
{
    lemma_entries_canonical(a.entries(), b.entries());
}

/// Every occupied cell was drawn and found not expired, and a cell on which
/// a fuel-pod draw landed holds a fuel pod, whatever the asteroid draws did.
pub proof fn lemma_placed_cells(draws: Seq<(Point, bool)>, ast_density: int, p: Point)
    ensures
        placed(draws, ast_density).contains_key(p) <==> exists|i: int|
            0 <= i < draws.len() && #[trigger] draws[i] == (p, false),
        (exists|i: int|
            0 <= i && ast_density <= i < draws.len() && #[trigger] draws[i] == (p, false))
            ==> placed(draws, ast_density).contains_key(p) && placed(draws, ast_density)[p]
            == MapElement::FuelPod,
{
    if lands(draws, 0, p) {
        let i = choose|i: int| 0 <= i && 0 <= i < draws.len() && #[trigger] draws[i] == (p, false);
        assert(0 <= i < draws.len() && draws[i] == (p, false));
    }
    if exists|i: int| 0 <= i < draws.len() && #[trigger] draws[i] == (p, false) {
        let i = choose|i: int| 0 <= i < draws.len() && #[trigger] draws[i] == (p, false);
        assert(0 <= i && 0 <= i < draws.len() && draws[i] == (p, false));
    }
    if lands(draws, ast_density, p) {
        let i = choose|i: int|
            0 <= i && ast_density <= i < draws.len() && #[trigger] draws[i] == (p, false);
        assert(0 <= i && 0 <= i < draws.len() && draws[i] == (p, false));
    }
}

/// Fills a map from a sequence of draws, each with the answer of the expiry
/// predicate on its cell. The first `ast_density` draws place asteroids,
/// the others fuel pods.
pub fn place_objects(draws: &Vec<(Point, bool)>, ast_density: u32) -> (m: RegionMap)
    ensures
        m.wf(),
        m@ == placed(draws@, ast_density as int),
        m@.dom().finite(),
        m@.dom().len() <= draws@.len(),
{
    let mut m = RegionMap::new();
    let mut i: usize = 0;
    assert(m@ =~= placed(draws@.take(0), ast_density as int));
    while i < draws.len()
        invariant
            i <= draws@.len(),
            m.wf(),
            m@ == placed(draws@.take(i as int), ast_density as int),
        decreases draws@.len() - i,
    {
        let (p, expired) = draws[i];
        proof {
            lemma_placed_push(draws@.take(i as int), draws@[i as int], ast_density as int);
            assert(draws@.take(i as int).push(draws@[i as int]) =~= draws@.take(i + 1));
        }
        if !expired {
            let element = if i < ast_density as usize {
                MapElement::Asteroid
            } else {
                MapElement::FuelPod
            };
            m.set(p, element);
        }
        i = i + 1;
    }
    proof {
        assert(draws@.take(i as int) =~= draws@);
        lemma_placed_len(draws@, ast_density as int);
    }
    m
}

/// Whether `p` lies in the square of the region with the given centre:
/// within `range / 2` of the centre along both axes.
pub open spec fn in_region(p: Point, center: Point, range: int) -> bool {
    &&& center.x - range / 2 <= p.x <= center.x + range / 2
    &&& center.y - range / 2 <= p.y <= center.y + range / 2
}

/// Whether the corners of the region's square have `i32` coordinates.
pub open spec fn region_fits(center: Point, range: int) -> bool {
    &&& i32::MIN <= center.x - range / 2
    &&& center.x + range / 2 <= i32::MAX
    &&& i32::MIN <= center.y - range / 2
    &&& center.y + range / 2 <= i32::MAX
}

/// Draws one cell of the region: `x`, then `y`, each from the closed
/// interval of half the region size around the centre.
fn access_rng(rng: &mut SmallRng, range_center: Point, range: i32) -> (p: Point)
    requires
        range > 0,
        region_fits(range_center, range as int),
    ensures
        in_region(p, range_center, range as int),
{
    let half: i32 = range / 2;
    let x: i32 = gen_range_inclusive(rng, range_center.x - half, range_center.x + half);
    let y: i32 = gen_range_inclusive(rng, range_center.y - half, range_center.y + half);
    Point { x, y }
}

/// Whether `draws` can be the draws of one population of the region: as many
/// as the two densities ask for, each in the region's square, each with an
/// answer that the expiry predicate gives on its cell.
pub open spec fn is_draw_sequence<F: Fn(Point) -> bool>(
    draws: Seq<(Point, bool)>,
    range_center: Point,
    ast_density: u32,
    pod_density: u32,
    range: i32,
    is_expired: F,
) -> bool {
    &&& draws.len() == ast_density + pod_density
    &&& forall|i: int|
        0 <= i < draws.len() ==> {
            &&& in_region((#[trigger] draws[i]).0, range_center, range as int)
            &&& call_ensures(is_expired, (draws[i].0,), draws[i].1)
        }
}

/// Whether `build_range_map` may be called on these arguments: where cells
/// are to be drawn, the corners of the region's square are `i32` cells.
pub fn can_populate(range_center: Point, ast_density: u32, pod_density: u32, range: i32) -> (b:
    bool)
    ensures
        b == (range > 0 && ast_density + pod_density > 0 ==> region_fits(
            range_center,
            range as int,
        )),
{
    if range <= 0 || (ast_density == 0 && pod_density == 0) {
        return true;
    }
    let half: i32 = range / 2;
    range_center.x >= i32::MIN + half && range_center.x <= i32::MAX - half && range_center.y
        >= i32::MIN + half && range_center.y <= i32::MAX - half
}

/// Populates the region with the given centre.
///
/// The generator is seeded with `region_seed(range_center, seed)`. Then
/// `ast_density` cells are drawn for asteroids and `pod_density` cells for
/// fuel pods, and `is_expired` is asked about each cell as it is drawn. The
/// result is what `place_objects` makes of those draws. A region size that
/// is not positive is a configuration error.
pub fn build_range_map<F: Fn(Point) -> bool>(
    range_center: Point,
    seed: u64,
    ast_density: u32,
    pod_density: u32,
    range: i32,
    is_expired: F,
) -> (r: Result<RegionMap, Error>)
    requires
        forall|p: Point| call_requires(is_expired, (p,)),
        range > 0 && ast_density + pod_density > 0 ==> region_fits(range_center, range as int),
    ensures
        range <= 0 ==> r == Err::<RegionMap, Error>(Error::ConfigurationError),
        range > 0 ==> r is Ok && r->Ok_0.wf() && exists|draws: Seq<(Point, bool)>|
            #[trigger] is_draw_sequence(
                draws,
                range_center,
                ast_density,
                pod_density,
                range,
                is_expired,
            ) && r->Ok_0@ == placed(draws, ast_density as int),
        r is Ok ==> r->Ok_0@.dom().finite() && r->Ok_0@.dom().len() <= ast_density + pod_density,
        r is Ok ==> forall|p: Point| #[trigger]
            r->Ok_0@.contains_key(p) ==> in_region(p, range_center, range as int) && call_ensures(
                is_expired,
                (p,),
                false,
            ),
{
    if range <= 0 {
        return Err(Error::ConfigurationError);
    }
    let mut rng = seeded_rng(region_seed(range_center, seed));
    let total: u64 = ast_density as u64 + pod_density as u64;
    let mut draws: Vec<(Point, bool)> = Vec::new();
    let mut k: u64 = 0;
    while k < total
        invariant
            range > 0,
            total == ast_density + pod_density,
            total > 0 ==> region_fits(range_center, range as int),
            forall|p: Point| call_requires(is_expired, (p,)),
            k <= total,
            draws@.len() == k,
            forall|i: int|
                0 <= i < draws@.len() ==> {
                    &&& in_region((#[trigger] draws@[i]).0, range_center, range as int)
                    &&& call_ensures(is_expired, (draws@[i].0,), draws@[i].1)
                },
        decreases total - k,
    {
        let p = access_rng(&mut rng, range_center, range);
        let expired = is_expired(p);
        draws.push((p, expired));
        k = k + 1;
    }
    let m = place_objects(&draws, ast_density);
    proof {
        assert(is_draw_sequence(
            draws@,
            range_center,
            ast_density,
            pod_density,
            range,
            is_expired,
        ));
        assert forall|p: Point| #[trigger] m@.contains_key(p) implies in_region(
            p,
            range_center,
            range as int,
        ) && call_ensures(is_expired, (p,), false) by {
            lemma_placed_cells(draws@, ast_density as int, p);
            let i = choose|i: int| 0 <= i < draws@.len() && #[trigger] draws@[i] == (p, false);
            assert(draws@[i].0 == p && draws@[i].1 == false);
        }
    }
    Ok(m)
}

} // verus!

//! Which place each particle has in a pattern's figure, by its index among all particles.

use vstd::prelude::*;

verus! {

/// How many particles the monitor moves.
pub const PARTICLE_COUNT: usize = 4356;

/// The parts of the chip figure.
#[derive(Clone, Copy, Debug, PartialEq, Eq, Structural)]
pub enum ChipRegion {
    /// The square body.
    Die,
    /// The frame round the body.
    Border,
    /// The leads that stand out of the frame.
    Pin,
}

/// The parts of the head figure.
#[derive(Clone, Copy, Debug, PartialEq, Eq, Structural)]
pub enum HeadPart {
    Skull,
    Neck,
    Face,
}

impl ChipRegion {
    /// The number that marks the particles of the region.
    pub fn layer(&self) -> (r: u8)
        ensures
            r == match self {
                ChipRegion::Die => 0u8,
                ChipRegion::Border => 3u8,
                ChipRegion::Pin => 2u8,
            },
    {
        match self {
            ChipRegion::Die => 0,
            ChipRegion::Border => 3,
            ChipRegion::Pin => 2,
        }
    }

    /// The size of the region's points, in tenths.
    pub fn point_size(&self) -> (r: u8)
        ensures
            r == match self {
                ChipRegion::Die => 30u8,
                ChipRegion::Border => 18u8,
                ChipRegion::Pin => 20u8,
            },
    {
        match self {
            ChipRegion::Die => 30,
            ChipRegion::Border => 18,
            ChipRegion::Pin => 20,
        }
    }
}

/// The region of particle `i` of `n`: the first half is the die, what follows up to 66 in a
/// hundred the border, and the rest the pins.
pub open spec fn region_of(i: int, n: int) -> ChipRegion {
    if 2 * i < n {
        ChipRegion::Die
    } else if 100 * i < 66 * n {
        ChipRegion::Border
    } else {
        ChipRegion::Pin
    }
}

/// The region of particle `i` of `n`.
pub fn chip_region(i: usize, n: usize) -> (r: ChipRegion)
    requires
        i < n,
    ensures
        r == region_of(i as int, n as int),
{
    let at: u128 = i as u128;
    let all: u128 = n as u128;
    if 2 * at < all {
        ChipRegion::Die
    } else if 100 * at < 66 * all {
        ChipRegion::Border
    } else {
        ChipRegion::Pin
    }
}

/// The part of the head that particle `i` of `n` belongs to: seven in ten to the skull, the next
/// two to the neck, the last to the face.
pub open spec fn part_of(i: int, n: int) -> HeadPart {
    if 10 * i < 7 * n {
        HeadPart::Skull
    } else if 10 * i < 9 * n {
        HeadPart::Neck
    } else {
        HeadPart::Face
    }
}

/// The part of the head that particle `i` of `n` belongs to.
pub fn head_part(i: usize, n: usize) -> (r: HeadPart)
    requires
        i < n,
    ensures
        r == part_of(i as int, n as int),
{
    let at: u128 = i as u128;
    let all: u128 = n as u128;
    if 10 * at < 7 * all {
        HeadPart::Skull
    } else if 10 * at < 9 * all {
        HeadPart::Neck
    } else {
        HeadPart::Face
    }
}

/// The ring of particle `i` of `n`, counted from the centre, where the rings share the particles
/// evenly and in order.
pub open spec fn ring_of(i: int, n: int, rings: int) -> int {
    (i * rings) / n
}

/// The ring of particle `i` of `n` in a figure of concentric rings.
pub fn ring_index(i: usize, n: usize, rings: u8) -> (r: u8)
    requires
        i < n,
        rings > 0,
    ensures
        r == ring_of(i as int, n as int, rings as int),
        r < rings,
{
    let ghost at = i as int;
    let ghost all = n as int;
    let ghost parts = rings as int;
    proof {
        assert(0 <= at * parts) by (nonlinear_arith)
            requires
                0 <= at,
                0 < parts,
        ;
        assert(at * parts <= usize::MAX * 255) by (nonlinear_arith)
            requires
                0 <= at <= usize::MAX,
                0 < parts <= 255,
        ;
        assert(0 <= (at * parts) / all < parts) by (nonlinear_arith)
            requires
                0 <= at < all,
                0 < parts,
        ;
    }
    let share: u128 = (i as u128 * rings as u128) / (n as u128);
    share as u8
}

/// The column and row of item `i` in a grid of some columns.
pub fn grid_cell(i: usize, cols: usize) -> (r: (usize, usize))
    requires
        cols > 0,
    ensures
        r.0 == i as int % (cols as int),
        r.1 == i as int / (cols as int),
{
    (i % cols, i / cols)
}

/// The keys that tell the particles of a figure apart.
pub struct ParticleKeys {
    /// The cluster of the particle, one of eight.
    pub process_id: u8,
    /// The size of its point, one of three.
    pub size_step: u8,
    /// Its place in a cycle of 64.
    pub phase_step: u8,
}

/// The keys of particle `i`.
pub fn particle_keys(i: usize) -> (r: ParticleKeys)
    ensures
        r.process_id == i as int % 8,
        r.size_step == i as int % 3,
        r.phase_step == i as int % 64,
{
    ParticleKeys {
        process_id: (i % 8) as u8,
        size_step: (i % 3) as u8,
        phase_step: (i % 64) as u8,
    }
}

/// The regions of the chip are three runs of particles in order, and their sizes are the shares
/// of a half and of 66 in a hundred, rounded up.
pub proof fn law_chip_shares(i: int, n: int)
    requires
        0 <= i < n,
    ensures
        region_of(i, n) == ChipRegion::Die <==> i < (n + 1) / 2,
        region_of(i, n) == ChipRegion::Border <==> (n + 1) / 2 <= i < (66 * n + 99) / 100,
        region_of(i, n) == ChipRegion::Pin <==> i >= (66 * n + 99) / 100,
{
}

/// Every ring of a figure holds a particle, if there are at least as many particles as rings,
/// and the rings follow one another outward.
pub proof fn law_every_ring_is_used(n: int, rings: int, ring: int)
    requires
        0 < rings <= n,
        0 <= ring < rings,
    ensures
        exists|i: int| 0 <= i < n && #[trigger] ring_of(i, n, rings) == ring,
        forall|i: int, j: int|
            0 <= i <= j < n ==> #[trigger] ring_of(i, n, rings) <= #[trigger] ring_of(j, n, rings),
{
    // The first particle of a ring is the ring's share of the particles, rounded up.
    let i = (ring * n + rings - 1) / rings;
    assert(ring * n <= i * rings < ring * n + rings) by (nonlinear_arith)
        requires
            i == (ring * n + rings - 1) / rings,
            0 < rings,
    ;
    assert(0 <= i < n) by (nonlinear_arith)
        requires
            ring * n <= i * rings < ring * n + rings,
            0 <= ring < rings <= n,
    ;
    assert((i * rings) / n == ring) by (nonlinear_arith)
        requires
            ring * n <= i * rings < ring * n + rings,
            0 < rings <= n,
            0 <= ring,
    ;
    assert(ring_of(i, n, rings) == ring);
    assert forall|a: int, b: int| 0 <= a <= b < n implies #[trigger] ring_of(a, n, rings)
        <= #[trigger] ring_of(b, n, rings) by {
        assert(a * rings <= b * rings) by (nonlinear_arith)
            requires
                a <= b,
                0 < rings,
        ;
        vstd::arithmetic::div_mod::lemma_div_is_ordered(a * rings, b * rings, n);
    }
}

/// No two items of a grid share a cell.
pub proof fn law_grid_cells_are_distinct(i: int, j: int, cols: int)
    requires
        0 <= i,
        0 <= j,
        0 < cols,
        i % cols == j % cols,
        i / cols == j / cols,
    ensures
        i == j,
{
    vstd::arithmetic::div_mod::lemma_fundamental_div_mod(i, cols);
    vstd::arithmetic::div_mod::lemma_fundamental_div_mod(j, cols);
}

/// The parts of the head are three runs of particles in order, and their sizes are the shares of
/// seven and of nine in ten, rounded up.
pub proof fn law_head_shares(i: int, n: int)
    requires
        0 <= i < n,
    ensures
        part_of(i, n) == HeadPart::Skull <==> i < (7 * n + 9) / 10,
        part_of(i, n) == HeadPart::Neck <==> (7 * n + 9) / 10 <= i < (9 * n + 9) / 10,
        part_of(i, n) == HeadPart::Face <==> i >= (9 * n + 9) / 10,
{
}

/// A ring holds the particles of its share: of so many rings, ring `k` begins where `k` shares
/// of the particles end, and ends where one more does.
pub proof fn law_rings_share_evenly(i: int, n: int, rings: int, k: int)
    requires
        0 <= i < n,
        0 < rings,
    ensures
        ring_of(i, n, rings) == k <==> k * n <= i * rings < (k + 1) * n,
{
    let at = i * rings;
    if at / n == k {
        assert(k * n <= at < (k + 1) * n) by (nonlinear_arith)
            requires
                at / n == k,
                0 < n,
        ;
    }
    if k * n <= at < (k + 1) * n {
        assert(at / n == k) by (nonlinear_arith)
            requires
                k * n <= at < (k + 1) * n,
                0 < n,
        ;
    }
}

/// The particles fill a square grid: as many columns as rows, and no cell left over.
pub proof fn law_particles_fill_a_square(i: int)
    requires
        0 <= i < PARTICLE_COUNT,
    ensures
        PARTICLE_COUNT == 66 * 66,
        0 <= i % 66 < 66,
        0 <= i / 66 < 66,
{
}

} // verus!

//! Where lightning strikes: the search for two particles far apart, and how a bolt branches.

use vstd::prelude::*;

use crate::outside::{draw_below, drawn};

verus! {

/// How many pairs a search tries.
pub const MAX_ATTEMPTS: u32 = 20;

/// How many segments the main bolt has.
pub const BOLT_SEGMENTS: usize = 12;

/// A search for two particles that a bolt can join.
pub struct StrikeSearch {
    pub attempts: u32,
    pub chosen: Option<(usize, usize)>,
}

impl StrikeSearch {
    /// A search that has tried nothing yet.
    pub fn new() -> (r: Self)
        ensures
            r.attempts == 0,
            r.chosen is None,
    {
        StrikeSearch { attempts: 0, chosen: None }
    }

    /// The search goes on until a pair is chosen or the attempts are used up.
    pub open spec fn open(self) -> bool {
        self.chosen is None && self.attempts < MAX_ATTEMPTS
    }

    /// Whether the search goes on.
    pub fn is_open(&self) -> (r: bool)
        ensures
            r == self.open(),
    {
        self.chosen.is_none() && self.attempts < MAX_ATTEMPTS
    }

    /// Offers a pair: two different particles that are far apart are chosen, anything else uses
    /// up an attempt.
    pub fn offer(&mut self, first: usize, second: usize, far_apart: bool)
        requires
            old(self).open(),
        ensures
            first != second && far_apart ==> final(self).chosen == Some((first, second))
                && final(self).attempts == old(self).attempts,
            first == second || !far_apart ==> final(self).chosen is None && final(self).attempts
                == old(self).attempts + 1,
    {
        if first != second && far_apart {
            self.chosen = Some((first, second));
        } else {
            self.attempts = self.attempts + 1;
        }
    }
}

/// A pair that a bolt can join, by the test `far`.
pub open spec fn accepted<F: Fn(usize, usize) -> bool>(pair: (usize, usize), far: F) -> bool {
    pair.0 != pair.1 && far.ensures(pair, true)
}

/// A pair that a search with the test `far` passes over.
pub open spec fn passed_over<F: Fn(usize, usize) -> bool>(pair: (usize, usize), far: F) -> bool {
    pair.0 == pair.1 || far.ensures(pair, false)
}

/// `r` is what a search that drew these pairs in turn comes to: the last of them, where it is
/// accepted and all before it were passed over; nothing, where all were and no attempt is left.
pub open spec fn searched<F: Fn(usize, usize) -> bool>(
    draws: Seq<(usize, usize)>,
    far: F,
    r: Option<(usize, usize)>,
) -> bool {
    match r {
        Some(pair) => {
            &&& 0 < draws.len() <= MAX_ATTEMPTS
            &&& draws.last() == pair
            &&& accepted(pair, far)
            &&& forall|i: int| 0 <= i < draws.len() - 1 ==> passed_over(#[trigger] draws[i], far)
        },
        None => {
            &&& draws.len() == MAX_ATTEMPTS
            &&& forall|i: int| 0 <= i < draws.len() ==> passed_over(#[trigger] draws[i], far)
        },
    }
}

/// Takes pairs from `draw`, which is told how many attempts were used up, until one holds two
/// different particles that `far` finds far enough apart, and gives up after a number of attempts.
pub fn search_strike<D: Fn(u32) -> (usize, usize), F: Fn(usize, usize) -> bool>(
    draw: D,
    far: F,
) -> (r: Option<(usize, usize)>)
    requires
        forall|i: u32| i < MAX_ATTEMPTS ==> #[trigger] draw.requires((i,)),
        forall|i: u32, pair: (usize, usize)|
            i < MAX_ATTEMPTS && #[trigger] draw.ensures((i,), pair) && pair.0 != pair.1
                ==> far.requires(pair),
    ensures
        exists|draws: Seq<(usize, usize)>|
            {
                &&& #[trigger] searched(draws, far, r)
                &&& forall|i: int|
                    0 <= i < draws.len() ==> draw.ensures((i as u32,), #[trigger] draws[i])
            },
{
    let mut search = StrikeSearch::new();
    let ghost mut draws: Seq<(usize, usize)> = Seq::empty();
    while search.is_open()
        invariant
            forall|i: u32| i < MAX_ATTEMPTS ==> #[trigger] draw.requires((i,)),
            forall|i: u32, pair: (usize, usize)|
                i < MAX_ATTEMPTS && #[trigger] draw.ensures((i,), pair) && pair.0 != pair.1
                    ==> far.requires(pair),
            search.attempts <= MAX_ATTEMPTS,
            forall|i: int|
                0 <= i < draws.len() ==> draw.ensures((i as u32,), #[trigger] draws[i]),
            match search.chosen {
                Some(pair) => searched(draws, far, Some(pair)),
                None => draws.len() == search.attempts && forall|i: int|
                    0 <= i < draws.len() ==> passed_over(#[trigger] draws[i], far),
            },
        decreases
            MAX_ATTEMPTS - search.attempts,
            if search.chosen is None {
                1int
            } else {
                0int
            },
    {
        let (first, second): (usize, usize) = draw(search.attempts);
        let far_apart: bool = first != second && far(first, second);
        search.offer(first, second, far_apart);
        proof {
            draws = draws.push((first, second));
        }
    }
    assert(searched(draws, far, search.chosen));
    search.chosen
}

/// The two ends of a bolt, each drawn on its own: `draw` is told whether it is for the far end.
pub fn draw_ends<D: Fn(bool) -> usize>(draw: D) -> (r: (usize, usize))
    requires
        forall|far_end: bool| #[trigger] draw.requires((far_end,)),
    ensures
        draw.ensures((false,), r.0),
        draw.ensures((true,), r.1),
{
    let first: usize = draw(false);
    let second: usize = draw(true);
    (first, second)
}

/// Draws pairs out of `n` particles by chance until one holds two different particles that `far`
/// finds far enough apart, and gives up after a number of attempts. Which pairs are drawn is left
/// to chance.
pub fn pick_strike<F: Fn(usize, usize) -> bool>(n: usize, far: F) -> (r: Option<(usize, usize)>)
    requires
        n > 0,
        forall|a: usize, b: usize| a < n && b < n ==> #[trigger] far.requires((a, b)),
    ensures
        exists|draws: Seq<(usize, usize)>|
            {
                &&& #[trigger] searched(draws, far, r)
                &&& forall|i: int|
                    0 <= i < draws.len() ==> drawn(n, (#[trigger] draws[i]).0) && drawn(
                        n,
                        draws[i].1,
                    )
            },
        r matches Some(pair) ==> pair.0 < n && pair.1 < n && accepted(pair, far),
        n == 1 ==> r is None,
{
    let draw_end = |far_end: bool| -> (end: usize)
        ensures
            drawn(n, end),
            n > end,
        { draw_below(n) };
    let draw = |attempt: u32| -> (pair: (usize, usize))
        ensures
            draw_end.ensures((false,), pair.0),
            draw_end.ensures((true,), pair.1),
        { draw_ends(draw_end) };
    search_strike(draw, far)
}

/// How many branches a bolt throws, for a draw of 0 or 1.
pub fn branches_for(draw: usize) -> (r: usize)
    requires
        draw < 2,
    ensures
        r == 2 + draw,
{
    2 + draw
}

/// How many branches a bolt throws: two or three, left to chance.
pub fn branch_count() -> (r: usize)
    ensures
        exists|draw: usize| #[trigger] drawn(2, draw) && r == 2 + draw,
        r == 2 || r == 3,
{
    branches_for(draw_below(2))
}

/// The point of the main bolt where a branch leaves, for a wish that may lie outside: never one
/// of its two ends.
pub fn branch_start(wish: usize) -> (r: usize)
    ensures
        0 < r < BOLT_SEGMENTS,
        0 < wish < BOLT_SEGMENTS ==> r == wish,
        wish == 0 ==> r == 1,
        wish >= BOLT_SEGMENTS ==> r == BOLT_SEGMENTS - 1,
{
    if wish < 1 {
        1
    } else if wish > BOLT_SEGMENTS - 1 {
        BOLT_SEGMENTS - 1
    } else {
        wish
    }
}

/// A search that has taken no pair and used fewer than twenty attempts goes on, and no other.
pub proof fn law_search_goes_on(search: StrikeSearch)
    ensures
        search.open() <==> search.chosen is None && search.attempts < 20,
{
}

/// A search that ends in a pair drew it last, found its two particles different and far apart,
/// and passed over every pair before it; one that ends in nothing passed over twenty. A pair is
/// passed over where its particles are the same or not far apart.
pub proof fn law_search_takes_the_first_good_pair<F: Fn(usize, usize) -> bool>(
    draws: Seq<(usize, usize)>,
    far: F,
    r: Option<(usize, usize)>,
)
    requires
        searched(draws, far, r),
    ensures
        match r {
            Some(pair) => {
                &&& 0 < draws.len() <= 20
                &&& draws[draws.len() - 1] == pair
                &&& pair.0 != pair.1
                &&& far.ensures(pair, true)
                &&& forall|i: int|
                    0 <= i < draws.len() - 1 ==> (#[trigger] draws[i]).0 == draws[i].1
                        || far.ensures(draws[i], false)
            },
            None => {
                &&& draws.len() == 20
                &&& forall|i: int|
                    0 <= i < draws.len() ==> (#[trigger] draws[i]).0 == draws[i].1 || far.ensures(
                        draws[i],
                        false,
                    )
            },
        },
{
}

} // verus!

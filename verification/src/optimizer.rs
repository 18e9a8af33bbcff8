//! The decisions of the hill-climbing search over deck configurations.
//!
//! Each iteration measures a configuration and its two neighbours, appends
//! the three results to the history and decides: move on, declare an
//! optimum, or ask for a tie-break. Running the batches is the caller's part.

use vstd::prelude::*;
use vstd::arithmetic::mul::lemma_mul_upper_bound;
use crate::history::{sum, Config, ResultHistory, BATCH_SIZE, MAX_SAMPLES};

verus! {

/// Samples a configuration needs before it can be declared optimal.
pub const MIN_SAMPLES: usize = 3;

/// A configuration and its two neighbours at distance one.
#[derive(Clone, Copy, Debug, PartialEq, Eq, Structural)]
pub struct Neighbors {
    pub current: Config,
    pub more_lands: Config,
    pub more_nonlands: Config,
}

/// What the search does after an iteration.
#[derive(Debug)]
pub enum Decision {
    /// Too little data: continue from this configuration.
    Move(Config),
    /// A single best configuration: the search is over.
    Optimal(Config),
    /// Several configurations are tied: measure each once more.
    TieBreak(Vec<Config>),
}

/// Both neighbours of `c` exist within `u32`.
pub open spec fn has_neighbors(c: Config) -> bool {
    1 <= c.lands < u32::MAX && 1 <= c.nonlands < u32::MAX
}

/// The three configurations measured around `c`.
pub open spec fn neighbors_spec(c: Config) -> Neighbors {
    Neighbors {
        current: c,
        more_lands: Config { lands: (c.lands + 1) as u32, nonlands: (c.nonlands - 1) as u32 },
        more_nonlands: Config { lands: (c.lands - 1) as u32, nonlands: (c.nonlands + 1) as u32 },
    }
}

/// The configuration with the lowest of the three results; the earlier one
/// in the order current, more lands, more non-lands wins among equals.
pub open spec fn best_of_three(n: Neighbors, r0: u32, r1: u32, r2: u32) -> Config {
    if r0 <= r1 && r0 <= r2 {
        n.current
    } else if r1 <= r2 {
        n.more_lands
    } else {
        n.more_nonlands
    }
}

/// The mean of `ka` samples that sum to `sa` is at least a hundredth of a
/// turn above the mean of `kb` samples that sum to `sb`. A sample is a batch
/// total, so a mean in turns is `sa / (ka * BATCH_SIZE)`.
pub open spec fn exceeds_by_tolerance(sa: int, ka: int, sb: int, kb: int) -> bool {
    100 * (sa * kb - sb * ka) >= ka * kb * BATCH_SIZE
}

/// `c` has enough samples to take part in the final decision.
pub open spec fn qualified(h: ResultHistory, c: Config) -> bool {
    h.samples(c).len() >= MIN_SAMPLES
}

/// Some configuration has enough samples.
pub open spec fn any_qualified(h: ResultHistory) -> bool {
    exists|c: Config| qualified(h, c)
}

/// The mean of `c` is less than a hundredth of a turn above the lowest mean
/// among the qualified configurations, `c` being one of them.
pub open spec fn tied(h: ResultHistory, c: Config) -> bool {
    &&& qualified(h, c)
    &&& forall|d: Config| #[trigger]
        qualified(h, d) ==> !exceeds_by_tolerance(
            sum(h.samples(c)),
            h.samples(c).len() as int,
            sum(h.samples(d)),
            h.samples(d).len() as int,
        )
}

/// The tied configurations among the first `n` listed, in listing order.
pub open spec fn tied_prefix(h: ResultHistory, n: int) -> Seq<Config>
    decreases n,
{
    if n <= 0 {
        Seq::empty()
    } else if tied(h, h.configs()[n - 1]) {
        tied_prefix(h, n - 1).push(h.configs()[n - 1])
    } else {
        tied_prefix(h, n - 1)
    }
}

/// All tied configurations, in the order of their first recording.
pub open spec fn tied_configs(h: ResultHistory) -> Seq<Config> {
    tied_prefix(h, h.configs().len() as int)
}

/// The decision that the history `h` and the three fresh results call for.
pub open spec fn decision_spec(h: ResultHistory, n: Neighbors, r0: u32, r1: u32, r2: u32, d: Decision) -> bool {
    match d {
        Decision::Move(c) => !any_qualified(h) && c == best_of_three(n, r0, r1, r2),
        Decision::Optimal(c) => any_qualified(h) && tied_configs(h).len() == 1 && c
            == tied_configs(h)[0],
        Decision::TieBreak(v) => any_qualified(h) && tied_configs(h).len() != 1 && v@
            == tied_configs(h),
    }
}

/// `after` is `before` with one result appended for each of the three
/// configurations of `n`, and nothing else changed.
pub open spec fn recorded(before: ResultHistory, after: ResultHistory, n: Neighbors, r0: u32, r1: u32, r2: u32) -> bool {
    &&& after.samples(n.current) == before.samples(n.current).push(r0)
    &&& after.samples(n.more_lands) == before.samples(n.more_lands).push(r1)
    &&& after.samples(n.more_nonlands) == before.samples(n.more_nonlands).push(r2)
    &&& forall|d: Config|
        d != n.current && d != n.more_lands && d != n.more_nonlands ==> (
        #[trigger] after.samples(d)) == before.samples(d)
}

/// `i` is the first position of the smallest value of `s`.
pub open spec fn is_first_min(s: Seq<u32>, i: int) -> bool {
    &&& 0 <= i < s.len()
    &&& forall|j: int| 0 <= j < s.len() ==> s[i] <= s[j]
    &&& forall|j: int| 0 <= j < i ==> s[i] < s[j]
}

/// The three configurations to measure around `c`: itself, one more land
/// for one card less of the others, and the reverse. `None` where a count
/// would leave `u32`.
pub fn neighbors(c: Config) -> (r: Option<Neighbors>)
    ensures
        r.is_some() == has_neighbors(c),
        r.is_some() ==> r.unwrap() == neighbors_spec(c),
        r.is_some() ==> {
            let n = r.unwrap();
            &&& n.current == c
            &&& n.more_lands.lands == c.lands + 1
            &&& n.more_lands.nonlands == c.nonlands - 1
            &&& n.more_nonlands.lands == c.lands - 1
            &&& n.more_nonlands.nonlands == c.nonlands + 1
            &&& n.more_lands.deck_size() == c.deck_size()
            &&& n.more_nonlands.deck_size() == c.deck_size()
        },
{
    if c.lands == 0 || c.nonlands == 0 || c.lands == u32::MAX || c.nonlands == u32::MAX {
        None
    } else {
        Some(
            Neighbors {
                current: c,
                more_lands: Config { lands: c.lands + 1, nonlands: c.nonlands - 1 },
                more_nonlands: Config { lands: c.lands - 1, nonlands: c.nonlands + 1 },
            },
        )
    }
}

/// Picks the configuration with the lowest of the three fresh results.
pub fn pick_best_of_three(n: &Neighbors, r0: u32, r1: u32, r2: u32) -> (c: Config)
    ensures
        c == best_of_three(*n, r0, r1, r2),
{
    if r0 <= r1 && r0 <= r2 {
        n.current
    } else if r1 <= r2 {
        n.more_lands
    } else {
        n.more_nonlands
    }
}

/// Compares two means, each given by its sum and its number of samples,
/// exactly in integers.
pub fn mean_exceeds(sa: u64, ka: u32, sb: u64, kb: u32) -> (r: bool)
    ensures
        r == exceeds_by_tolerance(sa as int, ka as int, sb as int, kb as int),
{
    proof {
        lemma_mul_upper_bound(sa as int, 0xFFFF_FFFF_FFFF_FFFF, kb as int, 0xFFFF_FFFF);
        lemma_mul_upper_bound(sb as int, 0xFFFF_FFFF_FFFF_FFFF, ka as int, 0xFFFF_FFFF);
        lemma_mul_upper_bound(ka as int, 0xFFFF_FFFF, kb as int, 0xFFFF_FFFF);
        assert(0 <= (sa as int) * (kb as int)) by (nonlinear_arith);
        assert(0 <= (sb as int) * (ka as int)) by (nonlinear_arith);
        assert(0 <= (ka as int) * (kb as int)) by (nonlinear_arith);
    }
    let x: u128 = (sa as u128) * (kb as u128);
    let y: u128 = (sb as u128) * (ka as u128);
    let kk: u128 = (ka as u128) * (kb as u128);
    let batch: u128 = BATCH_SIZE as u128;
    assert(kk * batch == kk * 100) by (nonlinear_arith)
        requires
            batch == 100,
    ;
    let bound: u128 = kk * batch;
    if x < y {
        false
    } else {
        100 * (x - y) >= bound
    }
}

/// A configuration with samples is listed in the history.
proof fn lemma_sampled_is_listed(h: ResultHistory, c: Config)
    requires
        h.samples(c).len() > 0,
    ensures
        h.configs().contains(c),
        0 <= h.configs().index_of(c) < h.configs().len(),
        h.configs()[h.configs().index_of(c)] == c,
{
}

/// Whether some configuration has at least `MIN_SAMPLES` samples.
pub fn has_qualified(h: &ResultHistory) -> (r: bool)
    requires
        h.wf(),
    ensures
        r == any_qualified(*h),
{
    let n = h.num_configs();
    let mut i: usize = 0;
    while i < n
        invariant
            h.wf(),
            n == h.configs().len(),
            i <= n,
            forall|j: int| 0 <= j < i ==> !qualified(*h, #[trigger] h.configs()[j]),
        decreases n - i,
    {
        let c = h.config_at(i);
        if h.sample_count(c) >= MIN_SAMPLES {
            assert(qualified(*h, c));
            return true;
        }
        i += 1;
    }
    proof {
        assert forall|c: Config| !qualified(*h, c) by {
            if qualified(*h, c) {
                lemma_sampled_is_listed(*h, c);
                let j = h.configs().index_of(c);
                assert(!qualified(*h, h.configs()[j]));
            }
        }
    }
    false
}

/// Whether `c` is qualified and its mean is within the tolerance of the
/// lowest qualified mean.
pub fn is_tied(h: &ResultHistory, c: Config) -> (r: bool)
    requires
        h.wf(),
    ensures
        r == tied(*h, c),
{
    let kc = h.sample_count(c);
    if kc < MIN_SAMPLES {
        return false;
    }
    let sc = h.total(c);
    let n = h.num_configs();
    let mut i: usize = 0;
    while i < n
        invariant
            h.wf(),
            n == h.configs().len(),
            i <= n,
            kc == h.samples(c).len(),
            kc <= MAX_SAMPLES,
            sc == sum(h.samples(c)),
            qualified(*h, c),
            forall|j: int|
                0 <= j < i && qualified(*h, #[trigger] h.configs()[j]) ==> !exceeds_by_tolerance(
                    sum(h.samples(c)),
                    h.samples(c).len() as int,
                    sum(h.samples(h.configs()[j])),
                    h.samples(h.configs()[j]).len() as int,
                ),
        decreases n - i,
    {
        let d = h.config_at(i);
        let kd = h.sample_count(d);
        if kd >= MIN_SAMPLES {
            let sd = h.total(d);
            if mean_exceeds(sc, kc as u32, sd, kd as u32) {
                assert(qualified(*h, d));
                return false;
            }
        }
        i += 1;
    }
    proof {
        assert forall|d: Config| #[trigger] qualified(*h, d) implies !exceeds_by_tolerance(
            sum(h.samples(c)),
            h.samples(c).len() as int,
            sum(h.samples(d)),
            h.samples(d).len() as int,
        ) by {
            lemma_sampled_is_listed(*h, d);
            let j = h.configs().index_of(d);
            assert(qualified(*h, h.configs()[j]));
        }
    }
    true
}

/// Collects the tied configurations in the order of their first recording.
pub fn collect_tied(h: &ResultHistory) -> (v: Vec<Config>)
    requires
        h.wf(),
    ensures
        v@ == tied_configs(*h),
{
    let n = h.num_configs();
    let mut v: Vec<Config> = Vec::new();
    let mut i: usize = 0;
    while i < n
        invariant
            h.wf(),
            n == h.configs().len(),
            i <= n,
            v@ == tied_prefix(*h, i as int),
        decreases n - i,
    {
        let c = h.config_at(i);
        if is_tied(h, c) {
            v.push(c);
        }
        i += 1;
    }
    v
}

/// Decides what follows an iteration whose three results are already in the
/// history: with no qualified configuration, move to the best of the three;
/// otherwise declare the single tied configuration optimal, or hand back the
/// tied ones, two or more, for a tie-break.
pub fn decide(h: &ResultHistory, n: &Neighbors, r0: u32, r1: u32, r2: u32) -> (d: Decision)
    requires
        h.wf(),
    ensures
        decision_spec(*h, *n, r0, r1, r2, d),
        d matches Decision::TieBreak(v) ==> v@.len() >= 2,
{
    if !has_qualified(h) {
        return Decision::Move(pick_best_of_three(n, r0, r1, r2));
    }
    let v = collect_tied(h);
    proof {
        crate::search_laws::lemma_some_config_is_tied(*h);
    }
    if v.len() == 1 {
        Decision::Optimal(v[0])
    } else {
        Decision::TieBreak(v)
    }
}

/// One iteration of the search: appends the three results measured around
/// `current` to the history, in the order current, more lands, more
/// non-lands, and decides on the history so extended.
pub fn step(h: &mut ResultHistory, current: Config, r0: u32, r1: u32, r2: u32) -> (d: Decision)
    requires
        old(h).wf(),
        has_neighbors(current),
        old(h).samples(neighbors_spec(current).current).len() < MAX_SAMPLES,
        old(h).samples(neighbors_spec(current).more_lands).len() < MAX_SAMPLES,
        old(h).samples(neighbors_spec(current).more_nonlands).len() < MAX_SAMPLES,
    ensures
        final(h).wf(),
        recorded(*old(h), *final(h), neighbors_spec(current), r0, r1, r2),
        decision_spec(*final(h), neighbors_spec(current), r0, r1, r2, d),
        d matches Decision::TieBreak(v) ==> v@.len() >= 2,
{
    let n = Neighbors {
        current,
        more_lands: Config { lands: current.lands + 1, nonlands: current.nonlands - 1 },
        more_nonlands: Config { lands: current.lands - 1, nonlands: current.nonlands + 1 },
    };
    h.record(n.current, r0);
    h.record(n.more_lands, r1);
    h.record(n.more_nonlands, r2);
    decide(h, &n, r0, r1, r2)
}

/// Position of the lowest extra result; the first one among equals.
pub fn first_min_index(extras: &Vec<u32>) -> (i: usize)
    requires
        extras.len() > 0,
    ensures
        is_first_min(extras@, i as int),
{
    let mut best: usize = 0;
    let mut k: usize = 1;
    while k < extras.len()
        invariant
            1 <= k <= extras.len(),
            best < k,
            forall|j: int| 0 <= j < k ==> extras@[best as int] <= extras@[j],
            forall|j: int| 0 <= j < best ==> extras@[best as int] < extras@[j],
        decreases extras.len() - k,
    {
        if extras[k] < extras[best] {
            best = k;
        }
        k += 1;
    }
    best
}

/// Resolves a tie: `extras[i]` is the one extra result measured for
/// `tied[i]`, and the winner is the configuration with the lowest extra
/// result, the first such among equals.
pub fn tiebreak_winner(tied: &Vec<Config>, extras: &Vec<u32>) -> (c: Config)
    requires
        tied.len() == extras.len(),
        tied.len() > 0,
    ensures
        exists|i: int| is_first_min(extras@, i) && c == tied@[i],
        forall|i: int| is_first_min(extras@, i) ==> c == tied@[i],
{
    let i = first_min_index(extras);
    proof {
        assert forall|j: int| is_first_min(extras@, j) implies j == i by {
            if j < i {
                assert(extras@[i as int] < extras@[j]);
            } else if i < j {
                assert(extras@[j] < extras@[i as int]);
            }
        }
    }
    tied[i]
}

} // verus!

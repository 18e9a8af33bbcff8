//! What holds of the search's decisions, whatever the history.

use vstd::prelude::*;
use crate::history::{sum, Config, ResultHistory, BATCH_SIZE};
use crate::optimizer::{
    any_qualified, decision_spec, exceeds_by_tolerance, has_neighbors, neighbors_spec, qualified,
    recorded, tied, tied_configs, tied_prefix, Decision,
};

verus! {

/// The tied configurations among the first `n` listed are listed once each,
/// and they are exactly the listed configurations that are tied.
pub proof fn lemma_tied_prefix(h: ResultHistory, n: int)
    requires
        h.wf(),
        0 <= n <= h.configs().len(),
    ensures
        forall|c: Config| #[trigger]
            tied_prefix(h, n).contains(c) <==> (tied(h, c) && h.configs().take(n).contains(c)),
        tied_prefix(h, n).no_duplicates(),
    decreases n,
{
    if n > 0 {
        lemma_tied_prefix(h, n - 1);
        let prev = tied_prefix(h, n - 1);
        let cur = tied_prefix(h, n);
        let x = h.configs()[n - 1];
        let before = h.configs().take(n - 1);
        let upto = h.configs().take(n);
        assert(upto =~= before.push(x));
        assert(!before.contains(x)) by {
            if before.contains(x) {
                let j = choose|j: int| 0 <= j < before.len() && before[j] == x;
                assert(h.configs()[j] == h.configs()[n - 1]);
            }
        }
        assert(!prev.contains(x));
        assert forall|c: Config| #[trigger] cur.contains(c) <==> (tied(h, c) && upto.contains(
            c,
        )) by {
            if cur.contains(c) {
                let i = choose|i: int| 0 <= i < cur.len() && cur[i] == c;
                if tied(h, x) && i == prev.len() {
                    assert(upto[n - 1] == c);
                } else {
                    assert(prev[i] == c);
                    assert(prev.contains(c));
                    let j = choose|j: int| 0 <= j < before.len() && before[j] == c;
                    assert(upto[j] == c);
                }
            }
            if tied(h, c) && upto.contains(c) {
                let j = choose|j: int| 0 <= j < upto.len() && upto[j] == c;
                if j == n - 1 {
                    assert(cur[prev.len() as int] == c);
                } else {
                    assert(before[j] == c);
                    assert(before.contains(c));
                    assert(prev.contains(c));
                    let i = choose|i: int| 0 <= i < prev.len() && prev[i] == c;
                    assert(cur[i] == c);
                }
            }
        }
    }
}

/// The list handed out for a tie-break names each tied configuration
/// exactly once, and nothing else.
pub proof fn lemma_tied_configs_exact(h: ResultHistory)
    requires
        h.wf(),
    ensures
        forall|c: Config| #[trigger] tied_configs(h).contains(c) <==> tied(h, c),
        tied_configs(h).no_duplicates(),
{
    let n = h.configs().len() as int;
    lemma_tied_prefix(h, n);
    assert(h.configs().take(n) =~= h.configs());
    assert forall|c: Config| #[trigger] tied_configs(h).contains(c) <==> tied(h, c) by {
        if tied(h, c) {
            assert(h.samples(c).len() > 0);
            assert(h.configs().contains(c));
        }
    }
}

/// Two different configurations that are both tied always lead to a
/// tie-break, never to a move or to an optimum, and the tie-break list holds
/// both of them, each tied configuration once.
pub proof fn lemma_two_tied_force_tiebreak(
    h: ResultHistory,
    a: Config,
    b: Config,
    current: Config,
    r0: u32,
    r1: u32,
    r2: u32,
    d: Decision,
)
    requires
        h.wf(),
        a != b,
        tied(h, a),
        tied(h, b),
        decision_spec(h, neighbors_spec(current), r0, r1, r2, d),
    ensures
        d is TieBreak,
        d->TieBreak_0@.contains(a),
        d->TieBreak_0@.contains(b),
        d->TieBreak_0@.no_duplicates(),
        forall|c: Config| #[trigger] d->TieBreak_0@.contains(c) <==> tied(h, c),
{
    lemma_tied_configs_exact(h);
    let t = tied_configs(h);
    assert(t.contains(a));
    assert(t.contains(b));
    let i = choose|i: int| 0 <= i < t.len() && t[i] == a;
    let j = choose|j: int| 0 <= j < t.len() && t[j] == b;
    assert(i != j);
    assert(t.len() >= 2);
    assert(qualified(h, a));
    assert(any_qualified(h));
}

/// After the first iteration on an empty history, each of the three measured
/// configurations has exactly its one result, every other configuration has
/// none, and no configuration is qualified yet.
pub proof fn lemma_first_iteration(
    before: ResultHistory,
    after: ResultHistory,
    current: Config,
    r0: u32,
    r1: u32,
    r2: u32,
)
    requires
        has_neighbors(current),
        forall|c: Config| (#[trigger] before.samples(c)).len() == 0,
        recorded(before, after, neighbors_spec(current), r0, r1, r2),
    ensures
        after.samples(neighbors_spec(current).current) == seq![r0],
        after.samples(neighbors_spec(current).more_lands) == seq![r1],
        after.samples(neighbors_spec(current).more_nonlands) == seq![r2],
        forall|c: Config| (#[trigger] after.samples(c)).len() <= 1,
        !any_qualified(after),
{
    let n = neighbors_spec(current);
    assert(before.samples(n.current) =~= Seq::<u32>::empty());
    assert(before.samples(n.more_lands) =~= Seq::<u32>::empty());
    assert(before.samples(n.more_nonlands) =~= Seq::<u32>::empty());
    assert(after.samples(n.current) =~= seq![r0]);
    assert(after.samples(n.more_lands) =~= seq![r1]);
    assert(after.samples(n.more_nonlands) =~= seq![r2]);
    assert forall|c: Config| (#[trigger] after.samples(c)).len() <= 1 by {
        if c != n.current && c != n.more_lands && c != n.more_nonlands {
            assert(after.samples(c) == before.samples(c));
        }
    }
}

/// Recording never replaces: after an iteration the sum of a measured
/// configuration's samples is the earlier sum plus the new result, and it
/// has one sample more.
pub proof fn lemma_recorded_accumulates(
    before: ResultHistory,
    after: ResultHistory,
    current: Config,
    r0: u32,
    r1: u32,
    r2: u32,
)
    requires
        has_neighbors(current),
        recorded(before, after, neighbors_spec(current), r0, r1, r2),
    ensures
        sum(after.samples(neighbors_spec(current).current)) == sum(
            before.samples(neighbors_spec(current).current),
        ) + r0,
        sum(after.samples(neighbors_spec(current).more_lands)) == sum(
            before.samples(neighbors_spec(current).more_lands),
        ) + r1,
        sum(after.samples(neighbors_spec(current).more_nonlands)) == sum(
            before.samples(neighbors_spec(current).more_nonlands),
        ) + r2,
        after.samples(neighbors_spec(current).current).len() == before.samples(
            neighbors_spec(current).current,
        ).len() + 1,
        after.samples(neighbors_spec(current).more_lands).len() == before.samples(
            neighbors_spec(current).more_lands,
        ).len() + 1,
        after.samples(neighbors_spec(current).more_nonlands).len() == before.samples(
            neighbors_spec(current).more_nonlands,
        ).len() + 1,
{
    let n = neighbors_spec(current);
    crate::history::lemma_sum_push(before.samples(n.current), r0);
    crate::history::lemma_sum_push(before.samples(n.more_lands), r1);
    crate::history::lemma_sum_push(before.samples(n.more_nonlands), r2);
}

/// The mean of `a` is at most the mean of `b`.
pub open spec fn mean_le(a: Seq<u32>, b: Seq<u32>) -> bool {
    sum(a) * b.len() <= sum(b) * a.len()
}

/// Of two means one is at most the other, and the order of means is
/// transitive over non-empty sample lists.
pub proof fn lemma_mean_order(a: Seq<u32>, b: Seq<u32>, c: Seq<u32>)
    requires
        a.len() > 0,
        b.len() > 0,
        c.len() > 0,
    ensures
        mean_le(a, b) || mean_le(b, a),
        mean_le(a, b) && mean_le(b, c) ==> mean_le(a, c),
{
    crate::history::lemma_sum_bound(a);
    crate::history::lemma_sum_bound(b);
    crate::history::lemma_sum_bound(c);
    let (sa, sb, sc) = (sum(a), sum(b), sum(c));
    let (ka, kb, kc) = (a.len() as int, b.len() as int, c.len() as int);
    if mean_le(a, b) && mean_le(b, c) {
        assert(sa * kc <= sc * ka) by (nonlinear_arith)
            requires
                sa * kb <= sb * ka,
                sb * kc <= sc * kb,
                ka > 0,
                kb > 0,
                kc > 0,
                sa >= 0,
                sb >= 0,
                sc >= 0,
        {
            assert((sa * kb) * kc <= (sb * ka) * kc);
            assert((sb * kc) * ka <= (sc * kb) * ka);
            assert((sa * kb) * kc == (sa * kc) * kb);
            assert((sb * ka) * kc == (sb * kc) * ka);
            assert((sc * kb) * ka == (sc * ka) * kb);
            assert((sa * kc) * kb <= (sc * ka) * kb);
        }
    }
}

/// A configuration whose mean is the lowest among the qualified ones is
/// tied.
pub proof fn lemma_lowest_is_tied(h: ResultHistory, m: Config)
    requires
        qualified(h, m),
        forall|d: Config| #[trigger] qualified(h, d) ==> mean_le(h.samples(m), h.samples(d)),
    ensures
        tied(h, m),
{
    assert forall|d: Config| #[trigger] qualified(h, d) implies !exceeds_by_tolerance(
        sum(h.samples(m)),
        h.samples(m).len() as int,
        sum(h.samples(d)),
        h.samples(d).len() as int,
    ) by {
        let km = h.samples(m).len() as int;
        let kd = h.samples(d).len() as int;
        assert(mean_le(h.samples(m), h.samples(d)));
        assert(km * kd * BATCH_SIZE > 0) by (nonlinear_arith)
            requires
                km >= 3,
                kd >= 3,
                BATCH_SIZE == 100,
        ;
    }
}

/// Among the first `n` listed configurations, if one is qualified, a
/// qualified one has the lowest mean.
proof fn lemma_lowest_in_prefix(h: ResultHistory, n: int) -> (m: Config)
    requires
        0 <= n <= h.configs().len(),
        exists|j: int| 0 <= j < n && qualified(h, #[trigger] h.configs()[j]),
    ensures
        qualified(h, m),
        forall|j: int|
            0 <= j < n && qualified(h, #[trigger] h.configs()[j]) ==> mean_le(
                h.samples(m),
                h.samples(h.configs()[j]),
            ),
    decreases n,
{
    let x = h.configs()[n - 1];
    if exists|j: int| 0 <= j < n - 1 && qualified(h, #[trigger] h.configs()[j]) {
        let m0 = lemma_lowest_in_prefix(h, n - 1);
        if !qualified(h, x) || mean_le(h.samples(m0), h.samples(x)) {
            m0
        } else {
            lemma_mean_order(h.samples(m0), h.samples(x), h.samples(x));
            assert forall|j: int|
                0 <= j < n && qualified(h, #[trigger] h.configs()[j]) implies mean_le(
                h.samples(x),
                h.samples(h.configs()[j]),
            ) by {
                if j < n - 1 {
                    lemma_mean_order(h.samples(x), h.samples(m0), h.samples(h.configs()[j]));
                }
            }
            x
        }
    } else {
        let j = choose|j: int| 0 <= j < n && qualified(h, #[trigger] h.configs()[j]);
        assert(j == n - 1);
        x
    }
}

/// Once some configuration is qualified, at least one configuration is
/// tied: a decision then names an optimum or a tie-break list that is not
/// empty.
pub proof fn lemma_some_config_is_tied(h: ResultHistory)
    requires
        h.wf(),
        any_qualified(h),
    ensures
        tied_configs(h).len() >= 1,
{
    let c = choose|c: Config| qualified(h, c);
    assert(h.configs().contains(c));
    let i = h.configs().index_of(c);
    assert(qualified(h, h.configs()[i]));
    let m = lemma_lowest_in_prefix(h, h.configs().len() as int);
    assert forall|d: Config| #[trigger] qualified(h, d) implies mean_le(
        h.samples(m),
        h.samples(d),
    ) by {
        assert(h.configs().contains(d));
        let j = h.configs().index_of(d);
        assert(qualified(h, h.configs()[j]));
    }
    lemma_lowest_is_tied(h, m);
    lemma_tied_configs_exact(h);
    assert(tied_configs(h).contains(m));
}

/// Where exactly two configurations are qualified and their means are less
/// than the tolerance apart, both are tied.
pub proof fn lemma_close_pair_both_tied(h: ResultHistory, a: Config, b: Config)
    requires
        qualified(h, a),
        qualified(h, b),
        forall|d: Config| #[trigger] qualified(h, d) ==> d == a || d == b,
        !exceeds_by_tolerance(
            sum(h.samples(a)),
            h.samples(a).len() as int,
            sum(h.samples(b)),
            h.samples(b).len() as int,
        ),
        !exceeds_by_tolerance(
            sum(h.samples(b)),
            h.samples(b).len() as int,
            sum(h.samples(a)),
            h.samples(a).len() as int,
        ),
    ensures
        tied(h, a),
        tied(h, b),
{
    let ka = h.samples(a).len() as int;
    let kb = h.samples(b).len() as int;
    assert(ka * ka * BATCH_SIZE > 0) by (nonlinear_arith)
        requires
            ka >= 3,
            BATCH_SIZE == 100,
    ;
    assert(kb * kb * BATCH_SIZE > 0) by (nonlinear_arith)
        requires
            kb >= 3,
            BATCH_SIZE == 100,
    ;
}

/// A mean that is within the tolerance of a second one is within the
/// tolerance of every mean that is at least the second.
pub proof fn lemma_close_to_lower(c: Seq<u32>, m: Seq<u32>, d: Seq<u32>)
    requires
        c.len() > 0,
        m.len() > 0,
        d.len() > 0,
        !exceeds_by_tolerance(sum(c), c.len() as int, sum(m), m.len() as int),
        mean_le(m, d),
    ensures
        !exceeds_by_tolerance(sum(c), c.len() as int, sum(d), d.len() as int),
{
    let (sc, sm, sd) = (sum(c), sum(m), sum(d));
    let (kc, km, kd) = (c.len() as int, m.len() as int, d.len() as int);
    let b = BATCH_SIZE as int;
    let u = sc * kd;
    let v = sd * kc;
    let w = kc * kd * b;
    let u2 = sc * km;
    let v2 = sm * kc;
    let w2 = kc * km * b;
    let x = 100 * (u - v) - w;
    let y = 100 * (u2 - v2) - w2;
    assert(km * u == kd * u2) by (nonlinear_arith)
        requires
            u == sc * kd,
            u2 == sc * km,
    ;
    assert(km * w == kd * w2) by (nonlinear_arith)
        requires
            w == kc * kd * b,
            w2 == kc * km * b,
    ;
    assert(km * v >= kd * v2) by (nonlinear_arith)
        requires
            v == sd * kc,
            v2 == sm * kc,
            sm * kd <= sd * km,
            kc > 0,
    ;
    assert(km * x == 100 * (km * u) - 100 * (km * v) - km * w) by (nonlinear_arith)
        requires
            x == 100 * (u - v) - w,
    ;
    assert(kd * y == 100 * (kd * u2) - 100 * (kd * v2) - kd * w2) by (nonlinear_arith)
        requires
            y == 100 * (u2 - v2) - w2,
    ;
    assert(km * x <= kd * y);
    assert(x < 0) by (nonlinear_arith)
        requires
            km * x <= kd * y,
            y < 0,
            kd > 0,
            km > 0,
    ;
}

/// Being tied is being within the tolerance of the lowest mean: where `m`
/// has the lowest mean among the qualified configurations, a qualified
/// configuration is tied exactly if its mean is less than the tolerance
/// above that of `m`.
pub proof fn lemma_tied_is_close_to_lowest(h: ResultHistory, m: Config, c: Config)
    requires
        qualified(h, m),
        forall|d: Config| #[trigger] qualified(h, d) ==> mean_le(h.samples(m), h.samples(d)),
        qualified(h, c),
    ensures
        tied(h, c) <==> !exceeds_by_tolerance(
            sum(h.samples(c)),
            h.samples(c).len() as int,
            sum(h.samples(m)),
            h.samples(m).len() as int,
        ),
{
    if !exceeds_by_tolerance(
        sum(h.samples(c)),
        h.samples(c).len() as int,
        sum(h.samples(m)),
        h.samples(m).len() as int,
    ) {
        assert forall|d: Config| #[trigger] qualified(h, d) implies !exceeds_by_tolerance(
            sum(h.samples(c)),
            h.samples(c).len() as int,
            sum(h.samples(d)),
            h.samples(d).len() as int,
        ) by {
            assert(mean_le(h.samples(m), h.samples(d)));
            lemma_close_to_lower(h.samples(c), h.samples(m), h.samples(d));
        }
    }
}

} // verus!

//! The record of batch results, per deck configuration.
//!
//! A sample is the result of one batch of games for one configuration, held
//! as the total of the games' terminal turn numbers; the batch average is
//! that total divided by `BATCH_SIZE`. Samples are only ever appended.

use vstd::prelude::*;

verus! {

/// Number of games in one batch.
pub const BATCH_SIZE: u32 = 100;

/// Most samples one configuration can hold.
pub const MAX_SAMPLES: usize = 0xFFFF_FFFF;

/// A deck configuration: how many lands and how many other cards.
#[derive(Clone, Copy, Debug, PartialEq, Eq, Structural)]
pub struct Config {
    pub lands: u32,
    pub nonlands: u32,
}

impl Config {
    /// Total number of cards in a deck of this configuration.
    pub open spec fn deck_size(&self) -> int {
        self.lands + self.nonlands
    }
}

/// Sum of a sequence of samples.
pub open spec fn sum(s: Seq<u32>) -> int
    decreases s.len(),
{
    if s.len() == 0 {
        0
    } else {
        sum(s.drop_last()) + s.last()
    }
}

/// Appending a sample adds it to the sum.
pub proof fn lemma_sum_push(s: Seq<u32>, v: u32)
    ensures
        sum(s.push(v)) == sum(s) + v,
{
    assert(s.push(v).drop_last() =~= s);
}

/// A sum is bounded by the number of samples times the largest sample.
pub proof fn lemma_sum_bound(s: Seq<u32>)
    ensures
        0 <= sum(s) <= s.len() * 0xFFFF_FFFF,
    decreases s.len(),
{
    if s.len() > 0 {
        lemma_sum_bound(s.drop_last());
    }
}

struct Entry {
    config: Config,
    samples: Vec<u32>,
}

/// Every batch result observed so far, grouped by configuration.
pub struct ResultHistory {
    entries: Vec<Entry>,
}

impl ResultHistory {
    /// The configurations that have at least one sample, in the order in
    /// which each was first recorded.
    pub closed spec fn configs(&self) -> Seq<Config> {
        Seq::new(self.entries@.len(), |i: int| self.entries@[i].config)
    }

    /// The samples of the configuration listed at position `i`.
    pub closed spec fn samples_at(&self, i: int) -> Seq<u32> {
        self.entries@[i].samples@
    }

    /// The samples recorded for `c`, oldest first; empty if there are none.
    pub open spec fn samples(&self, c: Config) -> Seq<u32> {
        if self.configs().contains(c) {
            self.samples_at(self.configs().index_of(c))
        } else {
            Seq::empty()
        }
    }

    /// Validity: no configuration is listed twice, and each listed
    /// configuration has between one and `MAX_SAMPLES` samples.
    pub open spec fn wf(&self) -> bool {
        &&& self.configs().no_duplicates()
        &&& forall|i: int|
            0 <= i < self.configs().len() ==> 0 < (#[trigger] self.samples_at(i)).len()
                <= MAX_SAMPLES
    }

    /// An empty history.
    pub fn new() -> (h: ResultHistory)
        ensures
            h.wf(),
            h.configs() == Seq::<Config>::empty(),
            forall|c: Config| (#[trigger] h.samples(c)) == Seq::<u32>::empty(),
    {
        let h = ResultHistory { entries: Vec::new() };
        assert(h.configs() =~= Seq::<Config>::empty());
        h
    }

    /// Number of configurations with at least one sample.
    pub fn num_configs(&self) -> (n: usize)
        ensures
            n == self.configs().len(),
    {
        self.entries.len()
    }

    /// The configuration listed at position `i`.
    pub fn config_at(&self, i: usize) -> (c: Config)
        requires
            i < self.configs().len(),
        ensures
            c == self.configs()[i as int],
    {
        self.entries[i].config
    }

    fn find(&self, c: Config) -> (r: Option<usize>)
        ensures
            match r {
                Some(i) => i < self.configs().len() && self.configs()[i as int] == c,
                None => !self.configs().contains(c),
            },
    {
        let mut i: usize = 0;
        while i < self.entries.len()
            invariant
                i <= self.entries.len(),
                self.entries@.len() == self.configs().len(),
                forall|j: int| 0 <= j < i ==> self.configs()[j] != c,
            decreases self.entries.len() - i,
        {
            if self.entries[i].config == c {
                return Some(i);
            }
            i += 1;
        }
        None
    }

    /// Number of samples recorded for `c`.
    pub fn sample_count(&self, c: Config) -> (n: usize)
        requires
            self.wf(),
        ensures
            n == self.samples(c).len(),
            n <= MAX_SAMPLES,
    {
        match self.find(c) {
            Some(i) => {
                assert(self.configs()[i as int] == c);
                assert(self.configs().index_of(c) == i as int);
                assert(self.samples_at(i as int).len() <= MAX_SAMPLES);
                self.entries[i].samples.len()
            },
            None => 0,
        }
    }

    /// Sum of the samples recorded for `c`.
    pub fn total(&self, c: Config) -> (t: u64)
        requires
            self.wf(),
        ensures
            t == sum(self.samples(c)),
    {
        match self.find(c) {
            Some(i) => {
                assert(self.configs()[i as int] == c);
                assert(self.configs().index_of(c) == i as int);
                let samples = &self.entries[i].samples;
                assert(samples@ == self.samples_at(i as int));
                let mut acc: u64 = 0;
                let mut k: usize = 0;
                while k < samples.len()
                    invariant
                        k <= samples.len() <= MAX_SAMPLES,
                        acc == sum(samples@.take(k as int)),
                        acc <= k * 0xFFFF_FFFF,
                    decreases samples.len() - k,
                {
                    proof {
                        assert(samples@.take(k + 1) =~= samples@.take(k as int).push(
                            samples@[k as int],
                        ));
                        lemma_sum_push(samples@.take(k as int), samples@[k as int]);
                    }
                    acc = acc + samples[k] as u64;
                    k += 1;
                }
                assert(samples@.take(k as int) =~= samples@);
                acc
            },
            None => 0,
        }
    }

    /// Appends `value` to the samples of `c`. Every other configuration keeps
    /// its samples, and the order of first recording is kept.
    pub fn record(&mut self, c: Config, value: u32)
        requires
            old(self).wf(),
            old(self).samples(c).len() < MAX_SAMPLES,
        ensures
            final(self).wf(),
            final(self).samples(c) == old(self).samples(c).push(value),
            forall|d: Config| d != c ==> (#[trigger] final(self).samples(d)) == old(self).samples(d),
            final(self).configs() == if old(self).configs().contains(c) {
                old(self).configs()
            } else {
                old(self).configs().push(c)
            },
    {
        match self.find(c) {
            Some(i) => {
                assert(self.configs().index_of(c) == i as int);
                self.entries[i].samples.push(value);
                assert(self.configs() =~= old(self).configs());
                assert(self.configs().index_of(c) == i as int);
                assert(self.samples_at(i as int) == old(self).samples_at(i as int).push(value));
                assert forall|j: int| 0 <= j < self.configs().len() implies 0 < (
                #[trigger] self.samples_at(j)).len() <= MAX_SAMPLES by {
                    if j != i {
                        assert(self.samples_at(j) == old(self).samples_at(j));
                    }
                }
                assert forall|d: Config| d != c implies (#[trigger] self.samples(d)) == old(
                    self,
                ).samples(d) by {
                    if self.configs().contains(d) {
                        let j = self.configs().index_of(d);
                        assert(j != i);
                        assert(self.samples_at(j) == old(self).samples_at(j));
                    }
                }
            },
            None => {
                let mut samples: Vec<u32> = Vec::new();
                samples.push(value);
                self.entries.push(Entry { config: c, samples });
                let ghost n = old(self).configs().len() as int;
                assert(self.configs() =~= old(self).configs().push(c));
                assert(self.configs()[n] == c);
                assert(self.configs().index_of(c) == n);
                assert(self.samples_at(n) =~= Seq::<u32>::empty().push(value));
                assert forall|j: int| 0 <= j < self.configs().len() implies 0 < (
                #[trigger] self.samples_at(j)).len() <= MAX_SAMPLES by {
                    if j != n {
                        assert(self.samples_at(j) == old(self).samples_at(j));
                    }
                }
                assert forall|d: Config| d != c implies (#[trigger] self.samples(d)) == old(
                    self,
                ).samples(d) by {
                    if self.configs().contains(d) {
                        let j = self.configs().index_of(d);
                        assert(j != n);
                        assert(old(self).configs()[j] == d);
                        assert(old(self).configs().index_of(d) == j);
                        assert(self.samples_at(j) == old(self).samples_at(j));
                    } else {
                        if old(self).configs().contains(d) {
                            let j = old(self).configs().index_of(d);
                            assert(self.configs()[j] == d);
                        }
                    }
                }
            },
        }
    }
}

} // verus!

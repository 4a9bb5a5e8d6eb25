use vstd::prelude::*;

verus! {

/// The samples at even positions, `samples[0], samples[2], ...`.
pub open spec fn every_other<T>(samples: Seq<T>) -> Seq<T> {
    Seq::new(((samples.len() + 1) / 2) as nat, |i: int| samples[2 * i])
}

/// Keeping every second sample keeps `ceil(n / 2)` of `n` samples, and the
/// `k`-th one kept is the sample at position `2 * k`: the first kept is the
/// first sample, each next one is two positions on, and together they are
/// exactly the samples at even positions.
pub proof fn lemma_every_other_takes_even_positions<T>(samples: Seq<T>)
    ensures
        every_other(samples).len() == (samples.len() + 1) / 2,
        2 * every_other(samples).len() >= samples.len(),
        2 * every_other(samples).len() <= samples.len() + 1,
        forall|k: int| 0 <= k < every_other(samples).len() ==> #[trigger] every_other(samples)[k] == samples[2 * k],
        forall|p: int|
            0 <= p < samples.len() && p % 2 == 0 ==> every_other(samples)[p / 2] == samples[p],
{
    assert forall|p: int| 0 <= p < samples.len() && p % 2 == 0 implies every_other(samples)[p / 2]
        == samples[p] by {
        assert(2 * (p / 2) == p);
    }
}

/// Keeps every second sample, starting with the first.
pub fn every_other_sample<T: Copy>(samples: &Vec<T>) -> (kept: Vec<T>)
    ensures
        kept@ == every_other(samples@),
        kept@.len() == (samples@.len() + 1) / 2,
        forall|k: int| 0 <= k < kept@.len() ==> kept@[k] == samples@[2 * k],
{
    let n = samples.len();
    let m = n / 2 + n % 2;
    let mut kept: Vec<T> = Vec::new();
    let mut j: usize = 0;
    while j < m
        invariant
            n == samples@.len(),
            m == n / 2 + n % 2,
            j <= m,
            kept@.len() == j,
            forall|k: int| 0 <= k < kept@.len() ==> kept@[k] == samples@[2 * k],
        decreases m - j,
    {
        kept.push(samples[2 * j]);
        j = j + 1;
    }
    assert(kept@.len() == (n + 1) / 2);
    assert(kept@ =~= every_other(samples@));
    kept
}

/// A copy of the `len` samples that start at `start`.
pub fn sample_window<T: Copy>(samples: &Vec<T>, start: usize, len: usize) -> (window: Vec<T>)
    requires
        start + len <= samples@.len(),
    ensures
        window@ == samples@.subrange(start as int, start + len),
{
    let mut window: Vec<T> = Vec::with_capacity(len);
    let mut i: usize = 0;
    while i < len
        invariant
            i <= len,
            start + len <= samples.len(),
            window@ == samples@.subrange(start as int, start + i),
        decreases len - i,
    {
        window.push(samples[start + i]);
        i = i + 1;
        assert(window@ =~= samples@.subrange(start as int, start + i));
    }
    window
}

} // verus!

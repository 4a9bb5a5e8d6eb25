use vstd::prelude::*;

use crate::constants::MAX_BUFFER_SIZE;

verus! {

/// The samples a buffer holds once a received batch has been handed to it:
/// a batch goes after the samples already there, in its own order; a failed
/// receive (`None`) leaves them as they were.
pub open spec fn after_feed<T>(samples: Seq<T>, received: Option<Seq<T>>) -> Seq<T> {
    match received {
        Some(batch) => samples + batch,
        None => samples,
    }
}

/// The newest `limit` samples of `samples`, or all of them when there are no
/// more than `limit`.
pub open spec fn newest<T>(samples: Seq<T>, limit: nat) -> Seq<T> {
    if samples.len() > limit {
        samples.subrange(samples.len() - limit, samples.len() as int)
    } else {
        samples
    }
}

/// A buffer of audio samples. The capture side appends each batch it
/// receives, a periodic trim keeps only the newest `MAX_BUFFER_SIZE` samples,
/// and the processing side reads a copy of what the buffer holds.
pub struct AudioBuffer<T> {
    data: Vec<T>,
}

impl<T> View for AudioBuffer<T> {
    type V = Seq<T>;

    closed spec fn view(&self) -> Seq<T> {
        self.data@
    }
}

impl<T: Copy> AudioBuffer<T> {
    /// An empty buffer.
    pub fn new() -> (buffer: Self)
        ensures
            buffer@ == Seq::<T>::empty(),
    {
        AudioBuffer { data: Vec::new() }
    }

    /// Handles one receive of the capture side: a received batch is appended
    /// after the samples already held; a failed receive is ignored.
    pub fn feed_data(&mut self, received: Option<Vec<T>>)
        ensures
            final(self)@ == after_feed(old(self)@, match received {
                Some(batch) => Some(batch@),
                None => None,
            }),
            match received {
                Some(batch) => {
                    &&& final(self)@.len() == old(self)@.len() + batch@.len()
                    &&& forall|i: int| 0 <= i < old(self)@.len() ==> final(self)@[i] == old(self)@[i]
                    &&& forall|i: int|
                        0 <= i < batch@.len() ==> final(self)@[old(self)@.len() + i] == batch@[i]
                },
                None => final(self)@ == old(self)@,
            },
    {
        match received {
            Some(batch) => {
                let mut batch = batch;
                self.data.append(&mut batch);
            },
            None => {},
        }
    }

    /// Drops the oldest samples so that at most `MAX_BUFFER_SIZE` remain;
    /// the newest samples stay, in their order.
    pub fn trim_data(&mut self)
        ensures
            final(self)@ == newest(old(self)@, MAX_BUFFER_SIZE as nat),
            final(self)@.len() <= MAX_BUFFER_SIZE,
            final(self)@.is_suffix_of(old(self)@),
            old(self)@.len() <= MAX_BUFFER_SIZE ==> final(self)@ == old(self)@,
            old(self)@.len() > MAX_BUFFER_SIZE ==> {
                &&& final(self)@.len() == MAX_BUFFER_SIZE
                &&& final(self)@ == old(self)@.subrange(
                    old(self)@.len() - MAX_BUFFER_SIZE,
                    old(self)@.len() as int,
                )
                &&& forall|i: int|
                    0 <= i < MAX_BUFFER_SIZE ==> final(self)@[i] == old(self)@[old(self)@.len()
                        - MAX_BUFFER_SIZE + i]
            },
    {
        let num_elems = self.data.len();
        if num_elems > MAX_BUFFER_SIZE {
            let start_idx = num_elems - MAX_BUFFER_SIZE;
            let kept = self.data.split_off(start_idx);
            self.data = kept;
        } else {
            assert(self.data@ =~= old(self)@.subrange(0, num_elems as int));
        }
    }

    /// A copy of the samples the buffer holds, oldest first.
    pub fn get_data(&self) -> (data: Vec<T>)
        ensures
            data@ == self@,
    {
        let mut out: Vec<T> = Vec::with_capacity(self.data.len());
        let mut i: usize = 0;
        while i < self.data.len()
            invariant
                i <= self.data@.len(),
                out@ == self.data@.subrange(0, i as int),
            decreases self.data@.len() - i,
        {
            out.push(self.data[i]);
            i = i + 1;
        }
        assert(self.data@.subrange(0, self.data@.len() as int) == self.data@);
        out
    }
}

/// Keeping the newest `limit` samples keeps `min(len, limit)` of them, and
/// they are the last ones, in order: the sample `i` places from the end stays
/// `i` places from the end.
pub proof fn lemma_newest_keeps_the_last<T>(samples: Seq<T>, limit: nat)
    ensures
        newest(samples, limit).len() == (if samples.len() > limit { limit } else { samples.len() }),
        forall|i: int|
            0 <= i < newest(samples, limit).len() ==> #[trigger] newest(samples, limit)[newest(
                samples,
                limit,
            ).len() - 1 - i] == samples[samples.len() - 1 - i],
        samples.len() > limit ==> newest(samples, limit) == samples.subrange(
            samples.len() - limit,
            samples.len() as int,
        ),
        samples.len() <= limit ==> newest(samples, limit) == samples,
{
}

/// Trimming twice keeps what trimming once keeps.
pub proof fn lemma_trim_idempotent<T>(samples: Seq<T>, limit: nat)
    ensures
        newest(newest(samples, limit), limit) == newest(samples, limit),
{
}

/// Handing a buffer a batch puts the batch's samples, whole and in order,
/// right after the samples it held, which stay as they were; a failed
/// receive changes nothing.
pub proof fn lemma_feed_appends_after_held<T>(samples: Seq<T>, received: Option<Seq<T>>)
    ensures
        match received {
            Some(batch) => {
                &&& after_feed(samples, received).len() == samples.len() + batch.len()
                &&& forall|i: int|
                    0 <= i < samples.len() ==> #[trigger] after_feed(samples, received)[i] == samples[i]
                &&& forall|i: int|
                    0 <= i < batch.len() ==> #[trigger] after_feed(samples, received)[samples.len() + i]
                        == batch[i]
            },
            None => after_feed(samples, received) == samples,
        },
{
}

/// While the samples fed so far fit under the limit, trimming loses none of
/// them.
pub proof fn lemma_trim_keeps_all_under_limit<T>(samples: Seq<T>, batch: Seq<T>, limit: nat)
    requires
        samples.len() + batch.len() <= limit,
    ensures
        newest(after_feed(samples, Some(batch)), limit) == samples + batch,
{
}

/// Whatever sequence of feeds and trims runs, the buffer holds the most
/// recent part of everything fed to it, in the order it was fed: if it holds
/// a suffix of the history so far, it still does after a trim, and after a
/// feed it holds a suffix of the history extended by what was received.
pub proof fn lemma_holds_suffix_of_history<T>(
    samples: Seq<T>,
    history: Seq<T>,
    received: Option<Seq<T>>,
    limit: nat,
)
    requires
        samples.is_suffix_of(history),
    ensures
        newest(samples, limit).is_suffix_of(history),
        after_feed(samples, received).is_suffix_of(after_feed(history, received)),
{
    let n = newest(samples, limit);
    assert(n == history.subrange(history.len() - n.len(), history.len() as int));
    match received {
        Some(batch) => {
            let s2 = samples + batch;
            let h2 = history + batch;
            assert(s2 == h2.subrange(h2.len() - s2.len(), h2.len() as int));
        },
        None => {},
    }
}

/// All the samples that a run of receives carries, in the order received;
/// a failed receive carries none.
pub open spec fn received_samples<T>(received: Seq<Option<Seq<T>>>) -> Seq<T>
    decreases received.len(),
{
    if received.len() == 0 {
        Seq::empty()
    } else {
        match received.last() {
            Some(batch) => received_samples(received.drop_last()) + batch,
            None => received_samples(received.drop_last()),
        }
    }
}

/// What a buffer holding `samples` holds once each receive of `received` has
/// been handed to it in turn, with no trim in between.
pub open spec fn after_feeds<T>(samples: Seq<T>, received: Seq<Option<Seq<T>>>) -> Seq<T>
    decreases received.len(),
{
    if received.len() == 0 {
        samples
    } else {
        after_feed(after_feeds(samples, received.drop_last()), received.last())
    }
}

/// Feeding a run of receives with no trim in between appends every received
/// batch whole, in the order received, after the samples held before; a
/// failed receive adds nothing, and the samples held before are never
/// changed. What the buffer holds only ever grows: after the first `i`
/// receives it holds a prefix of what it holds after all of them.
pub proof fn lemma_feeds_append_in_order<T>(samples: Seq<T>, received: Seq<Option<Seq<T>>>)
    ensures
        after_feeds(samples, received) == samples + received_samples(received),
        forall|i: int|
            0 <= i <= received.len() ==> (#[trigger] after_feeds(samples, received.take(i))).is_prefix_of(
                after_feeds(samples, received),
            ),
    decreases received.len(),
{
    if received.len() > 0 {
        let rest = received.drop_last();
        lemma_feeds_append_in_order(samples, rest);
        let before = after_feeds(samples, rest);
        let after = after_feeds(samples, received);
        match received.last() {
            Some(batch) => {
                assert(after == samples + received_samples(rest) + batch);
                assert(after =~= samples + received_samples(received));
            },
            None => {},
        }
        assert(before.is_prefix_of(after));
        assert forall|i: int| 0 <= i <= received.len() implies (#[trigger] after_feeds(
            samples,
            received.take(i),
        )).is_prefix_of(after) by {
            if i == received.len() {
                assert(received.take(i) =~= received);
            } else {
                assert(received.take(i) =~= rest.take(i));
                let part = after_feeds(samples, rest.take(i));
                assert(part.is_prefix_of(before));
                assert(part =~= after.subrange(0, part.len() as int));
            }
        }
    }
}

/// `k` copies of `pattern`, one after the other.
pub open spec fn repeated<T>(pattern: Seq<T>, k: nat) -> Seq<T>
    decreases k,
{
    if k == 0 {
        Seq::empty()
    } else {
        repeated(pattern, (k - 1) as nat) + pattern
    }
}

/// Counted from the newest sample back, `samples` follows `pattern` counted
/// from its last sample back, round and round.
pub open spec fn ends_in_cycles_of<T>(samples: Seq<T>, pattern: Seq<T>) -> bool {
    forall|j: int|
        0 <= j < samples.len() ==> #[trigger] samples[samples.len() - 1 - j] == pattern[pattern.len() - 1 - (j
            % pattern.len() as int)]
}

proof fn lemma_repeated_ends_in_cycles<T>(pattern: Seq<T>, k: nat)
    requires
        pattern.len() > 0,
    ensures
        repeated(pattern, k).len() == k * pattern.len(),
        ends_in_cycles_of(repeated(pattern, k), pattern),
    decreases k,
{
    if k > 0 {
        let n = pattern.len() as int;
        let prev = repeated(pattern, (k - 1) as nat);
        lemma_repeated_ends_in_cycles(pattern, (k - 1) as nat);
        let h = repeated(pattern, k);
        assert(h == prev + pattern);
        assert(h.len() == k * pattern.len()) by (nonlinear_arith)
            requires
                h.len() == prev.len() + n,
                prev.len() == (k - 1) * n,
                n == pattern.len(),
        ;
        assert forall|j: int| 0 <= j < h.len() implies #[trigger] h[h.len() - 1 - j] == pattern[n
            - 1 - (j % n)] by {
            if j < n {
                vstd::arithmetic::div_mod::lemma_small_mod(j as nat, n as nat);
            } else {
                vstd::arithmetic::div_mod::lemma_mod_sub_multiples_vanish(j, n);
                assert(h[h.len() - 1 - j] == prev[prev.len() - 1 - (j - n)]);
            }
        }
    }
}

/// A buffer fed nothing but copies of one batch, trimmed at any moments,
/// holds the end of a run of copies: counted from the newest sample back it
/// follows the batch counted from its last sample back, round and round.
/// Feeding another copy or trimming keeps it so.
pub proof fn lemma_repeated_batches_stay_in_cycle<T>(
    samples: Seq<T>,
    pattern: Seq<T>,
    k: nat,
    limit: nat,
)
    requires
        pattern.len() > 0,
        samples.is_suffix_of(repeated(pattern, k)),
    ensures
        ends_in_cycles_of(samples, pattern),
        after_feed(samples, Some(pattern)).is_suffix_of(repeated(pattern, k + 1)),
        newest(samples, limit).is_suffix_of(repeated(pattern, k)),
{
    let h = repeated(pattern, k);
    lemma_repeated_ends_in_cycles(pattern, k);
    assert forall|j: int| 0 <= j < samples.len() implies #[trigger] samples[samples.len() - 1 - j]
        == pattern[pattern.len() - 1 - (j % pattern.len() as int)] by {
        assert(samples[samples.len() - 1 - j] == h[h.len() - 1 - j]);
    }
    lemma_holds_suffix_of_history(samples, h, Some(pattern), limit);
    assert(after_feed(h, Some(pattern)) == repeated(pattern, k + 1));
}

} // verus!

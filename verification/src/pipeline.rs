//! The capture pipeline's decision logic. The producer assigns monotonic
//! ids and computes frame timestamps; the consumer admits parsed frames
//! into the cache, batches their summaries and decides when a batch is
//! emitted. The surrounding application performs the reads, the waiting
//! and the sending; every decision is made here.

use vstd::prelude::*;

use crate::cache::{keys_sorted, lemma_insert_append, spec_trim, PacketCache};
use crate::dissector::{parse_summary, spec_summary};
use crate::model::{summaries_view, CachedPacket, CachedPacketView, PacketSummary, SummaryView};
use crate::{BATCH_SIZE, BATCH_TIMEOUT_MS, MAX_CACHE_ENTRIES};

verus! {

/// The ids of one batch, in batch order.
pub open spec fn batch_ids(b: Seq<SummaryView>) -> Seq<u64> {
    b.map_values(|s: SummaryView| s.id)
}

/// The ids of a run of batches, in emission order.
pub open spec fn emitted_ids(bs: Seq<Seq<SummaryView>>) -> Seq<u64>
    decreases bs.len(),
{
    if bs.len() == 0 {
        Seq::empty()
    } else {
        batch_ids(bs[0]) + emitted_ids(bs.skip(1))
    }
}

/// The ids of a run of admitted entries.
pub open spec fn entry_ids(s: Seq<(u64, CachedPacketView)>) -> Seq<u64> {
    s.map_values(|e: (u64, CachedPacketView)| e.0)
}

/// Appending one batch appends its ids.
proof fn lemma_emitted_ids_snoc(bs: Seq<Seq<SummaryView>>, b: Seq<SummaryView>)
    ensures
        emitted_ids(bs + seq![b]) == emitted_ids(bs) + batch_ids(b),
    decreases bs.len(),
{
    if bs.len() == 0 {
        assert((bs + seq![b])[0] == b);
        assert((bs + seq![b]).skip(1) =~= Seq::<Seq<SummaryView>>::empty());
        assert(emitted_ids(bs + seq![b]) == batch_ids(b) + emitted_ids(
            Seq::<Seq<SummaryView>>::empty(),
        ));
        assert(batch_ids(b) + Seq::<u64>::empty() =~= batch_ids(b));
        assert(emitted_ids(bs) + batch_ids(b) =~= batch_ids(b));
    } else {
        lemma_emitted_ids_snoc(bs.skip(1), b);
        assert((bs + seq![b]).skip(1) =~= bs.skip(1) + seq![b]);
        assert((bs + seq![b])[0] == bs[0]);
        assert(batch_ids(bs[0]) + (emitted_ids(bs.skip(1)) + batch_ids(b)) =~= (batch_ids(bs[0])
            + emitted_ids(bs.skip(1))) + batch_ids(b));
        assert(emitted_ids(bs + seq![b]) =~= emitted_ids(bs) + batch_ids(b));
    }
}

/// The consumer's state: the shared cache, the pending batch, and — as
/// ghost history — every admitted frame and every emitted batch of the
/// session.
pub struct Consumer {
    /// The bounded byte store the session fills.
    pub cache: PacketCache,
    /// Summaries awaiting emission.
    pub batch: Vec<PacketSummary>,
    /// Every admitted frame of the session, in admission order.
    pub admitted: Ghost<Seq<(u64, CachedPacketView)>>,
    /// Every batch emitted so far, in emission order.
    pub emitted: Ghost<Seq<Seq<SummaryView>>>,
    /// How many frames the session has taken from the queue; the producer
    /// numbers them contiguously from 1, so this equals the last id seen.
    pub seen: Ghost<u64>,
}

impl Consumer {
    /// The consumer's invariant: admitted ids strictly ascend; the cache
    /// holds exactly the newest admitted frames up to its bound; the
    /// pending batch is below the batch bound; every emitted batch is
    /// non-empty and within the bound; and the emitted batches followed by
    /// the pending batch carry exactly the admitted ids, in order.
    pub open spec fn wf(self) -> bool {
        &&& self.cache.wf()
        &&& keys_sorted(self.admitted@)
        &&& (forall|k: int|
            0 <= k < self.admitted@.len() ==> 1 <= (#[trigger] self.admitted@[k]).0
                <= self.seen@)
        &&& self.admitted@.len() <= self.seen@
        &&& self.cache@ == spec_trim(self.admitted@)
        &&& self.batch@.len() < BATCH_SIZE
        &&& (forall|i: int|
            0 <= i < self.emitted@.len() ==> 1 <= (#[trigger] self.emitted@[i]).len()
                <= BATCH_SIZE)
        &&& emitted_ids(self.emitted@) + batch_ids(summaries_view(self.batch@)) == entry_ids(
            self.admitted@,
        )
    }

    /// A fresh consumer for a new session: empty cache, empty batch, no
    /// history.
    pub fn new() -> (r: Consumer)
        ensures
            r.wf(),
            r.cache@ == Seq::<(u64, CachedPacketView)>::empty(),
            r.batch@ == Seq::<PacketSummary>::empty(),
            r.admitted@ == Seq::<(u64, CachedPacketView)>::empty(),
            r.emitted@ == Seq::<Seq<SummaryView>>::empty(),
            r.seen@ == 0,
    {
        let r = Consumer {
            cache: PacketCache::new(),
            batch: Vec::new(),
            admitted: Ghost(Seq::empty()),
            emitted: Ghost(Seq::empty()),
            seen: Ghost(0),
        };
        proof {
            assert(emitted_ids(r.emitted@) + batch_ids(summaries_view(r.batch@)) =~= entry_ids(
                r.admitted@,
            ));
        }
        r
    }

    /// Takes one frame from the queue. A frame whose summary parse fails
    /// is dropped whole; an admitted frame enters the cache (evicting the
    /// oldest past the bound) and its summary joins the batch. When the
    /// batch reaches the batch bound it is returned for emission.
    pub fn handle_frame(&mut self, id: u64, data: Vec<u8>, timestamp_ns: i64) -> (r: Option<
        Vec<PacketSummary>,
    >)
        requires
            old(self).wf(),
            id == old(self).seen@ + 1,
            data@.len() <= u32::MAX,
        ensures
            final(self).wf(),
            final(self).seen@ == id,
            final(self).emitted@.len() >= old(self).emitted@.len(),
            spec_summary(data@, id, timestamp_ns) is None ==> {
                &&& r is None
                &&& final(self).cache@ == old(self).cache@
                &&& final(self).batch@ == old(self).batch@
                &&& final(self).admitted@ == old(self).admitted@
                &&& final(self).emitted@ == old(self).emitted@
            },
            spec_summary(data@, id, timestamp_ns) matches Some(s) ==> {
                &&& final(self).admitted@ == old(self).admitted@ + seq![
                    (id, CachedPacketView { data: data@, timestamp_ns }),
                ]
                &&& final(self).cache@ == spec_trim(final(self).admitted@)
                &&& if old(self).batch@.len() + 1 == BATCH_SIZE {
                    &&& r matches Some(b) && summaries_view(b@) == summaries_view(
                        old(self).batch@,
                    ) + seq![s]
                    &&& final(self).batch@.len() == 0
                    &&& final(self).emitted@ == old(self).emitted@ + seq![
                        summaries_view(old(self).batch@) + seq![s],
                    ]
                } else {
                    &&& r is None
                    &&& summaries_view(final(self).batch@) == summaries_view(old(self).batch@)
                        + seq![s]
                    &&& final(self).emitted@ == old(self).emitted@
                }
            },
    {
        proof {
            self.seen = Ghost(id);
        }
        let summary = match parse_summary(data.as_slice(), id, timestamp_ns) {
            None => {
                return None;
            },
            Some(s) => s,
        };
        let ghost entry = (id, CachedPacketView { data: data@, timestamp_ns });
        let ghost cache_old = self.cache@;
        proof {
            assert forall|k: int| 0 <= k < cache_old.len() implies (#[trigger] cache_old[k]).0
                < id by {
                assert(keys_sorted(self.admitted@));
                if self.admitted@.len() > MAX_CACHE_ENTRIES {
                    assert(cache_old[k] == self.admitted@[k + self.admitted@.len()
                        - MAX_CACHE_ENTRIES]);
                } else {
                    assert(cache_old[k] == self.admitted@[k]);
                }
            }
            lemma_insert_append(cache_old, id, entry.1);
        }
        self.cache.insert(id, CachedPacket { data, timestamp_ns });
        proof {
            self.admitted = Ghost(self.admitted@ + seq![entry]);
            let adm_old = old(self).admitted@;
            let adm_new = self.admitted@;
            // The trimmed history plus the new entry is the trimmed new history.
            assert(spec_trim(cache_old + seq![entry]) =~= spec_trim(adm_new));
            assert(self.cache@ == spec_trim(adm_new));
            assert(keys_sorted(adm_new));
            assert(entry_ids(adm_new) =~= entry_ids(adm_old) + seq![id]);
        }
        self.batch.push(summary);
        proof {
            assert(summaries_view(self.batch@) =~= summaries_view(old(self).batch@)
                + seq![summary@]);
            assert(batch_ids(summaries_view(self.batch@)) =~= batch_ids(
                summaries_view(old(self).batch@),
            ) + seq![id]);
            assert(emitted_ids(self.emitted@) + batch_ids(summaries_view(self.batch@))
                =~= entry_ids(self.admitted@));
        }
        if self.batch.len() >= BATCH_SIZE {
            let mut full: Vec<PacketSummary> = Vec::new();
            full.append(&mut self.batch);
            proof {
                let b = summaries_view(full@);
                self.emitted = Ghost(self.emitted@ + seq![b]);
                lemma_emitted_ids_snoc(old(self).emitted@, b);
                assert(summaries_view(self.batch@) =~= Seq::<SummaryView>::empty());
                assert(batch_ids(summaries_view(self.batch@)) =~= Seq::<u64>::empty());
                assert(emitted_ids(self.emitted@) + batch_ids(summaries_view(self.batch@))
                    =~= entry_ids(self.admitted@));
            }
            Some(full)
        } else {
            None
        }
    }

    /// Emits the pending batch and records it in the history.
    fn take_batch(&mut self) -> (r: Vec<PacketSummary>)
        requires
            old(self).wf(),
            0 < old(self).batch@.len(),
        ensures
            final(self).wf(),
            summaries_view(r@) == summaries_view(old(self).batch@),
            final(self).batch@.len() == 0,
            final(self).emitted@ == old(self).emitted@ + seq![summaries_view(old(self).batch@)],
            final(self).cache@ == old(self).cache@,
            final(self).admitted@ == old(self).admitted@,
    {
        let mut full: Vec<PacketSummary> = Vec::new();
        full.append(&mut self.batch);
        proof {
            let b = summaries_view(full@);
            self.emitted = Ghost(self.emitted@ + seq![b]);
            lemma_emitted_ids_snoc(old(self).emitted@, b);
            assert(summaries_view(self.batch@) =~= Seq::<SummaryView>::empty());
            assert(batch_ids(summaries_view(self.batch@)) =~= Seq::<u64>::empty());
            assert(emitted_ids(self.emitted@) + batch_ids(summaries_view(self.batch@))
                =~= entry_ids(self.admitted@));
        }
        full
    }

    /// The periodic check after a drain: the batch goes out when it has
    /// reached the batch bound or the time since the last emission has
    /// reached the batch timeout — and there is something to send.
    pub fn poll_emit(&mut self, elapsed_ms: u64) -> (r: Option<Vec<PacketSummary>>)
        requires
            old(self).wf(),
        ensures
            final(self).wf(),
            final(self).cache@ == old(self).cache@,
            final(self).admitted@ == old(self).admitted@,
            if 0 < old(self).batch@.len() && (old(self).batch@.len() >= BATCH_SIZE || elapsed_ms
                >= BATCH_TIMEOUT_MS) {
                &&& r matches Some(b) && summaries_view(b@) == summaries_view(old(self).batch@)
                &&& final(self).batch@.len() == 0
                &&& final(self).emitted@ == old(self).emitted@ + seq![
                    summaries_view(old(self).batch@),
                ]
            } else {
                &&& r is None
                &&& final(self).batch@ == old(self).batch@
                &&& final(self).emitted@ == old(self).emitted@
            },
    {
        let should_emit = self.batch.len() >= BATCH_SIZE || elapsed_ms >= BATCH_TIMEOUT_MS;
        if should_emit && self.batch.len() > 0 {
            Some(self.take_batch())
        } else {
            None
        }
    }

    /// The flush on stop or on producer disconnect: a non-empty batch is
    /// emitted exactly once, with its entries in arrival order; an empty
    /// batch emits nothing.
    pub fn flush(&mut self) -> (r: Option<Vec<PacketSummary>>)
        requires
            old(self).wf(),
        ensures
            final(self).wf(),
            final(self).cache@ == old(self).cache@,
            final(self).admitted@ == old(self).admitted@,
            final(self).batch@.len() == 0,
            if 0 < old(self).batch@.len() {
                &&& r matches Some(b) && summaries_view(b@) == summaries_view(old(self).batch@)
                &&& final(self).emitted@ == old(self).emitted@ + seq![
                    summaries_view(old(self).batch@),
                ]
            } else {
                &&& r is None
                &&& final(self).emitted@ == old(self).emitted@
            },
    {
        if self.batch.len() > 0 {
            Some(self.take_batch())
        } else {
            None
        }
    }
}

/// The producer's id counter: ids are handed out sequentially from 1.
pub struct IdCounter {
    /// The last id handed out; zero before the first.
    pub last: u64,
}

impl IdCounter {
    /// A fresh counter; the first id it hands out is 1.
    pub fn new() -> (r: IdCounter)
        ensures
            r.last == 0,
    {
        IdCounter { last: 0 }
    }

    /// The next id: one above the last.
    pub fn next_id(&mut self) -> (r: u64)
        requires
            old(self).last < u64::MAX,
        ensures
            r == old(self).last + 1,
            final(self).last == r,
    {
        self.last = self.last + 1;
        self.last
    }
}

/// The capture timestamp of a frame in nanoseconds, from the whole seconds
/// and microseconds the source reports.
pub fn frame_timestamp_ns(ts_sec: i64, ts_usec: i64) -> (r: i64)
    requires
        0 <= ts_sec <= 9_223_372_035,
        0 <= ts_usec <= 999_999,
    ensures
        r == ts_sec * 1_000_000_000 + ts_usec * 1_000,
{
    ts_sec * 1_000_000_000 + ts_usec * 1_000
}

/// A strictly ascending run of ids.
pub open spec fn ids_strictly_increase(s: Seq<u64>) -> bool {
    forall|i: int, j: int| 0 <= i < j < s.len() ==> s[i] < s[j]
}

/// The ids the session has shown its consumer so far: the emitted batches'
/// ids, then the pending batch's.
pub open spec fn session_ids(c: Consumer) -> Seq<u64> {
    emitted_ids(c.emitted@) + batch_ids(summaries_view(c.batch@))
}

/// Id monotonicity: across a session, the ids in the emitted batches and
/// the pending batch strictly increase, and the run opens with the first
/// admitted id — 1 whenever the first captured frame was admitted, since
/// the producer numbers frames from 1.
pub proof fn lemma_session_ids_increase(c: Consumer)
    requires
        c.wf(),
    ensures
        ids_strictly_increase(session_ids(c)),
        session_ids(c).len() == c.admitted@.len(),
        c.admitted@.len() > 0 ==> session_ids(c)[0] == c.admitted@[0].0,
{
    assert(session_ids(c) == entry_ids(c.admitted@));
    assert forall|i: int, j: int| 0 <= i < j < session_ids(c).len() implies session_ids(c)[i]
        < session_ids(c)[j] by {
        assert(entry_ids(c.admitted@)[i] == c.admitted@[i].0);
        assert(entry_ids(c.admitted@)[j] == c.admitted@[j].0);
    }
}

/// In a strictly ascending run whose entries are at least 1, the entry at
/// `i` is at least `i + 1`.
proof fn lemma_increasing_lower_bound(s: Seq<u64>, i: int)
    requires
        ids_strictly_increase(s),
        forall|k: int| 0 <= k < s.len() ==> 1 <= #[trigger] s[k],
        0 <= i < s.len(),
    ensures
        s[i] >= i + 1,
    decreases i,
{
    if i > 0 {
        lemma_increasing_lower_bound(s, i - 1);
    }
}

/// In a strictly ascending run whose entries are at most `bound`, the entry
/// at `i` is at most `bound` less the entries after it.
proof fn lemma_increasing_upper_bound(s: Seq<u64>, bound: u64, i: int)
    requires
        ids_strictly_increase(s),
        forall|k: int| 0 <= k < s.len() ==> #[trigger] s[k] <= bound,
        0 <= i < s.len(),
    ensures
        s[i] + (s.len() - 1 - i) <= bound,
    decreases s.len() - i,
{
    if i < s.len() - 1 {
        lemma_increasing_upper_bound(s, bound, i + 1);
    }
}

/// When every frame the session took was admitted, the ids across the
/// emitted batches and the pending batch are exactly 1, 2, 3, … in order:
/// they start at 1 and leave no gap.
pub proof fn lemma_session_ids_contiguous(c: Consumer)
    requires
        c.wf(),
        c.admitted@.len() == c.seen@,
    ensures
        forall|i: int| 0 <= i < session_ids(c).len() ==> #[trigger] session_ids(c)[i] == i + 1,
{
    let ids = entry_ids(c.admitted@);
    assert(session_ids(c) == ids);
    assert forall|i: int| 0 <= i < session_ids(c).len() implies #[trigger] session_ids(c)[i] == i
        + 1 by {
        assert forall|k: int| 0 <= k < ids.len() implies 1 <= #[trigger] ids[k] by {
            assert(ids[k] == c.admitted@[k].0);
        }
        assert forall|k: int| 0 <= k < ids.len() implies #[trigger] ids[k] <= c.seen@ by {
            assert(ids[k] == c.admitted@[k].0);
        }
        assert forall|a: int, b: int| 0 <= a < b < ids.len() implies ids[a] < ids[b] by {
            assert(ids[a] == c.admitted@[a].0);
            assert(ids[b] == c.admitted@[b].0);
        }
        lemma_increasing_lower_bound(ids, i);
        lemma_increasing_upper_bound(ids, c.seen@, i);
    }
}

/// Batch bound: every emitted batch holds between one and BATCH_SIZE
/// entries, and the pending batch always stays below BATCH_SIZE.
pub proof fn lemma_batch_bound(c: Consumer)
    requires
        c.wf(),
    ensures
        forall|i: int|
            0 <= i < c.emitted@.len() ==> 1 <= (#[trigger] c.emitted@[i]).len() <= BATCH_SIZE,
        c.batch@.len() < BATCH_SIZE,
{
}

/// Cache bound: the cache never exceeds its capacity, and what it holds is
/// exactly the newest admitted frames — the largest admitted ids, since
/// ids ascend.
pub proof fn lemma_cache_bound(c: Consumer)
    requires
        c.wf(),
    ensures
        c.cache@.len() <= MAX_CACHE_ENTRIES,
        c.cache@.len() == if c.admitted@.len() <= MAX_CACHE_ENTRIES {
            c.admitted@.len() as int
        } else {
            MAX_CACHE_ENTRIES as int
        },
        forall|i: int|
            0 <= i < c.cache@.len() ==> #[trigger] c.cache@[i] == c.admitted@[
                c.admitted@.len() - c.cache@.len() + i
            ],
{
    if c.admitted@.len() > MAX_CACHE_ENTRIES {
        assert forall|i: int| 0 <= i < c.cache@.len() implies #[trigger] c.cache@[i]
            == c.admitted@[c.admitted@.len() - c.cache@.len() + i] by {
            assert(c.cache@[i] == c.admitted@.skip(
                c.admitted@.len() - MAX_CACHE_ENTRIES,
            )[i]);
        }
    }
}

} // verus!

//! The packet cache: a bounded store of raw frames keyed by id, kept in
//! ascending id order. Inserting past the bound evicts the smallest ids.

use vstd::prelude::*;

use crate::model::{CachedPacket, CachedPacketView};
use crate::MAX_CACHE_ENTRIES;

verus! {

/// View of one cache entry.
pub open spec fn entry_view(e: (u64, CachedPacket)) -> (u64, CachedPacketView) {
    (e.0, e.1@)
}

/// View of a run of cache entries.
pub open spec fn entries_view(s: Seq<(u64, CachedPacket)>) -> Seq<(u64, CachedPacketView)> {
    s.map_values(|e: (u64, CachedPacket)| entry_view(e))
}

/// Ids strictly ascend along the sequence.
pub open spec fn keys_sorted(s: Seq<(u64, CachedPacketView)>) -> bool {
    forall|i: int, j: int| 0 <= i < j < s.len() ==> s[i].0 < s[j].0
}

/// The packet stored under `id`: the first entry that carries it.
pub open spec fn spec_lookup(s: Seq<(u64, CachedPacketView)>, id: u64) -> Option<CachedPacketView>
    decreases s.len(),
{
    if s.len() == 0 {
        None
    } else if s[0].0 == id {
        Some(s[0].1)
    } else {
        spec_lookup(s.skip(1), id)
    }
}

/// The sequence after a keyed insert: an entry with the same id is
/// replaced, otherwise the new entry takes its place in id order.
pub open spec fn spec_insert(
    s: Seq<(u64, CachedPacketView)>,
    id: u64,
    p: CachedPacketView,
) -> Seq<(u64, CachedPacketView)>
    decreases s.len(),
{
    if s.len() == 0 {
        seq![(id, p)]
    } else if id < s[0].0 {
        seq![(id, p)] + s
    } else if id == s[0].0 {
        seq![(id, p)] + s.skip(1)
    } else {
        seq![s[0]] + spec_insert(s.skip(1), id, p)
    }
}

/// The sequence cut back to the bound: the entries over the bound are
/// dropped from the front, where the smallest ids stand.
pub open spec fn spec_trim(s: Seq<(u64, CachedPacketView)>) -> Seq<(u64, CachedPacketView)> {
    if s.len() > MAX_CACHE_ENTRIES {
        s.skip(s.len() - MAX_CACHE_ENTRIES)
    } else {
        s
    }
}

/// A keyed insert into a run whose keys around `pos` straddle `id` splits
/// the run at `pos`.
proof fn lemma_insert_at(
    s: Seq<(u64, CachedPacketView)>,
    id: u64,
    p: CachedPacketView,
    pos: int,
)
    requires
        0 <= pos <= s.len(),
        forall|k: int| 0 <= k < pos ==> s[k].0 < id,
        forall|k: int| pos <= k < s.len() ==> s[k].0 > id,
    ensures
        spec_insert(s, id, p) == s.take(pos) + seq![(id, p)] + s.skip(pos),
    decreases pos,
{
    if s.len() == 0 {
        assert(spec_insert(s, id, p) =~= s.take(pos) + seq![(id, p)] + s.skip(pos));
    } else if pos == 0 {
        assert(spec_insert(s, id, p) =~= s.take(pos) + seq![(id, p)] + s.skip(pos));
    } else {
        lemma_insert_at(s.skip(1), id, p, pos - 1);
        assert(spec_insert(s, id, p) =~= s.take(pos) + seq![(id, p)] + s.skip(pos));
    }
}

/// A keyed insert whose id already stands at `pos` replaces that entry.
proof fn lemma_insert_replace(
    s: Seq<(u64, CachedPacketView)>,
    id: u64,
    p: CachedPacketView,
    pos: int,
)
    requires
        0 <= pos < s.len(),
        s[pos].0 == id,
        forall|k: int| 0 <= k < pos ==> s[k].0 < id,
    ensures
        spec_insert(s, id, p) == s.take(pos) + seq![(id, p)] + s.skip(pos + 1),
    decreases pos,
{
    if pos == 0 {
        assert(spec_insert(s, id, p) =~= s.take(pos) + seq![(id, p)] + s.skip(pos + 1));
    } else {
        lemma_insert_replace(s.skip(1), id, p, pos - 1);
        assert(spec_insert(s, id, p) =~= s.take(pos) + seq![(id, p)] + s.skip(pos + 1));
    }
}

/// A found entry is an entry of the cache.
pub proof fn lemma_lookup_in(s: Seq<(u64, CachedPacketView)>, id: u64)
    requires
        spec_lookup(s, id) is Some,
    ensures
        exists|i: int|
            0 <= i < s.len() && s[i].0 == id && s[i].1 == spec_lookup(s, id).unwrap(),
    decreases s.len(),
{
    if s.len() > 0 && s[0].0 != id {
        lemma_lookup_in(s.skip(1), id);
        let i = choose|i: int|
            0 <= i < s.skip(1).len() && s.skip(1)[i].0 == id && s.skip(1)[i].1 == spec_lookup(
                s.skip(1),
                id,
            ).unwrap();
        assert(s[i + 1].0 == id && s[i + 1].1 == spec_lookup(s, id).unwrap());
    }
}

/// Inserting an id above every key appends the entry.
pub proof fn lemma_insert_append(s: Seq<(u64, CachedPacketView)>, id: u64, p: CachedPacketView)
    requires
        forall|k: int| 0 <= k < s.len() ==> s[k].0 < id,
    ensures
        spec_insert(s, id, p) == s + seq![(id, p)],
{
    lemma_insert_at(s, id, p, s.len() as int);
    assert(s.take(s.len() as int) + seq![(id, p)] + s.skip(s.len() as int) =~= s + seq![(id, p)]);
}

/// The ordered, bounded packet store.
pub struct PacketCache {
    entries: Vec<(u64, CachedPacket)>,
}

impl View for PacketCache {
    type V = Seq<(u64, CachedPacketView)>;

    closed spec fn view(&self) -> Seq<(u64, CachedPacketView)> {
        entries_view(self.entries@)
    }
}

impl PacketCache {
    /// Well-formed: ids strictly ascend and the bound holds.
    pub open spec fn wf(&self) -> bool {
        keys_sorted(self@) && self@.len() <= MAX_CACHE_ENTRIES
    }

    /// An empty cache.
    pub fn new() -> (r: Self)
        ensures
            r@ == Seq::<(u64, CachedPacketView)>::empty(),
            r.wf(),
    {
        let r = PacketCache { entries: Vec::new() };
        proof {
            assert(r@ =~= Seq::<(u64, CachedPacketView)>::empty());
        }
        r
    }

    /// Number of stored packets.
    pub fn len(&self) -> (r: usize)
        ensures
            r == self@.len(),
    {
        self.entries.len()
    }

    /// Drops every entry.
    pub fn clear(&mut self)
        ensures
            final(self)@ == Seq::<(u64, CachedPacketView)>::empty(),
            final(self).wf(),
    {
        self.entries.clear();
        proof {
            assert(self@ =~= Seq::<(u64, CachedPacketView)>::empty());
        }
    }

    /// The packet stored under `id`, if any.
    pub fn get(&self, id: u64) -> (r: Option<&CachedPacket>)
        ensures
            match r {
                Some(p) => spec_lookup(self@, id) == Some(p@),
                None => spec_lookup(self@, id) is None,
            },
    {
        let n: usize = self.entries.len();
        let mut i: usize = 0;
        proof {
            assert(self@.skip(0) =~= self@);
        }
        while i < n
            invariant
                i <= n,
                n == self.entries@.len(),
                n == self@.len(),
                spec_lookup(self@, id) == spec_lookup(self@.skip(i as int), id),
            decreases n - i,
        {
            proof {
                assert(self@.skip(i as int)[0] == self@[i as int]);
            }
            if self.entries[i].0 == id {
                return Some(&self.entries[i].1);
            }
            proof {
                assert(self@.skip(i as int).skip(1) =~= self@.skip(i + 1));
            }
            i = i + 1;
        }
        proof {
            assert(self@.skip(n as int) =~= Seq::<(u64, CachedPacketView)>::empty());
        }
        None
    }

    /// The entries in ascending id order.
    pub fn iter_sorted(&self) -> (r: &Vec<(u64, CachedPacket)>)
        ensures
            entries_view(r@) == self@,
    {
        &self.entries
    }

    /// Stores `packet` under `id` in id order, replacing an entry with the
    /// same id, then evicts the smallest ids down to the bound.
    pub fn insert(&mut self, id: u64, packet: CachedPacket)
        requires
            old(self).wf(),
        ensures
            final(self).wf(),
            final(self)@ == spec_trim(spec_insert(old(self)@, id, packet@)),
    {
        let len: usize = self.entries.len();
        let mut pos: usize = len;
        while pos > 0 && self.entries[pos - 1].0 > id
            invariant
                pos <= len,
                len == self.entries@.len(),
                self.entries@ == old(self).entries@,
                forall|k: int| pos <= k < len ==> self@[k].0 > id,
            decreases pos,
        {
            proof {
                assert(self@[pos - 1].0 == self.entries@[pos - 1].0);
            }
            pos = pos - 1;
        }
        proof {
            assert(pos > 0 ==> self@[pos - 1].0 == self.entries@[pos - 1].0);
        }
        if pos > 0 && self.entries[pos - 1].0 == id {
            let ghost s_old = self@;
            let at: usize = pos - 1;
            self.entries.remove(at);
            self.entries.insert(at, (id, packet));
            proof {
                lemma_insert_replace(s_old, id, packet@, at as int);
                assert(self@ =~= s_old.take(at as int) + seq![(id, packet@)] + s_old.skip(
                    at + 1,
                ));
                assert(self@ == spec_insert(s_old, id, packet@));
                assert(self@.len() == s_old.len());
                assert(spec_trim(spec_insert(s_old, id, packet@)) == spec_insert(
                    s_old,
                    id,
                    packet@,
                ));
                assert(keys_sorted(self@));
            }
        } else {
            let ghost s_old = self@;
            self.entries.insert(pos, (id, packet));
            proof {
                lemma_insert_at(s_old, id, packet@, pos as int);
                assert(self@ =~= s_old.take(pos as int) + seq![(id, packet@)] + s_old.skip(
                    pos as int,
                ));
                assert(self@ == spec_insert(s_old, id, packet@));
                assert(keys_sorted(self@));
            }
            if self.entries.len() > MAX_CACHE_ENTRIES {
                let ghost s_ins = self@;
                let k: usize = self.entries.len() - MAX_CACHE_ENTRIES;
                let tail = self.entries.split_off(k);
                self.entries = tail;
                proof {
                    assert(self@ =~= s_ins.skip(k as int));
                    assert(self@ == spec_trim(spec_insert(s_old, id, packet@)));
                    assert(keys_sorted(self@));
                }
            } else {
                proof {
                    assert(spec_trim(spec_insert(s_old, id, packet@)) == spec_insert(
                        s_old,
                        id,
                        packet@,
                    ));
                }
            }
        }
    }
}

} // verus!

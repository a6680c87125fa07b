//! The command surface's decisions: the one-session-at-a-time gate, the
//! error taxonomy with its exact message strings, the detail lookup and
//! the export operation over the cache.

use vstd::prelude::*;

use crate::cache::{lemma_lookup_in, spec_lookup, PacketCache};
use crate::dissector::{dissect_packet, parse_summary, spec_detail, spec_summary};
use crate::export::{export_pcap, exportable, spec_export_records, spec_pcap_header};
use crate::model::{
    summaries_view, CachedPacketView, PacketDetail, PacketSummary, SummaryView,
};
use crate::text::{spec_contains, str_contains};

use vstd::multiset::Multiset;

verus! {

/// Why a capture could not start.
#[derive(Debug)]
pub enum StartError {
    /// A session is already running.
    AlreadyCapturing,
    /// The source refused for want of privileges.
    Permission,
    /// Opening the device failed; carries the source's message.
    Open(String),
    /// Activating the capture failed; carries the source's message.
    Activate(String),
}

impl StartError {
    /// The exact error string each variant surfaces.
    pub open spec fn spec_message(self) -> Seq<char> {
        match self {
            StartError::AlreadyCapturing => "Capture already in progress"@,
            StartError::Permission => "PermissionError"@,
            StartError::Open(m) => "Failed to open device: "@ + m@,
            StartError::Activate(m) => "Failed to activate capture: "@ + m@,
        }
    }

    /// The error string shown to the caller.
    pub fn message(&self) -> (r: String)
        ensures
            r@ == self.spec_message(),
    {
        match self {
            StartError::AlreadyCapturing => String::from_str("Capture already in progress"),
            StartError::Permission => String::from_str("PermissionError"),
            StartError::Open(m) => {
                let mut s = String::from_str("Failed to open device: ");
                s.append(m.as_str());
                s
            },
            StartError::Activate(m) => {
                let mut s = String::from_str("Failed to activate capture: ");
                s.append(m.as_str());
                s
            },
        }
    }
}

/// Why a detail lookup failed.
#[derive(Debug)]
pub enum DetailError {
    /// No packet under that id.
    NotFound,
    /// The cached bytes no longer parse.
    DissectFailed,
}

impl DetailError {
    /// The exact error string each variant surfaces.
    pub open spec fn spec_message(self) -> Seq<char> {
        match self {
            DetailError::NotFound => "Packet not found in cache."@,
            DetailError::DissectFailed => "Failed to dissect packet."@,
        }
    }

    /// The error string shown to the caller.
    pub fn message(&self) -> (r: String)
        ensures
            r@ == self.spec_message(),
    {
        match self {
            DetailError::NotFound => String::from_str("Packet not found in cache."),
            DetailError::DissectFailed => String::from_str("Failed to dissect packet."),
        }
    }
}

/// Why an export wrote nothing.
#[derive(Debug)]
pub enum ExportError {
    /// The caller named no ids.
    NoPackets,
    /// Ids were named but none yielded a valid packet.
    NoValidPackets,
}

impl ExportError {
    /// The exact error string each variant surfaces.
    pub open spec fn spec_message(self) -> Seq<char> {
        match self {
            ExportError::NoPackets => "No packets to export"@,
            ExportError::NoValidPackets => "No valid packets found in cache"@,
        }
    }

    /// The error string shown to the caller.
    pub fn message(&self) -> (r: String)
        ensures
            r@ == self.spec_message(),
    {
        match self {
            ExportError::NoPackets => String::from_str("No packets to export"),
            ExportError::NoValidPackets => String::from_str("No valid packets found in cache"),
        }
    }
}

/// True when the source's message reports missing privileges.
pub open spec fn spec_is_permission(msg: Seq<char>) -> bool {
    spec_contains(msg, "Permission denied"@) || spec_contains(msg, "permission"@)
}

/// Classifies a failure to open or activate the source: a message that
/// reports missing privileges becomes the permission sentinel; any other
/// keeps its text under the stage that failed.
pub fn classify_open_failure(msg: &str, activating: bool) -> (r: StartError)
    ensures
        spec_is_permission(msg@) ==> r is Permission,
        !spec_is_permission(msg@) && !activating ==> (r matches StartError::Open(m) && m@
            == msg@),
        !spec_is_permission(msg@) && activating ==> (r matches StartError::Activate(m) && m@
            == msg@),
{
    if str_contains(msg, "Permission denied") || str_contains(msg, "permission") {
        StartError::Permission
    } else if activating {
        StartError::Activate(String::from_str(msg))
    } else {
        StartError::Open(String::from_str(msg))
    }
}

/// The session gate: at most one capture runs per instance.
pub struct Session {
    /// Whether a capture session is running.
    pub running: bool,
}

impl Session {
    /// A fresh, idle gate.
    pub fn new() -> (r: Session)
        ensures
            !r.running,
    {
        Session { running: false }
    }

    /// Begins a session: refused exactly when one already runs, otherwise
    /// the session is marked running.
    pub fn try_start(&mut self) -> (r: Result<(), StartError>)
        ensures
            old(self).running ==> (r matches Err(e) && e is AlreadyCapturing
                && final(self).running),
            !old(self).running ==> r is Ok && final(self).running,
    {
        if self.running {
            Err(StartError::AlreadyCapturing)
        } else {
            self.running = true;
            Ok(())
        }
    }

    /// Ends a session: the instance is idle again.
    pub fn stop(&mut self)
        ensures
            !final(self).running,
    {
        self.running = false;
    }
}

/// True when every cached frame fits the dissector's length field.
pub open spec fn cache_sizes_ok(s: Seq<(u64, CachedPacketView)>) -> bool {
    forall|i: int| 0 <= i < s.len() ==> (#[trigger] s[i]).1.data.len() <= u32::MAX
}

/// Looks a packet up and dissects it: absent id and failed dissection each
/// surface their own error; otherwise the detail is exactly the dissection
/// of the cached bytes.
pub fn get_packet_detail(cache: &PacketCache, id: u64) -> (r: Result<PacketDetail, DetailError>)
    requires
        cache_sizes_ok(cache@),
    ensures
        match spec_lookup(cache@, id) {
            None => r matches Err(e) && e is NotFound,
            Some(p) => match spec_detail(p.data, id) {
                None => r matches Err(e) && e is DissectFailed,
                Some(d) => r matches Ok(det) && det@ == d,
            },
        },
{
    match cache.get(id) {
        None => Err(DetailError::NotFound),
        Some(cached) => {
            proof {
                lemma_lookup_in(cache@, id);
                let j = choose|j: int|
                    0 <= j < cache@.len() && cache@[j].0 == id && cache@[j].1 == spec_lookup(
                        cache@,
                        id,
                    ).unwrap();
                assert(cache@[j].1.data.len() <= u32::MAX);
            }
            match dissect_packet(cached.data.as_slice(), id) {
                None => Err(DetailError::DissectFailed),
                Some(d) => Ok(d),
            }
        },
    }
}

/// The summaries an export keeps, in input order: each listed id found in
/// the cache whose bytes still parse.
pub open spec fn spec_survivors(
    cache: Seq<(u64, CachedPacketView)>,
    ids: Seq<u64>,
) -> Seq<SummaryView>
    decreases ids.len(),
{
    if ids.len() == 0 {
        Seq::empty()
    } else {
        (match spec_lookup(cache, ids[0]) {
            Some(p) => match spec_summary(p.data, ids[0], p.timestamp_ns) {
                Some(s) => seq![s],
                None => Seq::empty(),
            },
            None => Seq::empty(),
        }) + spec_survivors(cache, ids.skip(1))
    }
}

/// Appending one id appends its contribution.
proof fn lemma_survivors_snoc(cache: Seq<(u64, CachedPacketView)>, ids: Seq<u64>, x: u64)
    ensures
        spec_survivors(cache, ids + seq![x]) == spec_survivors(cache, ids) + (
        match spec_lookup(cache, x) {
            Some(p) => match spec_summary(p.data, x, p.timestamp_ns) {
                Some(s) => seq![s],
                None => Seq::empty(),
            },
            None => Seq::empty(),
        }),
    decreases ids.len(),
{
    let sur_x: Seq<SummaryView> = match spec_lookup(cache, x) {
        Some(p) => match spec_summary(p.data, x, p.timestamp_ns) {
            Some(s) => seq![s],
            None => Seq::empty(),
        },
        None => Seq::empty(),
    };
    if ids.len() == 0 {
        assert((ids + seq![x])[0] == x);
        assert((ids + seq![x]).skip(1) =~= Seq::<u64>::empty());
        assert(spec_survivors(cache, ids + seq![x]) == sur_x + spec_survivors(
            cache,
            (ids + seq![x]).skip(1),
        ));
        assert(sur_x + Seq::<SummaryView>::empty() =~= sur_x);
        assert(spec_survivors(cache, ids) + sur_x =~= sur_x);
    } else {
        lemma_survivors_snoc(cache, ids.skip(1), x);
        let sur_0: Seq<SummaryView> = match spec_lookup(cache, ids[0]) {
            Some(p) => match spec_summary(p.data, ids[0], p.timestamp_ns) {
                Some(s) => seq![s],
                None => Seq::empty(),
            },
            None => Seq::empty(),
        };
        assert((ids + seq![x])[0] == ids[0]);
        assert((ids + seq![x]).skip(1) =~= ids.skip(1) + seq![x]);
        assert(spec_survivors(cache, ids + seq![x]) == sur_0 + spec_survivors(
            cache,
            ids.skip(1) + seq![x],
        ));
        assert(spec_survivors(cache, ids) == sur_0 + spec_survivors(cache, ids.skip(1)));
        assert(sur_0 + (spec_survivors(cache, ids.skip(1)) + sur_x) =~= (sur_0 + spec_survivors(
            cache,
            ids.skip(1),
        )) + sur_x);
    }
}

/// Insertion of one summary into an id-sorted run, after its equals.
pub open spec fn spec_ins_sorted(s: Seq<SummaryView>, x: SummaryView) -> Seq<SummaryView>
    decreases s.len(),
{
    if s.len() == 0 {
        seq![x]
    } else if x.id < s[0].id {
        seq![x] + s
    } else {
        seq![s[0]] + spec_ins_sorted(s.skip(1), x)
    }
}

/// The run sorted by id, stably.
pub open spec fn spec_sort_by_id(s: Seq<SummaryView>) -> Seq<SummaryView>
    decreases s.len(),
{
    if s.len() == 0 {
        Seq::empty()
    } else {
        spec_ins_sorted(spec_sort_by_id(s.drop_last()), s.last())
    }
}

/// Inserting into a run whose ids around `pos` straddle the new id splits
/// the run at `pos`.
proof fn lemma_ins_sorted_at(s: Seq<SummaryView>, x: SummaryView, pos: int)
    requires
        0 <= pos <= s.len(),
        forall|k: int| 0 <= k < pos ==> (#[trigger] s[k]).id <= x.id,
        forall|k: int| pos <= k < s.len() ==> (#[trigger] s[k]).id > x.id,
    ensures
        spec_ins_sorted(s, x) == s.take(pos) + seq![x] + s.skip(pos),
    decreases pos,
{
    if s.len() == 0 {
        assert(spec_ins_sorted(s, x) =~= s.take(pos) + seq![x] + s.skip(pos));
    } else if pos == 0 {
        assert(spec_ins_sorted(s, x) =~= s.take(pos) + seq![x] + s.skip(pos));
    } else {
        lemma_ins_sorted_at(s.skip(1), x, pos - 1);
        assert(spec_ins_sorted(s, x) =~= s.take(pos) + seq![x] + s.skip(pos));
    }
}

/// Ids never descend along the run.
pub open spec fn sorted_by_id(s: Seq<SummaryView>) -> bool {
    forall|i: int, j: int| 0 <= i < j < s.len() ==> (#[trigger] s[i]).id <= (#[trigger] s[j]).id
}

/// One ordered insert adds exactly its element to the run's contents.
proof fn lemma_ins_sorted_multiset(s: Seq<SummaryView>, x: SummaryView)
    ensures
        spec_ins_sorted(s, x).to_multiset() == s.to_multiset().insert(x),
    decreases s.len(),
{
    broadcast use vstd::seq_lib::group_to_multiset_ensures;
    broadcast use vstd::multiset::group_multiset_axioms;

    if s.len() == 0 {
        assert(spec_ins_sorted(s, x) =~= Seq::<SummaryView>::empty().push(x));
        assert(s =~= Seq::<SummaryView>::empty());
        assert(spec_ins_sorted(s, x).to_multiset() =~= s.to_multiset().insert(x));
    } else if x.id < s[0].id {
        vstd::seq_lib::lemma_multiset_commutative(seq![x], s);
        assert(seq![x] =~= Seq::<SummaryView>::empty().push(x));
        assert(seq![x].to_multiset() =~= Multiset::<SummaryView>::empty().insert(x));
        assert(spec_ins_sorted(s, x).to_multiset() =~= s.to_multiset().insert(x));
    } else {
        lemma_ins_sorted_multiset(s.skip(1), x);
        vstd::seq_lib::lemma_multiset_commutative(seq![s[0]], spec_ins_sorted(s.skip(1), x));
        vstd::seq_lib::lemma_multiset_commutative(seq![s[0]], s.skip(1));
        assert(s =~= seq![s[0]] + s.skip(1));
        assert(spec_ins_sorted(s, x).to_multiset() =~= s.to_multiset().insert(x));
    }
}

/// Sorting permutes: the sorted run holds exactly the given summaries,
/// each as often as it was given.
pub proof fn lemma_sort_permutes(s: Seq<SummaryView>)
    ensures
        spec_sort_by_id(s).to_multiset() == s.to_multiset(),
    decreases s.len(),
{
    broadcast use vstd::seq_lib::group_to_multiset_ensures;

    if s.len() == 0 {
        assert(spec_sort_by_id(s) =~= s);
    } else {
        lemma_sort_permutes(s.drop_last());
        lemma_ins_sorted_multiset(spec_sort_by_id(s.drop_last()), s.last());
        assert(s =~= s.drop_last().push(s.last()));
        assert(spec_sort_by_id(s).to_multiset() =~= s.to_multiset());
    }
}

/// An ordered insert into a sorted run keeps it sorted and adds only the
/// new element.
proof fn lemma_ins_sorted_preserves(s: Seq<SummaryView>, x: SummaryView)
    requires
        sorted_by_id(s),
    ensures
        sorted_by_id(spec_ins_sorted(s, x)),
        forall|i: int|
            0 <= i < spec_ins_sorted(s, x).len() ==> (#[trigger] spec_ins_sorted(s, x)[i] == x
                || s.contains(spec_ins_sorted(s, x)[i])),
    decreases s.len(),
{
    if s.len() == 0 {
    } else if x.id < s[0].id {
        let t = spec_ins_sorted(s, x);
        assert forall|i: int| 0 <= i < t.len() implies (#[trigger] t[i] == x || s.contains(
            t[i],
        )) by {
            if i > 0 {
                assert(t[i] == s[i - 1]);
            }
        }
        assert forall|i: int, j: int| 0 <= i < j < t.len() implies (#[trigger] t[i]).id
            <= (#[trigger] t[j]).id by {
            if i > 0 {
                assert(t[i] == s[i - 1] && t[j] == s[j - 1]);
            } else {
                assert(t[j] == s[j - 1]);
                assert(s[0].id <= s[j - 1].id);
            }
        }
    } else {
        lemma_ins_sorted_preserves(s.skip(1), x);
        let u = spec_ins_sorted(s.skip(1), x);
        let t = spec_ins_sorted(s, x);
        assert(t == seq![s[0]] + u);
        assert forall|i: int| 0 <= i < t.len() implies (#[trigger] t[i] == x || s.contains(
            t[i],
        )) by {
            if i > 0 {
                assert(t[i] == u[i - 1]);
                if u[i - 1] != x {
                    assert(s.skip(1).contains(u[i - 1]));
                    let k = choose|k: int| 0 <= k < s.skip(1).len() && s.skip(1)[k] == u[i - 1];
                    assert(s[k + 1] == u[i - 1]);
                }
            }
        }
        assert forall|i: int, j: int| 0 <= i < j < t.len() implies (#[trigger] t[i]).id
            <= (#[trigger] t[j]).id by {
            if i > 0 {
                assert(t[i] == u[i - 1] && t[j] == u[j - 1]);
            } else {
                assert(t[j] == u[j - 1]);
                if u[j - 1] == x {
                    assert(s[0].id <= x.id);
                } else {
                    assert(s.skip(1).contains(u[j - 1]));
                    let k = choose|k: int|
                        0 <= k < s.skip(1).len() && s.skip(1)[k] == u[j - 1];
                    assert(s[k + 1] == u[j - 1]);
                    assert(s[0].id <= s[k + 1].id);
                }
            }
        }
    }
}

/// Sorting orders: the sorted run's ids never descend.
pub proof fn lemma_sort_sorted(s: Seq<SummaryView>)
    ensures
        sorted_by_id(spec_sort_by_id(s)),
    decreases s.len(),
{
    if s.len() > 0 {
        lemma_sort_sorted(s.drop_last());
        lemma_ins_sorted_preserves(spec_sort_by_id(s.drop_last()), s.last());
    }
}

/// Sorts summaries by id, stably, by repeated ordered insertion.
fn sort_summaries_by_id(list: Vec<PacketSummary>) -> (r: Vec<PacketSummary>)
    ensures
        summaries_view(r@) == spec_sort_by_id(summaries_view(list@)),
        r@.len() == list@.len(),
{
    let mut rest = list;
    let mut acc: Vec<PacketSummary> = Vec::new();
    let total: usize = rest.len();
    let ghost orig = summaries_view(rest@);
    proof {
        assert(orig.take(0) =~= Seq::<SummaryView>::empty());
        assert(summaries_view(acc@) =~= spec_sort_by_id(orig.take(0)));
        assert(orig.skip(0) =~= orig);
    }
    let mut done: usize = 0;
    while rest.len() > 0
        invariant
            done + rest@.len() == total,
            total == orig.len(),
            summaries_view(rest@) == orig.skip(done as int),
            summaries_view(acc@) == spec_sort_by_id(orig.take(done as int)),
            sorted_by_id(summaries_view(acc@)),
            acc@.len() == done,
        decreases rest@.len(),
    {
        let x = rest.remove(0);
        proof {
            assert(orig.skip(done as int)[0] == orig[done as int]);
            assert(x@ == orig[done as int]);
            assert(summaries_view(rest@) =~= orig.skip(done as int).skip(1));
            assert(orig.skip(done as int).skip(1) =~= orig.skip(done + 1));
        }
        let xid: u64 = x.id;
        let alen: usize = acc.len();
        let mut pos: usize = alen;
        while pos > 0 && acc[pos - 1].id > xid
            invariant
                pos <= alen,
                alen == acc@.len(),
                forall|k: int|
                    pos <= k < alen ==> (#[trigger] summaries_view(acc@)[k]).id > xid,
            decreases pos,
        {
            proof {
                assert(summaries_view(acc@)[pos - 1].id == acc@[pos - 1].id);
            }
            pos = pos - 1;
        }
        let ghost acc_before = summaries_view(acc@);
        proof {
            if pos > 0 {
                assert(acc_before[pos - 1].id == acc@[pos - 1].id);
                assert(acc_before[pos - 1].id <= xid);
                assert forall|k: int| 0 <= k < pos implies (#[trigger] acc_before[k]).id
                    <= xid by {
                    assert(acc_before[k].id <= acc_before[pos - 1].id);
                }
            }
        }
        acc.insert(pos, x);
        proof {
            lemma_ins_sorted_at(acc_before, x@, pos as int);
            assert(summaries_view(acc@) =~= acc_before.take(pos as int) + seq![x@]
                + acc_before.skip(pos as int));
            assert(orig.take(done + 1).drop_last() =~= orig.take(done as int));
            assert(orig.take(done + 1).last() == orig[done as int]);
            assert(summaries_view(acc@) == spec_sort_by_id(orig.take(done + 1)));
            assert(sorted_by_id(summaries_view(acc@)));
        }
        done = done + 1;
    }
    proof {
        assert(orig.take(orig.len() as int) =~= orig);
    }
    acc
}

/// The export operation: keeps each named id found in the cache whose
/// bytes still parse, sorts the survivors by id ascending, and encodes the
/// capture file; an empty id list and an empty survivor list each surface
/// their own error. Returns the file bytes and the number of packets
/// written.
pub fn export_packets(cache: &PacketCache, packet_ids: &Vec<u64>) -> (r: Result<
    (Vec<u8>, usize),
    ExportError,
>)
    requires
        exportable(cache@),
    ensures
        packet_ids@.len() == 0 ==> (r matches Err(e) && e is NoPackets),
        packet_ids@.len() > 0 && spec_survivors(cache@, packet_ids@).len() == 0 ==> (r matches Err(
            e,
        ) && e is NoValidPackets),
        spec_survivors(cache@, packet_ids@).len() > 0 ==> (r matches Ok(out) && out.1
            == spec_survivors(cache@, packet_ids@).len() && out.0@ == spec_pcap_header()
            + spec_export_records(cache@, spec_sort_by_id(spec_survivors(cache@, packet_ids@)))),
{
    if packet_ids.len() == 0 {
        return Err(ExportError::NoPackets);
    }
    let n: usize = packet_ids.len();
    let mut list: Vec<PacketSummary> = Vec::new();
    let mut i: usize = 0;
    proof {
        assert(packet_ids@.take(0) =~= Seq::<u64>::empty());
        assert(summaries_view(list@) =~= spec_survivors(cache@, packet_ids@.take(0)));
    }
    while i < n
        invariant
            i <= n,
            n == packet_ids@.len(),
            exportable(cache@),
            summaries_view(list@) == spec_survivors(cache@, packet_ids@.take(i as int)),
        decreases n - i,
    {
        let id: u64 = packet_ids[i];
        match cache.get(id) {
            Some(cached) => {
                proof {
                    lemma_lookup_in(cache@, id);
                    let j = choose|j: int|
                        0 <= j < cache@.len() && cache@[j].0 == id && cache@[j].1 == spec_lookup(
                            cache@,
                            id,
                        ).unwrap();
                    assert(cache@[j].1.data.len() <= u32::MAX);
                }
                match parse_summary(cached.data.as_slice(), id, cached.timestamp_ns) {
                    Some(s) => {
                        list.push(s);
                    },
                    None => {},
                }
            },
            None => {},
        }
        proof {
            lemma_survivors_snoc(cache@, packet_ids@.take(i as int), id);
            assert(packet_ids@.take(i + 1) =~= packet_ids@.take(i as int) + seq![id]);
            assert(summaries_view(list@) =~= spec_survivors(cache@, packet_ids@.take(i + 1)));
        }
        i = i + 1;
    }
    proof {
        assert(packet_ids@.take(n as int) =~= packet_ids@);
    }
    if list.len() == 0 {
        return Err(ExportError::NoValidPackets);
    }
    let count: usize = list.len();
    let sorted = sort_summaries_by_id(list);
    let mut out: Vec<u8> = Vec::new();
    export_pcap(cache, &sorted, &mut out);
    Ok((out, count))
}

} // verus!

//! Verified textual forms of network addresses: IPv4 dotted quads, MAC
//! strings and the compressed IPv6 form (longest zero run elided, the
//! IPv4-mapped range shown with a trailing dotted quad).

use vstd::prelude::*;

use crate::text::{dec_u64, hex_pad_u32, hex_u16, spec_dec, spec_hex, spec_hex_pad};

verus! {

/// Dotted-quad form of four address bytes.
pub open spec fn spec_ipv4(b: Seq<u8>) -> Seq<char>
    recommends
        b.len() == 4,
{
    spec_dec(b[0] as nat) + seq!['.'] + spec_dec(b[1] as nat) + seq!['.'] + spec_dec(b[2] as nat)
        + seq!['.'] + spec_dec(b[3] as nat)
}

/// Lower-case colon-separated form of six address bytes.
pub open spec fn spec_mac(b: Seq<u8>) -> Seq<char>
    recommends
        b.len() == 6,
{
    spec_hex_pad(b[0] as nat, 2) + seq![':'] + spec_hex_pad(b[1] as nat, 2) + seq![':']
        + spec_hex_pad(b[2] as nat, 2) + seq![':'] + spec_hex_pad(b[3] as nat, 2) + seq![':']
        + spec_hex_pad(b[4] as nat, 2) + seq![':'] + spec_hex_pad(b[5] as nat, 2)
}

/// The eight 16-bit groups of an IPv6 address, big-endian.
pub open spec fn group_seq(b: Seq<u8>) -> Seq<u16>
    recommends
        b.len() == 16,
{
    Seq::new(8, |i: int| (b[2 * i] * 256 + b[2 * i + 1]) as u16)
}

/// Length of the run of zero groups starting at `i`.
pub open spec fn run_len(g: Seq<u16>, i: int) -> int
    decreases g.len() - i,
{
    if 0 <= i < g.len() && g[i] == 0 {
        1 + run_len(g, i + 1)
    } else {
        0
    }
}

/// The longest run of zero groups starting at or after `i`.
pub open spec fn max_run_from(g: Seq<u16>, i: int) -> int
    decreases g.len() - i,
{
    if 0 <= i < g.len() {
        let here = run_len(g, i);
        let rest = max_run_from(g, i + 1);
        if here >= rest {
            here
        } else {
            rest
        }
    } else {
        0
    }
}

/// The leftmost start, at or after `i`, of a longest run of zero groups.
pub open spec fn best_start_from(g: Seq<u16>, i: int) -> int
    decreases g.len() - i,
{
    if 0 <= i < g.len() {
        if run_len(g, i) == max_run_from(g, i) {
            i
        } else {
            best_start_from(g, i + 1)
        }
    } else {
        i
    }
}

/// Groups `from..to` in unpadded hex, joined by colons.
pub open spec fn spec_groups_hex(g: Seq<u16>, from: int, to: int) -> Seq<char>
    decreases to - from,
{
    if from >= to {
        Seq::empty()
    } else if from + 1 == to {
        spec_hex(g[from] as nat)
    } else {
        spec_hex(g[from] as nat) + seq![':'] + spec_groups_hex(g, from + 1, to)
    }
}

/// True of the group form of an IPv4-mapped address.
pub open spec fn is_ipv4_mapped(g: Seq<u16>) -> bool
    recommends
        g.len() == 8,
{
    g[0] == 0 && g[1] == 0 && g[2] == 0 && g[3] == 0 && g[4] == 0 && g[5] == 0xffff
}

/// Compressed textual form of the eight groups: the leftmost longest run of
/// at least two zero groups is written as a double colon.
pub open spec fn spec_ipv6_groups(g: Seq<u16>) -> Seq<char>
    recommends
        g.len() == 8,
{
    let m = max_run_from(g, 0);
    if m >= 2 {
        let s = best_start_from(g, 0);
        spec_groups_hex(g, 0, s) + seq![':', ':'] + spec_groups_hex(g, s + m, 8)
    } else {
        spec_groups_hex(g, 0, 8)
    }
}

/// Standard textual form of sixteen IPv6 address bytes.
pub open spec fn spec_ipv6(b: Seq<u8>) -> Seq<char>
    recommends
        b.len() == 16,
{
    let g = group_seq(b);
    if is_ipv4_mapped(g) {
        seq![':', ':', 'f', 'f', 'f', 'f', ':'] + spec_ipv4(b.subrange(12, 16))
    } else {
        spec_ipv6_groups(g)
    }
}

/// A zero run never reaches past the end of the groups.
proof fn lemma_run_len_bound(g: Seq<u16>, i: int)
    requires
        0 <= i <= g.len(),
    ensures
        0 <= run_len(g, i) <= g.len() - i,
    decreases g.len() - i,
{
    if i < g.len() && g[i] == 0 {
        lemma_run_len_bound(g, i + 1);
    }
}

/// The leftmost longest-run start lies in range and its run is the longest.
proof fn lemma_best_start(g: Seq<u16>, i: int)
    requires
        0 <= i <= g.len(),
    ensures
        i <= best_start_from(g, i) <= g.len(),
        run_len(g, best_start_from(g, i)) == max_run_from(g, i),
    decreases g.len() - i,
{
    if i < g.len() {
        if run_len(g, i) != max_run_from(g, i) {
            lemma_best_start(g, i + 1);
        }
    }
}

/// Dotted-quad rendering of four bytes.
pub fn ipv4_string(b: &[u8]) -> (r: String)
    requires
        b@.len() == 4,
    ensures
        r@ == spec_ipv4(b@),
{
    proof {
        reveal_strlit(".");
        assert("."@ =~= seq!['.']);
    }
    let mut s = dec_u64(*vstd::slice::slice_index_get(b, 0) as u64);
    s.append(".");
    let p1 = dec_u64(*vstd::slice::slice_index_get(b, 1) as u64);
    s.append(p1.as_str());
    s.append(".");
    let p2 = dec_u64(*vstd::slice::slice_index_get(b, 2) as u64);
    s.append(p2.as_str());
    s.append(".");
    let p3 = dec_u64(*vstd::slice::slice_index_get(b, 3) as u64);
    s.append(p3.as_str());
    proof {
        assert(s@ =~= spec_ipv4(b@));
    }
    s
}

/// Lower-case colon-separated rendering of six bytes.
pub fn mac_string(b: &[u8]) -> (r: String)
    requires
        b@.len() == 6,
    ensures
        r@ == spec_mac(b@),
{
    proof {
        reveal_strlit(":");
        assert(":"@ =~= seq![':']);
    }
    let mut s = hex_pad_u32(*vstd::slice::slice_index_get(b, 0) as u32, 2);
    s.append(":");
    let p1 = hex_pad_u32(*vstd::slice::slice_index_get(b, 1) as u32, 2);
    s.append(p1.as_str());
    s.append(":");
    let p2 = hex_pad_u32(*vstd::slice::slice_index_get(b, 2) as u32, 2);
    s.append(p2.as_str());
    s.append(":");
    let p3 = hex_pad_u32(*vstd::slice::slice_index_get(b, 3) as u32, 2);
    s.append(p3.as_str());
    s.append(":");
    let p4 = hex_pad_u32(*vstd::slice::slice_index_get(b, 4) as u32, 2);
    s.append(p4.as_str());
    s.append(":");
    let p5 = hex_pad_u32(*vstd::slice::slice_index_get(b, 5) as u32, 2);
    s.append(p5.as_str());
    proof {
        assert(s@ =~= spec_mac(b@));
    }
    s
}

/// Groups `from..to` in unpadded hex, joined by colons.
fn groups_hex(g: &Vec<u16>, from: usize, to: usize) -> (r: String)
    requires
        from <= to,
        to <= g@.len(),
    ensures
        r@ == spec_groups_hex(g@, from as int, to as int),
    decreases to - from,
{
    if from >= to {
        let r = String::new();
        proof {
            assert(r@ =~= spec_groups_hex(g@, from as int, to as int));
        }
        r
    } else if from + 1 == to {
        hex_u16(g[from])
    } else {
        proof {
            reveal_strlit(":");
            assert(":"@ =~= seq![':']);
        }
        let mut s = hex_u16(g[from]);
        s.append(":");
        let rest = groups_hex(g, from + 1, to);
        s.append(rest.as_str());
        proof {
            assert(s@ =~= spec_groups_hex(g@, from as int, to as int));
        }
        s
    }
}

/// Standard textual rendering of sixteen IPv6 address bytes.
pub fn ipv6_string(b: &[u8]) -> (r: String)
    requires
        b@.len() == 16,
    ensures
        r@ == spec_ipv6(b@),
{
    let mut g: Vec<u16> = Vec::new();
    let mut i: usize = 0;
    while i < 8
        invariant
            b@.len() == 16,
            i <= 8,
            g@.len() == i,
            forall|k: int| 0 <= k < i ==> g@[k] == group_seq(b@)[k],
        decreases 8 - i,
    {
        let hi: u8 = *vstd::slice::slice_index_get(b, 2 * i);
        let lo: u8 = *vstd::slice::slice_index_get(b, 2 * i + 1);
        let v: u16 = (hi as u16) * 256 + (lo as u16);
        g.push(v);
        i = i + 1;
    }
    proof {
        assert(g@ =~= group_seq(b@));
    }
    if g[0] == 0 && g[1] == 0 && g[2] == 0 && g[3] == 0 && g[4] == 0 && g[5] == 0xffff {
        proof {
            reveal_strlit("::ffff:");
            assert("::ffff:"@ =~= seq![':', ':', 'f', 'f', 'f', 'f', ':']);
        }
        let mut s = String::from_str("::ffff:");
        let quad = ipv4_string(vstd::slice::slice_subrange(b, 12, 16));
        s.append(quad.as_str());
        proof {
            assert(s@ =~= spec_ipv6(b@));
        }
        return s;
    }
    // One backward pass maintains, for the suffix starting at `i`, the
    // current run length, the longest run and its leftmost start.
    let mut cur: usize = 0;
    let mut m: usize = 0;
    let mut st: usize = 8;
    let mut j: usize = 8;
    while j > 0
        invariant
            g@.len() == 8,
            j <= 8,
            cur == run_len(g@, j as int),
            m == max_run_from(g@, j as int),
            st == best_start_from(g@, j as int),
            cur <= 8,
            m <= 8,
            st <= 8,
        decreases j,
    {
        j = j - 1;
        proof {
            lemma_run_len_bound(g@, j as int);
            lemma_run_len_bound(g@, j + 1);
        }
        if g[j] == 0 {
            cur = cur + 1;
        } else {
            cur = 0;
        }
        if cur >= m {
            m = cur;
            st = j;
        }
        proof {
            assert(cur == run_len(g@, j as int));
            assert(m == max_run_from(g@, j as int));
            assert(st == best_start_from(g@, j as int));
        }
    }
    proof {
        lemma_best_start(g@, 0);
        lemma_run_len_bound(g@, st as int);
    }
    if m >= 2 {
        proof {
            reveal_strlit("::");
            assert("::"@ =~= seq![':', ':']);
        }
        let mut s = groups_hex(&g, 0, st);
        s.append("::");
        let tail = groups_hex(&g, st + m, 8);
        s.append(tail.as_str());
        proof {
            assert(s@ =~= spec_ipv6(b@));
        }
        s
    } else {
        let s = groups_hex(&g, 0, 8);
        proof {
            assert(s@ =~= spec_ipv6(b@));
        }
        s
    }
}

} // verus!

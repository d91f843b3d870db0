//! Reduction of a finished collection of classified records to a report:
//! per-category counts, size totals, extrema and truncated averages for the
//! link, network and transport layers, together with unique MAC / IP / port
//! cardinalities and SYN-or-FIN and fragmentation tallies.
//!
//! The report is a pure function of the record sequence; `report_matches`
//! states every field of it over recursive spec functions, and `aggregate`
//! is proved to produce exactly that report in one pass.

use vstd::prelude::*;

use crate::packet_types::{
    LinkLayerType, NetworkLayerType, PacketTypes, TransportLayerType, zero_bytes,
};

verus! {

/// A statistics bucket: records are filtered by one layer kind, or by one of
/// the two packet-level flag predicates.
pub enum Category {
    Link(LinkLayerType),
    Net(NetworkLayerType),
    Trans(TransportLayerType),
    SynOrFin,
    Fragmented,
}

/// Whether one record falls in the given bucket.
pub open spec fn in_category(q: PacketTypes, c: Category) -> bool {
    match c {
        Category::Link(k) => q.link_layer_type == k,
        Category::Net(k) => q.network_layer_type == k,
        Category::Trans(k) => q.transport_layer_type == k,
        Category::SynOrFin => q.is_syn || q.is_fin,
        Category::Fragmented => q.is_frag,
    }
}

/// Number of records of `s` in bucket `c`.
pub open spec fn count_in(s: Seq<PacketTypes>, c: Category) -> nat
    decreases s.len(),
{
    if s.len() == 0 {
        0
    } else {
        count_in(s.drop_last(), c) + if in_category(s.last(), c) {
            1nat
        } else {
            0nat
        }
    }
}

/// Sum of the captured lengths of the records of `s` in bucket `c`.
pub open spec fn total_in(s: Seq<PacketTypes>, c: Category) -> int
    decreases s.len(),
{
    if s.len() == 0 {
        0
    } else {
        total_in(s.drop_last(), c) + if in_category(s.last(), c) {
            s.last().packet_length as int
        } else {
            0
        }
    }
}

/// Largest captured length among the records of `s` in bucket `c`; 0 when
/// the bucket is empty.
pub open spec fn max_in(s: Seq<PacketTypes>, c: Category) -> u32
    decreases s.len(),
{
    if s.len() == 0 {
        0
    } else if !in_category(s.last(), c) {
        max_in(s.drop_last(), c)
    } else if count_in(s.drop_last(), c) == 0 {
        s.last().packet_length
    } else if s.last().packet_length > max_in(s.drop_last(), c) {
        s.last().packet_length
    } else {
        max_in(s.drop_last(), c)
    }
}

/// Smallest captured length among the records of `s` in bucket `c`; 0 when
/// the bucket is empty.
pub open spec fn min_in(s: Seq<PacketTypes>, c: Category) -> u32
    decreases s.len(),
{
    if s.len() == 0 {
        0
    } else if !in_category(s.last(), c) {
        min_in(s.drop_last(), c)
    } else if count_in(s.drop_last(), c) == 0 {
        s.last().packet_length
    } else if s.last().packet_length < min_in(s.drop_last(), c) {
        s.last().packet_length
    } else {
        min_in(s.drop_last(), c)
    }
}

/// Truncated average length of bucket `c`: total over count, 0 for an empty
/// bucket.
pub open spec fn spec_avg(s: Seq<PacketTypes>, c: Category) -> int {
    if count_in(s, c) == 0 {
        0
    } else {
        total_in(s, c) / count_in(s, c) as int
    }
}

/// All source and destination MAC addresses of `s`, as a set.
pub open spec fn mac_set(s: Seq<PacketTypes>) -> Set<Seq<u8>>
    decreases s.len(),
{
    if s.len() == 0 {
        Set::empty()
    } else {
        mac_set(s.drop_last()).insert(s.last().source_mac@).insert(s.last().dest_mac@)
    }
}

/// Insert one 16-byte address unless it is the all-zero placeholder.
pub open spec fn add_ip(acc: Set<Seq<u8>>, ip: Seq<u8>) -> Set<Seq<u8>> {
    if ip == zero_bytes(16) {
        acc
    } else {
        acc.insert(ip)
    }
}

/// All source and destination IP address fields of `s`, excluding the
/// all-zero placeholder.
pub open spec fn ip_set(s: Seq<PacketTypes>) -> Set<Seq<u8>>
    decreases s.len(),
{
    if s.len() == 0 {
        Set::empty()
    } else {
        add_ip(add_ip(ip_set(s.drop_last()), s.last().source_ip@), s.last().dest_ip@)
    }
}

/// Insert one port number unless it is zero.
pub open spec fn add_port(acc: Set<u16>, port: u16) -> Set<u16> {
    if port == 0 {
        acc
    } else {
        acc.insert(port)
    }
}

/// All nonzero source and destination ports of the records of `s` whose
/// transport kind is `t`.
pub open spec fn ports_set(s: Seq<PacketTypes>, t: TransportLayerType) -> Set<u16>
    decreases s.len(),
{
    if s.len() == 0 {
        Set::empty()
    } else {
        let rest = ports_set(s.drop_last(), t);
        if s.last().transport_layer_type == t {
            add_port(add_port(rest, s.last().source_port), s.last().dest_port)
        } else {
            rest
        }
    }
}

/// Count, size total, extrema and truncated average of one bucket.
#[verifier::ext_equal]
#[derive(Clone, Copy, PartialEq, Eq, Structural, Debug)]
pub struct LayerStats {
    pub count: usize,
    pub total: u128,
    pub max: u32,
    pub min: u32,
    pub avg: u32,
}

/// Count, total and extrema of `st` are those of bucket `c` over `s`.
pub open spec fn stats_partial(st: LayerStats, s: Seq<PacketTypes>, c: Category) -> bool {
    &&& st.count == count_in(s, c)
    &&& st.total == total_in(s, c)
    &&& st.max == max_in(s, c)
    &&& st.min == min_in(s, c)
}

/// Every field of `st`, the average included, is that of bucket `c` over `s`.
pub open spec fn stats_match(st: LayerStats, s: Seq<PacketTypes>, c: Category) -> bool {
    &&& stats_partial(st, s, c)
    &&& st.avg == spec_avg(s, c)
}

impl LayerStats {
    /// The all-zero bucket, correct for an empty record sequence.
    fn zeroed() -> (st: Self)
        ensures
            st == (LayerStats { count: 0, total: 0, max: 0, min: 0, avg: 0 }),
    {
        LayerStats { count: 0, total: 0, max: 0, min: 0, avg: 0 }
    }

    /// Fold one record of length `len` into the bucket when `hit` holds.
    fn record(&mut self, hit: bool, len: u32)
        requires
            old(self).count < usize::MAX,
            old(self).total + len <= u128::MAX,
        ensures
            hit ==> *final(self) == (LayerStats {
                count: (old(self).count + 1) as usize,
                total: (old(self).total + len) as u128,
                max: if old(self).count == 0 || len > old(self).max {
                    len
                } else {
                    old(self).max
                },
                min: if old(self).count == 0 || len < old(self).min {
                    len
                } else {
                    old(self).min
                },
                avg: old(self).avg,
            }),
            !hit ==> *final(self) == *old(self),
    {
        if hit {
            if self.count == 0 {
                self.max = len;
                self.min = len;
            } else {
                if len > self.max {
                    self.max = len;
                }
                if len < self.min {
                    self.min = len;
                }
            }
            self.count = self.count + 1;
            self.total = self.total + (len as u128);
        }
    }

    /// Set the truncated average from the finished count and total.
    fn finalize(&mut self)
        requires
            old(self).total <= old(self).count * 0xFFFF_FFFF,
        ensures
            final(self).count == old(self).count,
            final(self).total == old(self).total,
            final(self).max == old(self).max,
            final(self).min == old(self).min,
            final(self).avg == (if old(self).count == 0 {
                0int
            } else {
                old(self).total as int / old(self).count as int
            }),
    {
        if self.count != 0 {
            let a: u128 = self.total / (self.count as u128);
            proof {
                assert(self.total as int / self.count as int <= 0xFFFF_FFFF) by (nonlinear_arith)
                    requires
                        self.count > 0,
                        self.total <= self.count * 0xFFFF_FFFF,
                ;
            }
            self.avg = a as u32;
        } else {
            self.avg = 0;
        }
    }
}

/// The aggregated report over one record collection.
#[verifier::ext_equal]
#[derive(Clone, Copy, PartialEq, Eq, Structural, Debug)]
pub struct AggregateReport {
    pub link_ethernet2: LayerStats,
    pub link_novell: LayerStats,
    pub net_arp: LayerStats,
    pub net_ipv4: LayerStats,
    pub net_ipv6: LayerStats,
    pub net_other: LayerStats,
    pub trans_icmp: LayerStats,
    pub trans_tcp: LayerStats,
    pub trans_udp: LayerStats,
    pub trans_other: LayerStats,
    pub unique_macs: usize,
    pub unique_ips: usize,
    pub unique_udp_ports: usize,
    pub unique_tcp_ports: usize,
    pub syn_fin_count: usize,
    pub frag_count: usize,
}

/// Every field of the report is the statistic it names, over the record
/// sequence `s`.
pub open spec fn report_matches(r: AggregateReport, s: Seq<PacketTypes>) -> bool {
    &&& stats_match(r.link_ethernet2, s, Category::Link(LinkLayerType::Ethernet2))
    &&& stats_match(r.link_novell, s, Category::Link(LinkLayerType::Novell8023))
    &&& stats_match(r.net_arp, s, Category::Net(NetworkLayerType::ARP))
    &&& stats_match(r.net_ipv4, s, Category::Net(NetworkLayerType::IPv4))
    &&& stats_match(r.net_ipv6, s, Category::Net(NetworkLayerType::IPv6))
    &&& stats_match(r.net_other, s, Category::Net(NetworkLayerType::Other))
    &&& stats_match(r.trans_icmp, s, Category::Trans(TransportLayerType::ICMP))
    &&& stats_match(r.trans_tcp, s, Category::Trans(TransportLayerType::TCP))
    &&& stats_match(r.trans_udp, s, Category::Trans(TransportLayerType::UDP))
    &&& stats_match(r.trans_other, s, Category::Trans(TransportLayerType::Other))
    &&& r.unique_macs == mac_set(s).len()
    &&& r.unique_ips == ip_set(s).len()
    &&& r.unique_udp_ports == ports_set(s, TransportLayerType::UDP).len()
    &&& r.unique_tcp_ports == ports_set(s, TransportLayerType::TCP).len()
    &&& r.syn_fin_count == count_in(s, Category::SynOrFin)
    &&& r.frag_count == count_in(s, Category::Fragmented)
}

/// A bucket never holds more records than the sequence.
proof fn lemma_count_le_len(s: Seq<PacketTypes>, c: Category)
    ensures
        count_in(s, c) <= s.len(),
    decreases s.len(),
{
    if s.len() > 0 {
        lemma_count_le_len(s.drop_last(), c);
    }
}

/// A bucket's size total is bounded by its count times the largest `u32`.
proof fn lemma_total_bound(s: Seq<PacketTypes>, c: Category)
    ensures
        0 <= total_in(s, c) <= count_in(s, c) * 0xFFFF_FFFF,
    decreases s.len(),
{
    if s.len() > 0 {
        lemma_total_bound(s.drop_last(), c);
        assert((count_in(s.drop_last(), c) + 1) * 0xFFFF_FFFF == count_in(s.drop_last(), c)
            * 0xFFFF_FFFF + 0xFFFF_FFFF);
    }
}

/// How each bucket statistic changes from the prefix of length `i` to the
/// prefix of length `i + 1`, together with the bounds the pass needs.
proof fn lemma_step(s: Seq<PacketTypes>, i: int, c: Category)
    requires
        0 <= i < s.len(),
    ensures
        count_in(s.take(i), c) <= i,
        total_in(s.take(i), c) <= count_in(s.take(i), c) * 0xFFFF_FFFF,
        count_in(s.take(i + 1), c) == count_in(s.take(i), c) + (if in_category(s[i], c) {
            1nat
        } else {
            0nat
        }),
        total_in(s.take(i + 1), c) == total_in(s.take(i), c) + (if in_category(s[i], c) {
            s[i].packet_length as int
        } else {
            0
        }),
        max_in(s.take(i + 1), c) == (if !in_category(s[i], c) {
            max_in(s.take(i), c)
        } else if count_in(s.take(i), c) == 0 {
            s[i].packet_length
        } else if s[i].packet_length > max_in(s.take(i), c) {
            s[i].packet_length
        } else {
            max_in(s.take(i), c)
        }),
        min_in(s.take(i + 1), c) == (if !in_category(s[i], c) {
            min_in(s.take(i), c)
        } else if count_in(s.take(i), c) == 0 {
            s[i].packet_length
        } else if s[i].packet_length < min_in(s.take(i), c) {
            s[i].packet_length
        } else {
            min_in(s.take(i), c)
        }),
{
    assert(s.take(i + 1).drop_last() =~= s.take(i));
    assert(s.take(i + 1).last() == s[i]);
    lemma_count_le_len(s.take(i), c);
    lemma_total_bound(s.take(i), c);
}

/// How the address and port sets change from the prefix of length `i` to the
/// prefix of length `i + 1`.
proof fn lemma_sets_take_step(s: Seq<PacketTypes>, i: int)
    requires
        0 <= i < s.len(),
    ensures
        mac_set(s.take(i + 1)) == mac_set(s.take(i)).insert(s[i].source_mac@).insert(
            s[i].dest_mac@,
        ),
        ip_set(s.take(i + 1)) == add_ip(add_ip(ip_set(s.take(i)), s[i].source_ip@), s[i].dest_ip@),
        ports_set(s.take(i + 1), TransportLayerType::TCP) == (if s[i].transport_layer_type
            == TransportLayerType::TCP {
            add_port(
                add_port(ports_set(s.take(i), TransportLayerType::TCP), s[i].source_port),
                s[i].dest_port,
            )
        } else {
            ports_set(s.take(i), TransportLayerType::TCP)
        }),
        ports_set(s.take(i + 1), TransportLayerType::UDP) == (if s[i].transport_layer_type
            == TransportLayerType::UDP {
            add_port(
                add_port(ports_set(s.take(i), TransportLayerType::UDP), s[i].source_port),
                s[i].dest_port,
            )
        } else {
            ports_set(s.take(i), TransportLayerType::UDP)
        }),
{
    assert(s.take(i + 1).drop_last() =~= s.take(i));
    assert(s.take(i + 1).last() == s[i]);
}

/// The address and port sets of any record sequence are finite.
pub proof fn lemma_sets_finite(s: Seq<PacketTypes>)
    ensures
        mac_set(s).finite(),
        ip_set(s).finite(),
        ports_set(s, TransportLayerType::TCP).finite(),
        ports_set(s, TransportLayerType::UDP).finite(),
    decreases s.len(),
{
    if s.len() > 0 {
        lemma_sets_finite(s.drop_last());
    }
}

/// The MAC addresses a dedup vector holds, as a set.
pub open spec fn mac_seen_set(v: Seq<[u8; 6]>) -> Set<Seq<u8>>
    decreases v.len(),
{
    if v.len() == 0 {
        Set::empty()
    } else {
        mac_seen_set(v.drop_last()).insert(v.last()@)
    }
}

/// The IP addresses a dedup vector holds, as a set.
pub open spec fn ip_seen_set(v: Seq<[u8; 16]>) -> Set<Seq<u8>>
    decreases v.len(),
{
    if v.len() == 0 {
        Set::empty()
    } else {
        ip_seen_set(v.drop_last()).insert(v.last()@)
    }
}

/// The ports a dedup vector holds, as a set.
pub open spec fn port_seen_set(v: Seq<u16>) -> Set<u16>
    decreases v.len(),
{
    if v.len() == 0 {
        Set::empty()
    } else {
        port_seen_set(v.drop_last()).insert(v.last())
    }
}

proof fn lemma_mac_seen_contains(v: Seq<[u8; 6]>, x: Seq<u8>)
    ensures
        mac_seen_set(v).contains(x) <==> exists|j: int|
            #![trigger v[j]]
            0 <= j < v.len() && v[j]@ == x,
    decreases v.len(),
{
    if v.len() > 0 {
        lemma_mac_seen_contains(v.drop_last(), x);
        assert(forall|j: int| 0 <= j < v.len() - 1 ==> v.drop_last()[j] == v[j]);
        if mac_seen_set(v).contains(x) && x != v.last()@ {
            let j = choose|j: int| #![trigger v.drop_last()[j]] 0 <= j < v.len() - 1
                && v.drop_last()[j]@ == x;
            assert(v[j]@ == x);
        }
        if exists|j: int| #![trigger v[j]] 0 <= j < v.len() && v[j]@ == x {
            let j = choose|j: int| #![trigger v[j]] 0 <= j < v.len() && v[j]@ == x;
            if j < v.len() - 1 {
                assert(v.drop_last()[j]@ == x);
            }
        }
    }
}

proof fn lemma_ip_seen_contains(v: Seq<[u8; 16]>, x: Seq<u8>)
    ensures
        ip_seen_set(v).contains(x) <==> exists|j: int|
            #![trigger v[j]]
            0 <= j < v.len() && v[j]@ == x,
    decreases v.len(),
{
    if v.len() > 0 {
        lemma_ip_seen_contains(v.drop_last(), x);
        assert(forall|j: int| 0 <= j < v.len() - 1 ==> v.drop_last()[j] == v[j]);
        if ip_seen_set(v).contains(x) && x != v.last()@ {
            let j = choose|j: int| #![trigger v.drop_last()[j]] 0 <= j < v.len() - 1
                && v.drop_last()[j]@ == x;
            assert(v[j]@ == x);
        }
        if exists|j: int| #![trigger v[j]] 0 <= j < v.len() && v[j]@ == x {
            let j = choose|j: int| #![trigger v[j]] 0 <= j < v.len() && v[j]@ == x;
            if j < v.len() - 1 {
                assert(v.drop_last()[j]@ == x);
            }
        }
    }
}

proof fn lemma_port_seen_contains(v: Seq<u16>, x: u16)
    ensures
        port_seen_set(v).contains(x) <==> v.contains(x),
    decreases v.len(),
{
    if v.len() > 0 {
        lemma_port_seen_contains(v.drop_last(), x);
        assert(forall|j: int| 0 <= j < v.len() - 1 ==> v.drop_last()[j] == v[j]);
        if port_seen_set(v).contains(x) && x != v.last() {
            let j = choose|j: int| 0 <= j < v.len() - 1 && v.drop_last()[j] == x;
            assert(v[j] == x);
        }
        if v.contains(x) {
            let j = choose|j: int| 0 <= j < v.len() && v[j] == x;
            if j < v.len() - 1 {
                assert(v.drop_last()[j] == x);
            }
        }
    }
}

/// Elementwise equality of two MAC addresses.
fn mac_eq(a: &[u8; 6], b: &[u8; 6]) -> (r: bool)
    ensures
        r == (a@ == b@),
{
    let mut j: usize = 0;
    while j < 6
        invariant
            j <= 6,
            forall|k: int| 0 <= k < j ==> a@[k] == b@[k],
        decreases 6 - j,
    {
        if a[j] != b[j] {
            assert(a@[j as int] != b@[j as int]);
            return false;
        }
        j = j + 1;
    }
    assert(a@ =~= b@);
    true
}

/// Elementwise equality of two 16-byte addresses.
fn ip_eq(a: &[u8; 16], b: &[u8; 16]) -> (r: bool)
    ensures
        r == (a@ == b@),
{
    let mut j: usize = 0;
    while j < 16
        invariant
            j <= 16,
            forall|k: int| 0 <= k < j ==> a@[k] == b@[k],
        decreases 16 - j,
    {
        if a[j] != b[j] {
            assert(a@[j as int] != b@[j as int]);
            return false;
        }
        j = j + 1;
    }
    assert(a@ =~= b@);
    true
}

/// Whether a 16-byte address is the all-zero placeholder.
fn ip_is_zero(a: &[u8; 16]) -> (r: bool)
    ensures
        r == (a@ == zero_bytes(16)),
{
    let mut j: usize = 0;
    while j < 16
        invariant
            j <= 16,
            forall|k: int| 0 <= k < j ==> a@[k] == 0,
        decreases 16 - j,
    {
        if a[j] != 0 {
            assert(a@[j as int] != zero_bytes(16)[j as int]);
            return false;
        }
        j = j + 1;
    }
    assert(a@ =~= zero_bytes(16));
    true
}

/// Record a MAC address in the dedup vector unless it is already there.
fn add_mac_addr(seen: &mut Vec<[u8; 6]>, m: [u8; 6])
    ensures
        mac_seen_set(final(seen)@) == mac_seen_set(old(seen)@).insert(m@),
        mac_seen_set(old(seen)@).contains(m@) ==> final(seen)@ == old(seen)@,
        !mac_seen_set(old(seen)@).contains(m@) ==> final(seen)@ == old(seen)@.push(m),
{
    proof {
        lemma_mac_seen_contains(seen@, m@);
    }
    let n = seen.len();
    let mut j: usize = 0;
    while j < n
        invariant
            n == seen@.len(),
            j <= n,
            forall|k: int| 0 <= k < j ==> seen@[k]@ != m@,
        decreases n - j,
    {
        let e = seen[j];
        if mac_eq(&e, &m) {
            proof {
                assert(seen@[j as int]@ == m@);
                lemma_mac_seen_contains(seen@, m@);
                assert(exists|k: int| #![trigger seen@[k]] 0 <= k < seen@.len() && seen@[k]@ == m@);
                assert(mac_seen_set(seen@).contains(m@));
                assert(mac_seen_set(seen@).insert(m@) =~= mac_seen_set(seen@));
            }
            return ;
        }
        j = j + 1;
    }
    assert(!mac_seen_set(seen@).contains(m@));
    seen.push(m);
    proof {
        assert(seen@.drop_last() =~= old(seen)@);
        assert(seen@.last() == m);
    }
}

/// Record a 16-byte address in the dedup vector unless it is the all-zero
/// placeholder or already there.
fn add_ip_addr(seen: &mut Vec<[u8; 16]>, ip: [u8; 16])
    ensures
        ip_seen_set(final(seen)@) == add_ip(ip_seen_set(old(seen)@), ip@),
        (ip@ == zero_bytes(16) || ip_seen_set(old(seen)@).contains(ip@)) ==> final(seen)@ == old(
            seen,
        )@,
        !(ip@ == zero_bytes(16) || ip_seen_set(old(seen)@).contains(ip@)) ==> final(seen)@ == old(
            seen,
        )@.push(ip),
{
    if ip_is_zero(&ip) {
        return ;
    }
    proof {
        lemma_ip_seen_contains(seen@, ip@);
    }
    let n = seen.len();
    let mut j: usize = 0;
    while j < n
        invariant
            n == seen@.len(),
            j <= n,
            forall|k: int| 0 <= k < j ==> seen@[k]@ != ip@,
        decreases n - j,
    {
        let e = seen[j];
        if ip_eq(&e, &ip) {
            proof {
                assert(seen@[j as int]@ == ip@);
                lemma_ip_seen_contains(seen@, ip@);
                assert(exists|k: int| #![trigger seen@[k]] 0 <= k < seen@.len() && seen@[k]@ == ip@);
                assert(ip_seen_set(seen@).contains(ip@));
                assert(ip_seen_set(seen@).insert(ip@) =~= ip_seen_set(seen@));
            }
            return ;
        }
        j = j + 1;
    }
    assert(!ip_seen_set(seen@).contains(ip@));
    seen.push(ip);
    proof {
        assert(seen@.drop_last() =~= old(seen)@);
        assert(seen@.last() == ip);
    }
}

/// Record a port in the dedup vector unless it is zero or already there.
fn add_port_num(seen: &mut Vec<u16>, p: u16)
    ensures
        port_seen_set(final(seen)@) == add_port(port_seen_set(old(seen)@), p),
        (p == 0 || port_seen_set(old(seen)@).contains(p)) ==> final(seen)@ == old(seen)@,
        !(p == 0 || port_seen_set(old(seen)@).contains(p)) ==> final(seen)@ == old(seen)@.push(p),
{
    if p == 0 {
        return ;
    }
    proof {
        lemma_port_seen_contains(seen@, p);
    }
    let n = seen.len();
    let mut j: usize = 0;
    while j < n
        invariant
            n == seen@.len(),
            j <= n,
            forall|k: int| 0 <= k < j ==> seen@[k] != p,
        decreases n - j,
    {
        if seen[j] == p {
            proof {
                assert(seen@[j as int] == p);
                lemma_port_seen_contains(seen@, p);
                assert(seen@.contains(p));
                assert(port_seen_set(seen@).contains(p));
                assert(port_seen_set(seen@).insert(p) =~= port_seen_set(seen@));
            }
            return ;
        }
        j = j + 1;
    }
    proof {
        assert(forall|k: int| 0 <= k < seen@.len() ==> seen@[k] != p);
        assert(!seen@.contains(p));
        assert(!port_seen_set(seen@).contains(p));
    }
    seen.push(p);
    proof {
        assert(seen@.drop_last() =~= old(seen)@);
        assert(seen@.last() == p);
    }
}

/// One pass over the finished record collection, producing the full report.
///
/// The report is pinned field by field by `report_matches`: per-category
/// counts, totals, extrema and truncated averages, set cardinalities for
/// MAC, IP and port uniqueness, and the two flag tallies.
pub fn aggregate(records: &Vec<PacketTypes>) -> (r: AggregateReport)
    ensures
        report_matches(r, records@),
{
    let ghost s = records@;
    let mut link_eth = LayerStats::zeroed();
    let mut link_nov = LayerStats::zeroed();
    let mut net_arp = LayerStats::zeroed();
    let mut net_ipv4 = LayerStats::zeroed();
    let mut net_ipv6 = LayerStats::zeroed();
    let mut net_other = LayerStats::zeroed();
    let mut trans_icmp = LayerStats::zeroed();
    let mut trans_tcp = LayerStats::zeroed();
    let mut trans_udp = LayerStats::zeroed();
    let mut trans_other = LayerStats::zeroed();
    let mut macs: Vec<[u8; 6]> = Vec::new();
    let mut ips: Vec<[u8; 16]> = Vec::new();
    let mut tcp_ports: Vec<u16> = Vec::new();
    let mut udp_ports: Vec<u16> = Vec::new();
    let mut syn_fin: usize = 0;
    let mut frag: usize = 0;

    proof {
        assert(s.take(0) =~= Seq::<PacketTypes>::empty());
    }

    let n = records.len();
    let mut i: usize = 0;
    while i < n
        invariant
            n == s.len(),
            s == records@,
            i <= n,
            stats_partial(link_eth, s.take(i as int), Category::Link(LinkLayerType::Ethernet2)),
            stats_partial(link_nov, s.take(i as int), Category::Link(LinkLayerType::Novell8023)),
            stats_partial(net_arp, s.take(i as int), Category::Net(NetworkLayerType::ARP)),
            stats_partial(net_ipv4, s.take(i as int), Category::Net(NetworkLayerType::IPv4)),
            stats_partial(net_ipv6, s.take(i as int), Category::Net(NetworkLayerType::IPv6)),
            stats_partial(net_other, s.take(i as int), Category::Net(NetworkLayerType::Other)),
            stats_partial(trans_icmp, s.take(i as int), Category::Trans(TransportLayerType::ICMP)),
            stats_partial(trans_tcp, s.take(i as int), Category::Trans(TransportLayerType::TCP)),
            stats_partial(trans_udp, s.take(i as int), Category::Trans(TransportLayerType::UDP)),
            stats_partial(
                trans_other,
                s.take(i as int),
                Category::Trans(TransportLayerType::Other),
            ),
            link_eth.avg == 0 && link_nov.avg == 0 && net_arp.avg == 0 && net_ipv4.avg == 0
                && net_ipv6.avg == 0 && net_other.avg == 0 && trans_icmp.avg == 0 && trans_tcp.avg
                == 0 && trans_udp.avg == 0 && trans_other.avg == 0,
            mac_seen_set(macs@) == mac_set(s.take(i as int)),
            macs@.len() == mac_set(s.take(i as int)).len(),
            ip_seen_set(ips@) == ip_set(s.take(i as int)),
            ips@.len() == ip_set(s.take(i as int)).len(),
            port_seen_set(tcp_ports@) == ports_set(s.take(i as int), TransportLayerType::TCP),
            tcp_ports@.len() == ports_set(s.take(i as int), TransportLayerType::TCP).len(),
            port_seen_set(udp_ports@) == ports_set(s.take(i as int), TransportLayerType::UDP),
            udp_ports@.len() == ports_set(s.take(i as int), TransportLayerType::UDP).len(),
            syn_fin == count_in(s.take(i as int), Category::SynOrFin),
            frag == count_in(s.take(i as int), Category::Fragmented),
        decreases n - i,
    {
        let q = &records[i];
        proof {
            lemma_step(s, i as int, Category::Link(LinkLayerType::Ethernet2));
            lemma_step(s, i as int, Category::Link(LinkLayerType::Novell8023));
            lemma_step(s, i as int, Category::Net(NetworkLayerType::ARP));
            lemma_step(s, i as int, Category::Net(NetworkLayerType::IPv4));
            lemma_step(s, i as int, Category::Net(NetworkLayerType::IPv6));
            lemma_step(s, i as int, Category::Net(NetworkLayerType::Other));
            lemma_step(s, i as int, Category::Trans(TransportLayerType::ICMP));
            lemma_step(s, i as int, Category::Trans(TransportLayerType::TCP));
            lemma_step(s, i as int, Category::Trans(TransportLayerType::UDP));
            lemma_step(s, i as int, Category::Trans(TransportLayerType::Other));
            lemma_step(s, i as int, Category::SynOrFin);
            lemma_step(s, i as int, Category::Fragmented);
            lemma_sets_take_step(s, i as int);
            lemma_sets_finite(s.take(i as int));
        }
        link_eth.record(q.link_layer_type == LinkLayerType::Ethernet2, q.packet_length);
        link_nov.record(q.link_layer_type == LinkLayerType::Novell8023, q.packet_length);
        net_arp.record(q.network_layer_type == NetworkLayerType::ARP, q.packet_length);
        net_ipv4.record(q.network_layer_type == NetworkLayerType::IPv4, q.packet_length);
        net_ipv6.record(q.network_layer_type == NetworkLayerType::IPv6, q.packet_length);
        net_other.record(q.network_layer_type == NetworkLayerType::Other, q.packet_length);
        trans_icmp.record(q.transport_layer_type == TransportLayerType::ICMP, q.packet_length);
        trans_tcp.record(q.transport_layer_type == TransportLayerType::TCP, q.packet_length);
        trans_udp.record(q.transport_layer_type == TransportLayerType::UDP, q.packet_length);
        trans_other.record(q.transport_layer_type == TransportLayerType::Other, q.packet_length);
        add_mac_addr(&mut macs, q.source_mac);
        add_mac_addr(&mut macs, q.dest_mac);
        add_ip_addr(&mut ips, q.source_ip);
        add_ip_addr(&mut ips, q.dest_ip);
        if q.transport_layer_type == TransportLayerType::TCP {
            add_port_num(&mut tcp_ports, q.source_port);
            add_port_num(&mut tcp_ports, q.dest_port);
        } else if q.transport_layer_type == TransportLayerType::UDP {
            add_port_num(&mut udp_ports, q.source_port);
            add_port_num(&mut udp_ports, q.dest_port);
        }
        if q.is_syn || q.is_fin {
            syn_fin = syn_fin + 1;
        }
        if q.is_frag {
            frag = frag + 1;
        }
        i = i + 1;
    }

    proof {
        assert(s.take(n as int) =~= s);
        lemma_total_bound(s, Category::Link(LinkLayerType::Ethernet2));
        lemma_total_bound(s, Category::Link(LinkLayerType::Novell8023));
        lemma_total_bound(s, Category::Net(NetworkLayerType::ARP));
        lemma_total_bound(s, Category::Net(NetworkLayerType::IPv4));
        lemma_total_bound(s, Category::Net(NetworkLayerType::IPv6));
        lemma_total_bound(s, Category::Net(NetworkLayerType::Other));
        lemma_total_bound(s, Category::Trans(TransportLayerType::ICMP));
        lemma_total_bound(s, Category::Trans(TransportLayerType::TCP));
        lemma_total_bound(s, Category::Trans(TransportLayerType::UDP));
        lemma_total_bound(s, Category::Trans(TransportLayerType::Other));
    }
    link_eth.finalize();
    link_nov.finalize();
    net_arp.finalize();
    net_ipv4.finalize();
    net_ipv6.finalize();
    net_other.finalize();
    trans_icmp.finalize();
    trans_tcp.finalize();
    trans_udp.finalize();
    trans_other.finalize();

    AggregateReport {
        link_ethernet2: link_eth,
        link_novell: link_nov,
        net_arp,
        net_ipv4,
        net_ipv6,
        net_other,
        trans_icmp,
        trans_tcp,
        trans_udp,
        trans_other,
        unique_macs: macs.len(),
        unique_ips: ips.len(),
        unique_udp_ports: udp_ports.len(),
        unique_tcp_ports: tcp_ports.len(),
        syn_fin_count: syn_fin,
        frag_count: frag,
    }
}


/// The all-zero report, which an empty record collection yields.
pub open spec fn zero_stats() -> LayerStats {
    LayerStats { count: 0, total: 0, max: 0, min: 0, avg: 0 }
}

/// Membership in the MAC address set: exactly the source and destination
/// MACs of the records.
proof fn lemma_mac_set_contains(s: Seq<PacketTypes>, x: Seq<u8>)
    ensures
        mac_set(s).contains(x) <==> exists|i: int|
            #![trigger s[i]]
            0 <= i < s.len() && (s[i].source_mac@ == x || s[i].dest_mac@ == x),
    decreases s.len(),
{
    if s.len() > 0 {
        let dl = s.drop_last();
        lemma_mac_set_contains(dl, x);
        assert(forall|j: int| 0 <= j < dl.len() ==> dl[j] == s[j]);
        if mac_set(s).contains(x) {
            if x == s.last().source_mac@ || x == s.last().dest_mac@ {
                assert(0 <= s.len() - 1 < s.len() && (s[s.len() - 1].source_mac@ == x || s[s.len()
                    - 1].dest_mac@ == x));
            } else {
                assert(mac_set(dl).contains(x));
                let j = choose|j: int|
                    #![trigger dl[j]]
                    0 <= j < dl.len() && (dl[j].source_mac@ == x || dl[j].dest_mac@ == x);
                assert(0 <= j < s.len() && (s[j].source_mac@ == x || s[j].dest_mac@ == x));
            }
        }
        if exists|i: int|
            #![trigger s[i]]
            0 <= i < s.len() && (s[i].source_mac@ == x || s[i].dest_mac@ == x) {
            let i = choose|i: int|
                #![trigger s[i]]
                0 <= i < s.len() && (s[i].source_mac@ == x || s[i].dest_mac@ == x);
            if i < s.len() - 1 {
                assert(0 <= i < dl.len() && (dl[i].source_mac@ == x || dl[i].dest_mac@ == x));
                assert(mac_set(dl).contains(x));
            }
            assert(mac_set(s).contains(x));
        }
    }
}

/// Aggregation is deterministic: two reports that match the same record
/// collection are identical, so aggregating a collection twice yields the
/// same report.
pub proof fn lemma_aggregate_deterministic(
    r1: AggregateReport,
    r2: AggregateReport,
    s: Seq<PacketTypes>,
)
    requires
        report_matches(r1, s),
        report_matches(r2, s),
    ensures
        r1 == r2,
{
    assert(r1.link_ethernet2 =~= r2.link_ethernet2);
    assert(r1.link_novell =~= r2.link_novell);
    assert(r1.net_arp =~= r2.net_arp);
    assert(r1.net_ipv4 =~= r2.net_ipv4);
    assert(r1.net_ipv6 =~= r2.net_ipv6);
    assert(r1.net_other =~= r2.net_other);
    assert(r1.trans_icmp =~= r2.trans_icmp);
    assert(r1.trans_tcp =~= r2.trans_tcp);
    assert(r1.trans_udp =~= r2.trans_udp);
    assert(r1.trans_other =~= r2.trans_other);
    assert(r1 =~= r2);
}

/// Over the empty record collection every report field is zero: counts,
/// totals, extrema, averages, cardinalities and flag tallies, with no
/// division error for the empty buckets.
pub proof fn lemma_empty_report(r: AggregateReport)
    requires
        report_matches(r, Seq::<PacketTypes>::empty()),
    ensures
        r == (AggregateReport {
            link_ethernet2: zero_stats(),
            link_novell: zero_stats(),
            net_arp: zero_stats(),
            net_ipv4: zero_stats(),
            net_ipv6: zero_stats(),
            net_other: zero_stats(),
            trans_icmp: zero_stats(),
            trans_tcp: zero_stats(),
            trans_udp: zero_stats(),
            trans_other: zero_stats(),
            unique_macs: 0,
            unique_ips: 0,
            unique_udp_ports: 0,
            unique_tcp_ports: 0,
            syn_fin_count: 0,
            frag_count: 0,
        }),
{
    assert(r.link_ethernet2 =~= zero_stats());
    assert(r.link_novell =~= zero_stats());
    assert(r.net_arp =~= zero_stats());
    assert(r.net_ipv4 =~= zero_stats());
    assert(r.net_ipv6 =~= zero_stats());
    assert(r.net_other =~= zero_stats());
    assert(r.trans_icmp =~= zero_stats());
    assert(r.trans_tcp =~= zero_stats());
    assert(r.trans_udp =~= zero_stats());
    assert(r.trans_other =~= zero_stats());
    assert(r =~= (AggregateReport {
        link_ethernet2: zero_stats(),
        link_novell: zero_stats(),
        net_arp: zero_stats(),
        net_ipv4: zero_stats(),
        net_ipv6: zero_stats(),
        net_other: zero_stats(),
        trans_icmp: zero_stats(),
        trans_tcp: zero_stats(),
        trans_udp: zero_stats(),
        trans_other: zero_stats(),
        unique_macs: 0,
        unique_ips: 0,
        unique_udp_ports: 0,
        unique_tcp_ports: 0,
        syn_fin_count: 0,
        frag_count: 0,
    }));
}

/// Unique-address counting: in a collection where every record carries one
/// shared source MAC and the destination MACs are pairwise distinct, the
/// number of unique MAC addresses is the record count plus one, or exactly
/// the record count when the shared source also appears as a destination.
pub proof fn lemma_shared_source_mac_cardinality(s: Seq<PacketTypes>, m: Seq<u8>)
    requires
        s.len() > 0,
        forall|i: int| #![trigger s[i]] 0 <= i < s.len() ==> s[i].source_mac@ == m,
        forall|i: int, j: int|
            #![trigger s[i], s[j]]
            0 <= i < j < s.len() ==> s[i].dest_mac@ != s[j].dest_mac@,
    ensures
        (exists|i: int| #![trigger s[i]] 0 <= i < s.len() && s[i].dest_mac@ == m) ==> mac_set(
            s,
        ).len() == s.len(),
        (forall|i: int| #![trigger s[i]] 0 <= i < s.len() ==> s[i].dest_mac@ != m) ==> mac_set(
            s,
        ).len() == s.len() + 1,
    decreases s.len(),
{
    lemma_sets_finite(s);
    let last = s.last();
    assert(s[s.len() - 1].source_mac@ == m);
    if s.len() == 1 {
        assert(mac_set(s.drop_last()) == Set::<Seq<u8>>::empty());
        if last.dest_mac@ == m {
            assert(Set::<Seq<u8>>::empty().insert(m).insert(m) =~= Set::<Seq<u8>>::empty().insert(
                m,
            ));
            assert(mac_set(s).len() == 1);
        } else {
            assert(mac_set(s).len() == 2);
        }
    } else {
        let dl = s.drop_last();
        assert(forall|j: int| 0 <= j < dl.len() ==> dl[j] == s[j]);
        lemma_shared_source_mac_cardinality(dl, m);
        lemma_sets_finite(dl);
        lemma_mac_set_contains(dl, m);
        lemma_mac_set_contains(dl, last.dest_mac@);
        assert(dl[0].source_mac@ == m);
        assert(mac_set(dl).contains(m));
        assert(mac_set(dl).insert(last.source_mac@) =~= mac_set(dl));
        if last.dest_mac@ == m {
            assert(mac_set(dl).insert(last.source_mac@).insert(last.dest_mac@) =~= mac_set(dl));
            assert(mac_set(s).len() == mac_set(dl).len());
            assert forall|i: int| 0 <= i < dl.len() implies (#[trigger] dl[i]).dest_mac@ != m by {
                assert(s[i].dest_mac@ != s[s.len() - 1].dest_mac@);
            }
            assert(mac_set(dl).len() == dl.len() + 1);
            assert(mac_set(s).len() == s.len());
        } else {
            assert(!mac_set(dl).contains(last.dest_mac@)) by {
                if mac_set(dl).contains(last.dest_mac@) {
                    let i = choose|i: int|
                        #![trigger dl[i]]
                        0 <= i < dl.len() && (dl[i].source_mac@ == last.dest_mac@
                            || dl[i].dest_mac@ == last.dest_mac@);
                    assert(s[i].source_mac@ == m);
                    assert(s[i].dest_mac@ != s[s.len() - 1].dest_mac@);
                    assert(false);
                }
            };
            assert(mac_set(s).len() == mac_set(dl).len() + 1);
            if exists|i: int| #![trigger dl[i]] 0 <= i < dl.len() && dl[i].dest_mac@ == m {
                let i = choose|i: int| #![trigger dl[i]] 0 <= i < dl.len() && dl[i].dest_mac@ == m;
                assert(s[i].dest_mac@ == m);
                assert(mac_set(dl).len() == dl.len());
                assert(mac_set(s).len() == s.len());
            } else {
                assert forall|i: int| 0 <= i < dl.len() implies (#[trigger] dl[i]).dest_mac@
                    != m by {}
                assert(mac_set(dl).len() == dl.len() + 1);
                assert(mac_set(s).len() == s.len() + 1);
            }
        }
    }
}

} // verus!

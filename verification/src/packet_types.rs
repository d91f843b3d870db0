//! Classification of one raw link-layer frame into a `PacketTypes` record.
//!
//! A frame is a byte buffer starting at the Ethernet (or 802.3) header.
//! Classification reads fixed offsets only: it determines the link-layer
//! family from the ethertype field, the network-layer protocol from the
//! ethertype value, the transport protocol from the IP protocol / next-header
//! byte, and extracts MAC addresses, IP addresses, ports and TCP control
//! flags. Unrecognized values resolve to `Other` with zeroed fields; a buffer
//! too short for the offsets its own protocol path needs is rejected as an
//! undersized frame.

use vstd::prelude::*;

verus! {

/// Link-layer encapsulation family of a frame.
#[derive(Clone, Copy, PartialEq, Eq, Structural, Debug)]
pub enum LinkLayerType {
    Novell8023,
    Ethernet2,
}

/// Layer-3 protocol carried by an Ethernet II frame.
#[derive(Clone, Copy, PartialEq, Eq, Structural, Debug)]
pub enum NetworkLayerType {
    ARP,
    IPv4,
    IPv6,
    Other,
}

/// Layer-4 protocol selected by the IP protocol / next-header byte.
#[derive(Clone, Copy, PartialEq, Eq, Structural, Debug)]
pub enum TransportLayerType {
    ICMP,
    TCP,
    UDP,
    Other,
}

/// Why a frame could not be classified.
#[derive(Clone, Copy, PartialEq, Eq, Structural, Debug)]
pub enum ClassifyError {
    /// The buffer is too short for the offsets its protocol path reads.
    UndersizedFrame,
}

/// One classified frame. Every field is derived once, at construction;
/// fields that do not apply to the frame's protocols hold zero / `false`.
#[derive(Clone, Copy, PartialEq, Eq, Debug)]
pub struct PacketTypes {
    pub link_layer_type: LinkLayerType,
    pub network_layer_type: NetworkLayerType,
    pub transport_layer_type: TransportLayerType,
    /// Captured frame length as reported by the trace reader; not recomputed.
    pub packet_length: u32,
    pub source_mac: [u8; 6],
    pub dest_mac: [u8; 6],
    /// IPv4 occupies the first 4 bytes, the rest zero; IPv6 all 16 bytes.
    pub source_ip: [u8; 16],
    pub dest_ip: [u8; 16],
    pub source_port: u16,
    pub dest_port: u16,
    pub is_syn: bool,
    pub is_fin: bool,
    pub is_frag: bool,
}

/// The 16-bit big-endian ethertype-or-length field at frame offset 12.
pub open spec fn spec_ethertype(d: Seq<u8>) -> int {
    d[12] * 256 + d[13]
}

/// Ethertype values of at least 1536 mark an Ethernet II frame; smaller
/// values are an 802.3 payload length.
pub open spec fn spec_link_type(d: Seq<u8>) -> LinkLayerType {
    if spec_ethertype(d) >= 1536 {
        LinkLayerType::Ethernet2
    } else {
        LinkLayerType::Novell8023
    }
}

/// Network-layer dispatch on the ethertype; `Other` for an 802.3 frame or an
/// unrecognized value.
pub open spec fn spec_network_type(d: Seq<u8>) -> NetworkLayerType {
    if spec_link_type(d) == LinkLayerType::Novell8023 {
        NetworkLayerType::Other
    } else if spec_ethertype(d) == 0x0800 {
        NetworkLayerType::IPv4
    } else if spec_ethertype(d) == 0x0806 {
        NetworkLayerType::ARP
    } else if spec_ethertype(d) == 0x86DD {
        NetworkLayerType::IPv6
    } else {
        NetworkLayerType::Other
    }
}

/// The IP-protocol-number table: 1 is ICMP, 6 is TCP, 17 is UDP.
pub open spec fn transport_of_code(code: u8) -> TransportLayerType {
    if code == 1 {
        TransportLayerType::ICMP
    } else if code == 6 {
        TransportLayerType::TCP
    } else if code == 17 {
        TransportLayerType::UDP
    } else {
        TransportLayerType::Other
    }
}

/// Transport kind of a frame: the protocol byte at offset 23 for IPv4, the
/// next-header byte at offset 20 for IPv6, `Other` otherwise.
pub open spec fn spec_transport_type(d: Seq<u8>) -> TransportLayerType {
    match spec_network_type(d) {
        NetworkLayerType::IPv4 => transport_of_code(d[23]),
        NetworkLayerType::IPv6 => transport_of_code(d[20]),
        _ => TransportLayerType::Other,
    }
}

/// `n` zero bytes.
pub open spec fn zero_bytes(n: nat) -> Seq<u8> {
    Seq::new(n, |i: int| 0u8)
}

/// The 16-byte source address field: 4 real bytes plus 12 zeros for IPv4 and
/// ARP (sender protocol address), all 16 bytes for IPv6, all zero otherwise.
/// The IPv6 source address starts 8 bytes into the IPv6 header — version,
/// traffic class, flow label, payload length, next header and hop limit —
/// so at frame offset 14 + 8 = 22, and the destination follows at 38.
pub open spec fn spec_source_ip(d: Seq<u8>) -> Seq<u8> {
    match spec_network_type(d) {
        NetworkLayerType::IPv4 => d.subrange(26, 30) + zero_bytes(12),
        NetworkLayerType::ARP => d.subrange(29, 33) + zero_bytes(12),
        NetworkLayerType::IPv6 => d.subrange(22, 38),
        _ => zero_bytes(16),
    }
}

/// The 16-byte destination address field, by the same scheme as the source
/// (ARP: target protocol address).
pub open spec fn spec_dest_ip(d: Seq<u8>) -> Seq<u8> {
    match spec_network_type(d) {
        NetworkLayerType::IPv4 => d.subrange(30, 34) + zero_bytes(12),
        NetworkLayerType::ARP => d.subrange(38, 42) + zero_bytes(12),
        NetworkLayerType::IPv6 => d.subrange(38, 54),
        _ => zero_bytes(16),
    }
}

/// True when the frame carries ports, i.e. its transport is TCP or UDP.
pub open spec fn spec_has_ports(d: Seq<u8>) -> bool {
    spec_transport_type(d) == TransportLayerType::TCP || spec_transport_type(d)
        == TransportLayerType::UDP
}

/// The 16-bit big-endian value at frame offset `off`.
pub open spec fn spec_be16(d: Seq<u8>, off: int) -> int {
    d[off] * 256 + d[off + 1]
}

/// Source port at offset 34 for TCP and UDP frames, zero otherwise.
pub open spec fn spec_source_port(d: Seq<u8>) -> u16 {
    if spec_has_ports(d) {
        spec_be16(d, 34) as u16
    } else {
        0
    }
}

/// Destination port at offset 36 for TCP and UDP frames, zero otherwise.
pub open spec fn spec_dest_port(d: Seq<u8>) -> u16 {
    if spec_has_ports(d) {
        spec_be16(d, 36) as u16
    } else {
        0
    }
}

/// SYN flag: the second-least-significant bit of the TCP flags byte at
/// offset 47; false for non-TCP frames.
pub open spec fn spec_is_syn(d: Seq<u8>) -> bool {
    spec_transport_type(d) == TransportLayerType::TCP && ((d[47] >> 1) & 1) == 1
}

/// FIN flag: the least-significant bit of the TCP flags byte at offset 47;
/// false for non-TCP frames.
pub open spec fn spec_is_fin(d: Seq<u8>) -> bool {
    spec_transport_type(d) == TransportLayerType::TCP && (d[47] & 1) == 1
}

/// IPv4 "more fragments" flag: bit 5 (counting the least-significant bit as
/// bit 0) of the flags byte at offset 20; false for non-IPv4 frames.
pub open spec fn spec_is_frag(d: Seq<u8>) -> bool {
    spec_network_type(d) == NetworkLayerType::IPv4 && ((d[20] >> 5) & 1) == 1
}

/// The buffer holds every offset that classification will read on its
/// protocol path: 14 bytes of Ethernet header always, and deeper offsets
/// only where the network and transport dispatch actually reads them.
pub open spec fn frame_complete(d: Seq<u8>) -> bool {
    &&& d.len() >= 14
    &&& match spec_network_type(d) {
        NetworkLayerType::IPv4 => {
            &&& d.len() >= 34
            &&& match transport_of_code(d[23]) {
                TransportLayerType::TCP => d.len() >= 48,
                TransportLayerType::UDP => d.len() >= 38,
                _ => true,
            }
        },
        NetworkLayerType::ARP => d.len() >= 42,
        NetworkLayerType::IPv6 => d.len() >= 54,
        _ => true,
    }
}

/// Every field of `r` holds exactly what classification of the frame `d`
/// with captured length `len` yields.
pub open spec fn record_matches(r: PacketTypes, d: Seq<u8>, len: u32) -> bool {
    &&& r.link_layer_type == spec_link_type(d)
    &&& r.network_layer_type == spec_network_type(d)
    &&& r.transport_layer_type == spec_transport_type(d)
    &&& r.packet_length == len
    &&& r.source_mac@ == d.subrange(0, 6)
    &&& r.dest_mac@ == d.subrange(6, 12)
    &&& r.source_ip@ == spec_source_ip(d)
    &&& r.dest_ip@ == spec_dest_ip(d)
    &&& r.source_port == spec_source_port(d)
    &&& r.dest_port == spec_dest_port(d)
    &&& r.is_syn == spec_is_syn(d)
    &&& r.is_fin == spec_is_fin(d)
    &&& r.is_frag == spec_is_frag(d)
}

/// The ethertype threshold law: any ethertype value of at least 1536 makes
/// the frame Ethernet II; any smaller value makes it Novell 802.3, and then
/// no network or transport inspection happens — every remaining field keeps
/// its default.
pub proof fn lemma_link_threshold(d: Seq<u8>)
    ensures
        spec_ethertype(d) >= 1536 ==> spec_link_type(d) == LinkLayerType::Ethernet2,
        spec_ethertype(d) < 1536 ==> spec_link_type(d) == LinkLayerType::Novell8023,
        spec_ethertype(d) < 1536 ==> spec_network_type(d) == NetworkLayerType::Other,
        spec_ethertype(d) < 1536 ==> spec_transport_type(d) == TransportLayerType::Other,
        spec_ethertype(d) < 1536 ==> spec_source_ip(d) == zero_bytes(16),
        spec_ethertype(d) < 1536 ==> spec_dest_ip(d) == zero_bytes(16),
        spec_ethertype(d) < 1536 ==> spec_source_port(d) == 0 && spec_dest_port(d) == 0,
        spec_ethertype(d) < 1536 ==> !spec_is_syn(d) && !spec_is_fin(d) && !spec_is_frag(d),
{
}

/// The IPv4 transport dispatch law: on an IPv4 frame the protocol byte at
/// offset 23 selects the transport kind — 6 is TCP, 17 is UDP, 1 is ICMP,
/// and every other value is Other.
pub proof fn lemma_ipv4_transport_dispatch(d: Seq<u8>)
    requires
        spec_network_type(d) == NetworkLayerType::IPv4,
    ensures
        spec_transport_type(d) == transport_of_code(d[23]),
        d[23] == 6 ==> spec_transport_type(d) == TransportLayerType::TCP,
        d[23] == 17 ==> spec_transport_type(d) == TransportLayerType::UDP,
        d[23] == 1 ==> spec_transport_type(d) == TransportLayerType::ICMP,
        d[23] != 1 && d[23] != 6 && d[23] != 17 ==> spec_transport_type(d)
            == TransportLayerType::Other,
{
}

/// Map an IP protocol / next-header byte to its transport kind.
pub fn get_trans_type(protocol_code: u8) -> (t: TransportLayerType)
    ensures
        t == transport_of_code(protocol_code),
{
    match protocol_code {
        1 => TransportLayerType::ICMP,
        6 => TransportLayerType::TCP,
        17 => TransportLayerType::UDP,
        _ => TransportLayerType::Other,
    }
}

impl PacketTypes {
    /// Classify one frame whose buffer is known to cover the offsets its
    /// protocol path reads; `len` is the captured length, copied through.
    pub fn new(data: &[u8], len: u32) -> (r: Self)
        requires
            frame_complete(data@),
        ensures
            record_matches(r, data@, len),
    {
        let mut frame_type = LinkLayerType::Novell8023;
        let mut network_type = NetworkLayerType::Other;
        let mut transport_type = TransportLayerType::Other;
        let mut source_mac: [u8; 6] = [0; 6];
        let mut dest_mac: [u8; 6] = [0; 6];
        let mut source_ip: [u8; 16] = [0; 16];
        let mut dest_ip: [u8; 16] = [0; 16];
        let mut source_port: u16 = 0;
        let mut dest_port: u16 = 0;
        let mut is_syn = false;
        let mut is_fin = false;
        let mut is_frag = false;

        source_mac[0] = data[0];
        source_mac[1] = data[1];
        source_mac[2] = data[2];
        source_mac[3] = data[3];
        source_mac[4] = data[4];
        source_mac[5] = data[5];

        dest_mac[0] = data[6];
        dest_mac[1] = data[7];
        dest_mac[2] = data[8];
        dest_mac[3] = data[9];
        dest_mac[4] = data[10];
        dest_mac[5] = data[11];

        let ethertype: u16 = (data[12] as u16) * 256 + (data[13] as u16);
        assert(ethertype == spec_ethertype(data@));

        if ethertype >= 1536 {
            frame_type = LinkLayerType::Ethernet2;

            if ethertype == 0x0800 {
                network_type = NetworkLayerType::IPv4;
                source_ip[0] = data[26];
                source_ip[1] = data[27];
                source_ip[2] = data[28];
                source_ip[3] = data[29];

                dest_ip[0] = data[30];
                dest_ip[1] = data[31];
                dest_ip[2] = data[32];
                dest_ip[3] = data[33];
            } else if ethertype == 0x0806 {
                network_type = NetworkLayerType::ARP;
                source_ip[0] = data[29];
                source_ip[1] = data[30];
                source_ip[2] = data[31];
                source_ip[3] = data[32];

                dest_ip[0] = data[38];
                dest_ip[1] = data[39];
                dest_ip[2] = data[40];
                dest_ip[3] = data[41];
            } else if ethertype == 0x86DD {
                network_type = NetworkLayerType::IPv6;
                let mut k: usize = 0;
                while k < 16
                    invariant
                        k <= 16,
                        data@.len() >= 54,
                        forall|j: int| 0 <= j < k ==> source_ip@[j] == data@[22 + j],
                        forall|j: int| 0 <= j < k ==> dest_ip@[j] == data@[38 + j],
                    decreases 16 - k,
                {
                    source_ip[k] = data[22 + k];
                    dest_ip[k] = data[38 + k];
                    k = k + 1;
                }
            }

            match network_type {
                NetworkLayerType::IPv4 => {
                    let protocol_code = data[23];
                    transport_type = get_trans_type(protocol_code);

                    let frag_bit = (data[20] >> 5) & 1;
                    if frag_bit == 1 {
                        is_frag = true;
                    }
                },
                NetworkLayerType::IPv6 => {
                    let protocol_code = data[20];
                    transport_type = get_trans_type(protocol_code);
                },
                _ => {
                    transport_type = TransportLayerType::Other;
                },
            }

            match transport_type {
                TransportLayerType::TCP => {
                    source_port = (data[34] as u16) * 256 + (data[35] as u16);
                    dest_port = (data[36] as u16) * 256 + (data[37] as u16);
                    let fin_bit = data[47] & 1;
                    let syn_bit = (data[47] >> 1) & 1;
                    if fin_bit == 1 {
                        is_fin = true;
                    }
                    if syn_bit == 1 {
                        is_syn = true;
                    }
                },
                TransportLayerType::UDP => {
                    source_port = (data[34] as u16) * 256 + (data[35] as u16);
                    dest_port = (data[36] as u16) * 256 + (data[37] as u16);
                },
                _ => {},
            }
        }

        let r = PacketTypes {
            link_layer_type: frame_type,
            network_layer_type: network_type,
            transport_layer_type: transport_type,
            packet_length: len,
            source_mac,
            dest_mac,
            source_ip,
            dest_ip,
            source_port,
            dest_port,
            is_syn,
            is_fin,
            is_frag,
        };
        proof {
            assert(r.source_mac@ =~= data@.subrange(0, 6));
            assert(r.dest_mac@ =~= data@.subrange(6, 12));
            assert(r.source_ip@ =~= spec_source_ip(data@));
            assert(r.dest_ip@ =~= spec_dest_ip(data@));
        }
        r
    }
}

/// Records are ordered by captured length alone, so that the longest or
/// shortest packet of a collection can be picked out.
impl PartialOrd for PacketTypes {
    fn partial_cmp(&self, other: &Self) -> (r: Option<core::cmp::Ordering>) {
        if self.packet_length < other.packet_length {
            Some(core::cmp::Ordering::Less)
        } else if self.packet_length > other.packet_length {
            Some(core::cmp::Ordering::Greater)
        } else {
            Some(core::cmp::Ordering::Equal)
        }
    }
}

impl vstd::std_specs::cmp::PartialOrdSpecImpl for PacketTypes {
    open spec fn obeys_partial_cmp_spec() -> bool {
        true
    }

    open spec fn partial_cmp_spec(&self, other: &Self) -> Option<core::cmp::Ordering> {
        if self.packet_length < other.packet_length {
            Some(core::cmp::Ordering::Less)
        } else if self.packet_length > other.packet_length {
            Some(core::cmp::Ordering::Greater)
        } else {
            Some(core::cmp::Ordering::Equal)
        }
    }
}

/// Classify one frame of any length: checks that the buffer covers the
/// offsets its protocol path reads, and rejects it as undersized otherwise.
pub fn classify(data: &[u8], len: u32) -> (r: Result<PacketTypes, ClassifyError>)
    ensures
        r is Ok <==> frame_complete(data@),
        r matches Ok(p) ==> record_matches(p, data@, len),
        r matches Err(e) ==> e == ClassifyError::UndersizedFrame,
{
    if data.len() < 14 {
        return Err(ClassifyError::UndersizedFrame);
    }
    let ethertype: u16 = (data[12] as u16) * 256 + (data[13] as u16);
    assert(ethertype == spec_ethertype(data@));
    if ethertype >= 1536 {
        if ethertype == 0x0800 {
            if data.len() < 34 {
                return Err(ClassifyError::UndersizedFrame);
            }
            let t = get_trans_type(data[23]);
            if t == TransportLayerType::TCP && data.len() < 48 {
                return Err(ClassifyError::UndersizedFrame);
            }
            if t == TransportLayerType::UDP && data.len() < 38 {
                return Err(ClassifyError::UndersizedFrame);
            }
        } else if ethertype == 0x0806 {
            if data.len() < 42 {
                return Err(ClassifyError::UndersizedFrame);
            }
        } else if ethertype == 0x86DD {
            if data.len() < 54 {
                return Err(ClassifyError::UndersizedFrame);
            }
        }
    }
    Ok(PacketTypes::new(data, len))
}

} // verus!

use packet_stats::aggregate::aggregate;
use packet_stats::packet_types::{
    LinkLayerType, NetworkLayerType, PacketTypes, TransportLayerType,
};

/// An Ethernet II / IPv4 / Other-transport record with all-zero addresses;
/// tests adjust single fields from here.
fn base_record(len: u32) -> PacketTypes {
    PacketTypes {
        link_layer_type: LinkLayerType::Ethernet2,
        network_layer_type: NetworkLayerType::IPv4,
        transport_layer_type: TransportLayerType::Other,
        packet_length: len,
        source_mac: [0; 6],
        dest_mac: [0; 6],
        source_ip: [0; 16],
        dest_ip: [0; 16],
        source_port: 0,
        dest_port: 0,
        is_syn: false,
        is_fin: false,
        is_frag: false,
    }
}

#[test]
fn empty_collection_reports_all_zero() {
    let r = aggregate(&Vec::new());
    for st in [
        r.link_ethernet2,
        r.link_novell,
        r.net_arp,
        r.net_ipv4,
        r.net_ipv6,
        r.net_other,
        r.trans_icmp,
        r.trans_tcp,
        r.trans_udp,
        r.trans_other,
    ] {
        assert_eq!(st.count, 0);
        assert_eq!(st.total, 0);
        assert_eq!(st.max, 0);
        assert_eq!(st.min, 0);
        assert_eq!(st.avg, 0);
    }
    assert_eq!(r.unique_macs, 0);
    assert_eq!(r.unique_ips, 0);
    assert_eq!(r.unique_tcp_ports, 0);
    assert_eq!(r.unique_udp_ports, 0);
    assert_eq!(r.syn_fin_count, 0);
    assert_eq!(r.frag_count, 0);
}

#[test]
fn aggregation_is_idempotent() {
    let mut records = Vec::new();
    let mut a = base_record(100);
    a.transport_layer_type = TransportLayerType::TCP;
    a.source_port = 80;
    a.dest_port = 4000;
    a.is_syn = true;
    records.push(a);
    let mut b = base_record(40);
    b.network_layer_type = NetworkLayerType::ARP;
    records.push(b);
    let mut c = base_record(1500);
    c.is_frag = true;
    records.push(c);

    let first = aggregate(&records);
    let second = aggregate(&records);
    assert_eq!(first, second);
}

#[test]
fn per_category_counts_and_sizes() {
    let mut records = Vec::new();
    let mut a = base_record(100);
    a.transport_layer_type = TransportLayerType::TCP;
    records.push(a);
    let mut b = base_record(301);
    b.transport_layer_type = TransportLayerType::TCP;
    records.push(b);
    let mut c = base_record(50);
    c.network_layer_type = NetworkLayerType::ARP;
    records.push(c);

    let r = aggregate(&records);
    assert_eq!(r.link_ethernet2.count, 3);
    assert_eq!(r.link_novell.count, 0);
    assert_eq!(r.net_ipv4.count, 2);
    assert_eq!(r.net_ipv4.total, 401);
    assert_eq!(r.net_ipv4.max, 301);
    assert_eq!(r.net_ipv4.min, 100);
    // truncated integer average: 401 / 2 = 200
    assert_eq!(r.net_ipv4.avg, 200);
    assert_eq!(r.net_arp.count, 1);
    assert_eq!(r.net_arp.max, 50);
    assert_eq!(r.net_arp.min, 50);
    assert_eq!(r.net_arp.avg, 50);
    assert_eq!(r.net_ipv6.count, 0);
    assert_eq!(r.trans_tcp.count, 2);
    assert_eq!(r.trans_other.count, 1);
}

#[test]
fn shared_source_mac_distinct_destinations() {
    // N records, one shared source MAC, N distinct destination MACs that
    // never equal the shared one: N + 1 unique MAC addresses.
    let n = 5u8;
    let mut records = Vec::new();
    for k in 0..n {
        let mut q = base_record(60);
        q.source_mac = [0xAA; 6];
        q.dest_mac = [1, 2, 3, 4, 5, k];
        records.push(q);
    }
    let r = aggregate(&records);
    assert_eq!(r.unique_macs, usize::from(n) + 1);

    // When the shared source also appears as a destination: exactly N.
    records[2].dest_mac = [0xAA; 6];
    let r = aggregate(&records);
    assert_eq!(r.unique_macs, usize::from(n));
}

#[test]
fn unique_ips_exclude_zero_placeholder() {
    let mut records = Vec::new();
    // all-zero addresses: the placeholder never counts
    records.push(base_record(60));
    let mut a = base_record(60);
    a.source_ip[0] = 192;
    a.dest_ip[0] = 10;
    records.push(a);
    let mut b = base_record(60);
    b.source_ip[0] = 192;
    b.dest_ip[0] = 11;
    records.push(b);

    let r = aggregate(&records);
    // 192..., 10..., 11...; the repeated 192... counts once
    assert_eq!(r.unique_ips, 3);
}

#[test]
fn unique_ports_split_by_transport_and_exclude_zero() {
    let mut records = Vec::new();
    let mut a = base_record(60);
    a.transport_layer_type = TransportLayerType::TCP;
    a.source_port = 80;
    a.dest_port = 4000;
    records.push(a);
    let mut b = base_record(60);
    b.transport_layer_type = TransportLayerType::TCP;
    b.source_port = 80;
    b.dest_port = 0;
    records.push(b);
    let mut c = base_record(60);
    c.transport_layer_type = TransportLayerType::UDP;
    c.source_port = 53;
    c.dest_port = 53;
    records.push(c);

    let r = aggregate(&records);
    // TCP: 80 and 4000; the zero port and the repeat are not counted
    assert_eq!(r.unique_tcp_ports, 2);
    // UDP: 53 counts once, and TCP's 80 does not leak in
    assert_eq!(r.unique_udp_ports, 1);
}

#[test]
fn flag_tallies() {
    let mut records = Vec::new();
    let mut a = base_record(60);
    a.is_syn = true;
    records.push(a);
    let mut b = base_record(60);
    b.is_fin = true;
    records.push(b);
    let mut c = base_record(60);
    c.is_syn = true;
    c.is_fin = true;
    records.push(c);
    let mut d = base_record(60);
    d.is_frag = true;
    records.push(d);
    records.push(base_record(60));

    let r = aggregate(&records);
    // a SYN+FIN record counts once
    assert_eq!(r.syn_fin_count, 3);
    assert_eq!(r.frag_count, 1);
}

#[test]
fn novell_placeholder_macs_inflate_the_count() {
    // An 802.3 record carries all-zero MACs, which join the set like any
    // other value.
    let mut records = Vec::new();
    let mut a = base_record(60);
    a.link_layer_type = LinkLayerType::Novell8023;
    a.network_layer_type = NetworkLayerType::Other;
    records.push(a);
    let mut b = base_record(60);
    b.source_mac = [1; 6];
    b.dest_mac = [2; 6];
    records.push(b);

    let r = aggregate(&records);
    assert_eq!(r.unique_macs, 3);
    assert_eq!(r.link_novell.count, 1);
    assert_eq!(r.link_novell.max, 60);
    assert_eq!(r.link_novell.min, 60);
}

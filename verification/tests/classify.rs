use packet_stats::packet_types::{
    classify, get_trans_type, ClassifyError, LinkLayerType, NetworkLayerType, PacketTypes,
    TransportLayerType,
};

/// A 60-byte Ethernet II + IPv4 + TCP frame with fixed addresses, ports and
/// a clear flags byte; tests adjust single offsets from here.
fn ipv4_tcp_frame() -> Vec<u8> {
    let mut d = vec![0u8; 60];
    // source MAC 02:00:00:00:00:01, destination MAC 02:00:00:00:00:02
    d[0] = 0x02;
    d[5] = 0x01;
    d[6] = 0x02;
    d[11] = 0x02;
    // ethertype 0x0800 (IPv4)
    d[12] = 0x08;
    d[13] = 0x00;
    // protocol byte: TCP
    d[23] = 6;
    // source IP 192.168.1.1, destination IP 10.0.0.1
    d[26] = 192;
    d[27] = 168;
    d[28] = 1;
    d[29] = 1;
    d[30] = 10;
    d[31] = 0;
    d[32] = 0;
    d[33] = 1;
    // source port 443, destination port 51000
    d[34] = 0x01;
    d[35] = 0xBB;
    d[36] = 0xC7;
    d[37] = 0x38;
    d
}

#[test]
fn ethertype_threshold_boundary() {
    // 1536 exactly: Ethernet II (with an unrecognized network protocol).
    let mut d = vec![0u8; 60];
    d[12] = 0x06;
    d[13] = 0x00;
    let r = PacketTypes::new(&d, 60);
    assert_eq!(r.link_layer_type, LinkLayerType::Ethernet2);
    assert_eq!(r.network_layer_type, NetworkLayerType::Other);
    assert_eq!(r.transport_layer_type, TransportLayerType::Other);

    // 1535: Novell 802.3, everything else at its default.
    d[12] = 0x05;
    d[13] = 0xFF;
    let r = PacketTypes::new(&d, 60);
    assert_eq!(r.link_layer_type, LinkLayerType::Novell8023);
    assert_eq!(r.network_layer_type, NetworkLayerType::Other);
    assert_eq!(r.transport_layer_type, TransportLayerType::Other);
    assert_eq!(r.source_ip, [0u8; 16]);
    assert_eq!(r.dest_ip, [0u8; 16]);
    assert_eq!(r.source_port, 0);
    assert_eq!(r.dest_port, 0);
    assert!(!r.is_syn && !r.is_fin && !r.is_frag);

    // 65535: still Ethernet II.
    d[12] = 0xFF;
    d[13] = 0xFF;
    let r = PacketTypes::new(&d, 60);
    assert_eq!(r.link_layer_type, LinkLayerType::Ethernet2);
}

#[test]
fn novell_keeps_macs() {
    let mut d = vec![0u8; 14];
    d[0] = 0xAA;
    d[6] = 0xBB;
    d[12] = 0x00;
    d[13] = 0x40;
    let r = PacketTypes::new(&d, 14);
    assert_eq!(r.link_layer_type, LinkLayerType::Novell8023);
    assert_eq!(r.source_mac, [0xAA, 0, 0, 0, 0, 0]);
    assert_eq!(r.dest_mac, [0xBB, 0, 0, 0, 0, 0]);
}

#[test]
fn ipv4_protocol_dispatch() {
    let mut d = ipv4_tcp_frame();
    let r = PacketTypes::new(&d, 60);
    assert_eq!(r.network_layer_type, NetworkLayerType::IPv4);
    assert_eq!(r.transport_layer_type, TransportLayerType::TCP);

    d[23] = 17;
    let r = PacketTypes::new(&d, 60);
    assert_eq!(r.transport_layer_type, TransportLayerType::UDP);

    d[23] = 1;
    let r = PacketTypes::new(&d, 60);
    assert_eq!(r.transport_layer_type, TransportLayerType::ICMP);

    d[23] = 99;
    let r = PacketTypes::new(&d, 60);
    assert_eq!(r.transport_layer_type, TransportLayerType::Other);
}

#[test]
fn protocol_table() {
    assert_eq!(get_trans_type(1), TransportLayerType::ICMP);
    assert_eq!(get_trans_type(6), TransportLayerType::TCP);
    assert_eq!(get_trans_type(17), TransportLayerType::UDP);
    assert_eq!(get_trans_type(0), TransportLayerType::Other);
    assert_eq!(get_trans_type(255), TransportLayerType::Other);
}

#[test]
fn ipv4_addresses_extracted() {
    let d = ipv4_tcp_frame();
    let r = PacketTypes::new(&d, 60);
    assert_eq!(
        r.source_ip,
        [192, 168, 1, 1, 0, 0, 0, 0, 0, 0, 0, 0, 0, 0, 0, 0]
    );
    assert_eq!(r.dest_ip, [10, 0, 0, 1, 0, 0, 0, 0, 0, 0, 0, 0, 0, 0, 0, 0]);
    assert_eq!(r.source_mac, [0x02, 0, 0, 0, 0, 0x01]);
    assert_eq!(r.dest_mac, [0x02, 0, 0, 0, 0, 0x02]);
    assert_eq!(r.source_port, 443);
    assert_eq!(r.dest_port, 51000);
}

#[test]
fn tcp_flag_bits() {
    let mut d = ipv4_tcp_frame();
    d[47] = 0x02;
    let r = PacketTypes::new(&d, 60);
    assert!(r.is_syn && !r.is_fin);

    d[47] = 0x01;
    let r = PacketTypes::new(&d, 60);
    assert!(r.is_fin && !r.is_syn);

    d[47] = 0x03;
    let r = PacketTypes::new(&d, 60);
    assert!(r.is_syn && r.is_fin);

    d[47] = 0x00;
    let r = PacketTypes::new(&d, 60);
    assert!(!r.is_syn && !r.is_fin);

    // Other flag bits do not leak into SYN/FIN.
    d[47] = 0xFC;
    let r = PacketTypes::new(&d, 60);
    assert!(!r.is_syn && !r.is_fin);
}

#[test]
fn no_flags_for_udp() {
    let mut d = ipv4_tcp_frame();
    d[23] = 17;
    d[47] = 0x03;
    let r = PacketTypes::new(&d, 60);
    assert_eq!(r.transport_layer_type, TransportLayerType::UDP);
    assert!(!r.is_syn && !r.is_fin);
    assert_eq!(r.source_port, 443);
    assert_eq!(r.dest_port, 51000);
}

#[test]
fn ipv4_fragmentation_bit() {
    let mut d = ipv4_tcp_frame();
    d[20] = 0x20;
    let r = PacketTypes::new(&d, 60);
    assert!(r.is_frag);

    // Every other bit set, the more-fragments bit clear.
    d[20] = 0xDF;
    let r = PacketTypes::new(&d, 60);
    assert!(!r.is_frag);

    d[20] = 0x00;
    let r = PacketTypes::new(&d, 60);
    assert!(!r.is_frag);
}

#[test]
fn arp_addresses_extracted() {
    let mut d = vec![0u8; 60];
    d[12] = 0x08;
    d[13] = 0x06;
    // sender protocol address at 29..33
    d[29] = 172;
    d[30] = 16;
    d[31] = 0;
    d[32] = 9;
    // target protocol address at 38..42
    d[38] = 172;
    d[39] = 16;
    d[40] = 0;
    d[41] = 1;
    let r = PacketTypes::new(&d, 60);
    assert_eq!(r.network_layer_type, NetworkLayerType::ARP);
    assert_eq!(r.transport_layer_type, TransportLayerType::Other);
    assert_eq!(
        r.source_ip,
        [172, 16, 0, 9, 0, 0, 0, 0, 0, 0, 0, 0, 0, 0, 0, 0]
    );
    assert_eq!(r.dest_ip, [172, 16, 0, 1, 0, 0, 0, 0, 0, 0, 0, 0, 0, 0, 0, 0]);
    assert_eq!(r.source_port, 0);
    assert_eq!(r.dest_port, 0);
}

#[test]
fn ipv6_addresses_and_transport() {
    let mut d = vec![0u8; 60];
    d[12] = 0x86;
    d[13] = 0xDD;
    // next header at 20: TCP
    d[20] = 6;
    for k in 0..16 {
        d[22 + k] = 0x10 + k as u8;
        d[38 + k] = 0x30 + k as u8;
    }
    let r = PacketTypes::new(&d, 60);
    assert_eq!(r.network_layer_type, NetworkLayerType::IPv6);
    assert_eq!(r.transport_layer_type, TransportLayerType::TCP);
    let src: Vec<u8> = (0..16).map(|k| 0x10 + k as u8).collect();
    let dst: Vec<u8> = (0..16).map(|k| 0x30 + k as u8).collect();
    assert_eq!(r.source_ip.to_vec(), src);
    assert_eq!(r.dest_ip.to_vec(), dst);
    // Ports are read at the fixed offsets 34 and 36, which for an IPv6 frame
    // fall inside the source address: bytes 0x1C,0x1D and 0x1E,0x1F.
    assert_eq!(r.source_port, 0x1C1D);
    assert_eq!(r.dest_port, 0x1E1F);
    // fragmentation detection is not attempted for IPv6
    assert!(!r.is_frag);
}

#[test]
fn packet_length_is_copied_not_derived() {
    let d = ipv4_tcp_frame();
    let r = PacketTypes::new(&d, 1234);
    assert_eq!(r.packet_length, 1234);
}

#[test]
fn records_order_by_length_alone() {
    let d = ipv4_tcp_frame();
    let small = PacketTypes::new(&d, 60);
    let big = PacketTypes::new(&d, 1500);
    assert!(small < big);
    assert!(big > small);

    // Equal lengths compare Equal even when other fields differ.
    let mut d2 = ipv4_tcp_frame();
    d2[29] = 77;
    let other = PacketTypes::new(&d2, 60);
    assert_eq!(
        small.partial_cmp(&other),
        Some(std::cmp::Ordering::Equal)
    );
    // ...while equality still compares every field.
    assert!(small != other);
    assert!(small == small.clone());
}

#[test]
fn classify_rejects_undersized_frames() {
    // Shorter than one Ethernet header.
    let d = vec![0u8; 10];
    assert!(matches!(classify(&d, 10), Err(ClassifyError::UndersizedFrame)));

    // IPv4 + TCP needs 48 bytes: 40 is too short.
    let mut d = ipv4_tcp_frame();
    d.truncate(40);
    assert!(matches!(classify(&d, 40), Err(ClassifyError::UndersizedFrame)));

    // IPv4 + UDP needs only 38 bytes.
    d[23] = 17;
    let r = classify(&d, 40).unwrap();
    assert_eq!(r.transport_layer_type, TransportLayerType::UDP);

    // IPv6 needs 54 bytes.
    let mut d6 = vec![0u8; 53];
    d6[12] = 0x86;
    d6[13] = 0xDD;
    assert!(matches!(classify(&d6, 53), Err(ClassifyError::UndersizedFrame)));

    // A bare 802.3 header of 14 bytes is enough.
    let d8 = vec![0u8; 14];
    let r = classify(&d8, 14).unwrap();
    assert_eq!(r.link_layer_type, LinkLayerType::Novell8023);
}

#[test]
fn classify_matches_new_on_complete_frames() {
    let d = ipv4_tcp_frame();
    let a = PacketTypes::new(&d, 60);
    let b = classify(&d, 60).unwrap();
    assert_eq!(a.link_layer_type, b.link_layer_type);
    assert_eq!(a.network_layer_type, b.network_layer_type);
    assert_eq!(a.transport_layer_type, b.transport_layer_type);
    assert_eq!(a.source_ip, b.source_ip);
    assert_eq!(a.dest_ip, b.dest_ip);
    assert_eq!(a.source_port, b.source_port);
    assert_eq!(a.dest_port, b.dest_port);
}

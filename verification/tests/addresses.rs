use lightscale_server::enroll::allocate_node_ips;
use lightscale_server::error::ApiError;
use lightscale_server::model::{AclPolicy, KeyRotationPolicy, NetworkState};
use lightscale_server::net::{
    initial_ipv4_offset, initial_ipv6_offset, ip_text, ipv4_nets_overlap, ipv4_text,
    ipv6_nets_overlap, max_ipv4_offset, max_ipv6_offset, parse_ip, parse_ipv4_net, parse_ipv6_net,
    parse_socket, socket_text, IpAddress, Ipv4Net, Ipv6Net, SocketAddress,
};
use lightscale_server::netid::derive_overlay_prefixes;

fn v4(text: &str) -> Ipv4Net {
    parse_ipv4_net(text).unwrap()
}

fn v6(text: &str) -> Ipv6Net {
    parse_ipv6_net(text).unwrap()
}

fn sample_network(overlay_v4: &str, overlay_v6: &str) -> NetworkState {
    let v4_net = v4(overlay_v4);
    let v6_net = v6(overlay_v6);
    NetworkState {
        id: "net-1".to_string(),
        name: "net".to_string(),
        overlay_v4: overlay_v4.to_string(),
        overlay_v6: overlay_v6.to_string(),
        dns_domain: "net.test".to_string(),
        requires_approval: false,
        acl: AclPolicy::default(),
        key_policy: KeyRotationPolicy {
            max_age_seconds: None,
        },
        created_at: 0,
        next_ipv4: initial_ipv4_offset(&v4_net).unwrap_or(0),
        next_ipv6: initial_ipv6_offset(&v6_net),
    }
}

#[test]
fn initial_offsets_follow_subnet_size() {
    let v4_large = v4("100.64.0.0/24");
    let v4_small = v4("100.64.0.0/30");
    let v4_tiny = v4("100.64.0.0/31");
    let v6_large = v6("fd00::/48");
    let v6_small = v6("fd00::/128");

    assert_eq!(initial_ipv4_offset(&v4_large), Some(10));
    assert_eq!(initial_ipv4_offset(&v4_small), Some(1));
    assert_eq!(initial_ipv4_offset(&v4_tiny), None);
    assert_eq!(initial_ipv6_offset(&v6_large), 10);
    assert_eq!(initial_ipv6_offset(&v6_small), 0);
}

#[test]
fn ipv4_allocator_respects_configured_cidr_bounds() {
    let mut network = sample_network("100.64.0.0/30", "fd00::/126");

    let (ip1, _) = allocate_node_ips(&mut network).unwrap();
    let (ip2, _) = allocate_node_ips(&mut network).unwrap();
    assert_eq!(ip1, "100.64.0.1");
    assert_eq!(ip2, "100.64.0.2");

    let exhausted = allocate_node_ips(&mut network);
    assert!(matches!(
        exhausted,
        Err(ApiError::Conflict("ipv4 address space exhausted"))
    ));
}

#[test]
fn cidr_overlap_detection_works() {
    let a = v4("100.64.0.0/24");
    let b = v4("100.64.0.128/25");
    let c = v4("100.65.0.0/24");
    assert!(ipv4_nets_overlap(&a, &b));
    assert!(!ipv4_nets_overlap(&a, &c));
}

#[test]
fn overlap_does_not_depend_on_the_order() {
    assert!(ipv4_nets_overlap(&v4("100.64.0.128/25"), &v4("100.64.0.0/24")));
    assert!(ipv6_nets_overlap(&v6("fd00::/48"), &v6("fd00:0:0:1::/64")));
    assert!(ipv6_nets_overlap(&v6("fd00:0:0:1::/64"), &v6("fd00::/48")));
    assert!(!ipv6_nets_overlap(&v6("fd00::/48"), &v6("fd00:0:1::/48")));
    assert!(ipv6_nets_overlap(&v6("::/0"), &v6("fd00::/128")));
    assert!(ipv4_nets_overlap(&v4("0.0.0.0/0"), &v4("255.255.255.255/32")));
}

#[test]
fn networks_start_at_their_first_address() {
    assert_eq!(v4("100.64.3.7/24").network(), 0x6440_0300);
    assert_eq!(v4("100.64.3.7/32").network(), 0x6440_0307);
    assert_eq!(v4("100.64.3.7/0").network(), 0);
    assert_eq!(v6("fd00::7/64").network(), 0xfd00u128 << 112);
    assert_eq!(v6("fd00::7/0").network(), 0);
    assert!(v4("100.64.3.0/24").contains(0x6440_03ff));
    assert!(!v4("100.64.3.0/24").contains(0x6440_0400));
    assert!(v6("fd00::/127").contains((0xfd00u128 << 112) + 1));
    assert!(!v6("fd00::/127").contains((0xfd00u128 << 112) + 2));
}

#[test]
fn last_offsets_leave_out_the_broadcast_address() {
    assert_eq!(max_ipv4_offset(&v4("10.0.0.0/24")), Some(254));
    assert_eq!(max_ipv4_offset(&v4("0.0.0.0/0")), Some(4_294_967_294));
    assert_eq!(max_ipv4_offset(&v4("10.0.0.0/32")), None);
    assert_eq!(max_ipv6_offset(&v6("fd00::/120")), 255);
    assert_eq!(max_ipv6_offset(&v6("::/0")), u128::MAX);
    assert_eq!(max_ipv6_offset(&v6("::/128")), 0);
}

#[test]
fn allocation_gives_both_addresses_in_order() {
    let mut network = sample_network("100.64.0.0/24", "fd00::/48");
    let (ip4, ip6) = allocate_node_ips(&mut network).unwrap();
    assert_eq!(ip4, "100.64.0.10");
    assert_eq!(ip6, "fd00::a");
    let (ip4, ip6) = allocate_node_ips(&mut network).unwrap();
    assert_eq!(ip4, "100.64.0.11");
    assert_eq!(ip6, "fd00::b");
    assert_eq!(network.next_ipv4, 12);
    assert_eq!(network.next_ipv6, 12);
}

#[test]
fn exhausted_ipv6_spends_an_ipv4_address() {
    let mut network = sample_network("100.64.0.0/24", "fd00::/128");
    assert_eq!(network.next_ipv6, 0);
    let (_, ip6) = allocate_node_ips(&mut network).unwrap();
    assert_eq!(ip6, "fd00::");
    let before = network.next_ipv4;
    assert!(matches!(
        allocate_node_ips(&mut network),
        Err(ApiError::Conflict("ipv6 address space exhausted"))
    ));
    assert_eq!(network.next_ipv4, before + 1);
    assert_eq!(network.next_ipv6, 1);
}

#[test]
fn ranges_that_cannot_be_used_are_refused() {
    let mut tiny = sample_network("100.64.0.0/31", "fd00::/48");
    assert!(matches!(
        allocate_node_ips(&mut tiny),
        Err(ApiError::Conflict("ipv4 subnet has no usable host addresses"))
    ));
    let mut broken = sample_network("100.64.0.0/24", "fd00::/48");
    broken.overlay_v6 = "nonsense".to_string();
    assert!(matches!(allocate_node_ips(&mut broken), Err(ApiError::Internal)));
    assert_eq!(broken.next_ipv4, 10);
}

#[test]
fn ipv4_networks_are_read_by_their_digits() {
    let read = |text: &str| parse_ipv4_net(text).map(|net| (net.addr, net.prefix_len));
    assert_eq!(read("010.001.02.3/08"), Some((0x0a01_0203, 8)));
    assert_eq!(read("255.255.255.255/32"), Some((0xffff_ffff, 32)));
    assert_eq!(read("000.0.0.0/0"), Some((0, 0)));
    for text in [
        "",
        "/",
        "10.1.2/8",
        "10.1.2.3.4/8",
        "10.1.2.256/8",
        "10.1.2.0003/8",
        "10.1..3/8",
        "10.1.2.3/",
        "10.1.2.3/008",
        "10.1.2.3/8/9",
        "10.1.2.3/+8",
        " 10.1.2.3/8",
        "10.1.2.3/8 ",
        "10.1.2.\u{0663}/8",
        "\u{00b1}.1.2.3/8",
    ] {
        assert_eq!(read(text), None, "{}", text);
    }
}

#[test]
fn networks_are_read_from_text() {
    assert_eq!(
        parse_ipv4_net("10.1.2.3/8"),
        Some(Ipv4Net {
            addr: 0x0a01_0203,
            prefix_len: 8
        })
    );
    assert_eq!(parse_ipv4_net("10.1.2.3/33"), None);
    assert_eq!(parse_ipv4_net("10.1.2.3"), None);
    assert_eq!(
        parse_ipv6_net("fd01:2345:6789::/48"),
        Some(Ipv6Net {
            addr: 0xfd01_2345_6789u128 << 80,
            prefix_len: 48
        })
    );
    assert_eq!(parse_ipv6_net("fd00::/129"), None);
}

#[test]
fn addresses_are_written_and_read() {
    assert_eq!(ipv4_text(0x6440_0a01), "100.64.10.1");
    assert_eq!(ipv4_text(0), "0.0.0.0");
    assert_eq!(ipv4_text(u32::MAX), "255.255.255.255");
    assert_eq!(parse_ip("100.64.10.1"), Some(IpAddress::V4(0x6440_0a01)));
    assert_eq!(parse_ip("fd00::a"), Some(IpAddress::V6((0xfd00u128 << 112) + 10)));
    assert_eq!(parse_ip("fd00::a:b:"), None);
    assert_eq!(parse_ip("256.0.0.1"), None);
    assert_eq!(ip_text(&IpAddress::V6(1)), "::1");
    assert_eq!(ip_text(&parse_ip("2001:DB8:0:0::10").unwrap()), "2001:db8::10");
    assert_eq!(ip_text(&IpAddress::V4(0x0102_0304)), "1.2.3.4");
}

#[test]
fn socket_addresses_are_written_and_read() {
    let texts = [
        "0.0.0.0:5353",
        "127.0.0.1:0",
        "[::]:8080",
        "[fe80::1%3]:53",
        "[2001:db8::10]:65535",
    ];
    for text in texts {
        let addr = parse_socket(text).unwrap();
        assert_eq!(socket_text(&addr), text);
    }
    let rejected = [
        "", "0.0.0.0", "0.0.0.0:", "0.0.0.0:70000", "::1:53", "[::1]", "[::1]53", "[1.2.3.4]:5",
        "host:53", "0.0.0.0:+53", "[::1%]:53", "[::1%x]:53", "1.2.3.4:5:6",
    ];
    for text in rejected {
        assert_eq!(parse_socket(text), None);
    }
    assert_eq!(
        parse_socket("1.2.3.4:00080"),
        Some(SocketAddress {
            ip: IpAddress::V4(0x0102_0304),
            port: 80,
            scope: 0
        })
    );
}

#[test]
fn default_ranges_follow_the_hash_of_the_identifier() {
    let id = [7u8; 16];
    let hash = blake3::hash(&id);
    let bytes = hash.as_bytes();
    let (overlay_v4, overlay_v6) = derive_overlay_prefixes(&id);
    assert_eq!(
        overlay_v4,
        format!("100.{}.{}.0/24", 64 + (bytes[5] & 0x3f), bytes[6])
    );
    assert_eq!(
        overlay_v6,
        format!(
            "fd{:02x}:{:02x}{:02x}:{:02x}{:02x}::/48",
            bytes[0], bytes[1], bytes[2], bytes[3], bytes[4]
        )
    );
    assert!(v4("100.64.0.0/10").contains(v4(&overlay_v4).network()));
    assert!(v6("fd00::/8").contains(v6(&overlay_v6).network()));
}

#[test]
fn consecutive_allocations_follow_each_other() {
    let mut network = sample_network("100.64.3.0/24", "fd00:1::/120");
    let mut seen: Vec<(String, String)> = Vec::new();
    for i in 0..200u32 {
        let (ipv4, ipv6) = allocate_node_ips(&mut network).unwrap();
        assert_eq!(ipv4, format!("100.64.3.{}", 10 + i));
        assert_eq!(ipv6, format!("fd00:1::{:x}", 10 + i));
        assert!(seen.iter().all(|other| other.0 != ipv4 && other.1 != ipv6));
        seen.push((ipv4, ipv6));
    }
    assert_eq!((network.next_ipv4, network.next_ipv6), (210, 210));
    assert_eq!(network.overlay_v4, "100.64.3.0/24");
}

#[test]
fn only_plain_texts_are_ipv4_addresses() {
    assert_eq!(parse_ip("1.2.3.4"), Some(IpAddress::V4(0x0102_0304)));
    for text in ["01.2.3.4", "1.2.3", "1.2.3.4.5", "1.2.3.256", " 1.2.3.4", "1.2.3.4 ", "1.2.3.+4", ""] {
        assert_eq!(parse_ip(text), None);
    }
    for text in [":", "a:", ":1", "1:2", "1.2.3.4:5"] {
        assert_eq!(parse_ip(text), None);
    }
    assert_eq!(parse_ip("::"), Some(IpAddress::V6(0)));
    assert_eq!(parse_ip("::ffff:1.2.3.4"), Some(IpAddress::V6(0xffff_0102_0304)));
}

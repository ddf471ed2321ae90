//! Tests for the configuration text codec.

use wireguard_gui::codec::{parse_config, write_config};
use wireguard_gui::config::{Interface, Peer, WireguardConfig};

fn iface(minimal: bool) -> Interface {
    Interface {
        name: Some("wg0".into()),
        binding_iface: Some("eth0".into()),
        has_script_bind_iface: !minimal,
        routing_script_name: Some("route.sh".into()),
        address: Some("10.0.0.1/24".into()),
        listen_port: Some("51820".into()),
        public_key: Some("pubkey".into()),
        private_key: Some("privkey".into()),
        dns: Some("1.1.1.1".into()),
        table: Some("auto".into()),
        mtu: Some("1420".into()),
        pre_up: Some("foo".into()),
        post_up: Some("bar".into()),
        pre_down: Some("baz".into()),
        post_down: Some("qux".into()),
        fwmark: Some("123".into()),
    }
}

fn peer(name: &str) -> Peer {
    Peer {
        name: Some(name.into()),
        allowed_ips: Some("10.0.0.2/32".into()),
        endpoint: Some("peer.example.com:51820".into()),
        public_key: Some("pubkey".into()),
        persistent_keepalive: Some("25".into()),
    }
}

#[test]
fn writes_basic_interface() {
    let cfg = WireguardConfig {
        interface: iface(false),
        peers: vec![],
    };

    let out = write_config(&cfg);

    assert!(out.contains("[Interface]"));
    assert!(out.contains("# Name = wg0"));
    assert!(out.contains("# BindIface = eth0"));
    assert!(out.contains("# RoutingScriptName = route.sh"));
    assert!(out.contains("Address = 10.0.0.1/24"));
    assert!(out.contains("PrivateKey = privkey"));
    assert!(out.contains("FwMark = 123"));
}

#[test]
fn suppresses_binding_iface_when_flag_false() {
    let mut iface = iface(true);
    iface.has_script_bind_iface = false;

    let cfg = WireguardConfig {
        interface: iface,
        peers: vec![],
    };

    let out = write_config(&cfg);

    assert!(!out.contains("# BindIface"));
}

#[test]
fn omits_missing_fields() {
    let iface = Interface {
        name: Some("wg0".into()),
        binding_iface: None,
        has_script_bind_iface: true,
        routing_script_name: None,
        address: None,
        listen_port: None,
        private_key: None,
        public_key: None,
        dns: None,
        table: None,
        mtu: None,
        pre_up: None,
        post_up: None,
        pre_down: None,
        post_down: None,
        fwmark: None,
    };

    let cfg = WireguardConfig {
        interface: iface,
        peers: vec![],
    };

    let out = write_config(&cfg);

    assert!(out.contains("# Name = wg0"));
    assert!(!out.contains("Address ="));
    assert!(!out.contains("# BindIface"));
}

#[test]
fn writes_multiple_peers() {
    let cfg = WireguardConfig {
        interface: iface(false),
        peers: vec![peer("peer1"), peer("peer2")],
    };

    let out = write_config(&cfg);

    let count_peer_headers = out.matches("[Peer]").count();
    assert_eq!(count_peer_headers, 2);

    assert!(out.contains("# Name = peer1"));
    assert!(out.contains("# Name = peer2"));
}

#[test]
fn peer_fields_render_correctly() {
    let cfg = WireguardConfig {
        interface: iface(false),
        peers: vec![peer("p")],
    };

    let out = write_config(&cfg);

    assert!(out.contains("AllowedIPs = 10.0.0.2/32"));
    assert!(out.contains("Endpoint = peer.example.com:51820"));
    assert!(out.contains("PersistentKeepalive = 25"));
}

#[test]
fn parses_explicit_comment_keys() {
    let text = "[Interface]\n\
                # Name = node1\n\
                Address = 192.0.2.3/32\n\
                ListenPort = 51820\n\
                DNS = 1.1.1.1\n\
                \n\
                [Peer]\n\
                # Name = node2\n\
                AllowedIPs = 192.0.2.1/24\n\
                Endpoint = node1.example.tld:51820\n\
                PublicKey = remoteKey=\n\
                PersistentKeepalive = 25\n";
    let cfg = parse_config(text).expect("should parse");
    assert_eq!(cfg.interface.name.as_deref(), Some("node1"));
    assert_eq!(cfg.interface.address.as_deref(), Some("192.0.2.3/32"));
    assert_eq!(cfg.interface.listen_port.as_deref(), Some("51820"));
    assert_eq!(cfg.peers.len(), 1);
    assert_eq!(cfg.peers[0].name.as_deref(), Some("node2"));
    assert_eq!(cfg.peers[0].endpoint.as_deref(), Some("node1.example.tld:51820"));
    assert_eq!(cfg.peers[0].persistent_keepalive.as_deref(), Some("25"));
}

#[test]
fn round_trips_explicit_comment_config() {
    let cfg = WireguardConfig {
        interface: Interface {
            name: Some("wg0".into()),
            address: Some("10.0.0.1/24".into()),
            listen_port: Some("51820".into()),
            dns: Some("1.1.1.1".into()),
            routing_script_name: Some("route.sh".into()),
            ..iface_empty()
        },
        peers: vec![peer("p1"), peer("p2")],
    };
    let once = write_config(&cfg);
    let reparsed = parse_config(&once).expect("serialized text should parse");
    let twice = write_config(&reparsed);
    assert_eq!(once, twice);
}

fn iface_empty() -> Interface {
    Interface {
        name: None,
        address: None,
        listen_port: None,
        private_key: None,
        public_key: None,
        dns: None,
        table: None,
        mtu: None,
        pre_up: None,
        post_up: None,
        pre_down: None,
        post_down: None,
        fwmark: None,
        binding_iface: None,
        routing_script_name: None,
        has_script_bind_iface: false,
    }
}

#[test]
fn vendor_import_heuristics() {
    let text = "[Interface]\n\
                # Key for NAME\n\
                Address = 10.2.0.2/32\n\
                \n\
                [Peer]\n\
                # NL-FREE#241\n\
                PublicKey = remoteKey=\n";
    let cfg = parse_config(text).expect("should parse");
    assert_eq!(cfg.interface.name.as_deref(), Some("NAME"));
    assert_eq!(cfg.peers.len(), 1);
    assert_eq!(cfg.peers[0].name.as_deref(), Some("NL-FREE#241"));
}

#[test]
fn only_first_peer_comment_names_the_peer() {
    let text = "[Interface]\n\
                Address = 10.2.0.2/32\n\
                [Peer]\n\
                # first\n\
                # second\n\
                PublicKey = k\n";
    let cfg = parse_config(text).expect("should parse");
    assert_eq!(cfg.peers[0].name.as_deref(), Some("first"));
}

#[test]
fn rejects_invalid_address() {
    let text = "[Interface]\nAddress = not-an-ip\n";
    let err = parse_config(text).unwrap_err();
    assert_eq!(err, "Invalid IP address not-an-ip.");
}

#[test]
fn rejects_unknown_section() {
    let text = "[Bogus]\n";
    let err = parse_config(text).unwrap_err();
    assert_eq!(err, "Unexpected interface name Bogus.");
}

#[test]
fn rejects_unknown_interface_key() {
    let text = "[Interface]\nColour = green\n";
    let err = parse_config(text).unwrap_err();
    assert_eq!(err, "Unexpected Interface configuration key Colour.");
}

#[test]
fn rejects_unknown_peer_key() {
    let text = "[Interface]\n[Peer]\nColour = green\n";
    let err = parse_config(text).unwrap_err();
    assert_eq!(err, "Unexpected Peer configuration key Colour.");
}

#[test]
fn rejects_attribute_before_any_section() {
    let text = "Address = 10.0.0.1/24\n";
    let err = parse_config(text).unwrap_err();
    assert_eq!(err, "Unexpected attribute Address.");
}

#[test]
fn reports_unparseable_line_with_number() {
    let text = "[Interface]\nAddress = 10.0.0.1/24\ngarbage line\n";
    let err = parse_config(text).unwrap_err();
    assert_eq!(err, "Couldn't parse line 3: `garbage line`");
}

#[test]
fn private_key_is_kept_but_no_public_key_is_derived() {
    let text = "[Interface]\nPrivateKey = abc123=\n";
    let cfg = parse_config(text).expect("should parse");
    assert_eq!(cfg.interface.private_key.as_deref(), Some("abc123="));
    assert!(cfg.interface.public_key.is_none());
}

#[test]
fn empty_value_survives_the_round_trip() {
    let cfg = WireguardConfig {
        interface: Interface {
            name: Some("wg0".into()),
            dns: Some(String::new()),
            ..iface_empty()
        },
        peers: vec![],
    };
    let once = write_config(&cfg);
    assert!(once.contains("DNS = \n"));
    let reparsed = parse_config(&once).expect("serialized text should parse");
    assert_eq!(reparsed.interface.dns.as_deref(), Some(""));
    assert_eq!(write_config(&reparsed), once);
}

#[test]
fn value_with_equals_sign_survives() {
    let text = "[Interface]\nPrivateKey = abc=def=\n";
    let cfg = parse_config(text).expect("should parse");
    assert_eq!(cfg.interface.private_key.as_deref(), Some("abc=def="));
}

#[test]
fn empty_input_parses_to_empty_config() {
    let cfg = parse_config("").expect("should parse");
    assert!(cfg.interface.name.is_none());
    assert!(cfg.peers.is_empty());
}

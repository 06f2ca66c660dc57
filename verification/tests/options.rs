use lightscale_server::config::{
    build_mesh_config, check_startup, db_url_from_file, extract_control_url_host,
    format_host_port, normalize_control_urls, normalize_dns_server_values, parse_mesh_peers,
    resolve_dns_servers, split_host_port, ConfigError, MeshOptions,
};
use lightscale_server::net::IpAddress;

fn list(values: &[&str]) -> Vec<String> {
    values.iter().map(|value| value.to_string()).collect()
}

#[test]
fn split_host_port_defaults_to_53_when_port_omitted() {
    assert_eq!(
        split_host_port("dns.example.com").expect("split dns host"),
        ("dns.example.com".to_string(), 53)
    );
    assert_eq!(
        split_host_port("[2001:db8::10]").expect("split dns v6"),
        ("2001:db8::10".to_string(), 53)
    );
}

#[test]
fn split_host_port_rejects_invalid_unbracketed_ipv6_with_port_like_suffix() {
    assert!(split_host_port("2001:db8::10:70000").is_err());
}

#[test]
fn normalize_dns_server_values_deduplicates_values() {
    let values = normalize_dns_server_values(&vec![
        "dns.example.com".to_string(),
        "dns.example.com:53".to_string(),
        "[2001:db8::1]".to_string(),
        "[2001:db8::1]:53".to_string(),
    ])
    .expect("normalize dns values");
    assert_eq!(
        values,
        vec![
            "[2001:db8::1]:53".to_string(),
            "dns.example.com:53".to_string()
        ]
    );
}

#[test]
fn resolve_dns_servers_derives_from_control_url_and_listen() {
    let values = resolve_dns_servers(
        &vec![],
        Some("0.0.0.0:5353"),
        &vec!["https://control.example.com".to_string()],
    )
    .expect("resolve dns servers");
    assert_eq!(values, vec!["control.example.com:5353".to_string()]);
}

#[test]
fn extract_control_url_host_handles_ipv6_url() {
    assert_eq!(
        extract_control_url_host("https://[2001:db8::10]:8443"),
        Some("2001:db8::10".to_string())
    );
}

#[test]
fn url_hosts_are_found_in_all_forms() {
    assert_eq!(extract_control_url_host("http://a.example/path"), Some("a.example".to_string()));
    assert_eq!(extract_control_url_host("http://a.example:80"), Some("a.example".to_string()));
    assert_eq!(extract_control_url_host("http://:80"), Some(":80".to_string()));
    assert_eq!(extract_control_url_host("http://"), None);
    assert_eq!(extract_control_url_host("http:///x"), None);
    assert_eq!(extract_control_url_host("http://[::1"), None);
    assert_eq!(extract_control_url_host("ftp://a.example"), None);
}

#[test]
fn host_and_port_errors_are_told_apart() {
    let text = |value: &str| match split_host_port(value) {
        Ok(_) => "ok".to_string(),
        Err(error) => error.text(),
    };
    assert_eq!(text("  "), "missing host");
    assert_eq!(text("[::1"), "missing closing bracket");
    assert_eq!(text("[::1]53"), "invalid bracketed host");
    assert_eq!(text("[::1]:x"), "invalid port");
    assert_eq!(text(":53"), "missing host");
    assert_eq!(text("host:70000"), "invalid port");
    assert_eq!(text("2001:db8::10:70000"), "IPv6 addresses with port must be bracketed");
    assert_eq!(text("host:+53"), "ok");
    assert_eq!(split_host_port(" host:5353 ").unwrap(), ("host".to_string(), 5353));
    assert_eq!(split_host_port("1.2.3.4").unwrap(), ("1.2.3.4".to_string(), 53));
    assert_eq!(split_host_port("2001:DB8::1").unwrap(), ("2001:db8::1".to_string(), 53));
    assert_eq!(split_host_port("[::1]:5353").unwrap(), ("::1".to_string(), 5353));
}

#[test]
fn hosts_and_ports_are_read_back() {
    let hosts = ["dns.example.com", "1.2.3.4", "2001:db8::1", "::"];
    for host in hosts {
        for port in [1u16, 53, 65535] {
            let text = format_host_port(host, port);
            assert_eq!(split_host_port(&text).unwrap(), (host.to_string(), port));
        }
    }
    assert_eq!(format_host_port("2001:db8::1", 53), "[2001:db8::1]:53");
    assert_eq!(format_host_port("host", 53), "host:53");
    assert_eq!(format_host_port("[::1]", 53), "[::1]:53");
}

#[test]
fn dns_servers_come_from_the_best_source() {
    let urls = list(&["https://b.example", "https://a.example/x"]);
    assert_eq!(
        resolve_dns_servers(&list(&["z.example", "", "a.example:5"]), Some("bad"), &urls).unwrap(),
        list(&["a.example:5", "z.example:53"])
    );
    assert_eq!(resolve_dns_servers(&vec![], None, &urls).unwrap(), list(&[]));
    assert_eq!(
        resolve_dns_servers(&vec![], Some("[::]:53"), &urls).unwrap(),
        list(&["a.example:53", "b.example:53"])
    );
    assert_eq!(
        resolve_dns_servers(&vec![], Some("192.0.2.1:53"), &vec![]).unwrap(),
        list(&["192.0.2.1:53"])
    );
    assert_eq!(resolve_dns_servers(&vec![], Some("0.0.0.0:53"), &vec![]).unwrap(), list(&[]));
    let error = resolve_dns_servers(&vec![], Some("bad"), &urls).unwrap_err();
    assert_eq!(error.text(), "invalid --dns-listen value bad");
    let error = normalize_dns_server_values(&list(&["ok", " a:b:c ", "d:e:f"])).unwrap_err();
    assert_eq!(
        error.text(),
        "invalid dns server value a:b:c; expected HOST[:PORT] (IPv6 with port must use [addr]:port)"
    );
}

#[test]
fn control_urls_are_cleaned_and_sorted() {
    let urls = normalize_control_urls(&list(&[
        " https://b.example/ , http://a.example//",
        "",
        "https://b.example",
        ",",
    ]))
    .unwrap();
    assert_eq!(urls, list(&["http://a.example", "https://b.example"]));
    let error = normalize_control_urls(&list(&["https://a.example, b.example "])).unwrap_err();
    assert_eq!(
        error.text(),
        "invalid --control-url value  b.example ; expected http:// or https:// URL"
    );
    let text = normalize_control_urls(&list(&["ftp://x"])).unwrap_err();
    assert!(matches!(text, ConfigError::ControlUrl(value) if value == "ftp://x"));
}

#[test]
fn mesh_peers_need_a_name_and_an_address() {
    let peers = match parse_mesh_peers(&list(&["a = host:1", "b=x=y"])) {
        Ok(peers) => peers,
        Err(_) => panic!("peers expected"),
    };
    assert_eq!(peers.len(), 2);
    assert_eq!((peers[0].id.as_str(), peers[0].addr.as_str()), ("a", "host:1"));
    assert_eq!((peers[1].id.as_str(), peers[1].addr.as_str()), ("b", "x=y"));
    for bad in ["a", "a=", "=b", " = b"] {
        match parse_mesh_peers(&list(&["ok=1", bad])) {
            Ok(_) => panic!("error expected"),
            Err(error) => assert_eq!(
                error.text(),
                format!("invalid --mesh-peer value {}; expected ID=HOST:PORT", bad)
            ),
        }
    }
}

fn mesh_options() -> MeshOptions<u8> {
    MeshOptions {
        server_id: Some("a".to_string()),
        listen: Some("[::]:7443".to_string()),
        peers: list(&["b=10.0.0.12:7443"]),
        ca_cert: Some(1),
        cert: Some(2),
        key: Some(3),
        max_hops: 4,
    }
}

fn mesh_error(options: MeshOptions<u8>) -> String {
    match build_mesh_config(options) {
        Ok(_) => "ok".to_string(),
        Err(error) => error.text(),
    }
}

#[test]
fn mesh_needs_all_of_its_options() {
    let none = MeshOptions::<u8> {
        server_id: None,
        listen: None,
        peers: vec![],
        ca_cert: None,
        cert: None,
        key: None,
        max_hops: 0,
    };
    assert!(matches!(build_mesh_config(none), Ok(None)));
    let config = match build_mesh_config(mesh_options()) {
        Ok(Some(config)) => config,
        _ => panic!("config expected"),
    };
    assert_eq!(config.server_id, "a");
    assert_eq!(config.listen.ip, IpAddress::V6(0));
    assert_eq!(config.listen.port, 7443);
    assert_eq!(config.peers[0].id, "b");
    assert_eq!((config.ca_cert_path, config.cert_path, config.key_path), (1, 2, 3));
    assert_eq!(config.max_hops, 4);
    assert_eq!(
        mesh_error(MeshOptions { server_id: None, ..mesh_options() }),
        "mesh requires --mesh-server-id"
    );
    assert_eq!(
        mesh_error(MeshOptions { listen: None, ..mesh_options() }),
        "mesh requires --mesh-listen"
    );
    assert_eq!(
        mesh_error(MeshOptions { listen: Some("x".to_string()), ..mesh_options() }),
        "invalid socket address syntax"
    );
    assert_eq!(
        mesh_error(MeshOptions { ca_cert: None, ..mesh_options() }),
        "mesh requires --mesh-ca-cert"
    );
    assert_eq!(mesh_error(MeshOptions { cert: None, ..mesh_options() }), "mesh requires --mesh-cert");
    assert_eq!(mesh_error(MeshOptions { key: None, ..mesh_options() }), "mesh requires --mesh-key");
    assert_eq!(
        mesh_error(MeshOptions { peers: list(&[]), ..mesh_options() }),
        "mesh requires at least one --mesh-peer"
    );
    assert_eq!(
        mesh_error(MeshOptions { peers: list(&["x"]), ..mesh_options() }),
        "invalid --mesh-peer value x; expected ID=HOST:PORT"
    );
    assert_eq!(
        mesh_error(MeshOptions { max_hops: 0, ..mesh_options() }),
        "--mesh-max-hops must be > 0"
    );
}

#[test]
fn startup_needs_an_administrator_and_one_store() {
    let token = Some("t".to_string());
    assert!(check_startup(&token, true, false).is_ok());
    assert!(check_startup(&token, false, true).is_ok());
    assert_eq!(
        check_startup(&None, false, false).unwrap_err().text(),
        "admin token is required; set --admin-token or LIGHTSCALE_ADMIN_TOKEN"
    );
    assert_eq!(
        check_startup(&token, true, true).unwrap_err().text(),
        "set only one of --db-url and --db-url-file"
    );
    assert_eq!(db_url_from_file(" postgres://x \n"), Some("postgres://x".to_string()));
    assert_eq!(db_url_from_file(" \n"), None);
}

#[test]
fn hosts_without_a_port_mean_port_53() {
    for host in ["dns.example", "10.0.0.1", "a", "host_1"] {
        assert_eq!(split_host_port(host).unwrap(), (host.to_string(), 53));
        assert_eq!(split_host_port(&format_host_port(host, 0)).unwrap(), (host.to_string(), 0));
        assert_eq!(
            split_host_port(&format_host_port(host, 65535)).unwrap(),
            (host.to_string(), 65535)
        );
    }
    assert_eq!(split_host_port("[2001:db8::1]").unwrap(), ("2001:db8::1".to_string(), 53));
    assert_eq!(
        split_host_port(&format_host_port("2001:db8::1", 5353)).unwrap(),
        ("2001:db8::1".to_string(), 5353)
    );
}

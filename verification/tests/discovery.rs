use lox_linein_bridge::discovery::{
    browse_wait, choose_server, describe_server, normalize_path, resolve_host, DiscoveredServer,
    DiscoveryError, HostAddress, TxtRecord,
};

fn txt(fields: &[(&str, &str)]) -> TxtRecord {
    TxtRecord::from_pairs(
        fields
            .iter()
            .map(|(key, value)| (key.to_string(), value.to_string()))
            .collect(),
    )
}

fn server(host: &str, fields: &[(&str, &str)]) -> DiscoveredServer {
    describe_server(host, 7090, txt(fields))
}

fn address(is_ipv4: bool, text: &str) -> HostAddress {
    HostAddress {
        is_ipv4,
        text: text.to_string(),
    }
}

#[test]
fn the_last_of_equal_keys_counts() {
    let record = txt(&[("a", "1"), ("b", "2"), ("a", "3")]);
    assert_eq!(record.get("a").map(String::as_str), Some("3"));
    assert_eq!(record.get("b").map(String::as_str), Some("2"));
    assert!(record.get("c").is_none());
    assert!(txt(&[]).get("").is_none());
}

#[test]
fn a_server_without_fields_has_the_default_paths() {
    let server = server("192.168.1.2", &[]);
    assert_eq!(server.base_url, "http://192.168.1.2:7090");
    assert_eq!(server.register_path, "/api/linein/bridges/register");
    assert_eq!(server.status_path, "/api/linein/bridges/{bridge_id}/status");
}

#[test]
fn fields_set_the_paths() {
    let prefixed = server("h", &[("api", "v2")]);
    assert_eq!(prefixed.register_path, "/v2/linein/bridges/register");
    assert_eq!(prefixed.status_path, "/v2/linein/bridges/{bridge_id}/status");
    let explicit = server(
        "h",
        &[("linein_register", "reg"), ("linein_status", "/st"), ("api", "/x")],
    );
    assert_eq!(explicit.register_path, "/reg");
    assert_eq!(explicit.status_path, "/st");
    assert_eq!(explicit.txt.get("api").map(String::as_str), Some("/x"));
}

#[test]
fn paths_begin_with_one_slash() {
    assert_eq!(normalize_path("a/b".to_string()), "/a/b");
    assert_eq!(normalize_path("/a".to_string()), "/a");
    assert_eq!(normalize_path("//a".to_string()), "//a");
    assert_eq!(normalize_path(String::new()), "/");
    let once = normalize_path("é".to_string());
    assert_eq!(normalize_path(once.clone()), once);
}

#[test]
fn an_ipv4_address_is_preferred_to_the_name() {
    let addresses = vec![
        address(false, "fe80::1"),
        address(true, "10.0.0.1"),
        address(true, "10.0.0.2"),
    ];
    assert_eq!(resolve_host(&addresses, "server.local."), "10.0.0.1");
    assert_eq!(
        resolve_host(&vec![address(false, "fe80::1")], "server.local."),
        "server.local"
    );
    assert_eq!(resolve_host(&vec![], "server..."), "server");
    assert_eq!(resolve_host(&vec![], ".a.b"), ".a.b");
    assert_eq!(resolve_host(&vec![], "..."), "");
}

#[test]
fn without_servers_there_is_no_choice() {
    let error = choose_server(vec![], Some("a"), Some("b")).expect_err("there is none");
    assert_eq!(error, DiscoveryError::NoServices);
    assert_eq!(error.message(), "no _sonncore._tcp services found");
}

fn host_of(servers: Vec<DiscoveredServer>, name: Option<&str>, mac: Option<&str>) -> String {
    choose_server(servers, name, mac).expect("there are some").base_url
}

#[test]
fn a_single_server_is_taken_whatever_is_preferred() {
    let one = vec![server("only", &[("mac", "1"), ("name", "x")])];
    assert_eq!(host_of(one, Some("other"), Some("2")), "http://only:7090");
}

#[test]
fn of_several_servers_the_preferred_one_is_taken() {
    let several = || {
        vec![
            server("a", &[]),
            server("b", &[("name", "kitchen"), ("mac", "1")]),
            server("c", &[("name", "kitchen"), ("mac", "2")]),
            server("d", &[("name", "attic"), ("mac", "2")]),
        ]
    };
    // The address counts more than the name, and of equals the first is taken.
    assert_eq!(host_of(several(), Some("kitchen"), Some("2")), "http://c:7090");
    assert_eq!(host_of(several(), Some("attic"), Some("1")), "http://b:7090");
    assert_eq!(host_of(several(), Some("attic"), Some("9")), "http://d:7090");
    assert_eq!(host_of(several(), Some("kitchen"), None), "http://b:7090");
    assert_eq!(host_of(several(), None, Some("9")), "http://a:7090");
    assert_eq!(host_of(several(), None, None), "http://a:7090");
}

#[test]
fn services_have_eight_seconds_to_answer() {
    assert_eq!(browse_wait(0), Some(8_000));
    assert_eq!(browse_wait(2_500), Some(5_500));
    assert_eq!(browse_wait(7_999), Some(1));
    assert_eq!(browse_wait(8_000), None);
    assert_eq!(browse_wait(u64::MAX), None);
}

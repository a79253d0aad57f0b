use barm_worker::connect::{client_config, client_config_json5, peer_is_plain};

#[test]
fn configuration_text_names_the_peer() {
    assert_eq!(
        client_config_json5("tcp/127.0.0.1:7447"),
        r#"{
            mode: "client",
            connect: {
                endpoints: ["tcp/127.0.0.1:7447"]
            }
        }"#
    );
}

#[test]
fn endpoint_gives_a_client_configuration() {
    for peer in ["tcp/127.0.0.1:7447", "tcp/[::1]:7447", "a/b/c", "\t/\u{e9}"] {
        let config = client_config(peer).unwrap();
        assert_eq!(config.get_json("mode").unwrap(), "\"client\"");
        let held = config.get_json("connect/endpoints").unwrap();
        let endpoints: Vec<String> = serde_json::from_str(&held).unwrap();
        assert_eq!(endpoints, vec![peer.to_string()]);
    }
}

#[test]
fn endpoint_may_have_parameters() {
    for (peer, held) in [
        ("tcp/a?x=1", "tcp/a?x=1"),
        ("tcp/a#x", "tcp/a#x"),
        ("tcp/a?x=1#y=2", "tcp/a?x=1#y=2"),
        ("tcp/a?;x;;y=2#z", "tcp/a?x;y=2#z"),
        ("tcp/a?b=1;a=2#d=;c", "tcp/a?a=2;b=1#c;d"),
        ("tcp/a?x==", "tcp/a?x=="),
        ("tcp/a/?x", "tcp/a/?x"),
        ("t/?x", "t/?x"),
    ] {
        let config = client_config(peer).unwrap();
        assert_eq!(config.get_json("mode").unwrap(), "\"client\"");
        let text = config.get_json("connect/endpoints").unwrap();
        let endpoints: Vec<String> = serde_json::from_str(&text).unwrap();
        assert_eq!(endpoints, vec![held.to_string()]);
    }
}

#[test]
fn malformed_endpoint_gives_no_configuration() {
    for peer in [
        "", "/", "tcp", "tcp/", "/a", "127.0.0.1", "tcp/a?", "tcp/a#", "tcp/a?=1", "tcp/a?x;=1",
        "tcp/a#x?y=1", "tcp?x/a", "tcp#x/a", "tcp/a?;#x", "tcp/a?x#;", "tcp/a?#x",
    ] {
        assert!(client_config(peer).is_err(), "{:?}", peer);
    }
}

#[test]
fn quotes_and_line_ends_are_not_plain() {
    for peer in ["", "tcp/127.0.0.1:7447", "[[{{'", "\t/\u{e9}", "a/\u{1f600}"] {
        assert!(peer_is_plain(peer), "{:?}", peer);
    }
    assert!(peer_is_plain(&"[".repeat(1000)));
    for peer in ["\"", "a\\", "a\nb", "\r", "\u{2028}", "x\u{2029}", "tcp/a:1\", \"tcp/b:2"] {
        assert!(!peer_is_plain(peer), "{:?}", peer);
    }
}

//! Tests for the routing-script directive parser.

use wireguard_gui::scripts::parse_routing_keywords;

#[test]
fn parse_single_keyword() {
    let content = r#"
            # Comment line
            PreUp = iptables -A INPUT -i %i -j ACCEPT
        "#;

    let routing_hooks = parse_routing_keywords(content, "test").expect("Should parse");

    assert_eq!(
        routing_hooks.pre_up.unwrap(),
        "iptables -A INPUT -i %i -j ACCEPT"
    );
    assert!(routing_hooks.post_up.is_none());
    assert!(routing_hooks.pre_down.is_none());
    assert!(routing_hooks.post_down.is_none());
}

#[test]
fn parse_multiple_keywords() {
    let content = r#"
            # My scripts
            # Vpn config
            PreUp = iptables -A INPUT -p tcp --dport 22 -j ACCEPT
            PostUp = ip rule add ipproto tcp dport 22 table 1234
            PreDown = iptables -D INPUT -p tcp --dport 22 -j ACCEPT
            PostDown = ip rule delete ipproto tcp dport 22 table 1234
        "#;

    let routing_hooks = parse_routing_keywords(content, "test").expect("Should parse");

    assert_eq!(
        routing_hooks.pre_up.unwrap(),
        "iptables -A INPUT -p tcp --dport 22 -j ACCEPT"
    );
    assert_eq!(
        routing_hooks.post_up.unwrap(),
        "ip rule add ipproto tcp dport 22 table 1234"
    );
    assert_eq!(
        routing_hooks.pre_down.unwrap(),
        "iptables -D INPUT -p tcp --dport 22 -j ACCEPT"
    );
    assert_eq!(
        routing_hooks.post_down.unwrap(),
        "ip rule delete ipproto tcp dport 22 table 1234"
    );
}

#[test]
fn parse_ignores_comments_and_empty_lines() {
    let content = r#"
            #PreUp = wrong
            # Comment

            PostDown = iptables -A ....
            # end
        "#;

    let routing_hooks = parse_routing_keywords(content, "test").expect("Should parse");

    assert!(routing_hooks.pre_up.is_none());
    assert!(routing_hooks.post_up.is_none());
    assert!(routing_hooks.pre_down.is_none());
    assert_eq!(routing_hooks.post_down.unwrap(), "iptables -A ....");
}

#[test]
fn parse_unknown_keywords_fails() {
    let content = r#"
            # only comments and unknown keys
            FOO = bar
            BAR = baz
        "#;

    let err = parse_routing_keywords(content, "myscript").unwrap_err();

    assert!(err.contains("myscript"), "Error should include script name");

    assert!(
        err.contains("Unknown routing keyword"),
        "Error message should indicate missing routing keywords"
    );
}

#[test]
fn parse_invalid_syntax_fails() {
    let content = r#"
            # only comments
            echo hello
            something else
        "#;

    let err = parse_routing_keywords(content, "myscript").unwrap_err();

    assert!(err.contains("myscript"), "Error should include script name");

    assert!(
        err.contains("Invalid syntax"),
        "Error message should indicate invalid syntax or missing routing keywords"
    );
}

#[test]
fn multiple_keywords_each_with_multicommands() {
    let content = r#"
            PreUp = iptables -A INPUT -i %i -j ACCEPT; iptables -A OUTPUT -o %i -j ACCEPT
            PostUp = iptables -t nat -A PREROUTING -i %i -j DNAT --to 10.0.0.1; iptables -A FORWARD -i %i -j ACCEPT
            PreDown = iptables -D INPUT -i %i -j ACCEPT; iptables -D OUTPUT -o %i -j ACCEPT
            PostDown = echo done; echo really_done
        "#;

    let result = parse_routing_keywords(content, "multi");

    assert!(result.is_err(), "Parser should fail due to invalid commands");

    let err = result.unwrap_err();
    assert!(err.contains("PostDown"), "Error must mention the invalid keyword");
    assert!(err.contains("echo"), "Error must mention the invalid command");
}

#[test]
fn parse_multicommand_postdown() {
    let content = r#"
            PostDown = iptables -D FORWARD -i %i -j ACCEPT; iptables -t nat -D POSTROUTING -o eth0 -j MASQUERADE
        "#;

    let routing_hooks = parse_routing_keywords(content, "multi").expect("Should parse");

    assert_eq!(
        routing_hooks.post_down.unwrap(),
        "iptables -D FORWARD -i %i -j ACCEPT; iptables -t nat -D POSTROUTING -o eth0 -j MASQUERADE"
    );
}

#[test]
fn bind_placeholder_sets_flag() {
    let content = "PreUp = iptables -A INPUT -i %bindIface -j ACCEPT\n";
    let hooks = parse_routing_keywords(content, "bind").expect("Should parse");
    assert!(hooks.has_bind_interface);
}

#[test]
fn no_bind_placeholder_leaves_flag_false() {
    let content = "PreUp = iptables -A INPUT -i eth0 -j ACCEPT\n";
    let hooks = parse_routing_keywords(content, "nobind").expect("Should parse");
    assert!(!hooks.has_bind_interface);
}

#[test]
fn fwmark_commands_skip_tool_check_and_bind_scan() {
    let content = "PostUp = ip rule add fwmark 51820 table 51820\nFwMark = 51820\n";
    let hooks = parse_routing_keywords(content, "mark").expect("Should parse");
    assert_eq!(hooks.fwmark.unwrap(), "51820");
    assert!(!hooks.has_bind_interface);
}

#[test]
fn fwmark_alone_is_rejected() {
    let content = "FwMark = 51820\n";
    let err = parse_routing_keywords(content, "markonly").unwrap_err();
    assert!(err.contains("does not contain any routing keywords"));
    assert!(err.contains("markonly"));
}

#[test]
fn empty_command_list_fails() {
    let content = "PreUp = ; ;\n";
    let err = parse_routing_keywords(content, "empty").unwrap_err();
    assert!(err.contains("Empty command list"));
    assert!(err.contains("PreUp"));
    assert!(err.contains("empty"));
}

#[test]
fn commands_are_trimmed_and_rejoined() {
    let content = "PreUp =   iptables -A INPUT ;  ip route flush cache  \n";
    let hooks = parse_routing_keywords(content, "join").expect("Should parse");
    assert_eq!(hooks.pre_up.unwrap(), "iptables -A INPUT; ip route flush cache");
}

//! Tests for the activation state machine, the runner decision core,
//! the validators and the settings.

use wireguard_gui::config::{
    Interface, Peer, RoutingHooks, RoutingScripts, WireguardConfig, get_value,
    reset_interface_hooks, validate_binding_iface,
};
use wireguard_gui::ip::is_ip_valid;
use wireguard_gui::reconcile::validate_assign_routing_script;
use wireguard_gui::runner::{WaitOutcome, cmd_succeeded, wait_cmd_with_timeout};
use wireguard_gui::settings::{
    AppSettings, LogLevel, LogOutput, get_config_file_owner, get_config_file_owner_group,
    get_configs_dir, get_log_level_output, get_log_output, get_scripts_dir,
};
use wireguard_gui::tunnel::{
    NetState, ToggleAction, is_cfg_valid, is_endpoint_valid, is_wg_iface_running, toggle_plan,
    validate_peer_endpoints,
};

fn iface_empty() -> Interface {
    Interface {
        name: None,
        address: None,
        listen_port: None,
        private_key: None,
        public_key: None,
        dns: None,
        table: None,
        mtu: None,
        pre_up: None,
        post_up: None,
        pre_down: None,
        post_down: None,
        fwmark: None,
        binding_iface: None,
        routing_script_name: None,
        has_script_bind_iface: false,
    }
}

fn valid_cfg() -> WireguardConfig {
    WireguardConfig {
        interface: Interface {
            name: Some("wg0".into()),
            address: Some("10.0.0.1/24".into()),
            listen_port: Some("51820".into()),
            public_key: Some("pub".into()),
            ..iface_empty()
        },
        peers: vec![Peer {
            name: Some("p".into()),
            allowed_ips: Some("0.0.0.0/0".into()),
            endpoint: Some("vpn.example.com:51820".into()),
            public_key: Some("peerpub".into()),
            persistent_keepalive: None,
        }],
    }
}

// --- state classification and toggle planning ---

#[test]
fn status_not_found_plans_only_up() {
    let state = is_wg_iface_running(Some(1), "", false);
    assert_eq!(state, NetState::WgQuickDown);
    let plan = toggle_plan(&state).unwrap();
    assert_eq!(plan, vec![ToggleAction::Up]);
}

#[test]
fn status_found_but_link_down_plans_down_then_up() {
    let state = is_wg_iface_running(Some(0), "interface: wg0\n", false);
    assert_eq!(state, NetState::IplinkDown);
    let plan = toggle_plan(&state).unwrap();
    assert_eq!(plan, vec![ToggleAction::Down, ToggleAction::Up]);
}

#[test]
fn status_found_and_up_plans_only_down() {
    let state = is_wg_iface_running(Some(0), "interface: wg0\n", true);
    assert_eq!(state, NetState::WgQuickUp);
    let plan = toggle_plan(&state).unwrap();
    assert_eq!(plan, vec![ToggleAction::Down]);
}

#[test]
fn empty_status_output_counts_as_down() {
    let state = is_wg_iface_running(Some(0), "", true);
    assert_eq!(state, NetState::WgQuickDown);
}

#[test]
fn iplink_up_state_is_rejected() {
    let err = toggle_plan(&NetState::IplinkUp).unwrap_err();
    assert_eq!(err, "Unknown interface state");
}

// --- runner decision core ---

#[test]
fn timed_out_killed_process_is_a_failure() {
    let (code, output) = wait_cmd_with_timeout(
        WaitOutcome::TimedOutKilled(None),
        "partial output".into(),
        "".into(),
    );
    assert_eq!(code, None);
    assert!(!cmd_succeeded(&code));
    assert_eq!(output, "partial output\n");
}

#[test]
fn nonzero_exit_is_a_failure_with_combined_output() {
    let (code, output) =
        wait_cmd_with_timeout(WaitOutcome::Exited(Some(2)), "out".into(), "err".into());
    assert_eq!(code, Some(2));
    assert!(!cmd_succeeded(&code));
    assert_eq!(output, "out\nerr");
}

#[test]
fn zero_exit_is_success() {
    let (code, _) = wait_cmd_with_timeout(WaitOutcome::Exited(Some(0)), "".into(), "".into());
    assert!(cmd_succeeded(&code));
}

// --- activation validity ---

#[test]
fn valid_config_passes() {
    assert!(is_cfg_valid(&valid_cfg()).is_ok());
}

#[test]
fn missing_public_key_is_reported() {
    let mut cfg = valid_cfg();
    cfg.interface.public_key = None;
    let err = is_cfg_valid(&cfg).unwrap_err();
    assert_eq!(err, "Public key is not defined in interface section");
}

#[test]
fn missing_listen_port_is_reported() {
    let mut cfg = valid_cfg();
    cfg.interface.listen_port = None;
    let err = is_cfg_valid(&cfg).unwrap_err();
    assert_eq!(err, "Listen port is not defined in interface section");
}

#[test]
fn missing_address_is_reported() {
    let mut cfg = valid_cfg();
    cfg.interface.address = None;
    let err = is_cfg_valid(&cfg).unwrap_err();
    assert_eq!(err, "IP address is not defined in interface section");
}

#[test]
fn no_peers_is_reported() {
    let mut cfg = valid_cfg();
    cfg.peers.clear();
    let err = is_cfg_valid(&cfg).unwrap_err();
    assert_eq!(err, "No peers defined");
}

#[test]
fn blank_peer_public_key_is_reported() {
    let mut cfg = valid_cfg();
    cfg.peers[0].public_key = Some("   ".into());
    let err = is_cfg_valid(&cfg).unwrap_err();
    assert_eq!(err, "Peer public key is empty");
}

#[test]
fn bind_flag_without_binding_iface_is_reported() {
    let mut cfg = valid_cfg();
    cfg.interface.has_script_bind_iface = true;
    let err = is_cfg_valid(&cfg).unwrap_err();
    assert_eq!(err, "Binding interface cannot be selected as 'None'");
}

// --- endpoint syntax ---

#[test]
fn endpoint_host_port_is_valid() {
    assert!(is_endpoint_valid("vpn.example.com:51820"));
    assert!(is_endpoint_valid("[2001:db8::1]:51820"));
    assert!(is_endpoint_valid("10.0.0.1:1"));
}

#[test]
fn endpoint_without_port_or_host_is_invalid() {
    assert!(!is_endpoint_valid("vpn.example.com"));
    assert!(!is_endpoint_valid(":51820"));
    assert!(!is_endpoint_valid("vpn.example.com:"));
    assert!(!is_endpoint_valid("vpn.example.com:7a"));
    assert!(!is_endpoint_valid("vpn.example.com:65536"));
    assert!(!is_endpoint_valid(""));
}

#[test]
fn invalid_endpoint_aborts_before_any_process() {
    let mut cfg = valid_cfg();
    cfg.peers[0].endpoint = Some("no-port-here".into());
    let err = validate_peer_endpoints(&cfg).unwrap_err();
    assert_eq!(err, "Invalid peer endpoint: no-port-here");
    assert!(validate_peer_endpoints(&valid_cfg()).is_ok());
}

// --- address validity through the ipnetwork-backed check ---

#[test]
fn ip_validity_follows_ipnetwork() {
    assert!(is_ip_valid(Some("10.0.0.1/24")));
    assert!(is_ip_valid(Some("192.0.2.3")));
    assert!(is_ip_valid(Some("  2001:db8::1/64  ")));
    assert!(!is_ip_valid(Some("not-an-ip")));
    assert!(!is_ip_valid(Some("10.0.0.1/64")));
    assert!(!is_ip_valid(Some("   ")));
    assert!(!is_ip_valid(None));
}

// --- field helpers ---

#[test]
fn get_value_substitutes_unknown() {
    assert_eq!(get_value(&Some("x".to_string())), "x");
    assert_eq!(get_value(&None), "unknown");
}

#[test]
fn reset_clears_only_routing_fields() {
    let mut cfg = valid_cfg();
    cfg.interface.pre_up = Some("iptables -A INPUT".into());
    cfg.interface.fwmark = Some("123".into());
    cfg.interface.binding_iface = Some("eth0".into());
    cfg.interface.routing_script_name = Some("r.sh".into());
    cfg.interface.has_script_bind_iface = true;
    reset_interface_hooks(&mut cfg);
    assert!(cfg.interface.pre_up.is_none());
    assert!(cfg.interface.fwmark.is_none());
    assert!(cfg.interface.binding_iface.is_none());
    assert!(cfg.interface.routing_script_name.is_none());
    assert!(!cfg.interface.has_script_bind_iface);
    assert_eq!(cfg.interface.name.as_deref(), Some("wg0"));
    assert_eq!(cfg.interface.public_key.as_deref(), Some("pub"));
}

#[test]
fn binding_iface_must_be_known() {
    let known = vec!["eth0".to_string(), "wlan0".to_string()];
    let mut cfg = valid_cfg();
    assert!(validate_binding_iface(&known, &cfg).is_ok());
    cfg.interface.binding_iface = Some("wlan0".into());
    assert!(validate_binding_iface(&known, &cfg).is_ok());
    cfg.interface.binding_iface = Some("eth7".into());
    let err = validate_binding_iface(&known, &cfg).unwrap_err();
    assert_eq!(err, "Invalid binding interface: eth7");
}

// --- reconciliation ---

fn script(name: &str, pre_up: &str, bind: bool) -> RoutingScripts {
    RoutingScripts {
        path: format!("/etc/wireguard/scripts/{name}"),
        name: name.to_string(),
        content: format!("PreUp = {pre_up}\n"),
        routing_hooks: RoutingHooks {
            pre_up: Some(pre_up.to_string()),
            post_up: None,
            pre_down: None,
            post_down: None,
            fwmark: None,
            has_bind_interface: bind,
        },
    }
}

#[test]
fn reconcile_passes_without_script_name() {
    let mut cfg = valid_cfg();
    assert!(validate_assign_routing_script(&vec![], &mut cfg).is_ok());
}

#[test]
fn reconcile_missing_script_is_reported() {
    let mut cfg = valid_cfg();
    cfg.interface.routing_script_name = Some("gone.sh".into());
    let err = validate_assign_routing_script(&vec![], &mut cfg).unwrap_err();
    assert!(err.contains("gone.sh"));
    assert!(err.contains("Please select again"));
}

#[test]
fn reconcile_normalizes_binding_iface_substitution() {
    let template = "iptables -A INPUT -i %bindIface -j ACCEPT";
    let scripts = vec![script("route.sh", template, true)];
    let mut cfg = valid_cfg();
    cfg.interface.routing_script_name = Some("route.sh".into());
    cfg.interface.binding_iface = Some("eth0".into());
    cfg.interface.pre_up = Some("iptables -A INPUT -i eth0 -j ACCEPT".into());
    assert!(validate_assign_routing_script(&scripts, &mut cfg).is_ok());
    assert!(cfg.interface.has_script_bind_iface);
}

#[test]
fn reconcile_detects_edited_hook() {
    let scripts = vec![script("route.sh", "iptables -A INPUT -j ACCEPT", false)];
    let mut cfg = valid_cfg();
    cfg.interface.routing_script_name = Some("route.sh".into());
    cfg.interface.pre_up = Some("iptables -A INPUT -j DROP".into());
    let err = validate_assign_routing_script(&scripts, &mut cfg).unwrap_err();
    assert_eq!(err, "pre_up script does not match the expected template.");
    assert!(!cfg.interface.has_script_bind_iface);
}

#[test]
fn reconcile_detects_one_sided_hook() {
    let scripts = vec![script("route.sh", "iptables -A INPUT -j ACCEPT", false)];
    let mut cfg = valid_cfg();
    cfg.interface.routing_script_name = Some("route.sh".into());
    let err = validate_assign_routing_script(&scripts, &mut cfg).unwrap_err();
    assert_eq!(err, "pre_up scripts are not identical");
}

// --- settings ---

#[test]
fn settings_paths_and_owners() {
    let s = AppSettings {
        log_level: LogLevel::Info,
        log_output: LogOutput::Stdout,
        app_dir: "/etc/wireguard".into(),
        config_owner: "root".into(),
        config_owner_group: "wheel".into(),
    };
    assert_eq!(get_configs_dir(&s), "/etc/wireguard/configs");
    assert_eq!(get_scripts_dir(&s), "/etc/wireguard/scripts");
    assert_eq!(get_config_file_owner(&s), "root");
    assert_eq!(get_config_file_owner_group(&s), "wheel");
    assert_eq!(get_log_output(&s), LogOutput::Stdout);
    assert_eq!(get_log_level_output(&s), LogLevel::Info);
}

use kibbled::cloud::{
    classify_self_check, decode_addr, disable, enable, is_lan, lan_route_present, parse_default_route,
    parse_proc_net_tcp, parse_state, reconcile_once, resolve_gateway, self_check_target, status_json,
    tcp_state_name, to_json, unreachable_message, Action, Error, Probe, Reconcile, State, Switch,
    LAN_CIDR,
};

const BASELINE_ROUTES: &str = "default via 192.168.4.1 dev wlan0 \n\
    192.168.4.0/24 dev wlan0 scope link  src 192.168.4.85 \n";

const DISABLED_ROUTES: &str = "blackhole default \n\
    192.168.0.0/16 via 192.168.4.1 dev wlan0 \n\
    192.168.4.0/24 dev wlan0 scope link  src 192.168.4.85 \n";
const COEXISTING_ROUTES: &str = "default via 192.168.4.1 dev wlan0 \n\
    blackhole default \n\
    192.168.4.0/24 dev wlan0 scope link  src 192.168.4.85 \n";
const PROC_NET_TCP: &str = "  sl  local_address rem_address   st tx_queue rx_queue tr tm->when retrnsmt   uid  timeout inode\n\
   1: 00000000:223D 00000000:0000 0A 00000000:00000000 00:00000000 00000000     0        0 35086 1 0393fe37 100 0 0 10 0\n\
   6: 5504A8C0:C7BE 4F14582F:01BB 06 00000000:00000000 03:000015E5 00000000     0        0 0 3 9a1c3937\n\
  17: 5504A8C0:216A 4501A8C0:E334 01 00002A75:00000000 01:0000000A 00000000     0        0 41575 2 39a78dbd 29 4 1 39 34\n\
  19: 5504A8C0:91B0 A7F7FB2F:845A 01 00000000:00000000 00:00000000 00000000     0        0 4518 1 40902911 32 4 30 10 -1\n";

#[test]
fn decodes_the_devices_own_live_address() {
    assert_eq!(decode_addr("5504A8C0:216A"), Some(("192.168.4.85".to_string(), 8554)));
}

#[test]
fn decodes_the_live_alibaba_cloud_mqtt_broker_address() {
    assert_eq!(
        decode_addr("A7F7FB2F:845A"),
        Some(("47.251.247.167".to_string(), 33882))
    );
}

#[test]
fn parses_real_proc_net_tcp_capture_into_peers_only() {
    let conns = parse_proc_net_tcp(PROC_NET_TCP);
    assert_eq!(conns.len(), 3);

    let rtsp = conns.iter().find(|c| c.local_port == 8554).expect("rtsp peer");
    assert_eq!(rtsp.remote_ip, "192.168.1.69");
    assert_eq!(rtsp.state, "ESTABLISHED");

    let mqtt = conns.iter().find(|c| c.remote_port == 33882).expect("mqtt peer");
    assert_eq!(mqtt.remote_ip, "47.251.247.167");
    assert_eq!(mqtt.state, "ESTABLISHED");

    let oss = conns.iter().find(|c| c.remote_port == 443).expect("oss peer");
    assert_eq!(oss.remote_ip, "47.88.20.79");
    assert_eq!(oss.state, "TIME_WAIT");
}

#[test]
fn is_lan_matches_this_networks_ranges_only() {
    assert!(is_lan("192.168.1.69"));
    assert!(is_lan("192.168.4.85"));
    assert!(is_lan("127.0.0.1"));
    assert!(!is_lan("47.251.247.167"));
    assert!(!is_lan("8.8.8.8"));
}

#[test]
fn parses_gateway_and_interface_from_the_baseline_table() {
    assert_eq!(
        parse_default_route(BASELINE_ROUTES),
        Some(("192.168.4.1".to_string(), "wlan0".to_string()))
    );
}

#[test]
fn a_blackholed_default_is_not_mistaken_for_a_live_one() {
    assert_eq!(parse_default_route(DISABLED_ROUTES), None);
}

#[test]
fn a_coexisting_real_default_is_still_found_even_with_a_blackhole_present() {
    assert_eq!(
        parse_default_route(COEXISTING_ROUTES),
        Some(("192.168.4.1".to_string(), "wlan0".to_string()))
    );
}

#[test]
fn lan_carveout_is_detected_when_present() {
    assert!(lan_route_present(DISABLED_ROUTES, "192.168.4.1", "wlan0"));
}

#[test]
fn lan_carveout_is_not_detected_when_absent_or_mismatched() {
    assert!(!lan_route_present(BASELINE_ROUTES, "192.168.4.1", "wlan0"));
    assert!(!lan_route_present(DISABLED_ROUTES, "10.0.0.1", "wlan0"));
}

#[test]
fn resolve_gateway_prefers_live_over_cached() {
    let cached = State {
        enabled: false,
        gateway: Some("10.0.0.1".to_string()),
        dev: Some("eth9".to_string()),
        last_error: None,
    };
    assert_eq!(
        resolve_gateway(BASELINE_ROUTES, &cached).unwrap(),
        ("192.168.4.1".to_string(), "wlan0".to_string())
    );
}

#[test]
fn resolve_gateway_falls_back_to_cached_when_nothing_live() {
    let cached = State {
        enabled: false,
        gateway: Some("192.168.4.1".to_string()),
        dev: Some("wlan0".to_string()),
        last_error: None,
    };
    assert_eq!(
        resolve_gateway(DISABLED_ROUTES, &cached).unwrap(),
        ("192.168.4.1".to_string(), "wlan0".to_string())
    );
}

#[test]
fn state_json_round_trips_including_an_error_message_with_a_quote() {
    let state = State {
        enabled: true,
        gateway: Some("192.168.4.1".to_string()),
        dev: Some("wlan0".to_string()),
        last_error: Some(r#"LAN unreachable after blackholing ("192.168.1.69:8554")"#.to_string()),
    };
    let text = to_json(&state);
    let parsed = parse_state(&text);
    assert_eq!(parsed.enabled, state.enabled);
    assert_eq!(parsed.gateway, state.gateway);
    assert_eq!(parsed.dev, state.dev);
    assert!(parsed.last_error.unwrap().contains("192.168.1.69:8554"));
}

#[test]
fn resolve_gateway_errors_with_nothing_live_or_cached() {
    let state = State { enabled: true, gateway: None, dev: None, last_error: None };
    assert!(matches!(resolve_gateway(DISABLED_ROUTES, &state), Err(Error::NoGateway)));
}

#[test]
fn connection_refused_counts_as_a_reachable_lan() {
    assert!(classify_self_check(Probe::Refused).is_ok());
}

#[test]
fn timeout_counts_as_an_unreachable_lan() {
    assert_eq!(classify_self_check(Probe::Failed("timed out".into())), Err("timed out".to_string()));
}

#[test]
fn a_completed_connection_counts_as_reachable() {
    assert!(classify_self_check(Probe::Connected).is_ok());
}

/// Runs commands until something else is asked for; gives their arguments.
fn drive(s: &mut Switch, responses: &[Result<&str, &str>]) -> Vec<Vec<String>> {
    let mut calls = Vec::new();
    for r in responses {
        match s.action() {
            Action::Run(c) => {
                let args = c.args(s.gateway(), s.device());
                calls.push(args.iter().map(|a| a.to_string()).collect());
                s.advance(r.map(str::to_string).map_err(str::to_string));
            }
            _ => break,
        }
    }
    calls
}

#[test]
fn assert_disabled_runs_in_verified_order_on_the_happy_path() {
    let mut s = Switch::turn_off("192.168.4.1".into(), "wlan0".into(), true);
    let calls = drive(&mut s, &[Ok(""), Ok(DISABLED_ROUTES), Ok(""), Ok(""), Ok("")]);
    assert_eq!(
        calls,
        vec![
            vec!["route", "replace", LAN_CIDR, "via", "192.168.4.1", "dev", "wlan0"],
            vec!["route", "show"],
            vec!["route", "del", "default", "via", "192.168.4.1", "dev", "wlan0"],
            vec!["route", "replace", "blackhole", "default"],
        ]
    );
    assert_eq!(s.action(), Action::SelfCheck);
}

#[test]
fn assert_disabled_never_touches_the_default_route_if_the_carveout_does_not_verify() {
    let mut s = Switch::turn_off("192.168.4.1".into(), "wlan0".into(), true);
    let calls = drive(&mut s, &[Ok(""), Ok(BASELINE_ROUTES), Ok(""), Ok("")]);
    assert!(matches!(s.failure(), Some(Error::LanRouteMissing)));
    assert_eq!(
        calls,
        vec![
            vec!["route", "replace", LAN_CIDR, "via", "192.168.4.1", "dev", "wlan0"],
            vec!["route", "show"],
        ]
    );
    assert_eq!(s.action(), Action::Finish);
}

#[test]
fn a_missing_carveout_is_recorded_and_leaves_the_flag_as_it_was() {
    for was in [true, false] {
        let cached = State { enabled: was, ..State::default() };
        let mut s = disable(BASELINE_ROUTES, &cached).unwrap();
        drive(&mut s, &[Ok(""), Ok(BASELINE_ROUTES)]);
        assert_eq!(s.action(), Action::Finish);
        let saved = s.to_save().unwrap();
        assert_eq!(saved.enabled, was);
        assert_eq!(saved.gateway.as_deref(), Some("192.168.4.1"));
        assert_eq!(saved.dev.as_deref(), Some("wlan0"));
        assert_eq!(saved.last_error, Some(Error::LanRouteMissing.message()));
    }
}

#[test]
fn a_failed_switch_on_leaves_the_saved_state() {
    let mut s = enable(BASELINE_ROUTES, &State::default()).unwrap();
    drive(&mut s, &[Err("ip: no")]);
    assert_eq!(s.action(), Action::Finish);
    assert!(s.to_save().is_none());
}

#[test]
fn assert_enabled_restores_default_then_cleans_up_any_blackhole_remnant() {
    let mut s = Switch::turn_on("192.168.4.1".into(), "wlan0".into(), false);
    let calls = drive(&mut s, &[Ok(""), Ok(""), Ok("")]);
    assert!(s.failure().is_none());
    assert_eq!(
        calls,
        vec![
            vec!["route", "replace", "default", "via", "192.168.4.1", "dev", "wlan0"],
            vec!["route", "del", "blackhole", "default"],
        ]
    );
    assert_eq!(s.action(), Action::Finish);
}

#[test]
fn missing_state_file_defaults_to_enabled_with_nothing_cached() {
    assert_eq!(
        State::default(),
        State { enabled: true, gateway: None, dev: None, last_error: None }
    );
    assert_eq!(parse_state(""), State::default());
}

#[test]
fn cloud_save_then_load_round_trips() {
    let state = State {
        enabled: false,
        gateway: Some("192.168.4.1".to_string()),
        dev: Some("wlan0".to_string()),
        last_error: None,
    };
    assert_eq!(parse_state(&to_json(&state)), state);
}

#[test]
fn a_failed_self_check_puts_the_default_back_and_is_remembered() {
    let mut s = disable(BASELINE_ROUTES, &State::default()).unwrap();
    drive(&mut s, &[Ok(""), Ok(DISABLED_ROUTES), Ok(""), Ok("")]);
    assert_eq!(s.action(), Action::SelfCheck);
    s.advance(Err("no reply".into()));
    let calls = drive(&mut s, &[Ok(""), Ok("")]);
    assert_eq!(calls[0], vec!["route", "replace", "default", "via", "192.168.4.1", "dev", "wlan0"]);
    assert_eq!(s.action(), Action::Finish);
    assert!(matches!(s.failure(), Some(Error::SelfCheckFailed(m)) if m == "no reply"));
    let saved = s.to_save().unwrap();
    assert!(saved.enabled);
    assert_eq!(saved.last_error.as_deref(), Some("no reply"));
}

#[test]
fn a_passed_self_check_is_saved_as_disabled() {
    let mut s = disable(BASELINE_ROUTES, &State::default()).unwrap();
    drive(&mut s, &[Ok(""), Ok(DISABLED_ROUTES), Ok(""), Ok("")]);
    s.advance(Ok(String::new()));
    assert_eq!(s.action(), Action::Finish);
    assert!(!s.to_save().unwrap().enabled);
}

#[test]
fn a_failing_command_rolls_back() {
    let mut s = disable(BASELINE_ROUTES, &State::default()).unwrap();
    drive(&mut s, &[Err("ip: no")]);
    assert!(matches!(s.failure(), Some(Error::Command(m)) if m == "ip: no"));
    assert!(enable(DISABLED_ROUTES, &State::default()).is_err());
}

#[test]
fn drift_is_noticed() {
    let off = State {
        enabled: false,
        gateway: Some("192.168.4.1".to_string()),
        dev: Some("wlan0".to_string()),
        last_error: None,
    };
    assert!(matches!(reconcile_once(&off, DISABLED_ROUTES), Reconcile::Consistent));
    assert!(matches!(reconcile_once(&off, COEXISTING_ROUTES), Reconcile::Repeat(_)));
    let on = State { enabled: true, ..off };
    assert!(matches!(reconcile_once(&on, BASELINE_ROUTES), Reconcile::Consistent));
    assert!(matches!(reconcile_once(&on, DISABLED_ROUTES), Reconcile::Heal(_)));
    assert!(matches!(reconcile_once(&State::default(), DISABLED_ROUTES), Reconcile::Stuck));
}

#[test]
fn the_self_check_tries_whoever_watches() {
    assert_eq!(
        self_check_target(Some(PROC_NET_TCP), "192.168.4.1"),
        ("192.168.1.69".to_string(), 8554)
    );
    assert_eq!(self_check_target(None, "192.168.4.1"), ("192.168.4.1".to_string(), 80));
    assert_eq!(
        unreachable_message("192.168.1.69", 8554, "timed out"),
        "LAN unreachable after blackholing (192.168.1.69:8554): timed out, rolled back"
    );
}

#[test]
fn states_of_sockets_have_names() {
    assert_eq!(tcp_state_name(1), "ESTABLISHED");
    assert_eq!(tcp_state_name(6), "TIME_WAIT");
    assert_eq!(tcp_state_name(10), "LISTEN");
}

#[test]
fn addresses_that_are_none_are_not_decoded() {
    assert_eq!(decode_addr("5504A8C0"), None);
    assert_eq!(decode_addr("5504A8C0:xyz"), None);
    assert_eq!(decode_addr("5504:216A"), None);
}

#[test]
fn the_status_lists_who_is_connected() {
    let json = status_json(&State::default(), BASELINE_ROUTES, PROC_NET_TCP);
    assert!(json.starts_with("{") && json.ends_with("}"), "{json}");
    assert!(json.contains("47.251.247.167"), "{json}");
    assert_eq!(
        Error::NoGateway.message(),
        "no default route visible and no cached gateway; cannot determine the LAN next-hop"
    );
    assert_eq!(Error::Io("disk".into()).message(), "disk");
}

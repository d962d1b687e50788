use duallink::network::{
    configure_failover, configure_load_balancing, disable_adapter, enable_adapter,
    get_adapter_details, latency_from_line, parse_adapter_details, parse_adapter_list,
    parse_ping_output, ping_arguments, ping_outcome, plan_progress, powershell_outcome,
    prefix_to_subnet, push_ps_escaped, reply_reports_answer, set_routing_metric,
    test_adapter_connectivity, test_connectivity, test_connectivity_to, adapter_from_fields,
    details_from_fields, AdapterDetails, PlanProgress, read_ping_reply, adapters_from_members,
    details_from_members,
};

#[test]
fn enable_adapter_builds_quoted_script() {
    let cmd = enable_adapter("Wi-Fi");
    assert_eq!(cmd.script, "Enable-NetAdapter -Name 'Wi-Fi' -Confirm:$false -ErrorAction Stop");
    assert_eq!(cmd.error_context, "Failed to enable adapter 'Wi-Fi'");
}

#[test]
fn disable_adapter_doubles_single_quotes() {
    let cmd = disable_adapter("Bob's phone");
    assert_eq!(
        cmd.script,
        "Disable-NetAdapter -Name 'Bob''s phone' -Confirm:$false -ErrorAction Stop"
    );
    assert_eq!(cmd.error_context, "Failed to disable adapter 'Bob's phone'");
}

#[test]
fn escaping_doubles_every_quote() {
    let mut s = String::from("<");
    push_ps_escaped(&mut s, "a'b''c'");
    assert_eq!(s, "<a''b''''c''");
    let mut plain = String::new();
    push_ps_escaped(&mut plain, "Ethernet 2");
    assert_eq!(plain, "Ethernet 2");
}

#[test]
fn set_routing_metric_builds_script() {
    let cmd = set_routing_metric(12, 100);
    assert_eq!(
        cmd.script,
        "Set-NetIPInterface -InterfaceIndex 12 -InterfaceMetric 100 -ErrorAction Stop"
    );
    assert_eq!(cmd.error_context, "Failed to set metric 100 on interface 12");
    let zero = set_routing_metric(0, 4294967295);
    assert_eq!(
        zero.script,
        "Set-NetIPInterface -InterfaceIndex 0 -InterfaceMetric 4294967295 -ErrorAction Stop"
    );
}

#[test]
fn load_balancing_plan() {
    let plan = configure_load_balancing(3, 7);
    assert_eq!(plan.len(), 3);
    assert_eq!(
        plan[0].command.script,
        "Set-NetIPInterface -InterfaceIndex 3 -InterfaceMetric 10 -ErrorAction Stop"
    );
    assert!(plan[0].must_succeed);
    assert_eq!(
        plan[1].command.script,
        "Set-NetIPInterface -InterfaceIndex 7 -InterfaceMetric 20 -ErrorAction Stop"
    );
    assert!(plan[1].must_succeed);
    assert_eq!(
        plan[2].command.script,
        "Set-NetIPInterface -Forwarding Enabled -ErrorAction SilentlyContinue"
    );
    assert!(!plan[2].must_succeed);
}

#[test]
fn failover_plan() {
    let plan = configure_failover(5, 9);
    assert_eq!(plan.len(), 2);
    assert_eq!(
        plan[0].command.script,
        "Set-NetIPInterface -InterfaceIndex 5 -InterfaceMetric 10 -ErrorAction Stop"
    );
    assert_eq!(
        plan[1].command.script,
        "Set-NetIPInterface -InterfaceIndex 9 -InterfaceMetric 100 -ErrorAction Stop"
    );
    assert_eq!(plan[1].command.error_context, "Failed to set metric 100 on interface 9");
}

#[test]
fn plan_stops_at_first_required_failure() {
    let plan = configure_load_balancing(3, 7);
    match plan_progress(&plan, 0, true) {
        PlanProgress::Next(i) => assert_eq!(i, 1),
        other => panic!("unexpected {:?}", other),
    }
    match plan_progress(&plan, 1, false) {
        PlanProgress::Failed(e) => assert_eq!(e, "Failed to set metric 20 on interface 7"),
        other => panic!("unexpected {:?}", other),
    }
    match plan_progress(&plan, 2, false) {
        PlanProgress::Finished => {}
        other => panic!("unexpected {:?}", other),
    }
    match plan_progress(&plan, 2, true) {
        PlanProgress::Finished => {}
        other => panic!("unexpected {:?}", other),
    }
}

#[test]
fn ping_requests() {
    let r = test_connectivity_to("example.com");
    assert_eq!(r.host, "example.com");
    assert_eq!(r.timeout_ms, 2000);
    assert_eq!(r.source, None);
    let d = test_connectivity();
    assert_eq!(d.host, "8.8.8.8");
    assert_eq!(d.timeout_ms, 2000);
    let args = ping_arguments(&r);
    assert_eq!(args, vec!["-n", "1", "-w", "2000", "example.com"]);
}

#[test]
fn adapter_ping_leaves_from_the_adapter() {
    let wifi = details_named("Wi-Fi", "192.168.1.20");
    let req = test_adapter_connectivity(&wifi).unwrap();
    assert_eq!(req.host, "8.8.8.8");
    assert_eq!(req.timeout_ms, 2000);
    assert_eq!(req.source.as_deref(), Some("192.168.1.20"));
    assert_eq!(
        ping_arguments(&req),
        vec!["-n", "1", "-w", "2000", "-S", "192.168.1.20", "8.8.8.8"]
    );
    assert!(test_adapter_connectivity(&details_named("Down", "")).is_none());
    let missing = details_from_fields(
        Some("X"), None, None, None, None, None, None, None, None, None, None, None,
    );
    assert_eq!(missing.ip_address, "N/A");
    assert!(test_adapter_connectivity(&missing).is_none());
}

const ENGLISH_REPLY: &str = "\r\nPinging 8.8.8.8 with 32 bytes of data:\r\nReply from 8.8.8.8: bytes=32 time=12ms TTL=117\r\n\r\nPing statistics for 8.8.8.8:\r\n    Packets: Sent = 1, Received = 1, Lost = 0 (0% loss),\r\nApproximate round trip times in milli-seconds:\r\n    Minimum = 12ms, Maximum = 12ms, Average = 12ms\r\n";

#[test]
fn english_reply_gives_latency() {
    let r = parse_ping_output(ENGLISH_REPLY);
    assert!(r.reachable);
    assert_eq!(r.latency_ms, Some(12));
}

#[test]
fn french_reply_gives_latency() {
    let out = "\r\nEnvoi d'une requête 'Ping'  8.8.8.8 avec 32 octets de données :\r\nRéponse de 8.8.8.8 : octets=32 temps=14 ms TTL=117\r\n";
    let r = parse_ping_output(out);
    assert!(r.reachable);
    assert_eq!(r.latency_ms, Some(14));
}

#[test]
fn duree_with_less_than_sign() {
    let out = "Réponse de 10.0.0.1 : octets=32 durée=<1ms TTL=64\n";
    let r = parse_ping_output(out);
    assert!(r.reachable);
    assert_eq!(r.latency_ms, Some(1));
}

#[test]
fn time_less_than_one_ms_reads_one() {
    let out = "Reply from 192.168.1.1: bytes=32 time<1ms TTL=64";
    let r = parse_ping_output(out);
    assert!(r.reachable);
    assert_eq!(r.latency_ms, Some(1));
    let fr = parse_ping_output("Réponse de 127.0.0.1 : octets=32 temps<1ms TTL=128\r\n");
    assert!(fr.reachable);
    assert_eq!(fr.latency_ms, None);
}

#[test]
fn ping_reply_from_given_lowercase_forms() {
    let lines = vec![
        ("Pinging x".to_string(), "pinging x".to_string()),
        ("Reply: TIME=8ms".to_string(), "reply: time=8ms".to_string()),
        ("Reply: time=9ms".to_string(), "reply: time=9ms".to_string()),
    ];
    let r = read_ping_reply("reply ttl=1", &lines);
    assert!(r.reachable);
    assert_eq!(r.latency_ms, None);
    let lines2 = vec![("a time=4ms".to_string(), "no key here".to_string()), ("b time=6ms".to_string(), "b time=6ms".to_string())];
    assert_eq!(read_ping_reply("ttl=", &lines2).latency_ms, Some(6));
    let r3 = read_ping_reply("TTL=", &lines2);
    assert!(!r3.reachable);
    assert_eq!(r3.latency_ms, None);
}

#[test]
fn adapters_and_details_from_given_members() {
    let objs = vec![
        vec![
            ("Name".to_string(), Some("Eth".to_string()), None, None),
            ("Status".to_string(), Some("Up".to_string()), None, None),
            ("ifIndex".to_string(), None, Some(9), None),
        ],
        vec![("Status".to_string(), None, Some(5), None)],
    ];
    let v = adapters_from_members(&objs);
    assert_eq!(v.len(), 2);
    assert_eq!(v[0].name, "Eth");
    assert_eq!(v[0].interface_index, 9);
    assert!(v[0].is_connected);
    assert_eq!(v[1].name, "Unknown");
    assert_eq!(v[1].status, "Unknown");
    let dobjs = vec![vec![
        ("ip_address".to_string(), Some("10.0.0.2".to_string()), None, None),
        ("default_gateway".to_string(), Some("10.0.0.1".to_string()), None, None),
        ("prefix".to_string(), None, Some(8), None),
        ("dhcp_enabled".to_string(), None, None, Some(true)),
        ("routing_metric".to_string(), None, Some(35), None),
    ]];
    let d = details_from_members(&dobjs);
    assert_eq!(d.len(), 1);
    assert_eq!(d[0].ip_address, "10.0.0.2");
    assert_eq!(d[0].default_gateway, "10.0.0.1");
    assert_eq!(d[0].subnet_mask, "255.0.0.0/8");
    assert!(d[0].dhcp_enabled);
    assert_eq!(d[0].routing_metric, Some(35));
    assert_eq!(d[0].name, "Unknown");
}

#[test]
fn timeout_is_unreachable() {
    let r = parse_ping_output("Request timed out.\r\n");
    assert!(!r.reachable);
    assert_eq!(r.latency_ms, None);
    let fr = parse_ping_output("Délai d'attente de la demande dépassé.\r\n");
    assert!(!fr.reachable);
}

#[test]
fn uppercase_markers_are_lowercased() {
    let r = parse_ping_output("Reply from 1.2.3.4: bytes=32 TIME=5ms TTL=50\r\n");
    assert!(r.reachable);
    assert_eq!(r.latency_ms, None);
    assert!(reply_reports_answer("reply ttl=50"));
    assert!(!reply_reports_answer("reply TTL=50"));
}

#[test]
fn latency_takes_text_before_next_key() {
    assert_eq!(latency_from_line("a time=5ms time=7ms", "a time=5ms time=7ms"), Some(5));
    assert_eq!(latency_from_line("time=99999999999999999999ms", "time=99999999999999999999ms"), None);
    assert_eq!(latency_from_line("time=ms", "time=ms"), None);
    assert_eq!(latency_from_line("temps=<<3<4ms", "temps=<<3<4ms"), Some(3));
}

#[test]
fn ping_outcome_decodes_bytes() {
    let r = ping_outcome(b"Reply from 1.1.1.1: bytes=32 time=3ms TTL=57\r\n");
    assert!(r.reachable);
    assert_eq!(r.latency_ms, Some(3));
    let bad = ping_outcome(&[0xff, b' ', b'T', b'T', b'L', b'=', b'5']);
    assert!(bad.reachable);
    assert_eq!(bad.latency_ms, None);
}

#[test]
fn powershell_outcome_cases() {
    assert_eq!(powershell_outcome(true, b"out", b"ignored"), Ok("out".to_string()));
    assert_eq!(
        powershell_outcome(false, b"", b"boom"),
        Err("PowerShell error: boom".to_string())
    );
    assert_eq!(
        powershell_outcome(false, b"", &[0xff]),
        Err("PowerShell error: \u{FFFD}".to_string())
    );
}

#[test]
fn adapter_list_empty_output() {
    assert_eq!(parse_adapter_list("").unwrap().len(), 0);
    assert_eq!(parse_adapter_list("  \r\n ").unwrap().len(), 0);
}

#[test]
fn adapter_list_single_object() {
    let out = "{\"Name\":\"Wi-Fi\",\"ifIndex\":12,\"Status\":\"Up\",\"MacAddress\":\"AA-BB-CC-DD-EE-FF\",\"LinkSpeed\":\"866.7 Mbps\",\"InterfaceDescription\":\"Intel Wireless\"}\r\n";
    let list = parse_adapter_list(out).unwrap();
    assert_eq!(list.len(), 1);
    let a = &list[0];
    assert_eq!(a.name, "Wi-Fi");
    assert_eq!(a.interface_index, 12);
    assert_eq!(a.status, "Up");
    assert_eq!(a.mac_address, "AA-BB-CC-DD-EE-FF");
    assert_eq!(a.speed, "866.7 Mbps");
    assert_eq!(a.description, "Intel Wireless");
    assert!(a.is_connected);
}

#[test]
fn adapter_list_array_with_defaults() {
    let out = "[{\"Name\":\"Ethernet\",\"ifIndex\":4294967298,\"Status\":\"Disconnected\"},{\"Name\":null,\"Status\":\"up\"}]";
    let list = parse_adapter_list(out).unwrap();
    assert_eq!(list.len(), 2);
    assert_eq!(list[0].name, "Ethernet");
    assert_eq!(list[0].interface_index, 2);
    assert!(!list[0].is_connected);
    assert_eq!(list[0].mac_address, "N/A");
    assert_eq!(list[0].speed, "N/A");
    assert_eq!(list[0].description, "Unknown");
    assert_eq!(list[1].name, "Unknown");
    assert_eq!(list[1].interface_index, 0);
    assert!(!list[1].is_connected);
}

#[test]
fn adapter_list_bad_json() {
    assert_eq!(
        parse_adapter_list("not json").unwrap_err(),
        "Failed to parse adapter list JSON"
    );
}

#[test]
fn adapter_from_fields_defaults() {
    let a = adapter_from_fields(None, None, None, None, None, None);
    assert_eq!(a.name, "Unknown");
    assert_eq!(a.status, "Unknown");
    assert_eq!(a.mac_address, "N/A");
    assert!(!a.is_connected);
    let b = adapter_from_fields(Some("x"), Some(7), Some("Up"), Some("m"), Some("s"), Some("d"));
    assert!(b.is_connected);
    assert_eq!(b.interface_index, 7);
}

#[test]
fn subnet_masks() {
    assert_eq!(prefix_to_subnet(0), "0.0.0.0/0");
    assert_eq!(prefix_to_subnet(8), "255.0.0.0/8");
    assert_eq!(prefix_to_subnet(20), "255.255.240.0/20");
    assert_eq!(prefix_to_subnet(24), "255.255.255.0/24");
    assert_eq!(prefix_to_subnet(31), "255.255.255.254/31");
    assert_eq!(prefix_to_subnet(32), "255.255.255.255/32");
    assert_eq!(prefix_to_subnet(33), "N/A");
}

#[test]
fn adapter_details_null_and_empty() {
    assert_eq!(parse_adapter_details("").unwrap().len(), 0);
    assert_eq!(parse_adapter_details(" null \r\n").unwrap().len(), 0);
    assert_eq!(
        parse_adapter_details("{oops").unwrap_err(),
        "Failed to parse adapter details JSON"
    );
}

#[test]
fn adapter_details_fields() {
    let out = "[{\"name\":\"Wi-Fi\",\"interface_index\":12,\"status\":\"Up\",\"description\":\"Intel\",\"mac_address\":\"AA\",\"speed\":\"1 Gbps\",\"ip_address\":\"192.168.1.20\",\"prefix\":24,\"default_gateway\":\"192.168.1.1\",\"dns_servers\":\"1.1.1.1, 8.8.8.8\",\"dhcp_enabled\":true,\"routing_metric\":25},{\"name\":\"Eth\",\"prefix\":40,\"routing_metric\":\"x\"},{\"name\":\"Loop\"}]";
    let d = parse_adapter_details(out).unwrap();
    assert_eq!(d.len(), 3);
    assert_eq!(d[0].name, "Wi-Fi");
    assert_eq!(d[0].interface_index, 12);
    assert_eq!(d[0].ip_address, "192.168.1.20");
    assert_eq!(d[0].subnet_mask, "255.255.255.0/24");
    assert_eq!(d[0].default_gateway, "192.168.1.1");
    assert_eq!(d[0].dns_servers, "1.1.1.1, 8.8.8.8");
    assert!(d[0].dhcp_enabled);
    assert_eq!(d[0].routing_metric, Some(25));
    assert_eq!(d[1].subnet_mask, "N/A");
    assert_eq!(d[1].routing_metric, None);
    assert_eq!(d[1].ip_address, "N/A");
    assert!(!d[1].dhcp_enabled);
    assert_eq!(d[2].subnet_mask, "255.255.255.0/24");
    assert_eq!(d[2].status, "Unknown");
}

#[test]
fn details_from_fields_truncates_metric() {
    let d = details_from_fields(
        None, None, None, None, None, None, None, Some(16), None, None, None, Some(4294967297),
    );
    assert_eq!(d.subnet_mask, "255.255.0.0/16");
    assert_eq!(d.routing_metric, Some(1));
    assert_eq!(d.name, "Unknown");
    assert_eq!(d.default_gateway, "N/A");
}

fn details_named(name: &str, ip: &str) -> AdapterDetails {
    details_from_fields(
        Some(name), Some(1), Some("Up"), None, None, None, Some(ip), None, None, None, None, None,
    )
}

#[test]
fn adapter_details_lookup() {
    let all = vec![details_named("A", "1"), details_named("B", "2"), details_named("B", "3")];
    let b = get_adapter_details(all, "B").unwrap();
    assert_eq!(b.name, "B");
    assert_eq!(b.ip_address, "2");
    let none = vec![details_named("A", "1")];
    assert_eq!(get_adapter_details(none, "Z").unwrap_err(), "Adapter Z not found");
    assert_eq!(get_adapter_details(Vec::new(), "Z").unwrap_err(), "Adapter Z not found");
}

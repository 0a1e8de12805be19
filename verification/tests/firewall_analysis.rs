use system_agent::firewall::{FirewallAnalyzer, FirewallOutputs, FirewallType};
use system_agent::models::{AgentError, CommandOutput, FirewallRule};

fn output(text: &str) -> Option<CommandOutput> {
    Some(CommandOutput { success: true, stdout: text.to_string() })
}

fn iptables_rule(action: &str, protocol: Option<&str>, source: Option<&str>, port: Option<&str>, priority: i32, raw: &str) -> FirewallRule {
    FirewallRule {
        firewall_type: "iptables".to_string(),
        table: "filter".to_string(),
        chain: "INPUT".to_string(),
        priority,
        action: action.to_string(),
        protocol: protocol.map(|s| s.to_string()),
        source: source.map(|s| s.to_string()),
        destination: None,
        source_port: None,
        destination_port: port.map(|s| s.to_string()),
        interface: None,
        raw_rule: raw.to_string(),
    }
}

#[test]
fn test_parse_iptables_rule() {
    let analyzer = FirewallAnalyzer::new(false, false, false);
    let line =
        "0     0 ACCEPT     tcp  --  0.0.0.0/0            0.0.0.0/0            tcp dpt:22";
    let rule = analyzer.parse_iptables_rule(line, "filter", "INPUT", 0);

    assert!(rule.is_some());
    let rule = rule.unwrap();
    assert_eq!(rule.action, "ACCEPT");
    assert_eq!(rule.protocol, Some("tcp".to_string()));
    assert_eq!(rule.destination_port, Some("22".to_string()));
}

#[test]
fn test_analyze_security_issues() {
    let analyzer = FirewallAnalyzer::new(false, false, false);

    let rules = vec![FirewallRule {
        firewall_type: "iptables".to_string(),
        table: "filter".to_string(),
        chain: "INPUT".to_string(),
        priority: 0,
        action: "ACCEPT".to_string(),
        protocol: None,
        source: Some("0.0.0.0/0".to_string()),
        destination: None,
        source_port: None,
        destination_port: None,
        interface: None,
        raw_rule: "ACCEPT all -- 0.0.0.0/0 0.0.0.0/0".to_string(),
    }];

    let issues = analyzer.analyze_security_issues(&rules);
    assert!(!issues.is_empty());
    assert!(issues
        .iter()
        .any(|issue| issue.contains("весь входящий трафик")));
}

#[test]
fn iptables_option_syntax_is_read() {
    let analyzer = FirewallAnalyzer::new(true, false, false);
    let rule = analyzer
        .parse_iptables_rule("1 2 DROP -p udp -s 10.0.0.1 -d 10.0.0.2 --sport 53 --dport 5353 -i eth0", "nat", "PREROUTING", 7)
        .unwrap();
    assert_eq!(rule.firewall_type, "iptables");
    assert_eq!(rule.table, "nat");
    assert_eq!(rule.chain, "PREROUTING");
    assert_eq!(rule.priority, 7);
    assert_eq!(rule.action, "DROP");
    assert_eq!(rule.protocol, Some("udp".to_string()));
    assert_eq!(rule.source, Some("10.0.0.1".to_string()));
    assert_eq!(rule.destination, Some("10.0.0.2".to_string()));
    assert_eq!(rule.source_port, Some("53".to_string()));
    assert_eq!(rule.destination_port, Some("5353".to_string()));
    assert_eq!(rule.interface, Some("eth0".to_string()));
}

#[test]
fn iptables_line_with_two_words_is_no_rule() {
    let analyzer = FirewallAnalyzer::new(true, false, false);
    assert!(analyzer.parse_iptables_rule("0 0", "filter", "INPUT", 0).is_none());
}

#[test]
fn nftables_rule_fields() {
    let analyzer = FirewallAnalyzer::new(false, true, false);
    let rule = analyzer
        .parse_nftables_rule("  iifname eth0 tcp dport 22 drop;", "filter", "input", 3)
        .unwrap();
    assert_eq!(rule.firewall_type, "nftables");
    assert_eq!(rule.action, "DROP");
    assert_eq!(rule.protocol, Some("tcp".to_string()));
    assert_eq!(rule.destination_port, Some("22".to_string()));
    assert_eq!(rule.interface, Some("eth0".to_string()));
    assert_eq!(rule.raw_rule, "iifname eth0 tcp dport 22 drop");
    assert_eq!(rule.priority, 3);
}

#[test]
fn nftables_addresses_and_ports_are_the_words_after_their_keys() {
    let analyzer = FirewallAnalyzer::new(false, true, false);
    let line = "ip saddr 10.0.0.1 tcp dport 22 accept";
    let rule = analyzer.parse_nftables_rule(line, "filter", "input", 0).unwrap();
    assert_eq!(rule.action, "ACCEPT");
    assert_eq!(rule.protocol, Some("tcp".to_string()));
    assert_eq!(rule.source, Some("10.0.0.1".to_string()));
    assert_eq!(rule.destination, None);
    assert_eq!(rule.source_port, None);
    assert_eq!(rule.destination_port, Some("22".to_string()));
    assert_eq!(rule.interface, None);
    assert_eq!(rule.raw_rule, line);
    let bare = analyzer.parse_nftables_rule("tcp dport", "filter", "input", 1).unwrap();
    assert_eq!(bare.destination_port, Some("".to_string()));
}

#[test]
fn ufw_rule_fields() {
    let analyzer = FirewallAnalyzer::new(false, false, true);
    let rule = analyzer.parse_ufw_rule("ALLOW IN from 192.168.1.0/24 to any port 22", 2).unwrap();
    assert_eq!(rule.firewall_type, "ufw");
    assert_eq!(rule.action, "ACCEPT");
    assert_eq!(rule.chain, "INPUT");
    // A `/` followed by a number after `from` is read as address and port.
    assert_eq!(rule.source, Some("192.168.1.0".to_string()));
    assert_eq!(rule.source_port, Some("24".to_string()));
    assert_eq!(rule.destination, Some("any".to_string()));
    assert_eq!(rule.destination_port, None);
    assert_eq!(rule.priority, 2);
}

#[test]
fn ufw_unknown_verdict_is_upper_cased() {
    let analyzer = FirewallAnalyzer::new(false, false, true);
    let rule = analyzer.parse_ufw_rule("limit out on eth0", 0).unwrap();
    assert_eq!(rule.action, "LIMIT");
    assert_eq!(rule.chain, "OUTPUT");
    assert_eq!(rule.interface, Some("eth0".to_string()));
}

#[test]
fn ufw_listing_rules_follow_the_separator() {
    let analyzer = FirewallAnalyzer::new(false, false, true);
    let listing = "Status: active\n\nTo                         Action      From\n--                         ------      ----\nallow in from 10.0.0.5\ndeny in on eth1\n";
    let outputs = FirewallOutputs { filter: None, nat: None, mangle: None, raw: None, nftables: None, ufw: output(listing) };
    let rules = analyzer.scan_rules(&outputs).unwrap();
    assert_eq!(rules.len(), 2);
    assert_eq!(rules[0].action, "ACCEPT");
    assert_eq!(rules[0].source, Some("10.0.0.5".to_string()));
    assert_eq!(rules[0].priority, 0);
    assert_eq!(rules[1].action, "DROP");
    assert_eq!(rules[1].interface, Some("eth1".to_string()));
    assert_eq!(rules[1].priority, 1);
}

#[test]
fn detection_prefers_iptables() {
    assert!(FirewallAnalyzer::detect_firewall_type(true, true, true) == FirewallType::Iptables);
    assert!(FirewallAnalyzer::detect_firewall_type(false, true, true) == FirewallType::Nftables);
    assert!(FirewallAnalyzer::detect_firewall_type(false, false, true) == FirewallType::Ufw);
    assert!(FirewallAnalyzer::detect_firewall_type(false, false, false) == FirewallType::Unknown);
}

#[test]
fn scan_fails_when_iptables_cannot_be_started() {
    let analyzer = FirewallAnalyzer::new(true, false, false);
    let outputs = FirewallOutputs { filter: None, nat: None, mangle: None, raw: None, nftables: None, ufw: None };
    assert!(matches!(analyzer.scan_rules(&outputs), Err(AgentError::CommandUnavailable)));
}

#[test]
fn unknown_firewall_scan_never_fails() {
    let analyzer = FirewallAnalyzer::new(false, false, false);
    let outputs = FirewallOutputs { filter: None, nat: None, mangle: None, raw: None, nftables: None, ufw: None };
    let rules = analyzer.scan_rules(&outputs).unwrap();
    assert!(rules.is_empty());
}

#[test]
fn scan_reads_the_filter_table() {
    let analyzer = FirewallAnalyzer::new(true, false, false);
    let filter = "Chain INPUT (policy ACCEPT 0 packets, 0 bytes)\n pkts bytes target     prot opt in     out     source               destination\n    0     0 ACCEPT     tcp  --  *      *       0.0.0.0/0            0.0.0.0/0            tcp dpt:22\n    0     0 DROP       all  --  *      *       10.0.0.0/8           0.0.0.0/0\n\nChain FORWARD (policy DROP 0 packets, 0 bytes)\n    0     0 REJECT     all  --  *      *       0.0.0.0/0            0.0.0.0/0\n";
    let outputs = FirewallOutputs {
        filter: output(filter),
        nat: output(""),
        mangle: Some(CommandOutput { success: false, stdout: "ignored 1 2 3".to_string() }),
        raw: output(""),
        nftables: None,
        ufw: None,
    };
    let rules = analyzer.scan_rules(&outputs).unwrap();
    assert_eq!(rules.len(), 3);
    assert_eq!(rules[0].chain, "INPUT");
    assert_eq!(rules[0].priority, 0);
    assert_eq!(rules[0].action, "ACCEPT");
    assert_eq!(rules[0].destination_port, Some("22".to_string()));
    assert_eq!(rules[1].priority, 1);
    assert_eq!(rules[1].action, "DROP");
    assert_eq!(rules[1].protocol, None);
    assert_eq!(rules[2].chain, "FORWARD");
    assert_eq!(rules[2].priority, 0);
    assert_eq!(rules[2].table, "filter");
}

#[test]
fn scan_reads_an_nftables_ruleset() {
    let analyzer = FirewallAnalyzer::new(false, true, false);
    let ruleset = "table inet filter {\n\tchain input {\n\t\ttype filter hook input priority 0; policy accept;\n\t\tip saddr 10.0.0.0/8 return\n\t\ttcp dport 22 accept\n\t\tudp sport 53 return\n\t}\n}\n";
    let outputs = FirewallOutputs { filter: None, nat: None, mangle: None, raw: None, nftables: output(ruleset), ufw: None };
    let rules = analyzer.scan_rules(&outputs).unwrap();
    assert_eq!(rules.len(), 2);
    assert_eq!(rules[0].table, "filter");
    assert_eq!(rules[0].chain, "input");
    assert_eq!(rules[0].action, "RETURN");
    assert_eq!(rules[0].priority, 0);
    assert_eq!(rules[1].action, "RETURN");
    assert_eq!(rules[1].protocol, Some("udp".to_string()));
    assert_eq!(rules[1].priority, 1);
}

#[test]
fn inactive_ufw_has_no_rules() {
    let analyzer = FirewallAnalyzer::new(false, false, true);
    let outputs = FirewallOutputs { filter: None, nat: None, mangle: None, raw: None, nftables: None, ufw: output("Status: inactive\n") };
    assert!(analyzer.scan_rules(&outputs).unwrap().is_empty());
}

#[test]
fn missing_ssh_and_duplicates_are_reported() {
    let analyzer = FirewallAnalyzer::new(true, false, false);
    let rules = vec![
        iptables_rule("DROP", Some("tcp"), None, Some("80"), 0, "first"),
        iptables_rule("DROP", Some("tcp"), None, Some("80"), 1, "second"),
    ];
    let issues = analyzer.analyze_security_issues(&rules);
    assert_eq!(
        issues,
        vec![
            "Не обнаружено правил для SSH (порт 22)".to_string(),
            "Обнаружено дублирующееся правило: second".to_string(),
        ]
    );
}

#[test]
fn early_blocking_rule_is_reported() {
    let analyzer = FirewallAnalyzer::new(true, false, false);
    let rules = vec![
        iptables_rule("ACCEPT", Some("tcp"), None, Some("22"), 0, "ssh"),
        iptables_rule("DROP", None, Some("0.0.0.0/0"), None, 1, "drop all"),
    ];
    let issues = analyzer.analyze_security_issues(&rules);
    assert_eq!(issues, vec!["Высокоприоритетное правило блокирует весь трафик".to_string()]);
}

#[test]
fn a_clean_rule_set_has_no_issues() {
    let analyzer = FirewallAnalyzer::new(true, false, false);
    let rules = vec![iptables_rule("ACCEPT", Some("tcp"), Some("10.0.0.0/8"), Some("ssh"), 0, "ssh")];
    assert!(analyzer.analyze_security_issues(&rules).is_empty());
}

#[test]
fn reordering_rules_keeps_the_issues_but_for_repeats() {
    let analyzer = FirewallAnalyzer::new(true, false, false);
    let a = || iptables_rule("DROP", Some("tcp"), None, Some("80"), 0, "a");
    let b = || iptables_rule("DROP", Some("tcp"), None, Some("80"), 1, "b");
    let c = || iptables_rule("ACCEPT", None, Some("0.0.0.0/0"), None, 2, "c");
    let first = analyzer.analyze_security_issues(&vec![a(), b(), c()]);
    let second = analyzer.analyze_security_issues(&vec![c(), b(), a()]);
    let prefix = "Обнаружено дублирующееся правило: ";
    let others = |v: &Vec<String>| v.iter().filter(|i| !i.starts_with(prefix)).cloned().collect::<Vec<_>>();
    assert_eq!(others(&first), others(&second));
    assert_eq!(first.len(), second.len());
    // three rules, two distinct keys: one issue about a repeated rule
    assert_eq!(first.iter().filter(|i| i.starts_with(prefix)).count(), 1);
    assert_eq!(first[2], format!("{}b", prefix));
    assert_eq!(second[2], format!("{}a", prefix));
}

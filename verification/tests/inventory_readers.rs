use system_agent::inventory::{
    container_from_docker, get_host_info, parse_podman_containers, scan_containers,
    scan_network_connections, scan_services, DockerContainerSummary, DockerPort,
};

#[test]
fn host_addresses_are_read() {
    let ip = "2: eth0: <BROADCAST,MULTICAST,UP,LOWER_UP> mtu 1500 qdisc noqueue state UP\n    link/ether 02:42:ac:11:00:02 brd ff:ff:ff:ff:ff:ff\n    inet 172.17.0.2/16 brd 172.17.255.255 scope global eth0\n       valid_lft forever preferred_lft forever\n";
    let host = get_host_info(ip, "02:42:ac:11:00:02\n");
    assert_eq!(host.ip_address, "172.17.0.2");
    assert_eq!(host.mac_address, "02:42:ac:11:00:02");
}

#[test]
fn host_without_address_is_unknown() {
    assert_eq!(get_host_info("", "").ip_address, "unknown");
    assert_eq!(get_host_info("inet\ninet 10.0.0.1/8\n", "").ip_address, "unknown");
    assert_eq!(get_host_info("inet 10.1.2.3\n", "").ip_address, "10.1.2.3");
}

#[test]
fn services_are_read_from_the_listing() {
    let listing = "  UNIT                      LOAD   ACTIVE SUB     DESCRIPTION\n  ssh.service               loaded active running OpenBSD Secure Shell server\nx.service loaded\ncron.service loaded inactive dead\n";
    let services = scan_services(listing);
    assert_eq!(services.len(), 2);
    assert_eq!(services[0].name, "ssh.service");
    assert_eq!(services[0].unit_file, "loaded");
    assert_eq!(services[0].status, "running");
    assert_eq!(services[1].name, "cron.service");
    assert_eq!(services[1].status, "dead");
}

#[test]
fn connections_are_read_from_the_listing() {
    let listing = "Netid State  Recv-Q Send-Q Local Address:Port  Peer Address:Port Process\ntcp   ESTAB  0      0      10.0.0.5:22         10.0.0.9:51234    users:((\"sshd\",pid=812,fd=4))\nudp   UNCONN 0      0      0.0.0.0:68          0.0.0.0:*\nudp   UNCONN 0      0      [::]:546            [::]:*            users\n";
    let conns = scan_network_connections(listing);
    assert_eq!(conns.len(), 2);
    assert_eq!(conns[0].protocol, "tcp");
    assert_eq!(conns[0].src_ip, "10.0.0.5");
    assert_eq!(conns[0].src_port, 22);
    assert_eq!(conns[0].dst_ip, "10.0.0.9");
    assert_eq!(conns[0].dst_port, 51234);
    assert_eq!(conns[0].process_id, Some(812));
    assert_eq!(conns[0].container_id, None);
    assert_eq!(conns[1].protocol, "udp");
    assert_eq!(conns[1].src_ip, "[");
    assert_eq!(conns[1].src_port, 546);
    assert_eq!(conns[1].dst_port, 0);
    assert_eq!(conns[1].process_id, None);
}

#[test]
fn connection_listing_without_lines_is_empty() {
    assert!(scan_network_connections("").is_empty());
    assert!(scan_network_connections("tcp ESTAB 0 0 1.1.1.1:1 2.2.2.2:2 users:((\"x\",pid=1))\n").is_empty());
}

#[test]
fn an_invalid_process_id_is_dropped() {
    let listing = "header\ntcp LISTEN 0 128 0.0.0.0:80 0.0.0.0:* users:((\"nginx\",pid=99999999999,fd=6))\n";
    let conns = scan_network_connections(listing);
    assert_eq!(conns.len(), 1);
    assert_eq!(conns[0].process_id, None);
    assert_eq!(conns[0].src_port, 80);
}

#[test]
fn podman_listing_is_read() {
    let listing = "abc123\t/web\tnginx:latest\t0.0.0.0:8080->80/tcp, 0.0.0.0:8443->443/tcp\tUp 2 hours\nshort\tline\ndef456\tdb\tpostgres\t\tExited (0)\n";
    let cs = parse_podman_containers(listing);
    assert_eq!(cs.len(), 2);
    assert_eq!(cs[0].id, "abc123");
    assert_eq!(cs[0].name, "web");
    assert_eq!(cs[0].image, "nginx:latest");
    assert_eq!(cs[0].ports, vec!["0.0.0.0:8080->80/tcp".to_string(), "0.0.0.0:8443->443/tcp".to_string()]);
    assert_eq!(cs[0].status, "Up 2 hours");
    assert_eq!(cs[0].orchestrator, "podman");
    assert!(cs[1].ports.is_empty());
    assert_eq!(cs[1].status, "Exited (0)");
}

fn summary() -> DockerContainerSummary {
    DockerContainerSummary {
        id: Some("f00".to_string()),
        names: Some(vec!["/db".to_string(), "/alias".to_string()]),
        image: Some("postgres:15".to_string()),
        ports: Some(vec![
            DockerPort { public_port: Some(5432), private_port: 5432 },
            DockerPort { public_port: None, private_port: 9000 },
        ]),
        status: Some("Up 5 minutes".to_string()),
    }
}

#[test]
fn docker_container_is_converted() {
    let c = container_from_docker(&summary());
    assert_eq!(c.id, "f00");
    assert_eq!(c.name, "db, /alias");
    assert_eq!(c.image, "postgres:15");
    assert_eq!(c.ports, vec!["5432:5432".to_string(), "0:9000".to_string()]);
    assert_eq!(c.status, "Up 5 minutes");
    assert_eq!(c.orchestrator, "docker");
}

#[test]
fn docker_container_without_fields_is_empty() {
    let c = container_from_docker(&DockerContainerSummary { id: None, names: None, image: None, ports: None, status: None });
    assert_eq!(c.id, "");
    assert_eq!(c.name, "");
    assert!(c.ports.is_empty());
    assert_eq!(c.status, "");
}

#[test]
fn docker_containers_come_before_podman_ones() {
    let cs = scan_containers(&Some(vec![summary()]), &Some("p1\tpod\timg\t\tUp\n".to_string()));
    assert_eq!(cs.len(), 2);
    assert_eq!(cs[0].orchestrator, "docker");
    assert_eq!(cs[1].orchestrator, "podman");
    assert_eq!(cs[1].id, "p1");
    assert!(scan_containers(&None, &None).is_empty());
}

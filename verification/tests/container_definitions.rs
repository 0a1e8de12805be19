use system_agent::docker::{
    parse_image_string, parse_memory_string, parse_port_mapping, parse_volume_mount, DockerAnalyzer,
};
use system_agent::dockerfile::{parent_dir_name_of, parse_dockerfile};
use system_agent::models::{ContainerConfig, CpuLimit};

const COMPOSE: &str = "services:\n  web:\n    image: nginx:1.25\n    ports:\n      - \"8080:80\"\n      - \"443:443/udp\"\n      - \"bad\"\n    volumes:\n      - ./html:/usr/share/nginx/html:ro\n      - /tmp/cache:/cache\n    environment:\n      - MODE=prod\n      - MODE=dev\n    network_mode: host\n    mem_limit: 512M\n    cpu_limit: 1.5\n  worker:\n    build: .\n";

const DOCKERFILE: &str = "# build stage\nFROM python:3.11-slim\nEXPOSE 8000 9000/UDP\nEXPOSE 80 \\\n    443\nENV APP_ENV=production\nENV DEBUG false\nVOLUME [\"/var/lib/\\u0061pp\"]\nVOLUME /tmp /cache\n";

#[test]
fn image_references_split_at_the_first_colon() {
    assert_eq!(parse_image_string("nginx:1.25"), ("nginx".to_string(), "1.25".to_string()));
    assert_eq!(parse_image_string("redis"), ("redis".to_string(), "latest".to_string()));
    assert_eq!(parse_image_string("host:5000/app:2"), ("host".to_string(), "5000/app:2".to_string()));
}

#[test]
fn port_mappings() {
    let p = parse_port_mapping("8080:80/udp").unwrap();
    assert_eq!((p.host_port, p.container_port, p.protocol.as_str()), (8080, 80, "udp"));
    let p = parse_port_mapping("53").unwrap();
    assert_eq!((p.host_port, p.container_port, p.protocol.as_str()), (53, 53, "tcp"));
    assert!(parse_port_mapping("1:2:3").is_none());
    assert!(parse_port_mapping("70000").is_none());
    assert!(parse_port_mapping("http").is_none());
}

#[test]
fn volume_mounts() {
    let v = parse_volume_mount("/host:/container:ro").unwrap();
    assert_eq!((v.host_path.as_str(), v.container_path.as_str(), v.read_only), ("/host", "/container", true));
    let v = parse_volume_mount("/a:/b:rw").unwrap();
    assert!(!v.read_only);
    assert!(parse_volume_mount("/only").is_none());
}

#[test]
fn memory_sizes_ignore_case() {
    let m = parse_memory_string("512M").unwrap();
    assert_eq!(m.number, "512");
    assert_eq!(m.multiplier, 1_048_576);
    let m = parse_memory_string("1.5gb").unwrap();
    assert_eq!(m.number, "1.5");
    assert_eq!(m.multiplier, 1_073_741_824);
    let m = parse_memory_string("100").unwrap();
    assert_eq!(m.multiplier, 1);
    assert!(parse_memory_string("lots").is_none());
}

fn web(configs: &[ContainerConfig]) -> &ContainerConfig {
    configs.iter().find(|c| c.id == "docker_web").unwrap()
}

#[test]
fn compose_services_are_read() {
    let analyzer = DockerAnalyzer::new("/srv");
    let files = vec![("/srv/docker-compose.yml".to_string(), Some(COMPOSE.to_string()))];
    let configs = analyzer.scan_containers(&files, &vec![]);
    assert_eq!(configs.len(), 1);
    let c = web(&configs);
    assert_eq!(c.name, "web");
    assert_eq!(c.image, "nginx");
    assert_eq!(c.image_version, "1.25");
    assert_eq!(c.ports.len(), 2);
    assert_eq!((c.ports[0].host_port, c.ports[0].container_port, c.ports[0].protocol.as_str()), (8080, 80, "tcp"));
    assert_eq!((c.ports[1].host_port, c.ports[1].container_port, c.ports[1].protocol.as_str()), (443, 443, "udp"));
    assert_eq!(c.volumes.len(), 2);
    assert!(c.volumes[0].read_only);
    assert_eq!(c.volumes[1].container_path, "/cache");
    assert_eq!(c.environment, vec![("MODE".to_string(), "dev".to_string())]);
    assert_eq!(c.network_mode, "host");
    assert_eq!(c.config_path, "/srv/docker-compose.yml");
    let limits = c.resource_limits.as_ref().unwrap();
    assert!(matches!(&limits.cpu, Some(CpuLimit::Number(n)) if n == "1.5"));
    let mem = limits.memory.as_ref().unwrap();
    assert_eq!(mem.number, "512");
    assert_eq!(mem.multiplier, 1_048_576);
}

#[test]
fn unreadable_or_invalid_compose_files_are_skipped_and_ids_kept_once() {
    let analyzer = DockerAnalyzer::new("/srv");
    let files = vec![
        ("/srv/docker-compose.yml".to_string(), Some(COMPOSE.to_string())),
        ("/srv/compose.yml".to_string(), Some(COMPOSE.to_string())),
        ("/srv/compose.yaml".to_string(), None),
        ("/srv/docker-compose.yaml".to_string(), Some("services: [unclosed".to_string())),
    ];
    let configs = analyzer.scan_containers(&files, &vec![]);
    assert_eq!(configs.len(), 1);
    assert_eq!(configs[0].config_path, "/srv/docker-compose.yml");
}

#[test]
fn candidate_paths_are_under_the_root() {
    let analyzer = DockerAnalyzer::new("/srv/");
    assert_eq!(
        analyzer.compose_file_candidates(),
        vec![
            "/srv/docker-compose.yml".to_string(),
            "/srv/docker-compose.yaml".to_string(),
            "/srv/compose.yml".to_string(),
            "/srv/compose.yaml".to_string(),
        ]
    );
    assert_eq!(analyzer.dockerfile_candidates(), vec!["/srv/Dockerfile".to_string()]);
}

#[test]
fn dockerfile_instructions_are_applied() {
    let c = parse_dockerfile("/srv/app/Dockerfile", DOCKERFILE);
    assert_eq!(c.id, "dockerfile_app");
    assert_eq!(c.name, "app");
    assert_eq!(c.image, "python");
    assert_eq!(c.image_version, "3.11-slim");
    let ports: Vec<(u16, &str)> = c.ports.iter().map(|p| (p.container_port, p.protocol.as_str())).collect();
    assert_eq!(ports, vec![(8000, "tcp"), (9000, "udp"), (80, "tcp"), (443, "tcp")]);
    assert_eq!(
        c.environment,
        vec![
            ("APP_ENV".to_string(), "production".to_string()),
            ("DEBUG".to_string(), "false".to_string()),
        ]
    );
    let volumes: Vec<&str> = c.volumes.iter().map(|v| v.container_path.as_str()).collect();
    assert_eq!(volumes, vec!["/var/lib/app", "/tmp", "/cache"]);
    assert_eq!(c.network_mode, "bridge");
}

#[test]
fn dockerfile_and_compose_definitions_are_combined() {
    let analyzer = DockerAnalyzer::new("/srv");
    let compose = vec![("/srv/docker-compose.yml".to_string(), Some(COMPOSE.to_string()))];
    let dockerfiles = vec![
        ("/srv/app/Dockerfile".to_string(), Some(DOCKERFILE.to_string())),
        ("/srv/other/Dockerfile".to_string(), None),
    ];
    let configs = analyzer.scan_containers(&compose, &dockerfiles);
    let ids: Vec<&str> = configs.iter().map(|c| c.id.as_str()).collect();
    assert_eq!(ids, vec!["docker_web", "dockerfile_app"]);
}

#[test]
fn parent_directory_names() {
    assert_eq!(parent_dir_name_of("/srv/app/Dockerfile"), "app");
    assert_eq!(parent_dir_name_of("Dockerfile"), "unnamed");
    assert_eq!(parent_dir_name_of("./web/./Dockerfile"), "web");
}

#[test]
fn deduplicating_twice_keeps_the_same_definitions() {
    let analyzer = DockerAnalyzer::new("/srv");
    let files = vec![
        ("/srv/a.yml".to_string(), Some(COMPOSE.to_string())),
        ("/srv/b.yml".to_string(), Some(COMPOSE.to_string())),
    ];
    let mut configs = analyzer.scan_containers(&files, &vec![("/x/app/Dockerfile".to_string(), Some(DOCKERFILE.to_string()))]);
    let once: Vec<String> = configs.iter().map(|c| format!("{}@{}", c.id, c.config_path)).collect();
    analyzer.deduplicate_and_normalize(&mut configs);
    let twice: Vec<String> = configs.iter().map(|c| format!("{}@{}", c.id, c.config_path)).collect();
    assert_eq!(once, vec!["docker_web@/srv/a.yml".to_string(), "dockerfile_app@/x/app/Dockerfile".to_string()]);
    assert_eq!(once, twice);
}
